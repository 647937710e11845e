use cyberkent::store::{fmt_money, Store};

#[test]
fn money_with_separators() {
    assert_eq!(fmt_money(1250), "1,250");
    assert_eq!(fmt_money(0), "0");
    assert_eq!(fmt_money(7), "7");
    assert_eq!(fmt_money(999), "999");
    assert_eq!(fmt_money(1000), "1,000");
    assert_eq!(fmt_money(123456), "123,456");
    assert_eq!(fmt_money(1234567), "1,234,567");
    assert_eq!(fmt_money(-1250), "-1,250");
    assert_eq!(fmt_money(-5), "-5");
    assert_eq!(fmt_money(i32::MAX), "2,147,483,647");
    assert_eq!(fmt_money(i32::MIN), "-2,147,483,648");
}

#[test]
fn buying_pays_from_the_balance() {
    let mut s = Store { balance: 500, spent: 100, earned: 50 };
    assert!(s.buy(200));
    assert_eq!((s.balance, s.spent, s.earned), (300, 300, 50));
    assert!(s.buy(300));
    assert_eq!((s.balance, s.spent, s.earned), (0, 600, 50));
}

#[test]
fn refused_purchases_change_nothing() {
    let mut s = Store { balance: 100, spent: 0, earned: 0 };
    assert!(!s.buy(101));
    assert!(!s.buy(0));
    assert!(!s.buy(-5));
    assert_eq!((s.balance, s.spent, s.earned), (100, 0, 0));
}

#[test]
fn rewards_add_to_balance_and_earned() {
    let mut s = Store { balance: 10, spent: 5, earned: 0 };
    s.reward(40);
    assert_eq!((s.balance, s.spent, s.earned), (50, 5, 40));
    s.reward(0);
    s.reward(-3);
    assert_eq!((s.balance, s.spent, s.earned), (50, 5, 40));
}

#[test]
fn ledger_stays_balanced() {
    let mut s = Store { balance: 1000, spent: 0, earned: 0 };
    let before = s.balance + s.spent - s.earned;
    s.buy(250);
    s.reward(75);
    s.buy(5000);
    s.buy(825);
    s.reward(10);
    assert_eq!(s.balance + s.spent - s.earned, before);
    assert!(s.balance >= 0);
}
