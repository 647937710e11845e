//! The CyberCoin wallet: balance, coins spent and coins earned, and how an
//! amount of coins is written for the user ("1,250").

use vstd::prelude::*;
use crate::text::push_char;

verus! {

/// The wallet. `spent` and `earned` are running totals.
#[derive(Clone, Copy)]
pub struct Store {
    pub balance: i32,
    pub spent: i32,
    pub earned: i32,
}

/// Whether a purchase at `price` goes through: the price is positive and
/// covered by the balance.
pub open spec fn can_buy(s: Store, price: int) -> bool {
    price > 0 && s.balance >= price
}

/// The wallet after a purchase that went through.
pub open spec fn bought(s: Store, price: int) -> Store {
    Store { balance: (s.balance - price) as i32, spent: (s.spent + price) as i32, earned: s.earned }
}

/// The wallet after a reward; a reward that is not positive changes nothing.
pub open spec fn rewarded(s: Store, amount: int) -> Store {
    if amount > 0 {
        Store {
            balance: (s.balance + amount) as i32,
            spent: s.spent,
            earned: (s.earned + amount) as i32,
        }
    } else {
        s
    }
}

/// What the wallet has taken in and given out balances its coins:
/// `balance + spent - earned`.
pub open spec fn ledger(s: Store) -> int {
    s.balance + s.spent - s.earned
}

impl Store {
    /// Pays `price` from the balance when it covers a positive price; says
    /// whether it did.
    pub fn buy(&mut self, price: i32) -> (ok: bool)
        requires
            can_buy(*old(self), price as int) ==> old(self).spent + price <= i32::MAX,
        ensures
            ok == can_buy(*old(self), price as int),
            *final(self) == (if ok {
                bought(*old(self), price as int)
            } else {
                *old(self)
            }),
    {
        if price > 0 && self.balance >= price {
            self.balance = self.balance - price;
            self.spent = self.spent + price;
            true
        } else {
            false
        }
    }

    /// Adds a positive `amount` to the balance and to the coins earned.
    pub fn reward(&mut self, amount: i32)
        requires
            amount > 0 ==> old(self).balance + amount <= i32::MAX && old(self).earned + amount
                <= i32::MAX,
        ensures
            *final(self) == rewarded(*old(self), amount as int),
    {
        if amount > 0 {
            self.balance = self.balance + amount;
            self.earned = self.earned + amount;
        }
    }
}

/// Buying and rewarding never change `balance + spent - earned`: every coin
/// that leaves the balance is counted as spent, every coin that enters it
/// as earned.
pub proof fn law_ledger_balanced(s: Store, price: int, amount: int)
    requires
        can_buy(s, price) ==> s.spent + price <= i32::MAX,
        amount > 0 ==> s.balance + amount <= i32::MAX && s.earned + amount <= i32::MAX,
    ensures
        can_buy(s, price) ==> ledger(bought(s, price)) == ledger(s),
        ledger(rewarded(s, amount)) == ledger(s),
{
}

/// A balance that is not negative stays so: a purchase never overdraws it
/// and a reward only adds to it.
pub proof fn law_balance_never_negative(s: Store, price: int, amount: int)
    requires
        s.balance >= 0,
        amount > 0 ==> s.balance + amount <= i32::MAX,
    ensures
        can_buy(s, price) ==> bought(s, price).balance >= 0,
        rewarded(s, amount).balance >= 0,
{
}

// ── amounts as text ─────────────────────────────────────────────────────────

/// The digit for `d`, which is below ten.
pub open spec fn digit_char(d: int) -> char {
    if d == 0 {
        '0'
    } else if d == 1 {
        '1'
    } else if d == 2 {
        '2'
    } else if d == 3 {
        '3'
    } else if d == 4 {
        '4'
    } else if d == 5 {
        '5'
    } else if d == 6 {
        '6'
    } else if d == 7 {
        '7'
    } else if d == 8 {
        '8'
    } else {
        '9'
    }
}

/// The decimal digits of `n`, most significant first, without leading zeros.
pub open spec fn decimal(n: nat) -> Seq<char>
    decreases n,
{
    if n < 10 {
        seq![digit_char(n as int)]
    } else {
        decimal(n / 10).push(digit_char((n % 10) as int))
    }
}

/// `d` with a comma before every group of three digits counted from the right.
pub open spec fn group_thousands(d: Seq<char>) -> Seq<char>
    decreases d.len(),
{
    if d.len() <= 3 {
        d
    } else {
        group_thousands(d.take(d.len() - 3)) + seq![','] + d.skip(d.len() - 3)
    }
}

/// `n` written with thousands separators: 1250 is "1,250", -1250 is "-1,250".
pub open spec fn money_text(n: int) -> Seq<char> {
    if n < 0 {
        seq!['-'] + group_thousands(decimal((-n) as nat))
    } else {
        group_thousands(decimal(n as nat))
    }
}

fn digit(d: u32) -> (c: char)
    requires
        d < 10,
    ensures
        c == digit_char(d as int),
{
    if d == 0 {
        '0'
    } else if d == 1 {
        '1'
    } else if d == 2 {
        '2'
    } else if d == 3 {
        '3'
    } else if d == 4 {
        '4'
    } else if d == 5 {
        '5'
    } else if d == 6 {
        '6'
    } else if d == 7 {
        '7'
    } else if d == 8 {
        '8'
    } else {
        '9'
    }
}

fn decimal_digits(n: u32) -> (r: Vec<char>)
    ensures
        r@ == decimal(n as nat),
    decreases n,
{
    if n < 10 {
        let mut r: Vec<char> = Vec::new();
        r.push(digit(n));
        r
    } else {
        let mut r = decimal_digits(n / 10);
        r.push(digit(n % 10));
        r
    }
}

fn grouped(d: &Vec<char>, hi: usize) -> (r: Vec<char>)
    requires
        hi <= d.len(),
    ensures
        r@ == group_thousands(d@.take(hi as int)),
    decreases hi,
{
    if hi <= 3 {
        let mut r: Vec<char> = Vec::new();
        let mut i: usize = 0;
        while i < hi
            invariant
                i <= hi <= d.len(),
                r@ == d@.take(i as int),
            decreases hi - i,
        {
            r.push(d[i]);
            assert(d@.take(i + 1) =~= d@.take(i as int).push(d@[i as int]));
            i = i + 1;
        }
        r
    } else {
        let mut r = grouped(d, hi - 3);
        r.push(',');
        let mut i: usize = hi - 3;
        let ghost front = r@;
        while i < hi
            invariant
                3 < hi <= d.len(),
                hi - 3 <= i <= hi,
                r@ == front + d@.subrange(hi - 3, i as int),
            decreases hi - i,
        {
            r.push(d[i]);
            assert(d@.subrange(hi - 3, i + 1) =~= d@.subrange(hi - 3, i as int).push(
                d@[i as int],
            ));
            i = i + 1;
        }
        let ghost t = d@.take(hi as int);
        assert(t.take(t.len() - 3) =~= d@.take(hi - 3));
        assert(t.skip(t.len() - 3) =~= d@.subrange(hi - 3, hi as int));
        r
    }
}

/// Writes `n` with thousands separators: 1250 gives "1,250".
pub fn fmt_money(n: i32) -> (r: String)
    ensures
        r@ == money_text(n as int),
{
    let neg = n < 0;
    let magnitude: u32 = if neg {
        (-(n as i64)) as u32
    } else {
        n as u32
    };
    let digits = decimal_digits(magnitude);
    let g = grouped(&digits, digits.len());
    assert(digits@.take(digits.len() as int) =~= digits@);
    let mut out = String::new();
    if neg {
        push_char(&mut out, '-');
    }
    let ghost start = out@;
    let mut i: usize = 0;
    while i < g.len()
        invariant
            i <= g.len(),
            out@ == start + g@.take(i as int),
        decreases g.len() - i,
    {
        push_char(&mut out, g[i]);
        assert(g@.take(i + 1) =~= g@.take(i as int).push(g@[i as int]));
        i = i + 1;
    }
    assert(g@.take(g.len() as int) =~= g@);
    out
}

} // verus!
