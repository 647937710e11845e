use cyberkent::auth::{
    auth_reply, email_ok, first_name, google_login, initials, login, name_ok, norm_email,
    password_score, register, Account, AccountDb, MSG_BAD_EMAIL, MSG_BAD_NAME, MSG_BAD_WORKPLACE,
    MSG_EMAIL_TAKEN, MSG_GOOGLE_ACCOUNT, MSG_GOOGLE_NOT_REGISTERED, MSG_NO_ACCOUNT,
    MSG_SHORT_PASSWORD, MSG_WEAK_PASSWORD, MSG_WRONG_PASSWORD,
};

#[test]
fn email_shapes() {
    assert!(email_ok("aziz@gmail.com"));
    assert!(email_ok(" Aziz@Gmail.COM "));
    assert!(!email_ok("aziz@gmail"));
    assert!(!email_ok("aziz@@gmail.com"));
    assert!(!email_ok("@gmail.com"));
    assert!(!email_ok("aziz gmail.com"));
    assert!(!email_ok("aziz@gmail.c"));
}

#[test]
fn avatar_initials() {
    assert_eq!(initials("Aziz Bekmurodov"), "AB");
    assert_eq!(initials("malika yusupova ovna"), "MY");
    assert_eq!(initials(""), "");
}

#[test]
fn names() {
    assert!(name_ok("Aziz Bekmurodov"));
    assert!(name_ok("G'ulom O'ktam-Ali"));
    assert!(!name_ok("Aziz"));
    assert!(!name_ok("Aziz B"));
    assert!(!name_ok("Aziz 123"));
}

#[test]
fn scores() {
    assert_eq!(password_score(""), 0);
    assert_eq!(password_score("abc"), 0);
    assert!(password_score("parol123") >= 2);
    assert!(password_score("Cyber!2026kent") >= 4);
}

#[test]
fn register_then_login() {
    let mut db = AccountDb::new();
    assert!(register(&mut db, "a@b.uz", "Aziz Bek", "TATU", "short", false).is_err());
    assert!(register(&mut db, "a@b.uz", "Aziz", "TATU", "parol1234", false).is_err());
    assert!(register(&mut db, "a@b.uz", "Aziz Bek", "TATU", "parol1234", false).is_ok());
    // A second time it is refused.
    assert!(register(&mut db, "A@B.uz", "Aziz Bek", "TATU", "parol1234", false).is_err());
    assert!(login(&db, "a@b.uz", "parol1234").is_ok());
    assert!(login(&db, "a@b.uz", "boshqa1234").is_err());
    assert!(login(&db, "yoq@b.uz", "parol1234").is_err());
    // A Google account has no password.
    assert!(register(&mut db, "g@b.uz", "Malika Yusupova", "IT Park", "", true).is_ok());
    assert!(login(&db, "g@b.uz", "parol1234").is_err());
    assert!(google_login(&db, "g@b.uz").is_ok());
    assert!(google_login(&db, "yoq@b.uz").is_err());
}

fn err_of(r: Result<Account, String>) -> String {
    match r {
        Ok(_) => panic!("expected a refusal"),
        Err(e) => e,
    }
}

#[test]
fn normalizes_addresses() {
    assert_eq!(norm_email("  Aziz@Gmail.COM\t"), "aziz@gmail.com");
    assert_eq!(norm_email("plain"), "plain");
    assert_eq!(norm_email("   "), "");
}

#[test]
fn email_shape_details() {
    assert!(email_ok("a@b.uz"));
    assert!(!email_ok("a@b.u"));
    assert!(!email_ok("a@buz"));
    assert!(!email_ok(".aziz@gmail.com"));
    assert!(!email_ok("aziz.@gmail.com"));
    assert!(email_ok("a.ziz@gmail.com"));
    assert!(!email_ok("aziz@.gmail.com"));
    assert!(!email_ok("aziz@gmail..com"));
    assert!(!email_ok("aziz@gmail.com."));
    assert!(!email_ok("aziz@gmail.c0m"));
    assert!(email_ok("aziz@mail.gmail.com"));
    let long = format!("{}@gmail.com", "a".repeat(245));
    assert!(!email_ok(&long));
    let fits = format!("{}@gmail.com", "a".repeat(244));
    assert!(email_ok(&fits));
}

#[test]
fn name_details() {
    assert!(name_ok("  Aziz   Bekmurodov  "));
    assert!(name_ok("Ali Sayid\u{2019}ov"));
    assert!(!name_ok(""));
    assert!(!name_ok("Aziz Bek!"));
    assert!(name_ok("Малика Юсупова"));
}

#[test]
fn words_longer_than_two_letters() {
    assert!(!name_ok("Li Bo"));
    assert!(!name_ok("Aziz Bo"));
    assert!(name_ok("Ali Bek"));
}

#[test]
fn score_values() {
    assert_eq!(password_score("a"), 0);
    assert_eq!(password_score("a!"), 1);
    assert_eq!(password_score("Ab1!"), 1);
    assert_eq!(password_score("abcdefg"), 0);
    assert_eq!(password_score("abcdefgh"), 1);
    assert_eq!(password_score("abcdefgh1"), 2);
    assert_eq!(password_score("abcdefghijkl"), 2);
    assert_eq!(password_score("Abcdefghijk1"), 4);
    assert_eq!(password_score("Abcdefghij1!"), 4);
    assert_eq!(password_score("abcdefgh!"), 2);
}

#[test]
fn first_names() {
    assert_eq!(first_name("  Aziz Bekmurodov"), "Aziz");
    assert_eq!(first_name("Malika"), "Malika");
    assert_eq!(first_name("   "), "");
}

#[test]
fn initials_in_upper_case() {
    assert_eq!(initials("  aziz  "), "A");
    assert_eq!(initials("ölmez ünal"), "ÖÜ");
    assert_eq!(initials("straße ß"), "SSS");
}

#[test]
fn every_refusal() {
    let mut db = AccountDb::new();
    assert_eq!(err_of(register(&mut db, "nope", "Aziz Bek", "TATU", "parol1234", false)), MSG_BAD_EMAIL);
    assert_eq!(err_of(register(&mut db, "a@b.u", "Aziz", "TATU", "parol1234", false)), MSG_BAD_EMAIL);
    assert_eq!(err_of(register(&mut db, "ab@c.uz", "Aziz", "TATU", "parol1234", false)), MSG_BAD_NAME);
    assert_eq!(err_of(register(&mut db, "ab@c.uz", "Aziz Bek", " T ", "parol1234", false)), MSG_BAD_WORKPLACE);
    assert_eq!(err_of(register(&mut db, "ab@c.uz", "Aziz Bek", "TATU", "short", false)), MSG_SHORT_PASSWORD);
    assert_eq!(err_of(register(&mut db, "ab@c.uz", "Aziz Bek", "TATU", "abcdefgh", false)), MSG_WEAK_PASSWORD);
    assert_eq!(db.len(), 0);
    assert!(register(&mut db, "ab@c.uz", "Aziz Bek", "TATU", "parol1234", false).is_ok());
    assert_eq!(db.len(), 1);
    assert_eq!(err_of(register(&mut db, " AB@C.UZ", "Ali Vali", "TATU", "", true)), MSG_EMAIL_TAKEN);
    assert_eq!(db.len(), 1);
    assert_eq!(err_of(login(&db, "x", "parol1234")), MSG_BAD_EMAIL);
    assert_eq!(err_of(login(&db, "yoq@c.uz", "parol1234")), MSG_NO_ACCOUNT);
    assert_eq!(err_of(login(&db, "ab@c.uz", "parol12345")), MSG_WRONG_PASSWORD);
    assert!(register(&mut db, "gg@c.uz", "Malika Yusupova", "IT Park", "", true).is_ok());
    assert_eq!(err_of(login(&db, "gg@c.uz", "")), MSG_GOOGLE_ACCOUNT);
    assert_eq!(err_of(google_login(&db, "yoq@c.uz")), MSG_GOOGLE_NOT_REGISTERED);
}

#[test]
fn registered_account_comes_back() {
    let mut db = AccountDb::new();
    let acc = register(&mut db, "  Aziz@Gmail.com ", "  Aziz  Bek ", " TATU ", "parol1234", false).unwrap();
    assert_eq!(acc.email, "aziz@gmail.com");
    assert_eq!(acc.name, "Aziz  Bek");
    assert_eq!(acc.workplace, "TATU");
    assert!(acc.pass.is_some());
    let back = login(&db, "AZIZ@gmail.com", "parol1234").unwrap();
    assert_eq!(back.email, acc.email);
    assert_eq!(back.pass, acc.pass);
    let by_google = google_login(&db, "aziz@GMAIL.com").unwrap();
    assert_eq!(by_google.name, "Aziz  Bek");
    let g = register(&mut db, "gg@c.uz", "Malika Yusupova", "IT Park", "anything", true).unwrap();
    assert_eq!(g.pass, None);
}

#[test]
fn login_still_works_after_later_registrations() {
    let mut db = AccountDb::new();
    let first = register(&mut db, "ab@c.uz", "Aziz Bek", "TATU", "parol1234", false).unwrap();
    assert!(register(&mut db, "cd@e.uz", "Malika Yusupova", "IT Park", "Kalit!2026", false).is_ok());
    assert!(register(&mut db, "gg@c.uz", "Ali Vali", "INHA", "", true).is_ok());
    db.emails_are_unique();
    assert_eq!(db.len(), 3);
    let back = login(&db, " AB@c.uz ", "parol1234").unwrap();
    assert_eq!(back.email, first.email);
    assert_eq!(back.name, first.name);
    assert_eq!(back.workplace, first.workplace);
    assert_eq!(back.pass, first.pass);
}

#[test]
fn replies_for_the_form() {
    let mut db = AccountDb::new();
    let ok = register(&mut db, "ab@c.uz", "Aziz Bek", "TATU", "parol1234", false);
    assert_eq!(auth_reply(&ok), "");
    let bad = login(&db, "ab@c.uz", "boshqa1234");
    assert_eq!(auth_reply(&bad), MSG_WRONG_PASSWORD);
}
