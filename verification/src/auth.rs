//! Sign-up and sign-in: the field checks the form runs while the user types,
//! and the in-memory account store that registration and login go through.
//!
//! Passwords are compared through a salted `DefaultHasher` digest. That is a
//! demonstration of the flow (a password is asked for, checked, and must
//! match at login), not a key-derivation function.

use vstd::prelude::*;
use std::collections::hash_map::DefaultHasher;
use std::hash::{Hash, Hasher};
use vstd::std_specs::hash::DefaultHasherAdditionalSpecFns;
use vstd::utf8::encode_utf8;
use crate::text::{
    alphabetic, chars_of, is_alphabetic, is_alphanumeric, is_ascii_alpha, is_ascii_digit,
    is_lowercase, is_uppercase, is_whitespace, is_ws, lemma_words_nonempty, lower_case, lowercase,
    numeric, push_char, slice_chars, split_whitespace, string_of, to_lowercase, to_uppercase, trim,
    trim_chars, upper_case, uppercase_of, words,
};

verus! {

broadcast use vstd::string::group_string_axioms;

// ── field checks ────────────────────────────────────────────────────────────

/// The canonical form of an e-mail address: trimmed and lower-cased.
pub open spec fn normalized_email(e: Seq<char>) -> Seq<char> {
    lowercase(trim(e))
}

/// Trims the address and lower-cases it.
pub fn norm_email(e: &str) -> (r: String)
    ensures
        r@ == normalized_email(e@),
{
    let v = chars_of(e);
    let t = trim_chars(&v);
    let ts = string_of(&t);
    to_lowercase(ts.as_str())
}

/// No character of `s` is white space.
pub open spec fn no_ws(s: Seq<char>) -> bool {
    forall|i: int| 0 <= i < s.len() ==> !is_ws(#[trigger] s[i])
}

/// `k` is the position of the one and only `@` of `t`.
pub open spec fn single_at(t: Seq<char>, k: int) -> bool {
    &&& 0 <= k < t.len()
    &&& t[k] == '@'
    &&& forall|i: int| 0 <= i < t.len() && i != k ==> #[trigger] t[i] != '@'
}

/// The part before `@`: not empty, and neither starting nor ending with a dot.
pub open spec fn local_part_ok(l: Seq<char>) -> bool {
    l.len() > 0 && l[0] != '.' && l.last() != '.'
}

/// `j` is the position of the last dot of `d`.
pub open spec fn last_dot(d: Seq<char>, j: int) -> bool {
    &&& 0 <= j < d.len()
    &&& d[j] == '.'
    &&& forall|i: int| j < i < d.len() ==> #[trigger] d[i] != '.'
}

/// A top-level domain: at least two characters, all ASCII letters.
pub open spec fn tld_ok(t: Seq<char>) -> bool {
    t.len() >= 2 && forall|i: int| 0 <= i < t.len() ==> is_ascii_alpha(#[trigger] t[i])
}

/// The part after `@`: at least two dot-separated labels, none of them
/// empty, the last one a top-level domain.
pub open spec fn domain_ok(d: Seq<char>) -> bool {
    &&& d.len() > 0
    &&& d[0] != '.'
    &&& d.last() != '.'
    &&& forall|i: int| 0 <= i < d.len() - 1 ==> !(#[trigger] d[i] == '.' && d[i + 1] == '.')
    &&& exists|j: int| #[trigger] last_dot(d, j) && tld_ok(d.subrange(j + 1, d.len() as int))
}

/// The shape of an e-mail address, as the form accepts it: once trimmed, at
/// least six characters, at most 254 bytes of UTF-8, no white space, and
/// exactly one `@` between a local part and a domain.
pub open spec fn email_shape_ok(e: Seq<char>) -> bool {
    let t = trim(e);
    &&& t.len() >= 6
    &&& encode_utf8(t).len() <= 254
    &&& no_ws(t)
    &&& exists|k: int|
        #[trigger] single_at(t, k) && local_part_ok(t.subrange(0, k)) && domain_ok(
            t.subrange(k + 1, t.len() as int),
        )
}

/// Whether the top-level domain `t` holds only ASCII letters and is long enough.
fn tld_check(t: &Vec<char>) -> (r: bool)
    ensures
        r == tld_ok(t@),
{
    if t.len() < 2 {
        return false;
    }
    let mut i: usize = 0;
    while i < t.len()
        invariant
            i <= t.len(),
            forall|m: int| 0 <= m < i ==> is_ascii_alpha(#[trigger] t@[m]),
        decreases t.len() - i,
    {
        let c = t[i];
        if !(('a' <= c && c <= 'z') || ('A' <= c && c <= 'Z')) {
            return false;
        }
        i = i + 1;
    }
    true
}

/// Whether `d` is an acceptable domain.
fn domain_check(d: &Vec<char>) -> (r: bool)
    ensures
        r == domain_ok(d@),
{
    let m = d.len();
    if m == 0 || d[0] == '.' || d[m - 1] == '.' {
        return false;
    }
    let mut i: usize = 0;
    while i + 1 < m
        invariant
            m == d.len(),
            0 < m,
            i < m,
            forall|p: int| 0 <= p < i ==> !(#[trigger] d@[p] == '.' && d@[p + 1] == '.'),
        decreases m - i,
    {
        if d[i] == '.' && d[i + 1] == '.' {
            return false;
        }
        i = i + 1;
    }
    let mut j: usize = m;
    while j > 0 && d[j - 1] != '.'
        invariant
            j <= m == d.len(),
            forall|p: int| j <= p < m ==> #[trigger] d@[p] != '.',
        decreases j,
    {
        j = j - 1;
    }
    if j == 0 {
        assert forall|q: int| !#[trigger] last_dot(d@, q) by {
            if last_dot(d@, q) {
                assert(d@[q] == '.');
            }
        }
        return false;
    }
    let dot = j - 1;
    assert(last_dot(d@, dot as int));
    assert forall|q: int| #[trigger] last_dot(d@, q) implies q == dot by {
        if q < dot {
            assert(d@[dot as int] != '.');
        } else if q > dot {
            assert(d@[q] != '.');
        }
    }
    let tld = slice_chars(d, j, m);
    tld_check(&tld)
}

/// Whether `e` has the shape of an e-mail address.
pub fn email_ok(e: &str) -> (r: bool)
    ensures
        r == email_shape_ok(e@),
{
    let v = chars_of(e);
    let t = trim_chars(&v);
    let n = t.len();
    if n < 6 {
        return false;
    }
    let ts = string_of(&t);
    if ts.as_str().as_bytes().len() > 254 {
        return false;
    }
    let mut i: usize = 0;
    while i < n
        invariant
            i <= n == t.len(),
            t@ == trim(e@),
            forall|p: int| 0 <= p < i ==> !is_ws(#[trigger] t@[p]),
        decreases n - i,
    {
        if is_whitespace(t[i]) {
            assert(!no_ws(t@));
            return false;
        }
        i = i + 1;
    }
    let mut k: usize = 0;
    while k < n && t[k] != '@'
        invariant
            k <= n == t.len(),
            forall|p: int| 0 <= p < k ==> #[trigger] t@[p] != '@',
        decreases n - k,
    {
        k = k + 1;
    }
    if k == n {
        assert forall|q: int| !#[trigger] single_at(t@, q) by {
            if single_at(t@, q) {
                assert(t@[q] == '@');
            }
        }
        return false;
    }
    let mut p: usize = k + 1;
    while p < n
        invariant
            k < p <= n == t.len(),
            t@ == trim(e@),
            t@[k as int] == '@',
            forall|x: int| k < x < p ==> #[trigger] t@[x] != '@',
        decreases n - p,
    {
        if t[p] == '@' {
            assert forall|q: int| !#[trigger] single_at(t@, q) by {
                if single_at(t@, q) {
                    assert(t@[k as int] == '@' && t@[p as int] == '@');
                }
            }
            return false;
        }
        p = p + 1;
    }
    assert(single_at(t@, k as int));
    assert forall|q: int| #[trigger] single_at(t@, q) implies q == k by {
        assert(t@[k as int] == '@');
    }
    if k == 0 || t[0] == '.' || t[k - 1] == '.' {
        assert(!local_part_ok(t@.subrange(0, k as int)));
        return false;
    }
    let d = slice_chars(&t, k + 1, n);
    domain_check(&d)
}


/// A character that may appear in a full name: a letter, white space, an
/// apostrophe (straight or typographic) or a hyphen, as in
/// "G'ulom O'ktam-Ali".
pub open spec fn name_char_ok(c: char) -> bool {
    alphabetic(c) || is_ws(c) || c == '\'' || c == '\u{2019}' || c == '-'
}

/// A full name: at least two words, each longer than two characters, made
/// only of name characters.
pub open spec fn full_name_ok(n: Seq<char>) -> bool {
    let ws = words(trim(n));
    &&& ws.len() >= 2
    &&& forall|i: int| 0 <= i < ws.len() ==> (#[trigger] ws[i]).len() > 2
    &&& forall|i: int| 0 <= i < n.len() ==> name_char_ok(#[trigger] n[i])
}

/// Whether `n` is a full name (first and last name).
pub fn name_ok(n: &str) -> (r: bool)
    ensures
        r == full_name_ok(n@),
{
    let v = chars_of(n);
    let t = trim_chars(&v);
    let ws = split_whitespace(&t);
    if ws.len() < 2 {
        return false;
    }
    let mut i: usize = 0;
    while i < ws.len()
        invariant
            i <= ws.len(),
            ws.deep_view() == words(trim(n@)),
            forall|m: int| 0 <= m < i ==> (#[trigger] ws.deep_view()[m]).len() > 2,
        decreases ws.len() - i,
    {
        assert(ws.deep_view()[i as int] =~= ws@[i as int]@);
        if ws[i].len() <= 2 {
            return false;
        }
        i = i + 1;
    }
    let mut j: usize = 0;
    while j < v.len()
        invariant
            j <= v.len(),
            v@ == n@,
            forall|m: int| 0 <= m < j ==> name_char_ok(#[trigger] v@[m]),
        decreases v.len() - j,
    {
        let c = v[j];
        if !(is_alphabetic(c) || is_whitespace(c) || c == '\'' || c == '\u{2019}' || c == '-') {
            return false;
        }
        j = j + 1;
    }
    true
}

/// Counts a condition that holds as one point.
pub open spec fn point(b: bool) -> int {
    if b {
        1
    } else {
        0
    }
}

/// Some character is a lower-case letter.
pub open spec fn has_lower(p: Seq<char>) -> bool {
    exists|i: int| 0 <= i < p.len() && lower_case(#[trigger] p[i])
}

/// Some character is an upper-case letter.
pub open spec fn has_upper(p: Seq<char>) -> bool {
    exists|i: int| 0 <= i < p.len() && upper_case(#[trigger] p[i])
}

/// Some character is an ASCII digit.
pub open spec fn has_digit(p: Seq<char>) -> bool {
    exists|i: int| 0 <= i < p.len() && is_ascii_digit(#[trigger] p[i])
}

/// Some character is neither alphabetic nor numeric.
pub open spec fn has_symbol(p: Seq<char>) -> bool {
    exists|i: int| 0 <= i < p.len() && !(alphabetic(#[trigger] p[i]) || numeric(p[i]))
}

/// One point each for: eight characters, twelve characters, both lower-
/// and upper-case letters, an ASCII digit, a symbol.
pub open spec fn raw_points(p: Seq<char>) -> int {
    point(p.len() >= 8) + point(p.len() >= 12) + point(has_lower(p) && has_upper(p)) + point(
        has_digit(p),
    ) + point(has_symbol(p))
}

/// The strength of password `p` on a scale of 0 to 4: the points, capped
/// at 1 for a password shorter than eight characters and at 4 otherwise;
/// 0 for the empty password.
pub open spec fn strength(p: Seq<char>) -> int {
    let s = raw_points(p);
    if p.len() == 0 {
        0
    } else if p.len() < 8 {
        if s < 1 {
            s
        } else {
            1
        }
    } else {
        if s < 4 {
            s
        } else {
            4
        }
    }
}

/// How strong password `p` is, from 0 to 4; the form draws its meter from it.
pub fn password_score(p: &str) -> (r: i32)
    ensures
        r == strength(p@),
        0 <= r <= 4,
        p@.len() < 8 ==> r <= 1,
        p@.len() == 0 ==> r == 0,
{
    let v = chars_of(p);
    let n = v.len();
    if n == 0 {
        return 0;
    }
    let mut lower = false;
    let mut upper = false;
    let mut digit = false;
    let mut symbol = false;
    let mut i: usize = 0;
    while i < n
        invariant
            i <= n == v.len(),
            lower == exists|m: int| 0 <= m < i && lower_case(#[trigger] v@[m]),
            upper == exists|m: int| 0 <= m < i && upper_case(#[trigger] v@[m]),
            digit == exists|m: int| 0 <= m < i && is_ascii_digit(#[trigger] v@[m]),
            symbol == exists|m: int| 0 <= m < i && !(alphabetic(#[trigger] v@[m]) || numeric(v@[m])),
        decreases n - i,
    {
        let c = v[i];
        let is_low = is_lowercase(c);
        let is_up = is_uppercase(c);
        let is_alnum = is_alphanumeric(c);
        lower = lower || is_low;
        upper = upper || is_up;
        digit = digit || ('0' <= c && c <= '9');
        symbol = symbol || !is_alnum;
        i = i + 1;
    }
    let mut s: i32 = 0;
    if n >= 8 {
        s = s + 1;
    }
    if n >= 12 {
        s = s + 1;
    }
    if lower && upper {
        s = s + 1;
    }
    if digit {
        s = s + 1;
    }
    if symbol {
        s = s + 1;
    }
    if n < 8 {
        if s < 1 {
            s
        } else {
            1
        }
    } else {
        if s < 4 {
            s
        } else {
            4
        }
    }
}

/// The first word of the trimmed name (empty when there is none): the
/// "Aziz" of a greeting.
pub open spec fn first_word(n: Seq<char>) -> Seq<char> {
    let ws = words(trim(n));
    if ws.len() > 0 {
        ws[0]
    } else {
        seq![]
    }
}

/// The first word of name `n`, for "Xush kelibsiz, Aziz!".
pub fn first_name(n: &str) -> (r: String)
    ensures
        r@ == first_word(n@),
{
    let v = chars_of(n);
    let t = trim_chars(&v);
    let ws = split_whitespace(&t);
    if ws.len() > 0 {
        assert(ws.deep_view()[0] =~= ws@[0]@);
        string_of(&ws[0])
    } else {
        String::new()
    }
}

/// The upper-case forms of the first letters of the first two words.
pub open spec fn initials_of(n: Seq<char>) -> Seq<char> {
    let ws = words(n);
    if ws.len() == 0 {
        seq![]
    } else if ws.len() == 1 {
        uppercase_of(ws[0][0])
    } else {
        uppercase_of(ws[0][0]) + uppercase_of(ws[1][0])
    }
}

/// Avatar initials: "Aziz Bekmurodov" gives "AB".
pub fn initials(n: &str) -> (r: String)
    ensures
        r@ == initials_of(n@),
{
    let v = chars_of(n);
    let ws = split_whitespace(&v);
    proof {
        lemma_words_nonempty(v@);
    }
    let mut r = String::new();
    let mut i: usize = 0;
    let ghost dv = ws.deep_view();
    while i < ws.len() && i < 2
        invariant
            i <= ws.len(),
            i <= 2,
            dv == ws.deep_view(),
            dv == words(n@),
            forall|m: int| 0 <= m < dv.len() ==> (#[trigger] dv[m]).len() > 0,
            r@ == (if i == 0 {
                seq![]
            } else if i == 1 {
                uppercase_of(dv[0][0])
            } else {
                uppercase_of(dv[0][0]) + uppercase_of(dv[1][0])
            }),
        decreases 2 - i,
    {
        assert(dv[i as int] =~= ws@[i as int]@);
        let up = to_uppercase(ws[i][0]);
        let ghost before = r@;
        let mut j: usize = 0;
        while j < up.len()
            invariant
                j <= up.len(),
                r@ == before + up@.take(j as int),
            decreases up.len() - j,
        {
            push_char(&mut r, up[j]);
            assert(up@.take(j + 1) =~= up@.take(j as int).push(up@[j as int]));
            j = j + 1;
        }
        assert(up@.take(up.len() as int) =~= up@);
        i = i + 1;
    }
    r
}


// ── accounts ────────────────────────────────────────────────────────────────

/// The refusal for an address of the wrong shape.
pub const MSG_BAD_EMAIL: &'static str = "E-pochta noto'g'ri — masalan: siz@gmail.com";
/// The refusal for a name that is not a full name.
pub const MSG_BAD_NAME: &'static str = "Ism va familiyani to'liq kiriting";
/// The refusal for a missing workplace or school.
pub const MSG_BAD_WORKPLACE: &'static str = "Ish yoki o'qish joyini kiriting";
/// The refusal for a password under eight characters.
pub const MSG_SHORT_PASSWORD: &'static str = "Parol kamida 8 belgi bo'lishi kerak";
/// The refusal for a password that scores under 2.
pub const MSG_WEAK_PASSWORD: &'static str = "Parol juda oddiy — harf, raqam va belgi qo'shing";
/// The refusal for an address that already has an account.
pub const MSG_EMAIL_TAKEN: &'static str = "Bu e-pochta allaqachon ro'yxatdan o'tgan — kirishga o'ting";
/// The refusal for a login to an address with no account.
pub const MSG_NO_ACCOUNT: &'static str = "Bu e-pochta bilan hisob topilmadi — ro'yxatdan o'ting";
/// The refusal for a password login to an account opened through Google.
pub const MSG_GOOGLE_ACCOUNT: &'static str = "Bu hisob Google orqali ochilgan — \"Google bilan kirish\"ni bosing";
/// The refusal for a wrong password.
pub const MSG_WRONG_PASSWORD: &'static str = "Parol noto'g'ri";
/// The refusal for a Google login to an address with no account.
pub const MSG_GOOGLE_NOT_REGISTERED: &'static str = "Bu Google hisobi ro'yxatdan o'tmagan — avval ro'yxatdan o'ting";

/// The salt that every password digest starts with.
pub const DIGEST_SALT: &'static str = "cyberkent-demo";

/// The writes into a hasher that `<(&str, &str, &str) as Hash>::hash` makes
/// for the tuple `(a, b, c)`.
pub uninterp spec fn tuple_hash_writes(a: Seq<char>, b: Seq<char>, c: Seq<char>) -> Seq<
    Seq<u8>,
>;

/// `Hash::hash` of the tuple `(a, b, c)` into `state`: the contract says the
/// hasher's record of writes grows by the writes named above, and nothing
/// of the bytes themselves.
#[verifier::external_body]
fn hash_triple(a: &str, b: &str, c: &str, state: &mut DefaultHasher)
    ensures
        final(state)@ == old(state)@ + tuple_hash_writes(a@, b@, c@),
{
    (a, b, c).hash(state)
}

/// The digest that stands for the password `pass` of the account `email`:
/// the salted tuple hashed by a fresh `DefaultHasher`.
pub open spec fn password_digest(email: Seq<char>, pass: Seq<char>) -> u64 {
    DefaultHasher::spec_finish(tuple_hash_writes(DIGEST_SALT@, email, pass))
}

/// The digest stored for password `pass` of account `email`.
fn digest(email: &str, pass: &str) -> (r: u64)
    ensures
        r == password_digest(email@, pass@),
{
    let mut h = DefaultHasher::new();
    hash_triple(DIGEST_SALT, email, pass, &mut h);
    assert(h@ =~= tuple_hash_writes(DIGEST_SALT@, email@, pass@));
    h.finish()
}

/// A registered user. `pass` is `None` for an account opened through
/// Google, which has no password.
pub struct Account {
    pub email: String,
    pub name: String,
    pub workplace: String,
    pub pass: Option<u64>,
}

/// An account as plain values.
pub struct AccountView {
    pub email: Seq<char>,
    pub name: Seq<char>,
    pub workplace: Seq<char>,
    pub pass: Option<u64>,
}

impl View for Account {
    type V = AccountView;

    open spec fn view(&self) -> AccountView {
        AccountView {
            email: self.email@,
            name: self.name@,
            workplace: self.workplace@,
            pass: self.pass,
        }
    }
}

impl Clone for Account {
    fn clone(&self) -> (r: Self)
        ensures
            r == *self,
    {
        Account {
            email: self.email.clone(),
            name: self.name.clone(),
            workplace: self.workplace.clone(),
            pass: self.pass,
        }
    }
}

/// No two accounts share an address.
pub open spec fn emails_unique(db: Seq<AccountView>) -> bool {
    forall|i: int, j: int|
        0 <= i < j < db.len() ==> (#[trigger] db[i]).email != (#[trigger] db[j]).email
}

/// The first account with address `email`.
pub open spec fn lookup(db: Seq<AccountView>, email: Seq<char>) -> Option<AccountView>
    decreases db.len(),
{
    if db.len() == 0 {
        None
    } else if db[0].email == email {
        Some(db[0])
    } else {
        lookup(db.drop_first(), email)
    }
}

/// `lookup` finds an account exactly when one has the address, and what it
/// finds has it.
pub proof fn lemma_lookup(db: Seq<AccountView>, email: Seq<char>)
    ensures
        lookup(db, email) is None <==> forall|i: int| 0 <= i < db.len() ==> (#[trigger] db[i]).email != email,
        lookup(db, email) matches Some(a) ==> a.email == email && db.contains(a),
    decreases db.len(),
{
    if db.len() > 0 {
        lemma_lookup(db.drop_first(), email);
        if db[0].email != email {
            assert forall|i: int| 0 <= i < db.len() && (#[trigger] db[i]).email == email implies
                lookup(db, email) is Some by {
                assert(db.drop_first()[i - 1] == db[i]);
            }
            if let Some(a) = lookup(db, email) {
                let k = choose|k: int| 0 <= k < db.drop_first().len() && db.drop_first()[k] == a;
                assert(db[k + 1] == a);
            }
        }
    }
}

/// Looking up in a store that grew by one account.
pub proof fn lemma_lookup_push(db: Seq<AccountView>, a: AccountView, email: Seq<char>)
    ensures
        lookup(db.push(a), email) == (if lookup(db, email) is Some {
            lookup(db, email)
        } else if a.email == email {
            Some(a)
        } else {
            None
        }),
    decreases db.len(),
{
    if db.len() == 0 {
        assert(db.push(a).drop_first() =~= db);
    } else {
        assert(db.push(a).drop_first() =~= db.drop_first().push(a));
        lemma_lookup_push(db.drop_first(), a, email);
    }
}

/// The accounts registered while the app runs, in the order they were
/// registered. Nothing is written to disk.
pub struct AccountDb {
    accounts: Vec<Account>,
}

impl View for AccountDb {
    type V = Seq<AccountView>;

    closed spec fn view(&self) -> Seq<AccountView> {
        self.accounts@.map_values(|a: Account| a@)
    }
}

impl AccountDb {
    #[verifier::type_invariant]
    spec fn unique(self) -> bool {
        emails_unique(self@)
    }

    /// An empty store.
    pub fn new() -> (db: Self)
        ensures
            db@ == Seq::<AccountView>::empty(),
    {
        let db = AccountDb { accounts: Vec::new() };
        assert(db@ =~= Seq::<AccountView>::empty());
        db
    }

    /// No two accounts of the store share an address; callers learn it here.
    pub fn emails_are_unique(&self)
        ensures
            emails_unique(self@),
    {
        proof {
            use_type_invariant(self);
        }
    }

    /// The number of accounts.
    pub fn len(&self) -> (r: usize)
        ensures
            r == self@.len(),
    {
        self.accounts.len()
    }

    /// The position of the account with address `email`.
    fn find(&self, email: &String) -> (r: Option<usize>)
        ensures
            match r {
                Some(i) => i < self@.len() && lookup(self@, email@) == Some(self@[i as int]),
                None => lookup(self@, email@) is None,
            },
    {
        let mut i: usize = 0;
        assert(self@.skip(0) =~= self@);
        while i < self.accounts.len()
            invariant
                i <= self.accounts.len() == self@.len(),
                lookup(self@, email@) == lookup(self@.skip(i as int), email@),
            decreases self.accounts.len() - i,
        {
            assert(self@.skip(i as int)[0] == self@[i as int]);
            if self.accounts[i].email == *email {
                return Some(i);
            }
            assert(self@.skip(i as int).drop_first() =~= self@.skip(i + 1));
            i = i + 1;
        }
        None
    }

    /// A copy of the account at position `i`.
    fn get(&self, i: usize) -> (r: Account)
        requires
            i < self@.len(),
        ensures
            r@ == self@[i as int],
    {
        self.accounts[i].clone()
    }

    /// Adds an account whose address is new.
    fn insert(&mut self, a: Account)
        requires
            lookup(old(self)@, a.email@) is None,
        ensures
            final(self)@ == old(self)@.push(a@),
    {
        proof {
            use_type_invariant(&*self);
            lemma_lookup(self@, a.email@);
        }
        let ghost before = self@;
        let mut v: Vec<Account> = Vec::new();
        std::mem::swap(&mut v, &mut self.accounts);
        v.push(a);
        assert(v@.map_values(|x: Account| x@) =~= before.push(a@));
        self.accounts = v;
    }
}

/// An account or a refusal, as plain values.
pub open spec fn outcome_view(r: Result<Account, String>) -> Result<AccountView, Seq<char>> {
    match r {
        Ok(a) => Ok(a@),
        Err(e) => Err(e@),
    }
}

/// What registration answers, checking in this order: the address, the
/// name, the workplace, the password (unless Google vouches for the user),
/// and that the address is not taken. The account holds the normalized
/// address and the trimmed name and workplace.
pub open spec fn register_outcome(
    db: Seq<AccountView>,
    email: Seq<char>,
    name: Seq<char>,
    workplace: Seq<char>,
    password: Seq<char>,
    google: bool,
) -> Result<AccountView, Seq<char>> {
    let e = normalized_email(email);
    let n = trim(name);
    let w = trim(workplace);
    if !email_shape_ok(e) {
        Err(MSG_BAD_EMAIL@)
    } else if !full_name_ok(n) {
        Err(MSG_BAD_NAME@)
    } else if w.len() < 2 {
        Err(MSG_BAD_WORKPLACE@)
    } else if !google && password.len() < 8 {
        Err(MSG_SHORT_PASSWORD@)
    } else if !google && strength(password) < 2 {
        Err(MSG_WEAK_PASSWORD@)
    } else if lookup(db, e) is Some {
        Err(MSG_EMAIL_TAKEN@)
    } else {
        Ok(
            AccountView {
                email: e,
                name: n,
                workplace: w,
                pass: if google {
                    None
                } else {
                    Some(password_digest(e, password))
                },
            },
        )
    }
}

/// The store after a registration: one account more when it succeeded.
pub open spec fn after_register(
    db: Seq<AccountView>,
    outcome: Result<AccountView, Seq<char>>,
) -> Seq<AccountView> {
    match outcome {
        Ok(a) => db.push(a),
        Err(_) => db,
    }
}

/// What a password login answers.
pub open spec fn login_outcome(db: Seq<AccountView>, email: Seq<char>, password: Seq<char>) -> Result<
    AccountView,
    Seq<char>,
> {
    let e = normalized_email(email);
    if !email_shape_ok(e) {
        Err(MSG_BAD_EMAIL@)
    } else {
        match lookup(db, e) {
            None => Err(MSG_NO_ACCOUNT@),
            Some(a) => match a.pass {
                None => Err(MSG_GOOGLE_ACCOUNT@),
                Some(h) => if h == password_digest(e, password) {
                    Ok(a)
                } else {
                    Err(MSG_WRONG_PASSWORD@)
                },
            },
        }
    }
}

/// What a Google login answers: any account with the address, whether it
/// was opened with a password or through Google.
pub open spec fn google_login_outcome(db: Seq<AccountView>, email: Seq<char>) -> Result<
    AccountView,
    Seq<char>,
> {
    match lookup(db, normalized_email(email)) {
        Some(a) => Ok(a),
        None => Err(MSG_GOOGLE_NOT_REGISTERED@),
    }
}

/// Opens a new account. `google` means the details come from a Google
/// account, so no password is asked for.
pub fn register(
    db: &mut AccountDb,
    email: &str,
    name: &str,
    workplace: &str,
    password: &str,
    google: bool,
) -> (r: Result<Account, String>)
    ensures
        outcome_view(r) == register_outcome(old(db)@, email@, name@, workplace@, password@, google),
        final(db)@ == after_register(old(db)@, outcome_view(r)),
        emails_unique(final(db)@),
{
    proof {
        use_type_invariant(&*db);
    }
    let email = norm_email(email);
    let nv = chars_of(name);
    let nt = trim_chars(&nv);
    let name = string_of(&nt);
    let wv = chars_of(workplace);
    let wt = trim_chars(&wv);
    let workplace = string_of(&wt);
    if !email_ok(email.as_str()) {
        return Err(MSG_BAD_EMAIL.to_owned());
    }
    if !name_ok(name.as_str()) {
        return Err(MSG_BAD_NAME.to_owned());
    }
    if wt.len() < 2 {
        return Err(MSG_BAD_WORKPLACE.to_owned());
    }
    let pass = if google {
        None
    } else {
        let pv = chars_of(password);
        if pv.len() < 8 {
            return Err(MSG_SHORT_PASSWORD.to_owned());
        }
        if password_score(password) < 2 {
            return Err(MSG_WEAK_PASSWORD.to_owned());
        }
        Some(digest(email.as_str(), password))
    };
    if db.find(&email).is_some() {
        return Err(MSG_EMAIL_TAKEN.to_owned());
    }
    let acc = Account { email, name, workplace, pass };
    db.insert(acc.clone());
    proof {
        use_type_invariant(&*db);
    }
    Ok(acc)
}

/// Signs in with address and password.
pub fn login(db: &AccountDb, email: &str, password: &str) -> (r: Result<Account, String>)
    ensures
        outcome_view(r) == login_outcome(db@, email@, password@),
{
    let email = norm_email(email);
    if !email_ok(email.as_str()) {
        return Err(MSG_BAD_EMAIL.to_owned());
    }
    match db.find(&email) {
        None => Err(MSG_NO_ACCOUNT.to_owned()),
        Some(i) => {
            let acc = db.get(i);
            match acc.pass {
                None => Err(MSG_GOOGLE_ACCOUNT.to_owned()),
                Some(h) => {
                    if h == digest(email.as_str(), password) {
                        Ok(acc)
                    } else {
                        Err(MSG_WRONG_PASSWORD.to_owned())
                    }
                },
            }
        },
    }
}

/// Signs in with a Google account. An account opened with a password is let
/// in too: Google has confirmed that the address belongs to its owner.
pub fn google_login(db: &AccountDb, email: &str) -> (r: Result<Account, String>)
    ensures
        outcome_view(r) == google_login_outcome(db@, email@),
{
    let email = norm_email(email);
    match db.find(&email) {
        Some(i) => Ok(db.get(i)),
        None => Err(MSG_GOOGLE_NOT_REGISTERED.to_owned()),
    }
}


/// What the form shows after registering or logging in: nothing when it
/// worked, the refusal otherwise.
pub fn auth_reply(r: &Result<Account, String>) -> (t: String)
    ensures
        t@ == (match r {
            Ok(_) => Seq::<char>::empty(),
            Err(e) => e@,
        }),
{
    match r {
        Ok(_) => String::new(),
        Err(e) => e.clone(),
    }
}

// ── laws of the account store ───────────────────────────────────────────────

/// What the store becomes by later registrations keeps every account it
/// had, in place: a registration only ever appends.
pub proof fn law_register_only_appends(
    db: Seq<AccountView>,
    email: Seq<char>,
    name: Seq<char>,
    workplace: Seq<char>,
    password: Seq<char>,
    google: bool,
)
    ensures
        db.is_prefix_of(
            after_register(db, register_outcome(db, email, name, workplace, password, google)),
        ),
{
    let after = after_register(db, register_outcome(db, email, name, workplace, password, google));
    assert(db =~= after.subrange(0, db.len() as int));
}

/// An account found in a store is still the one found once more accounts
/// are appended.
pub proof fn lemma_lookup_prefix(db: Seq<AccountView>, later: Seq<AccountView>, email: Seq<char>)
    requires
        db.is_prefix_of(later),
        lookup(db, email) is Some,
    ensures
        lookup(later, email) == lookup(db, email),
    decreases db.len(),
{
    assert(db[0] == later[0]);
    if db[0].email != email {
        assert(db.drop_first() =~= later.drop_first().subrange(0, db.len() - 1));
        lemma_lookup_prefix(db.drop_first(), later.drop_first(), email);
    }
}

/// After a successful registration with a password, logging in with that
/// password, under the address written in any form that normalizes to the
/// same, gives back the new account; in the store right after the
/// registration and in every store that grows from it.
pub proof fn law_register_then_login(
    db: Seq<AccountView>,
    email: Seq<char>,
    name: Seq<char>,
    workplace: Seq<char>,
    password: Seq<char>,
    email2: Seq<char>,
    later: Seq<AccountView>,
)
    requires
        register_outcome(db, email, name, workplace, password, false) is Ok,
        normalized_email(email2) == normalized_email(email),
        after_register(db, register_outcome(db, email, name, workplace, password, false)).is_prefix_of(
            later,
        ),
    ensures
        login_outcome(later, email2, password) == register_outcome(
            db,
            email,
            name,
            workplace,
            password,
            false,
        ),
{
    let a = register_outcome(db, email, name, workplace, password, false)->Ok_0;
    lemma_lookup_push(db, a, a.email);
    lemma_lookup_prefix(db.push(a), later, a.email);
}

/// After any successful registration, with or without a password, a Google
/// login under the same address gives back the new account; in the store
/// right after the registration and in every store that grows from it.
pub proof fn law_register_then_google_login(
    db: Seq<AccountView>,
    email: Seq<char>,
    name: Seq<char>,
    workplace: Seq<char>,
    password: Seq<char>,
    google: bool,
    email2: Seq<char>,
    later: Seq<AccountView>,
)
    requires
        register_outcome(db, email, name, workplace, password, google) is Ok,
        normalized_email(email2) == normalized_email(email),
        after_register(db, register_outcome(db, email, name, workplace, password, google)).is_prefix_of(
            later,
        ),
    ensures
        google_login_outcome(later, email2) == register_outcome(
            db,
            email,
            name,
            workplace,
            password,
            google,
        ),
{
    let a = register_outcome(db, email, name, workplace, password, google)->Ok_0;
    lemma_lookup_push(db, a, a.email);
    lemma_lookup_prefix(db.push(a), later, a.email);
}

/// An account opened through Google has no password: every password login
/// to it is refused with the hint to use Google.
pub proof fn law_google_account_refuses_passwords(
    db: Seq<AccountView>,
    email: Seq<char>,
    name: Seq<char>,
    workplace: Seq<char>,
    password: Seq<char>,
    email2: Seq<char>,
    any_password: Seq<char>,
)
    requires
        register_outcome(db, email, name, workplace, password, true) is Ok,
        normalized_email(email2) == normalized_email(email),
    ensures
        login_outcome(
            after_register(db, register_outcome(db, email, name, workplace, password, true)),
            email2,
            any_password,
        ) == Err::<AccountView, Seq<char>>(MSG_GOOGLE_ACCOUNT@),
{
    let a = register_outcome(db, email, name, workplace, password, true)->Ok_0;
    lemma_lookup_push(db, a, a.email);
}

/// Registration through Google asks for no password: the password given
/// makes no difference to the answer.
pub proof fn law_google_registration_ignores_password(
    db: Seq<AccountView>,
    email: Seq<char>,
    name: Seq<char>,
    workplace: Seq<char>,
    password: Seq<char>,
    other_password: Seq<char>,
)
    ensures
        register_outcome(db, email, name, workplace, password, true) == register_outcome(
            db,
            email,
            name,
            workplace,
            other_password,
            true,
        ),
{
}

/// An address can be registered once: every later registration under it,
/// whatever the other details, is refused.
pub proof fn law_email_registered_once(
    db: Seq<AccountView>,
    email: Seq<char>,
    name: Seq<char>,
    workplace: Seq<char>,
    password: Seq<char>,
    google: bool,
    email2: Seq<char>,
    name2: Seq<char>,
    workplace2: Seq<char>,
    password2: Seq<char>,
    google2: bool,
)
    requires
        register_outcome(db, email, name, workplace, password, google) is Ok,
        normalized_email(email2) == normalized_email(email),
    ensures
        register_outcome(
            after_register(db, register_outcome(db, email, name, workplace, password, google)),
            email2,
            name2,
            workplace2,
            password2,
            google2,
        ) is Err,
{
    let a = register_outcome(db, email, name, workplace, password, google)->Ok_0;
    lemma_lookup_push(db, a, a.email);
}

/// No address without an account can be logged into, by password or by
/// Google.
pub proof fn law_unknown_email_refused(
    db: Seq<AccountView>,
    email: Seq<char>,
    password: Seq<char>,
)
    requires
        forall|i: int| 0 <= i < db.len() ==> (#[trigger] db[i]).email != normalized_email(email),
    ensures
        login_outcome(db, email, password) is Err,
        google_login_outcome(db, email) is Err,
{
    lemma_lookup(db, normalized_email(email));
}

/// A password login lets in only an account of the store, under the
/// normalized address, whose stored digest is that of the given password.
pub proof fn law_login_checks_password(db: Seq<AccountView>, email: Seq<char>, password: Seq<char>)
    requires
        login_outcome(db, email, password) is Ok,
    ensures
        db.contains(login_outcome(db, email, password)->Ok_0),
        login_outcome(db, email, password)->Ok_0.email == normalized_email(email),
        login_outcome(db, email, password)->Ok_0.pass == Some(
            password_digest(normalized_email(email), password),
        ),
{
    lemma_lookup(db, normalized_email(email));
}

/// Registration keeps one account per address.
pub proof fn law_register_keeps_emails_unique(
    db: Seq<AccountView>,
    email: Seq<char>,
    name: Seq<char>,
    workplace: Seq<char>,
    password: Seq<char>,
    google: bool,
)
    requires
        emails_unique(db),
    ensures
        emails_unique(
            after_register(db, register_outcome(db, email, name, workplace, password, google)),
        ),
{
    let outcome = register_outcome(db, email, name, workplace, password, google);
    if let Ok(a) = outcome {
        lemma_lookup(db, a.email);
        let after = db.push(a);
        assert forall|i: int, j: int| 0 <= i < j < after.len() implies (#[trigger] after[i]).email
            != (#[trigger] after[j]).email by {
            if j == db.len() {
                assert(after[i] == db[i]);
            } else {
                assert(after[i] == db[i] && after[j] == db[j]);
            }
        }
    }
}


/// What every account of a store satisfies when only registration fills
/// it: its address has the shape of an e-mail address, its name is a full
/// name, its workplace has at least two characters; and no two accounts
/// share an address.
pub open spec fn store_well_formed(db: Seq<AccountView>) -> bool {
    &&& emails_unique(db)
    &&& forall|i: int|
        0 <= i < db.len() ==> {
            &&& email_shape_ok((#[trigger] db[i]).email)
            &&& full_name_ok(db[i].name)
            &&& db[i].workplace.len() >= 2
        }
}

/// Registration, whatever it answers, keeps a well-formed store well formed.
pub proof fn law_register_keeps_store_well_formed(
    db: Seq<AccountView>,
    email: Seq<char>,
    name: Seq<char>,
    workplace: Seq<char>,
    password: Seq<char>,
    google: bool,
)
    requires
        store_well_formed(db),
    ensures
        store_well_formed(
            after_register(db, register_outcome(db, email, name, workplace, password, google)),
        ),
{
    law_register_keeps_emails_unique(db, email, name, workplace, password, google);
    let outcome = register_outcome(db, email, name, workplace, password, google);
    if let Ok(a) = outcome {
        let after = db.push(a);
        assert forall|i: int| 0 <= i < after.len() implies {
            &&& email_shape_ok((#[trigger] after[i]).email)
            &&& full_name_ok(after[i].name)
            &&& after[i].workplace.len() >= 2
        } by {
            if i < db.len() {
                assert(after[i] == db[i]);
            }
        }
    }
}


// ── laws of the field checks ────────────────────────────────────────────────

/// An accepted address holds no white space: no character of the trimmed
/// address is white space.
pub proof fn law_email_has_no_white_space(e: Seq<char>)
    requires
        email_shape_ok(e),
    ensures
        forall|i: int| 0 <= i < trim(e).len() ==> !is_ws(#[trigger] trim(e)[i]),
{
}

/// Every word of an accepted full name, the first included, is longer than
/// two characters; so a name with a word of two characters or fewer is
/// refused, and the first name it greets with is longer than two characters.
pub proof fn law_name_words_all_long(n: Seq<char>)
    ensures
        full_name_ok(n) ==> forall|i: int|
            0 <= i < words(trim(n)).len() ==> (#[trigger] words(trim(n))[i]).len() > 2,
        full_name_ok(n) ==> first_word(n).len() > 2,
        (exists|i: int| 0 <= i < words(trim(n)).len() && (#[trigger] words(trim(n))[i]).len() <= 2)
            ==> !full_name_ok(n),
{
}

/// The case point needs both cases. Without a lower-case letter, or without
/// an upper-case letter, a password scores only its points for length, an
/// ASCII digit and a symbol, capped at 1 under eight characters and at 4
/// otherwise (0 when empty).
pub proof fn law_case_point_needs_both_cases(p: Seq<char>)
    requires
        (forall|i: int| 0 <= i < p.len() ==> !lower_case(#[trigger] p[i])) || (forall|i: int|
            0 <= i < p.len() ==> !upper_case(#[trigger] p[i])),
    ensures
        ({
            let pts = (if p.len() >= 8 {
                1int
            } else {
                0int
            }) + (if p.len() >= 12 {
                1int
            } else {
                0int
            }) + (if exists|i: int| 0 <= i < p.len() && is_ascii_digit(#[trigger] p[i]) {
                1int
            } else {
                0int
            }) + (if exists|i: int|
                0 <= i < p.len() && !(alphabetic(#[trigger] p[i]) || numeric(p[i])) {
                1int
            } else {
                0int
            });
            strength(p) == (if p.len() == 0 {
                0
            } else if p.len() < 8 {
                if pts < 1 {
                    pts
                } else {
                    1
                }
            } else if pts < 4 {
                pts
            } else {
                4
            })
        }),
{
    if has_lower(p) {
        let k = choose|k: int| 0 <= k < p.len() && lower_case(#[trigger] p[k]);
        assert(lower_case(p[k]));
    }
    if has_upper(p) {
        let k = choose|k: int| 0 <= k < p.len() && upper_case(#[trigger] p[k]);
        assert(upper_case(p[k]));
    }
}

/// Login compares passwords exactly as typed. For an account registered
/// with password `p`, a later password login with `q` (under the same
/// address, in the store right after registering or any store grown from
/// it) lets the user in exactly when a fresh `DefaultHasher`, fed the salt,
/// the normalized address and `q` itself (not some transformed form of it),
/// finishes on the value it finished on when fed `p`; otherwise it answers
/// that the password is wrong.
pub proof fn law_login_hashes_password_as_typed(
    db: Seq<AccountView>,
    email: Seq<char>,
    name: Seq<char>,
    workplace: Seq<char>,
    p: Seq<char>,
    q: Seq<char>,
    later: Seq<AccountView>,
)
    requires
        register_outcome(db, email, name, workplace, p, false) is Ok,
        after_register(db, register_outcome(db, email, name, workplace, p, false)).is_prefix_of(
            later,
        ),
    ensures
        ({
            let e = normalized_email(email);
            let same = DefaultHasher::spec_finish(tuple_hash_writes(DIGEST_SALT@, e, q))
                == DefaultHasher::spec_finish(tuple_hash_writes(DIGEST_SALT@, e, p));
            &&& same ==> login_outcome(later, email, q) == register_outcome(
                db,
                email,
                name,
                workplace,
                p,
                false,
            )
            &&& !same ==> login_outcome(later, email, q) == Err::<AccountView, Seq<char>>(
                MSG_WRONG_PASSWORD@,
            )
        }),
{
    let a = register_outcome(db, email, name, workplace, p, false)->Ok_0;
    lemma_lookup_push(db, a, a.email);
    lemma_lookup_prefix(db.push(a), later, a.email);
}

} // verus!
