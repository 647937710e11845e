//! The shop's search box and tag chips: which products of the catalogue
//! stay on screen.

use vstd::prelude::*;
use crate::text::{chars_of, lowercase, to_lowercase};

verus! {

broadcast use vstd::string::group_string_axioms;

/// What the filter reads of a product: its title and its tag.
pub struct ShopItem {
    pub title: String,
    pub tag: String,
}

/// `p` occurs in `s` at position `i`.
pub open spec fn occurs_at(s: Seq<char>, p: Seq<char>, i: int) -> bool {
    0 <= i && i + p.len() <= s.len() && s.subrange(i, i + p.len()) == p
}

/// `p` occurs somewhere in `s`, as `str::contains` asks.
pub open spec fn contains(s: Seq<char>, p: Seq<char>) -> bool {
    exists|i: int| #[trigger] occurs_at(s, p, i)
}

/// Whether `p` occurs in `s`.
pub fn contains_chars(s: &Vec<char>, p: &Vec<char>) -> (r: bool)
    ensures
        r == contains(s@, p@),
{
    if p.len() > s.len() {
        return false;
    }
    let last = s.len() - p.len();
    let mut i: usize = 0;
    while i <= last
        invariant
            last == s.len() - p.len(),
            i <= last + 1,
            forall|k: int| 0 <= k < i ==> !#[trigger] occurs_at(s@, p@, k),
        decreases last + 1 - i,
    {
        let mut j: usize = 0;
        while j < p.len() && s[i + j] == p[j]
            invariant
                i <= last,
                last == s.len() - p.len(),
                j <= p.len(),
                forall|m: int| 0 <= m < j ==> s@[i + m] == p@[m],
            decreases p.len() - j,
        {
            j = j + 1;
        }
        if j == p.len() {
            assert(s@.subrange(i as int, i + p.len()) =~= p@);
            assert(occurs_at(s@, p@, i as int));
            return true;
        }
        assert(s@.subrange(i as int, i + p.len())[j as int] != p@[j as int]);
        i = i + 1;
    }
    assert forall|k: int| !#[trigger] occurs_at(s@, p@, k) by {
        if 0 <= k && k + p.len() <= s.len() {
            assert(k < i);
        }
    }
    false
}

/// Whether a product with this title and tag stays on screen for the
/// lower-cased query `q` and lower-cased tag `tf`: an empty `tf` lets every
/// tag through, and an empty `q` every title.
pub open spec fn item_shown(title: Seq<char>, tag: Seq<char>, q: Seq<char>, tf: Seq<char>) -> bool {
    (tf.len() == 0 || lowercase(tag) == tf) && (q.len() == 0 || contains(lowercase(title), q))
}

/// The product at position `i` stays on screen.
pub open spec fn shown(items: Seq<ShopItem>, query: Seq<char>, tag: Seq<char>, i: int) -> bool {
    item_shown(items[i].title@, items[i].tag@, lowercase(query), lowercase(tag))
}

/// The positions of the products that stay on screen for search text
/// `query` and tag `tag`, in catalogue order. Both comparisons ignore case.
pub fn shop_filter(items: &Vec<ShopItem>, query: &str, tag: &str) -> (r: Vec<usize>)
    ensures
        forall|k: int| 0 <= k < r.len() ==> r@[k] < items.len() && shown(items@, query@, tag@, #[trigger] r@[k] as int),
        forall|k: int, l: int| 0 <= k < l < r.len() ==> #[trigger] r@[k] < #[trigger] r@[l],
        forall|i: int| 0 <= i < items.len() && shown(items@, query@, tag@, i) ==> r@.contains(i as usize),
{
    let q = to_lowercase(query);
    let tf = to_lowercase(tag);
    let qv = chars_of(q.as_str());
    let mut r: Vec<usize> = Vec::new();
    let mut i: usize = 0;
    while i < items.len()
        invariant
            i <= items.len(),
            q@ == lowercase(query@),
            tf@ == lowercase(tag@),
            qv@ == q@,
            forall|k: int| 0 <= k < r.len() ==> r@[k] < i && shown(items@, query@, tag@, #[trigger] r@[k] as int),
            forall|k: int, l: int| 0 <= k < l < r.len() ==> #[trigger] r@[k] < #[trigger] r@[l],
            forall|m: int| 0 <= m < i && shown(items@, query@, tag@, m) ==> r@.contains(m as usize),
        decreases items.len() - i,
    {
        let item = &items[i];
        let tag_ok = tf.as_str().is_empty() || to_lowercase(item.tag.as_str()) == tf;
        let title_ok = if qv.len() == 0 {
            true
        } else {
            let lt = to_lowercase(item.title.as_str());
            let tv = chars_of(lt.as_str());
            contains_chars(&tv, &qv)
        };
        let ghost before = r@;
        if tag_ok && title_ok {
            r.push(i);
            assert(r@[r.len() - 1] == i);
        }
        assert forall|m: int| 0 <= m < i + 1 && shown(items@, query@, tag@, m) implies r@.contains(m as usize) by {
            if m < i {
                let k = choose|k: int| 0 <= k < before.len() && before[k] == m as usize;
                assert(r@[k] == m as usize);
            } else {
                assert(r@[r.len() - 1] == i);
            }
        }
        i = i + 1;
    }
    r
}


/// Every character of `p` equals the character of `s` it lies over when `p`
/// is laid over `s` from position `i`.
pub open spec fn agrees_at(s: Seq<char>, p: Seq<char>, i: int) -> bool {
    0 <= i && i + p.len() <= s.len() && forall|j: int| 0 <= j < p.len() ==> s[i + j] == p[j]
}

proof fn lemma_occurs_iff_agrees(s: Seq<char>, p: Seq<char>, i: int)
    ensures
        occurs_at(s, p, i) <==> agrees_at(s, p, i),
{
    if occurs_at(s, p, i) {
        assert forall|j: int| 0 <= j < p.len() implies s[i + j] == p[j] by {
            assert(s.subrange(i, i + p.len())[j] == s[i + j]);
        }
    }
    if agrees_at(s, p, i) {
        assert(s.subrange(i, i + p.len()) =~= p);
    }
}

/// `contains` asks for the whole pattern: `p` is contained in `s` exactly
/// when at some position every character of `p`, the last one included,
/// equals the character of `s` it lies over.
pub proof fn law_contains_matches_every_character(s: Seq<char>, p: Seq<char>)
    ensures
        contains(s, p) <==> exists|i: int| #[trigger] agrees_at(s, p, i),
{
    if contains(s, p) {
        let i = choose|i: int| #[trigger] occurs_at(s, p, i);
        lemma_occurs_iff_agrees(s, p, i);
    }
    if exists|i: int| #[trigger] agrees_at(s, p, i) {
        let i = choose|i: int| #[trigger] agrees_at(s, p, i);
        lemma_occurs_iff_agrees(s, p, i);
    }
}

/// A product stays on screen for a non-empty search text only if its
/// lower-cased title holds all of the lower-cased search text, character
/// by character, at some position; and one whose lower-cased title does
/// stays on screen when its tag passes.
pub proof fn law_search_matches_whole_query(
    items: Seq<ShopItem>,
    query: Seq<char>,
    tag: Seq<char>,
    i: int,
)
    requires
        0 <= i < items.len(),
        lowercase(query).len() > 0,
    ensures
        shown(items, query, tag, i) ==> exists|k: int|
            #[trigger] agrees_at(lowercase(items[i].title@), lowercase(query), k),
        (exists|k: int| #[trigger] agrees_at(lowercase(items[i].title@), lowercase(query), k))
            && (lowercase(tag).len() == 0 || lowercase(items[i].tag@) == lowercase(tag))
            ==> shown(items, query, tag, i),
{
    law_contains_matches_every_character(lowercase(items[i].title@), lowercase(query));
}

} // verus!
