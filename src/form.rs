//! Form-urlencoded texts (query strings) as lists of key/value pairs.
use vstd::prelude::*;
use crate::text::str_eq;

verus! {

/// The key/value pairs that a form-urlencoded text decodes to, in order;
/// `None` when it does not decode.
pub uninterp spec fn form_pairs(s: Seq<char>) -> Option<Seq<(Seq<char>, Seq<char>)>>;

pub open spec fn pairs_view(v: Seq<(String, String)>) -> Seq<(Seq<char>, Seq<char>)> {
    v.map_values(|p: (String, String)| (p.0@, p.1@))
}

/// Relies on `serde_urlencoded::from_str` into a sequence of string pairs: the
/// decoded pairs depend on the text alone; its error becomes `None`.
#[verifier::external_body]
pub(crate) fn decode_form(s: &str) -> (r: Option<Vec<(String, String)>>)
    ensures
        match r {
            Some(v) => form_pairs(s@) == Some(pairs_view(v@)),
            None => form_pairs(s@) is None,
        },
{
    serde_urlencoded::from_str::<Vec<(String, String)>>(s).ok()
}

/// The value of the last pair with key `key`, as a map built from the pairs
/// keeps it.
pub open spec fn query_value(pairs: Seq<(Seq<char>, Seq<char>)>, key: Seq<char>) -> Option<
    Seq<char>,
>
    decreases pairs.len(),
{
    if pairs.len() == 0 {
        None
    } else if pairs.last().0 == key {
        Some(pairs.last().1)
    } else {
        query_value(pairs.drop_last(), key)
    }
}

/// The value of the last pair with key `key`.
pub fn lookup_key(pairs: &Vec<(String, String)>, key: &str) -> (r: Option<String>)
    ensures
        match query_value(pairs_view(pairs@), key@) {
            Some(v) => r is Some && r.unwrap()@ == v,
            None => r is None,
        },
{
    let ghost pv = pairs_view(pairs@);
    let mut i: usize = pairs.len();
    assert(pv.subrange(0, i as int) =~= pv);
    while i > 0
        invariant
            i <= pairs.len(),
            pv == pairs_view(pairs@),
            query_value(pv, key@) == query_value(pv.subrange(0, i as int), key@),
        decreases i,
    {
        let ghost pre = pv.subrange(0, i as int);
        assert(pre.drop_last() =~= pv.subrange(0, i - 1));
        assert(pre.last() == (pairs@[i - 1].0@, pairs@[i - 1].1@));
        if str_eq(pairs[i - 1].0.as_str(), key) {
            return Some(pairs[i - 1].1.clone());
        }
        i = i - 1;
    }
    None
}

/// How many pairs have key `key`.
pub open spec fn key_count(pairs: Seq<(Seq<char>, Seq<char>)>, key: Seq<char>) -> nat
    decreases pairs.len(),
{
    if pairs.len() == 0 {
        0
    } else {
        key_count(pairs.drop_last(), key) + if pairs.last().0 == key {
            1nat
        } else {
            0nat
        }
    }
}

/// Counts the pairs with key `key`.
pub fn count_key(pairs: &Vec<(String, String)>, key: &str) -> (r: usize)
    ensures
        r == key_count(pairs_view(pairs@), key@),
{
    let ghost pv = pairs_view(pairs@);
    let mut n: usize = 0;
    let mut i: usize = 0;
    while i < pairs.len()
        invariant
            i <= pairs.len(),
            pv == pairs_view(pairs@),
            n == key_count(pv.subrange(0, i as int), key@),
            n <= i,
        decreases pairs.len() - i,
    {
        let ghost pre = pv.subrange(0, i + 1);
        assert(pre.drop_last() =~= pv.subrange(0, i as int));
        assert(pre.last() == (pairs@[i as int].0@, pairs@[i as int].1@));
        if str_eq(pairs[i].0.as_str(), key) {
            n = n + 1;
        }
        i = i + 1;
    }
    assert(pv.subrange(0, pairs.len() as int) =~= pv);
    n
}

/// A key that occurs has a value.
pub proof fn lemma_counted_key_has_value(pairs: Seq<(Seq<char>, Seq<char>)>, key: Seq<char>)
    ensures
        key_count(pairs, key) > 0 ==> query_value(pairs, key) is Some,
    decreases pairs.len(),
{
    if pairs.len() > 0 {
        lemma_counted_key_has_value(pairs.drop_last(), key);
    }
}

} // verus!
