//! Lists of (key, value) pairs of text in which a later pair overrides an
//! earlier one with the same key.

use vstd::prelude::*;

verus! {

/// The value of the last pair of `pairs` whose key is `key`.
pub open spec fn last_value(pairs: Seq<(Seq<char>, Seq<char>)>, key: Seq<char>) -> Option<
    Seq<char>,
>
    decreases pairs.len(),
{
    if pairs.len() == 0 {
        None
    } else if pairs.last().0 == key {
        Some(pairs.last().1)
    } else {
        last_value(pairs.drop_last(), key)
    }
}

/// The keys that occur in `pairs`.
pub open spec fn keys_of(pairs: Seq<(Seq<char>, Seq<char>)>) -> Set<Seq<char>> {
    Set::new(|key: Seq<char>| exists|i: int| 0 <= i < pairs.len() && #[trigger] pairs[i].0 == key)
}

/// A key has a last value exactly where it occurs.
pub proof fn lemma_last_value_some(pairs: Seq<(Seq<char>, Seq<char>)>, key: Seq<char>)
    ensures
        last_value(pairs, key) is Some <==> keys_of(pairs).contains(key),
    decreases pairs.len(),
{
    if pairs.len() != 0 {
        let front = pairs.drop_last();
        lemma_last_value_some(front, key);
        if pairs.last().0 == key {
            assert(pairs[pairs.len() - 1].0 == key);
        } else if keys_of(front).contains(key) {
            let i = choose|i: int| 0 <= i < front.len() && #[trigger] front[i].0 == key;
            assert(pairs[i].0 == key);
        } else if keys_of(pairs).contains(key) {
            let i = choose|i: int| 0 <= i < pairs.len() && #[trigger] pairs[i].0 == key;
            assert(front[i].0 == key);
        }
    }
}

/// Finds the value of the last pair of `pairs` whose key is `key`.
pub fn find_last(pairs: &Vec<(String, String)>, key: &str) -> (found: Option<String>)
    ensures
        found.deep_view() == last_value(pairs.deep_view(), key@),
{
    let wanted = key.to_owned();
    let mut i: usize = pairs.len();
    assert(pairs.deep_view().take(i as int) =~= pairs.deep_view());
    while i > 0
        invariant
            i <= pairs.len(),
            wanted@ == key@,
            last_value(pairs.deep_view(), key@) == last_value(
                pairs.deep_view().take(i as int),
                key@,
            ),
        decreases i,
    {
        assert(pairs.deep_view().take(i as int).drop_last() =~= pairs.deep_view().take(i - 1));
        if pairs[i - 1].0 == wanted {
            return Some(pairs[i - 1].1.clone());
        }
        i -= 1;
    }
    None
}

} // verus!
