//! Sets of texts and maps between texts, kept in vectors.

use vstd::prelude::*;

use crate::json::str_equal;

verus! {

/// The set of the texts held in `v`.
pub open spec fn text_set(v: Seq<String>) -> Set<Seq<char>> {
    Set::new(|k: Seq<char>| exists|i: int| 0 <= i < v.len() && (#[trigger] v[i])@ == k)
}

/// The map that inserting the pairs of `v` one after the other gives: a later pair replaces
/// an earlier one with the same key.
pub open spec fn text_map(v: Seq<(String, String)>) -> Map<Seq<char>, Seq<char>>
    decreases v.len(),
{
    if v.len() == 0 {
        Map::empty()
    } else {
        text_map(v.drop_last()).insert(v.last().0@, v.last().1@)
    }
}

/// Whether `v` holds the text `s`.
pub fn set_contains(v: &Vec<String>, s: &str) -> (r: bool)
    ensures
        r == text_set(v@).contains(s@),
{
    let mut i: usize = 0;
    while i < v.len()
        invariant
            i <= v@.len(),
            forall|j: int| 0 <= j < i ==> (#[trigger] v@[j])@ != s@,
        decreases v@.len() - i,
    {
        if str_equal(v[i].as_str(), s) {
            assert(v@[i as int]@ == s@);
            return true;
        }
        i = i + 1;
    }
    false
}

/// Adds the text `s` to the set held in `v`.
pub fn set_insert(v: &mut Vec<String>, s: &str)
    ensures
        text_set(final(v)@) == text_set(old(v)@).insert(s@),
{
    if set_contains(v, s) {
        assert(text_set(v@).insert(s@) =~= text_set(v@));
        return;
    }
    let ghost before = v@;
    v.push(s.to_owned());
    assert forall|k: Seq<char>| #![auto] text_set(v@).contains(k) == text_set(before).insert(
        s@,
    ).contains(k) by {
        if text_set(before).contains(k) {
            let i = choose|i: int| 0 <= i < before.len() && (#[trigger] before[i])@ == k;
            assert(v@[i] == before[i]);
        }
        if text_set(v@).contains(k) {
            let i = choose|i: int| 0 <= i < v@.len() && (#[trigger] v@[i])@ == k;
            if i < before.len() {
                assert(v@[i] == before[i]);
            }
        }
        if k == s@ {
            assert(v@[before.len() as int]@ == k);
        }
    }
    assert(text_set(v@) =~= text_set(before).insert(s@));
}

/// Takes the text `s` out of the set held in `v`.
pub fn set_remove(v: &mut Vec<String>, s: &str)
    ensures
        text_set(final(v)@) == text_set(old(v)@).remove(s@),
{
    let ghost before = v@;
    let mut kept: Vec<String> = Vec::new();
    let mut i: usize = 0;
    while i < v.len()
        invariant
            v@ == before,
            i <= before.len(),
            forall|j: int| 0 <= j < kept@.len() ==> (#[trigger] kept@[j])@ != s@,
            forall|j: int|
                0 <= j < kept@.len() ==> exists|l: int|
                    0 <= l < i && (#[trigger] before[l])@ == (#[trigger] kept@[j])@,
            forall|l: int|
                0 <= l < i && (#[trigger] before[l])@ != s@ ==> exists|j: int|
                    0 <= j < kept@.len() && (#[trigger] kept@[j])@ == before[l]@,
        decreases before.len() - i,
    {
        let ghost old_kept = kept@;
        if !str_equal(v[i].as_str(), s) {
            let ghost len = kept@.len();
            kept.push(v[i].as_str().to_owned());
            assert(kept@[len as int]@ == before[i as int]@);
            assert forall|j: int| 0 <= j < kept@.len() implies exists|l: int|
                0 <= l < i + 1 && (#[trigger] before[l])@ == (#[trigger] kept@[j])@ by {
                if j < len {
                    let l = choose|l: int| 0 <= l < i && (#[trigger] before[l])@ == kept@[j]@;
                    assert(before[l]@ == kept@[j]@);
                } else {
                    assert(before[i as int]@ == kept@[j]@);
                }
            }
        }
        assert forall|l: int| 0 <= l < i + 1 && (#[trigger] before[l])@ != s@ implies exists|j: int|
            0 <= j < kept@.len() && (#[trigger] kept@[j])@ == before[l]@ by {
            if l < i {
                let j = choose|j: int| 0 <= j < old_kept.len() && (#[trigger] old_kept[j])@ == before[l]@;
                assert(kept@[j] == old_kept[j]);
            } else {
                assert(kept@[old_kept.len() as int]@ == before[l]@);
            }
        }
        i = i + 1;
    }
    *v = kept;
    assert forall|k: Seq<char>| #![auto] text_set(v@).contains(k) == text_set(before).remove(
        s@,
    ).contains(k) by {
        if text_set(v@).contains(k) {
            let j = choose|j: int| 0 <= j < v@.len() && (#[trigger] v@[j])@ == k;
            let l = choose|l: int| 0 <= l < before.len() && (#[trigger] before[l])@ == v@[j]@;
            assert(before[l]@ == k);
        }
        if text_set(before).remove(s@).contains(k) {
            let l = choose|l: int| 0 <= l < before.len() && (#[trigger] before[l])@ == k;
            let j = choose|j: int| 0 <= j < v@.len() && (#[trigger] v@[j])@ == before[l]@;
            assert(v@[j]@ == k);
        }
    }
    assert(text_set(v@) =~= text_set(before).remove(s@));
}

/// Sets `key` to `value` in the map held in `v`.
pub fn map_insert(v: &mut Vec<(String, String)>, key: &str, value: &str)
    ensures
        text_map(final(v)@) == text_map(old(v)@).insert(key@, value@),
{
    let ghost before = v@;
    v.push((key.to_owned(), value.to_owned()));
    assert(v@.drop_last() =~= before);
}

/// The value of `key` in the map held in `v`.
pub fn map_get(v: &Vec<(String, String)>, key: &str) -> (r: Option<String>)
    ensures
        match r {
            Some(x) => text_map(v@).contains_key(key@) && text_map(v@)[key@] == x@,
            None => !text_map(v@).contains_key(key@),
        },
{
    let mut i: usize = v.len();
    assert(v@.take(i as int) =~= v@);
    while i > 0
        invariant
            i <= v@.len(),
            text_map(v@).contains_key(key@) == text_map(v@.take(i as int)).contains_key(key@),
            text_map(v@).contains_key(key@) ==> text_map(v@)[key@] == text_map(
                v@.take(i as int),
            )[key@],
        decreases i,
    {
        let ghost prefix = v@.take(i as int);
        assert(prefix.drop_last() =~= v@.take(i - 1));
        assert(prefix.last() == v@[i - 1]);
        if str_equal(v[i - 1].0.as_str(), key) {
            return Some(v[i - 1].1.as_str().to_owned());
        }
        i = i - 1;
    }
    assert(text_map(v@.take(0)) == Map::<Seq<char>, Seq<char>>::empty());
    None
}

} // verus!
