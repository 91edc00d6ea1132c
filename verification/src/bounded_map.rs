//! The boundary to `heapless`: the pattern names and the map that holds the
//! patterns under them.
//!
//! As in [`crate::bounded`], what a value holds is given a name, and each
//! method that the library calls gets a wrapper whose contract restates what
//! the method's source does. None of these contracts is proved.

use vstd::prelude::*;
use vstd::string::StringSliceAdditionalSpecFns;
use crate::recoil::RecoilPattern;
use crate::scan::first_index;

verus! {

#[verifier::external_type_specification]
#[verifier::external_body]
#[verifier::reject_recursive_types(K)]
#[verifier::reject_recursive_types(V)]
#[verifier::reject_recursive_types(S)]
pub struct ExIndexMap<K, V, S, const N: usize>(heapless::IndexMap<K, V, S, N>);

#[verifier::external_type_specification]
#[verifier::external_body]
#[verifier::reject_recursive_types(H)]
pub struct ExBuildHasherDefault<H>(hash32::BuildHasherDefault<H>);

#[verifier::external_type_specification]
#[verifier::external_body]
pub struct ExFnvHasher(hash32::FnvHasher);

/// `Clone` for `heapless::String`, as the derived `Clone` of a pattern
/// calls it. Nothing is claimed of the copy.
pub assume_specification<const N: usize>[ <heapless::String<N> as Clone>::clone ](
    s: &heapless::String<N>,
) -> (r: heapless::String<N>)
;

/// The UTF-8 bytes of the text that a pattern name holds.
pub uninterp spec fn name_bytes(s: heapless::String<32>) -> Seq<u8>;

/// The `(key, pattern)` slots of the map, in the order in which the map
/// hands them out: the order of insertion, but for what a removal moves.
pub uninterp spec fn pattern_slots(
    m: heapless::FnvIndexMap<heapless::String<32>, RecoilPattern, 16>,
) -> Seq<(heapless::String<32>, RecoilPattern)>;

/// The slots whose key spells `name`. The map compares keys by their text.
pub open spec fn keyed(name: Seq<u8>) -> spec_fn((heapless::String<32>, RecoilPattern)) -> bool {
    |slot: (heapless::String<32>, RecoilPattern)| name_bytes(slot.0) == name
}

/// The position of the slot for `name` in `slots`, or their number where
/// there is none.
pub open spec fn slot_of(slots: Seq<(heapless::String<32>, RecoilPattern)>, name: Seq<u8>) -> int {
    first_index(slots, keyed(name))
}

/// `slots` after the slot at `i` was taken out and the last slot put in its
/// place.
pub open spec fn swap_removed(slots: Seq<(heapless::String<32>, RecoilPattern)>, i: int) -> Seq<
    (heapless::String<32>, RecoilPattern),
> {
    slots.update(i, slots.last()).drop_last()
}

/// `heapless::String::new`: the empty name.
#[verifier::external_body]
pub(crate) fn name_new() -> (s: heapless::String<32>)
    ensures
        name_bytes(s) == Seq::<u8>::empty(),
{
    heapless::String::new()
}

/// `heapless::String::push_str`: appends the bytes of `piece` and returns
/// `Ok` where all of them fit within 32 bytes; otherwise changes nothing.
#[verifier::external_body]
pub(crate) fn name_push_str(s: &mut heapless::String<32>, piece: &str) -> (r: Result<(), ()>)
    ensures
        r is Ok <==> name_bytes(*old(s)).len() + piece.spec_bytes().len() <= 32,
        r is Ok ==> name_bytes(*final(s)) == name_bytes(*old(s)) + piece.spec_bytes(),
        r is Err ==> name_bytes(*final(s)) == name_bytes(*old(s)),
{
    s.push_str(piece)
}

/// `heapless::String::as_str`: the name as text.
#[verifier::external_body]
pub(crate) fn name_as_str(s: &heapless::String<32>) -> (text: &str)
    ensures
        text.spec_bytes() == name_bytes(*s),
{
    s.as_str()
}

/// `heapless::IndexMap::new`: a map without slots.
#[verifier::external_body]
pub(crate) fn patterns_new() -> (m: heapless::FnvIndexMap<heapless::String<32>, RecoilPattern, 16>)
    ensures
        pattern_slots(m).len() == 0,
{
    heapless::FnvIndexMap::new()
}

/// `heapless::IndexMap::insert`. Where a slot has the key's text, the
/// pattern in it is replaced and handed back; the slot keeps its key and its
/// place. Otherwise a slot is added behind the others while fewer than 16
/// are held; the full map hands key and pattern back and changes nothing.
#[verifier::external_body]
pub(crate) fn patterns_insert(
    m: &mut heapless::FnvIndexMap<heapless::String<32>, RecoilPattern, 16>,
    key: heapless::String<32>,
    pattern: RecoilPattern,
) -> (r: Result<Option<RecoilPattern>, (heapless::String<32>, RecoilPattern)>)
    ensures
        r is Err <==> slot_of(pattern_slots(*old(m)), name_bytes(key)) >= pattern_slots(
            *old(m),
        ).len() && pattern_slots(*old(m)).len() >= 16,
        r matches Err(back) ==> back == (key, pattern) && pattern_slots(*final(m))
            == pattern_slots(*old(m)),
        r matches Ok(Some(prev)) ==> slot_of(pattern_slots(*old(m)), name_bytes(key))
            < pattern_slots(*old(m)).len() && prev == pattern_slots(*old(m))[slot_of(
            pattern_slots(*old(m)),
            name_bytes(key),
        )].1 && pattern_slots(*final(m)) == pattern_slots(*old(m)).update(
            slot_of(pattern_slots(*old(m)), name_bytes(key)),
            (pattern_slots(*old(m))[slot_of(pattern_slots(*old(m)), name_bytes(key))].0, pattern),
        ),
        r matches Ok(None) ==> slot_of(pattern_slots(*old(m)), name_bytes(key)) >= pattern_slots(
            *old(m),
        ).len() && pattern_slots(*final(m)) == pattern_slots(*old(m)).push((key, pattern)),
{
    m.insert(key, pattern)
}

/// `heapless::IndexMap::remove`: takes out the slot that has the key's text
/// and hands its pattern back; the last slot takes the place of the one
/// removed. Without such a slot nothing changes.
#[verifier::external_body]
pub(crate) fn patterns_remove(
    m: &mut heapless::FnvIndexMap<heapless::String<32>, RecoilPattern, 16>,
    key: &heapless::String<32>,
) -> (r: Option<RecoilPattern>)
    ensures
        r is Some <==> slot_of(pattern_slots(*old(m)), name_bytes(*key)) < pattern_slots(
            *old(m),
        ).len(),
        r matches Some(taken) ==> taken == pattern_slots(*old(m))[slot_of(
            pattern_slots(*old(m)),
            name_bytes(*key),
        )].1 && pattern_slots(*final(m)) == swap_removed(
            pattern_slots(*old(m)),
            slot_of(pattern_slots(*old(m)), name_bytes(*key)),
        ),
        r is None ==> pattern_slots(*final(m)) == pattern_slots(*old(m)),
{
    m.remove(key)
}

/// `heapless::IndexMap::get`: the pattern in the slot that has the key's
/// text.
#[verifier::external_body]
pub(crate) fn patterns_get<'a>(
    m: &'a heapless::FnvIndexMap<heapless::String<32>, RecoilPattern, 16>,
    key: &heapless::String<32>,
) -> (r: Option<&'a RecoilPattern>)
    ensures
        r is Some <==> slot_of(pattern_slots(*m), name_bytes(*key)) < pattern_slots(*m).len(),
        r matches Some(found) ==> *found == pattern_slots(*m)[slot_of(
            pattern_slots(*m),
            name_bytes(*key),
        )].1,
{
    m.get(key)
}

/// `heapless::IndexMap::len`: the number of slots.
#[verifier::external_body]
pub(crate) fn patterns_len(m: &heapless::FnvIndexMap<heapless::String<32>, RecoilPattern, 16>) -> (n:
    usize)
    ensures
        n == pattern_slots(*m).len(),
{
    m.len()
}

/// `heapless::IndexMap::keys`, stepped to its `i`-th item: the key of slot
/// `i`.
#[verifier::external_body]
pub(crate) fn patterns_key_at<'a>(
    m: &'a heapless::FnvIndexMap<heapless::String<32>, RecoilPattern, 16>,
    i: usize,
) -> (r: Option<&'a heapless::String<32>>)
    ensures
        r is Some <==> i < pattern_slots(*m).len(),
        r matches Some(key) ==> *key == pattern_slots(*m)[i as int].0,
{
    m.keys().nth(i)
}

/// `heapless::IndexMap::values`, stepped to its `i`-th item: the pattern of
/// slot `i`.
#[verifier::external_body]
pub(crate) fn patterns_value_at<'a>(
    m: &'a heapless::FnvIndexMap<heapless::String<32>, RecoilPattern, 16>,
    i: usize,
) -> (r: Option<&'a RecoilPattern>)
    ensures
        r is Some <==> i < pattern_slots(*m).len(),
        r matches Some(pattern) ==> *pattern == pattern_slots(*m)[i as int].1,
{
    m.values().nth(i)
}

} // verus!
