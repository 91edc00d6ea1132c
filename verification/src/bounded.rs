//! The boundary to `heapless`: fixed-capacity vectors.
//!
//! Verus does not look inside a `heapless::Vec`. What a vector holds is given
//! a name per element type, and each method that the library calls gets a
//! small wrapper whose contract is stated over that name. None of these
//! contracts is proved: each restates what the method's source in `heapless`
//! does.

use vstd::prelude::*;
use vstd::string::StringSliceAdditionalSpecFns;
use crate::descriptor::ReportField;
use crate::descriptor_cache::CachedDescriptor;

verus! {

#[verifier::external_type_specification]
#[verifier::external_body]
#[verifier::reject_recursive_types(T)]
pub struct ExBoundedVec<T, const N: usize>(heapless::Vec<T, N>);

/// `Clone` for `heapless::Vec`, as the derived `Clone` of the descriptor
/// types calls it. Nothing is claimed of the copy.
pub assume_specification<T, const N: usize>[ <heapless::Vec<T, N> as Clone>::clone ](
    v: &heapless::Vec<T, N>,
) -> (r: heapless::Vec<T, N>)
    where
        T: Clone,
;

#[verifier::external_type_specification]
#[verifier::external_body]
pub struct ExBoundedString<const N: usize>(heapless::String<N>);

/// The report fields that a field list holds, first pushed first.
pub uninterp spec fn field_items(v: heapless::Vec<ReportField, 64>) -> Seq<ReportField>;

/// The `(report id, size in bytes)` rows that a size table holds, in the
/// order in which they were pushed.
pub uninterp spec fn size_rows(v: heapless::Vec<(u8, u16), 8>) -> Seq<(u8, u16)>;

/// `heapless::Vec::new`: an empty field list.
#[verifier::external_body]
pub(crate) fn fields_new() -> (v: heapless::Vec<ReportField, 64>)
    ensures
        field_items(v) == Seq::<ReportField>::empty(),
{
    heapless::Vec::new()
}

/// `heapless::Vec::push`: appends `item` and returns `Ok` while fewer than
/// 64 fields are held; otherwise hands `item` back and changes nothing.
#[verifier::external_body]
pub(crate) fn fields_push(v: &mut heapless::Vec<ReportField, 64>, item: ReportField) -> (r: Result<
    (),
    ReportField,
>)
    ensures
        r is Ok <==> field_items(*old(v)).len() < 64,
        r is Ok ==> field_items(*final(v)) == field_items(*old(v)).push(item),
        r is Err ==> field_items(*final(v)) == field_items(*old(v)),
        r matches Err(back) ==> back == item,
{
    v.push(item)
}

/// `heapless::Vec::as_slice`: the fields held, in order.
#[verifier::external_body]
pub(crate) fn fields_as_slice(v: &heapless::Vec<ReportField, 64>) -> (s: &[ReportField])
    ensures
        s@ == field_items(*v),
{
    v.as_slice()
}

/// `heapless::Vec::new`: an empty size table.
#[verifier::external_body]
pub(crate) fn sizes_new() -> (v: heapless::Vec<(u8, u16), 8>)
    ensures
        size_rows(v) == Seq::<(u8, u16)>::empty(),
{
    heapless::Vec::new()
}

/// `heapless::Vec::push`: appends `row` and returns `Ok` while fewer than 8
/// rows are held; otherwise hands `row` back and changes nothing.
#[verifier::external_body]
pub(crate) fn sizes_push(v: &mut heapless::Vec<(u8, u16), 8>, row: (u8, u16)) -> (r: Result<
    (),
    (u8, u16),
>)
    ensures
        r is Ok <==> size_rows(*old(v)).len() < 8,
        r is Ok ==> size_rows(*final(v)) == size_rows(*old(v)).push(row),
        r is Err ==> size_rows(*final(v)) == size_rows(*old(v)),
        r matches Err(back) ==> back == row,
{
    v.push(row)
}

/// `heapless::Vec::as_slice`: the rows held, in order.
#[verifier::external_body]
pub(crate) fn sizes_as_slice(v: &heapless::Vec<(u8, u16), 8>) -> (s: &[(u8, u16)])
    ensures
        s@ == size_rows(*v),
{
    v.as_slice()
}

/// `heapless::Vec::as_mut_slice`, indexed at `i`: a mutable borrow of row
/// `i`. When the borrow ends the table holds the row's last value at `i` and
/// is otherwise as before.
#[verifier::external_body]
pub(crate) fn sizes_row_mut(v: &mut heapless::Vec<(u8, u16), 8>, i: usize) -> (row: &mut (u8, u16))
    requires
        i < size_rows(*old(v)).len(),
    ensures
        *row == size_rows(*old(v))[i as int],
        size_rows(*final(v)) == size_rows(*old(v)).update(i as int, *final(row)),
{
    &mut v.as_mut_slice()[i]
}

/// The bytes that a descriptor copy holds, in order.
pub uninterp spec fn raw_bytes(v: heapless::Vec<u8, 1024>) -> Seq<u8>;

/// The entries that the cache's storage holds, in the order of their slots.
pub uninterp spec fn cache_slots(v: heapless::Vec<CachedDescriptor, 8>) -> Seq<CachedDescriptor>;

/// `heapless::Vec::new`: an empty byte vector.
#[verifier::external_body]
pub(crate) fn bytes_new() -> (v: heapless::Vec<u8, 1024>)
    ensures
        raw_bytes(v) == Seq::<u8>::empty(),
{
    heapless::Vec::new()
}

/// `heapless::Vec::push`: appends `byte` and returns `Ok` while fewer than
/// 1024 bytes are held; otherwise hands `byte` back and changes nothing.
#[verifier::external_body]
pub(crate) fn bytes_push(v: &mut heapless::Vec<u8, 1024>, byte: u8) -> (r: Result<(), u8>)
    ensures
        r is Ok <==> raw_bytes(*old(v)).len() < 1024,
        r is Ok ==> raw_bytes(*final(v)) == raw_bytes(*old(v)).push(byte),
        r is Err ==> raw_bytes(*final(v)) == raw_bytes(*old(v)),
        r matches Err(back) ==> back == byte,
{
    v.push(byte)
}

/// `heapless::Vec::as_slice`: the bytes held, in order.
#[verifier::external_body]
pub(crate) fn bytes_as_slice(v: &heapless::Vec<u8, 1024>) -> (s: &[u8])
    ensures
        s@ == raw_bytes(*v),
{
    v.as_slice()
}

/// `heapless::Vec::new`: storage with no entry.
#[verifier::external_body]
pub(crate) fn slots_new() -> (v: heapless::Vec<CachedDescriptor, 8>)
    ensures
        cache_slots(v) == Seq::<CachedDescriptor>::empty(),
{
    heapless::Vec::new()
}

/// `heapless::Vec::push`: appends `entry` and returns `Ok` while fewer than
/// 8 entries are held; otherwise hands `entry` back and changes nothing.
#[verifier::external_body]
pub(crate) fn slots_push(v: &mut heapless::Vec<CachedDescriptor, 8>, entry: CachedDescriptor) -> (r:
    Result<(), CachedDescriptor>)
    ensures
        r is Ok <==> cache_slots(*old(v)).len() < 8,
        r is Ok ==> cache_slots(*final(v)) == cache_slots(*old(v)).push(entry),
        r is Err ==> cache_slots(*final(v)) == cache_slots(*old(v)),
        r matches Err(back) ==> back == entry,
{
    v.push(entry)
}

/// `heapless::Vec::as_slice`: the entries held, in the order of their slots.
#[verifier::external_body]
pub(crate) fn slots_as_slice(v: &heapless::Vec<CachedDescriptor, 8>) -> (s: &[CachedDescriptor])
    ensures
        s@ == cache_slots(*v),
{
    v.as_slice()
}

/// `heapless::Vec::as_mut_slice`, indexed at `i`: a mutable borrow of the
/// entry in slot `i`. When the borrow ends the storage holds the entry's
/// last value in that slot and is otherwise as before.
#[verifier::external_body]
pub(crate) fn slots_entry_mut(v: &mut heapless::Vec<CachedDescriptor, 8>, i: usize) -> (entry:
    &mut CachedDescriptor)
    requires
        i < cache_slots(*old(v)).len(),
    ensures
        *entry == cache_slots(*old(v))[i as int],
        cache_slots(*final(v)) == cache_slots(*old(v)).update(i as int, *final(entry)),
{
    &mut v.as_mut_slice()[i]
}

/// `heapless::Vec::remove`: takes the entry out of slot `i` and moves the
/// entries behind it one slot down, keeping their order. It panics for an
/// `i` that is no slot, which `requires` leaves out.
#[verifier::external_body]
pub(crate) fn slots_remove(v: &mut heapless::Vec<CachedDescriptor, 8>, i: usize) -> (entry:
    CachedDescriptor)
    requires
        i < cache_slots(*old(v)).len(),
    ensures
        entry == cache_slots(*old(v))[i as int],
        cache_slots(*final(v)) == cache_slots(*old(v)).remove(i as int),
{
    v.remove(i)
}

/// `heapless::Vec::clear`: drops every entry.
#[verifier::external_body]
pub(crate) fn slots_clear(v: &mut heapless::Vec<CachedDescriptor, 8>)
    ensures
        cache_slots(*final(v)) == Seq::<CachedDescriptor>::empty(),
{
    v.clear()
}

/// The UTF-8 bytes of the text that a line of text holds.
pub uninterp spec fn text_bytes(s: heapless::String<128>) -> Seq<u8>;

/// `heapless::String::new`: the empty text.
#[verifier::external_body]
pub(crate) fn text_new() -> (s: heapless::String<128>)
    ensures
        text_bytes(s) == Seq::<u8>::empty(),
{
    heapless::String::new()
}

/// `heapless::String::push_str`: appends the bytes of `piece` and returns
/// `Ok` where all of them fit within 128 bytes; otherwise changes nothing.
#[verifier::external_body]
pub(crate) fn text_push_str(s: &mut heapless::String<128>, piece: &str) -> (r: Result<(), ()>)
    ensures
        r is Ok <==> text_bytes(*old(s)).len() + piece.spec_bytes().len() <= 128,
        r is Ok ==> text_bytes(*final(s)) == text_bytes(*old(s)) + piece.spec_bytes(),
        r is Err ==> text_bytes(*final(s)) == text_bytes(*old(s)),
{
    s.push_str(piece)
}

/// `heapless::String::push`: appends the UTF-8 encoding of `c` and returns
/// `Ok` where it fits within 128 bytes; otherwise changes nothing.
#[verifier::external_body]
pub(crate) fn text_push(s: &mut heapless::String<128>, c: char) -> (r: Result<(), ()>)
    ensures
        r is Ok <==> text_bytes(*old(s)).len() + vstd::utf8::encode_utf8(seq![c]).len() <= 128,
        r is Ok ==> text_bytes(*final(s)) == text_bytes(*old(s)) + vstd::utf8::encode_utf8(seq![c]),
        r is Err ==> text_bytes(*final(s)) == text_bytes(*old(s)),
{
    s.push(c)
}

/// `heapless::String::as_str`, then `str::as_bytes`: the bytes of the text.
#[verifier::external_body]
pub(crate) fn text_as_bytes(s: &heapless::String<128>) -> (b: &[u8])
    ensures
        b@ == text_bytes(*s),
{
    s.as_str().as_bytes()
}

/// The steps that a pattern's step list holds, in order.
pub uninterp spec fn step_values(v: heapless::Vec<i16, 64>) -> Seq<i16>;

/// `heapless::Vec::new`: an empty step list.
#[verifier::external_body]
pub(crate) fn steps_new() -> (v: heapless::Vec<i16, 64>)
    ensures
        step_values(v) == Seq::<i16>::empty(),
{
    heapless::Vec::new()
}

/// `heapless::Vec::push`: appends `step` and returns `Ok` while fewer than
/// 64 steps are held; otherwise hands `step` back and changes nothing.
#[verifier::external_body]
pub(crate) fn steps_push(v: &mut heapless::Vec<i16, 64>, step: i16) -> (r: Result<(), i16>)
    ensures
        r is Ok <==> step_values(*old(v)).len() < 64,
        r is Ok ==> step_values(*final(v)) == step_values(*old(v)).push(step),
        r is Err ==> step_values(*final(v)) == step_values(*old(v)),
        r matches Err(back) ==> back == step,
{
    v.push(step)
}

/// `heapless::Vec::as_slice`: the steps held, in order.
#[verifier::external_body]
pub(crate) fn steps_as_slice(v: &heapless::Vec<i16, 64>) -> (s: &[i16])
    ensures
        s@ == step_values(*v),
{
    v.as_slice()
}

} // verus!
