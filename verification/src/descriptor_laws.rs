//! What holds of every parse: laws of the descriptor parser, proved from the
//! definitions in [`crate::descriptor`].

use vstd::prelude::*;
use crate::descriptor::{
    advance, any_field, apply_input, apply_item, emit_fields, emitted_field, in_order,
    input_is_constant, is_gamepad_field, is_keyboard_field, is_mouse_field, item_in_range,
    parse_outcome, parse_spec, room, run_items, stays_in_range, step_at, DescriptorModel,
    ParseError, ParserState, ReportField, Step,
};

verus! {

/// No item touches the device flags: a run leaves them as it found them.
pub proof fn lemma_run_keeps_flags(st: ParserState, data: Seq<u8>, at: int)
    ensures
        run_items(st, data, at).state.descriptor.is_keyboard == st.descriptor.is_keyboard,
        run_items(st, data, at).state.descriptor.is_mouse == st.descriptor.is_mouse,
        run_items(st, data, at).state.descriptor.is_gamepad == st.descriptor.is_gamepad,
    decreases data.len() - at,
{
    match step_at(data, at) {
        Step::End => {},
        Step::Cut => {},
        Step::Skip { next } => {
            lemma_run_keeps_flags(st, data, next);
        },
        Step::Item { kind, tag, value, next } => {
            let step = apply_item(st, kind, tag, value);
            if step.error is None {
                lemma_run_keeps_flags(step.state, data, next);
            }
        },
    }
}

/// The device flags of a freshly parsed descriptor say exactly which kinds
/// of field it holds: `is_keyboard` that there is a field on the Keyboard
/// page, `is_mouse` that there is a Generic Desktop field with usage X, Y or
/// Wheel, `is_gamepad` that there is a field on the Button or the Game
/// Controls page. Each flag is independent of the other two and of whatever
/// else the descriptor holds.
pub proof fn lemma_device_flags(data: Seq<u8>, d: DescriptorModel)
    requires
        parse_spec(data) == Ok::<DescriptorModel, ParseError>(d),
    ensures
        d.is_keyboard == any_field(d.fields, |f: ReportField| is_keyboard_field(f)),
        d.is_mouse == any_field(d.fields, |f: ReportField| is_mouse_field(f)),
        d.is_gamepad == any_field(d.fields, |f: ReportField| is_gamepad_field(f)),
{
    lemma_run_keeps_flags(ParserState::initial(), data, 0);
}

/// A constant Input item appends no field and does not fail; it moves the
/// running bit offset on by `report_size * report_count`, which is the plain
/// sum wherever that fits in 16 bits.
pub proof fn lemma_constant_input(st: ParserState, flags: u32)
    requires
        input_is_constant(flags),
    ensures
        apply_input(st, flags).error is None,
        apply_input(st, flags).state.descriptor.fields == st.descriptor.fields,
        apply_input(st, flags).state.bit_offset == advance(
            st.bit_offset,
            st.report_size * st.report_count,
        ),
        st.bit_offset + st.report_size * st.report_count <= 0xFFFF ==> apply_input(
            st,
            flags,
        ).state.bit_offset == st.bit_offset + st.report_size * st.report_count,
{
    assert(st.report_size * st.report_count >= 0) by (nonlinear_arith)
        requires
            st.report_size >= 0,
            st.report_count >= 0,
    ;
}

/// A data Input item for which there is room appends exactly `report_count`
/// fields behind those already there. The `j`-th of them stands
/// `j * report_size` bits behind the running offset, within 16 bits.
pub proof fn lemma_input_appends(st: ParserState, flags: u32)
    requires
        !input_is_constant(flags),
        st.report_count <= room(st),
    ensures
        apply_input(st, flags).error is None,
        apply_input(st, flags).state.descriptor.fields.len() == st.descriptor.fields.len()
            + st.report_count,
        apply_input(st, flags).state.descriptor.fields.take(st.descriptor.fields.len() as int)
            == st.descriptor.fields,
        forall|j: int|
            0 <= j < st.report_count ==> #[trigger] apply_input(
                st,
                flags,
            ).state.descriptor.fields[st.descriptor.fields.len() + j] == emitted_field(
                st,
                flags,
                j,
            ),
{
    let out = apply_input(st, flags).state.descriptor.fields;
    assert(out.take(st.descriptor.fields.len() as int) =~= st.descriptor.fields);
}

/// Where the fields of a data Input item end within 16 bits, their bit
/// offsets ascend from the running offset in steps of `report_size`.
pub proof fn lemma_input_offsets_ascend(st: ParserState, flags: u32)
    requires
        !input_is_constant(flags),
        st.report_count <= room(st),
        st.bit_offset + st.report_count * st.report_size <= 0xFFFF,
    ensures
        forall|j: int|
            0 <= j < st.report_count ==> (#[trigger] apply_input(
                st,
                flags,
            ).state.descriptor.fields[st.descriptor.fields.len() + j]).bit_offset
                == st.bit_offset + j * st.report_size,
        forall|j: int|
            0 <= j && j + 1 < st.report_count ==> (#[trigger] apply_input(
                st,
                flags,
            ).state.descriptor.fields[st.descriptor.fields.len() + j + 1]).bit_offset
                == apply_input(st, flags).state.descriptor.fields[st.descriptor.fields.len()
                + j].bit_offset + st.report_size,
{
    lemma_input_appends(st, flags);
    let base = st.descriptor.fields.len() as int;
    let out = apply_input(st, flags).state.descriptor.fields;
    assert forall|j: int| 0 <= j < st.report_count implies (#[trigger] out[base + j]).bit_offset
        == st.bit_offset + j * st.report_size by {
        assert(out[base + j] == emitted_field(st, flags, j));
        assert(0 <= j * st.report_size <= st.report_count * st.report_size) by (nonlinear_arith)
            requires
                0 <= j < st.report_count,
                st.report_size >= 0,
        ;
    }
    assert forall|j: int| 0 <= j && j + 1 < st.report_count implies (#[trigger] out[base + j
        + 1]).bit_offset == out[base + j].bit_offset + st.report_size by {
        assert(out[base + (j + 1)].bit_offset == st.bit_offset + (j + 1) * st.report_size);
        assert(out[base + j].bit_offset == st.bit_offset + j * st.report_size);
        assert((j + 1) * st.report_size == j * st.report_size + st.report_size)
            by (nonlinear_arith);
    }
}

/// At a position within the first `n` bytes of `data`, those bytes alone
/// show the item that `data` shows, or an item that is cut off.
pub proof fn lemma_step_prefix(data: Seq<u8>, n: int, at: int)
    requires
        0 <= at < n <= data.len(),
    ensures
        step_at(data.take(n), at) == step_at(data, at) || step_at(data.take(n), at) == Step::Cut,
{
    let pre = data.take(n);
    let header = data[at];
    assert(pre[at] == header);
    let long = crate::descriptor::header_size_code(header) == 3;
    if long && at + 1 >= n {
    } else {
        if long {
            assert(pre[at + 1] == data[at + 1]);
        }
        let start = if long {
            at + 2
        } else {
            at + 1
        };
        let len: int = if long {
            data[at + 1] as int
        } else {
            crate::descriptor::header_size_code(header) as int
        };
        if start + len <= n {
            assert(pre.subrange(start, start + len) =~= data.subrange(start, start + len));
        }
    }
}

/// A run over the first `n` bytes of `data` goes the way of the run over all
/// of `data` until the bytes end: where the whole run does not fail, the
/// shorter one does not fail either or ends with `UnexpectedEnd`.
pub proof fn lemma_run_prefix(st: ParserState, data: Seq<u8>, n: int, at: int)
    requires
        0 <= at,
        0 <= n <= data.len(),
        run_items(st, data, at).error is None,
    ensures
        run_items(st, data.take(n), at).error is None || run_items(st, data.take(n), at).error
            == Some(ParseError::UnexpectedEnd),
    decreases data.len() - at,
{
    if at < n {
        lemma_step_prefix(data, n, at);
        match step_at(data.take(n), at) {
            Step::End => {},
            Step::Cut => {},
            Step::Skip { next } => {
                lemma_run_prefix(st, data, n, next);
            },
            Step::Item { kind, tag, value, next } => {
                lemma_run_prefix(apply_item(st, kind, tag, value).state, data, n, next);
            },
        }
    }
}

/// Parsing the first `n` bytes of a descriptor that parses succeeds or ends
/// with `UnexpectedEnd`, for every `n` up to the descriptor's length.
pub proof fn lemma_prefix_parse(data: Seq<u8>, n: int)
    requires
        parse_spec(data) is Ok,
        0 <= n <= data.len(),
    ensures
        parse_spec(data.take(n)) is Ok || parse_spec(data.take(n)) == Err::<
            DescriptorModel,
            ParseError,
        >(ParseError::UnexpectedEnd),
{
    lemma_run_prefix(ParserState::initial(), data, n, 0);
    let whole = parse_outcome(ParserState::initial(), data);
    let part = parse_outcome(ParserState::initial(), data.take(n));
    assert(whole.error is None);
}

/// An item that keeps the running offset within 16 bits keeps the fields
/// in the order of their bits: what it emits begins at the running offset
/// or behind it, and padding moves the offset on without emitting.
pub proof fn lemma_item_keeps_order(st: ParserState, kind: u8, tag: u8, value: u32)
    requires
        in_order(st),
        item_in_range(st, kind, tag),
    ensures
        in_order(apply_item(st, kind, tag, value).state),
{
    let out = apply_item(st, kind, tag, value).state;
    let size = st.report_size as int;
    let count = st.report_count as int;
    assert(0 <= size * count) by (nonlinear_arith)
        requires
            0 <= size,
            0 <= count,
    ;
    if kind == 0 && tag == 0x08 && !input_is_constant(value) {
        let n: int = if count <= room(st) {
            count
        } else {
            room(st)
        };
        let emitted = emit_fields(st, value, n);
        let base = st.descriptor.fields.len() as int;
        assert(0 <= n * size <= size * count) by (nonlinear_arith)
            requires
                0 <= n <= count,
                0 <= size,
        ;
        assert forall|j: int| 0 <= j < n implies (#[trigger] emitted.descriptor.fields[base
            + j]).bit_offset == st.bit_offset + j * size && emitted.descriptor.fields[base
            + j].bit_size == size by {
            assert(emitted.descriptor.fields[base + j] == emitted_field(st, value, j));
            assert(0 <= j * size <= n * size) by (nonlinear_arith)
                requires
                    0 <= j < n,
                    0 <= size,
            ;
        }
        assert forall|i: int, j: int| 0 <= i < j < emitted.descriptor.fields.len() implies (
        #[trigger] emitted.descriptor.fields[i]).bit_offset + emitted.descriptor.fields[i].bit_size
            <= (#[trigger] emitted.descriptor.fields[j]).bit_offset by {
            if j >= base {
                assert(emitted.descriptor.fields[base + (j - base)].bit_offset == st.bit_offset
                    + (j - base) * size);
                if i >= base {
                    assert(emitted.descriptor.fields[base + (i - base)].bit_offset
                        == st.bit_offset + (i - base) * size);
                    assert((i - base) * size + size <= (j - base) * size) by (nonlinear_arith)
                        requires
                            i < j,
                            0 <= size,
                    ;
                } else {
                    assert(emitted.descriptor.fields[i] == st.descriptor.fields[i]);
                    assert(0 <= (j - base) * size) by (nonlinear_arith)
                        requires
                            0 <= j - base,
                            0 <= size,
                    ;
                }
            } else {
                assert(emitted.descriptor.fields[i] == st.descriptor.fields[i]);
                assert(emitted.descriptor.fields[j] == st.descriptor.fields[j]);
            }
        }
        assert forall|i: int| 0 <= i < emitted.descriptor.fields.len() implies (
        #[trigger] emitted.descriptor.fields[i]).bit_offset + emitted.descriptor.fields[i].bit_size
            <= emitted.bit_offset by {
            if i >= base {
                assert(emitted.descriptor.fields[base + (i - base)].bit_offset == st.bit_offset
                    + (i - base) * size);
                assert((i - base) * size + size <= n * size) by (nonlinear_arith)
                    requires
                        i - base < n,
                        0 <= size,
                ;
            } else {
                assert(emitted.descriptor.fields[i] == st.descriptor.fields[i]);
            }
        }
        assert(in_order(emitted));
        assert(out.descriptor.fields == emitted.descriptor.fields);
        assert(out.bit_offset == emitted.bit_offset);
    }
}

/// A run that keeps the running offset within 16 bits keeps the fields in
/// the order of their bits.
pub proof fn lemma_run_keeps_order(st: ParserState, data: Seq<u8>, at: int)
    requires
        in_order(st),
        stays_in_range(st, data, at),
    ensures
        in_order(run_items(st, data, at).state),
    decreases data.len() - at,
{
    match step_at(data, at) {
        Step::End => {},
        Step::Cut => {},
        Step::Skip { next } => {
            lemma_run_keeps_order(st, data, next);
        },
        Step::Item { kind, tag, value, next } => {
            lemma_item_keeps_order(st, kind, tag, value);
            let step = apply_item(st, kind, tag, value);
            if step.error is None {
                lemma_run_keeps_order(step.state, data, next);
            }
        },
    }
}

/// The fields of a parsed descriptor stand in the order of their bits, as
/// long as the running offset stayed within 16 bits: each field ends where
/// the next begins or before, so that the offsets of fields that hold a bit
/// at all strictly increase.
pub proof fn lemma_parsed_fields_in_order(data: Seq<u8>, d: DescriptorModel)
    requires
        parse_spec(data) == Ok::<DescriptorModel, ParseError>(d),
        stays_in_range(ParserState::initial(), data, 0),
    ensures
        forall|i: int, j: int|
            0 <= i < j < d.fields.len() ==> (#[trigger] d.fields[i]).bit_offset
                + d.fields[i].bit_size <= (#[trigger] d.fields[j]).bit_offset,
        forall|i: int, j: int|
            0 <= i < j < d.fields.len() && d.fields[i].bit_size > 0 ==> (
            #[trigger] d.fields[i]).bit_offset < (#[trigger] d.fields[j]).bit_offset,
{
    lemma_run_keeps_order(ParserState::initial(), data, 0);
}

} // verus!
