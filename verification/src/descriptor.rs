//! HID report descriptors: the report field model and the single-pass parser
//! that produces it from descriptor bytes.

use vstd::prelude::*;
use crate::bounded::{
    field_items, fields_as_slice, fields_new, fields_push, size_rows, sizes_as_slice, sizes_new,
    sizes_push, sizes_row_mut,
};
use crate::scan::{first_index, lemma_first_index_is};

verus! {

/// Largest descriptor, in bytes, of which a copy is kept.
pub const MAX_DESCRIPTOR_SIZE: usize = 1024;

/// Largest number of report fields in one parsed descriptor.
pub const MAX_REPORT_ITEMS: usize = 64;

/// Direction of a report.
#[derive(Debug, Clone, Copy, PartialEq, Eq, Structural)]
pub enum ReportType {
    Input,
    Output,
    Feature,
}

/// HID usage page: the broad category of a control.
#[derive(Debug, Clone, Copy, PartialEq, Eq, Structural)]
pub enum UsagePage {
    GenericDesktop,
    SimulationControls,
    VRControls,
    SportControls,
    GameControls,
    GenericDevice,
    Keyboard,
    LED,
    Button,
    Ordinal,
    Telephony,
    Consumer,
    Digitizer,
    /// A page code outside `0x01..=0x0D`, kept as it was read.
    Unknown(u16),
}

/// The usage page that a 16-bit page code stands for.
pub open spec fn usage_page_of(code: u16) -> UsagePage {
    if code == 0x01 {
        UsagePage::GenericDesktop
    } else if code == 0x02 {
        UsagePage::SimulationControls
    } else if code == 0x03 {
        UsagePage::VRControls
    } else if code == 0x04 {
        UsagePage::SportControls
    } else if code == 0x05 {
        UsagePage::GameControls
    } else if code == 0x06 {
        UsagePage::GenericDevice
    } else if code == 0x07 {
        UsagePage::Keyboard
    } else if code == 0x08 {
        UsagePage::LED
    } else if code == 0x09 {
        UsagePage::Button
    } else if code == 0x0A {
        UsagePage::Ordinal
    } else if code == 0x0B {
        UsagePage::Telephony
    } else if code == 0x0C {
        UsagePage::Consumer
    } else if code == 0x0D {
        UsagePage::Digitizer
    } else {
        UsagePage::Unknown(code)
    }
}

impl From<u16> for UsagePage {
    fn from(value: u16) -> (page: Self) {
        match value {
            0x01 => UsagePage::GenericDesktop,
            0x02 => UsagePage::SimulationControls,
            0x03 => UsagePage::VRControls,
            0x04 => UsagePage::SportControls,
            0x05 => UsagePage::GameControls,
            0x06 => UsagePage::GenericDevice,
            0x07 => UsagePage::Keyboard,
            0x08 => UsagePage::LED,
            0x09 => UsagePage::Button,
            0x0A => UsagePage::Ordinal,
            0x0B => UsagePage::Telephony,
            0x0C => UsagePage::Consumer,
            0x0D => UsagePage::Digitizer,
            _ => UsagePage::Unknown(value),
        }
    }
}

impl vstd::std_specs::convert::FromSpecImpl<u16> for UsagePage {
    open spec fn obeys_from_spec() -> bool {
        true
    }

    open spec fn from_spec(value: u16) -> Self {
        usage_page_of(value)
    }
}

/// One control's identity: a usage page and an id within it.
#[derive(Debug, Clone, Copy, PartialEq, Eq, Structural)]
pub struct Usage {
    pub page: UsagePage,
    pub id: u16,
}

/// One decoded field of a report.
#[derive(Debug, Clone, Copy, PartialEq, Eq, Structural)]
pub struct ReportField {
    pub report_type: ReportType,
    /// 0 where the descriptor declares no report id.
    pub report_id: u8,
    pub usage: Usage,
    /// Position of the field's first bit within the report.
    pub bit_offset: u16,
    pub bit_size: u8,
    pub logical_min: i32,
    pub logical_max: i32,
    /// Relative values (mouse movement) rather than absolute ones.
    pub is_relative: bool,
    /// An array field (keyboard keys) rather than a variable.
    pub is_array: bool,
}

/// Why a descriptor was not accepted.
#[derive(Debug, Clone, Copy, PartialEq, Eq, Structural)]
pub enum ParseError {
    /// An item's header, length byte or payload runs past the end of the input.
    UnexpectedEnd,
    /// More fields than `MAX_REPORT_ITEMS` would have to be kept.
    TooManyFields,
    /// A parsed descriptor could not be stored.
    InvalidData,
}

/// A parsed descriptor.
#[derive(Clone)]
pub struct HidDescriptor {
    /// Every emitted report field, in the order of emission.
    pub fields: heapless::Vec<ReportField, MAX_REPORT_ITEMS>,
    /// Largest input report size in bytes seen for each report id.
    pub input_report_sizes: heapless::Vec<(u8, u16), 8>,
    /// Largest output report size in bytes seen for each report id.
    pub output_report_sizes: heapless::Vec<(u8, u16), 8>,
    pub is_keyboard: bool,
    pub is_mouse: bool,
    pub is_gamepad: bool,
}

/// What a parsed descriptor holds, as mathematical values.
pub struct DescriptorModel {
    pub fields: Seq<ReportField>,
    pub input_sizes: Seq<(u8, u16)>,
    pub output_sizes: Seq<(u8, u16)>,
    pub is_keyboard: bool,
    pub is_mouse: bool,
    pub is_gamepad: bool,
}

impl DescriptorModel {
    /// The descriptor with no fields, no sizes and no device type.
    pub open spec fn empty() -> DescriptorModel {
        DescriptorModel {
            fields: Seq::empty(),
            input_sizes: Seq::empty(),
            output_sizes: Seq::empty(),
            is_keyboard: false,
            is_mouse: false,
            is_gamepad: false,
        }
    }
}

impl View for HidDescriptor {
    type V = DescriptorModel;

    open spec fn view(&self) -> DescriptorModel {
        DescriptorModel {
            fields: field_items(self.fields),
            input_sizes: size_rows(self.input_report_sizes),
            output_sizes: size_rows(self.output_report_sizes),
            is_keyboard: self.is_keyboard,
            is_mouse: self.is_mouse,
            is_gamepad: self.is_gamepad,
        }
    }
}

impl HidDescriptor {
    /// The empty descriptor.
    pub fn new() -> (d: Self)
        ensures
            d@ == DescriptorModel::empty(),
    {
        HidDescriptor {
            fields: fields_new(),
            input_report_sizes: sizes_new(),
            output_report_sizes: sizes_new(),
            is_keyboard: false,
            is_mouse: false,
            is_gamepad: false,
        }
    }
}

/// What the parser carries from one item to the next.
pub struct ParserState {
    /// The descriptor built so far.
    pub descriptor: DescriptorModel,
    pub usage_page: u16,
    pub usage: u16,
    pub report_id: u8,
    /// The running bit offset; it is never reset between report ids.
    pub bit_offset: u16,
    pub logical_min: i32,
    pub logical_max: i32,
    /// Bits per field.
    pub report_size: u8,
    /// Fields per main item.
    pub report_count: u8,
}

impl ParserState {
    /// The state of a parser that has read nothing.
    pub open spec fn initial() -> ParserState {
        ParserState {
            descriptor: DescriptorModel::empty(),
            usage_page: 0,
            usage: 0,
            report_id: 0,
            bit_offset: 0,
            logical_min: 0,
            logical_max: 0,
            report_size: 0,
            report_count: 0,
        }
    }
}

/// Where a run of the parser stopped: the state it reached and, where it
/// gave up, the reason.
pub struct Outcome {
    pub state: ParserState,
    pub error: Option<ParseError>,
}

/// The run that reached `state` without an error.
pub open spec fn done(state: ParserState) -> Outcome {
    Outcome { state, error: None }
}

/// The run that gave up in `state` for the reason `error`.
pub open spec fn failed(state: ParserState, error: ParseError) -> Outcome {
    Outcome { state, error: Some(error) }
}

/// What a function returns for a run that ended with `error`.
pub open spec fn result_of(error: Option<ParseError>) -> Result<(), ParseError> {
    match error {
        None => Ok(()),
        Some(e) => Err(e),
    }
}

/// The low `bits` bits of `value`, read as a two's complement number.
pub open spec fn sign_extend_spec(value: u32, bits: u32) -> int {
    let modulus = vstd::arithmetic::power2::pow2(bits as nat) as int;
    let low = value as int % modulus;
    if 2 * low >= modulus {
        low - modulus
    } else {
        low
    }
}

/// The unsigned number that `bytes` spell, least significant byte first.
pub open spec fn le_value(bytes: Seq<u8>) -> nat
    decreases bytes.len(),
{
    if bytes.len() == 0 {
        0
    } else {
        bytes[0] as nat + 256 * le_value(bytes.drop_first())
    }
}

/// The payload-size selector in an item's header byte.
pub open spec fn header_size_code(header: u8) -> u8 {
    header & 0x03
}

/// The item type in a header byte: 0 main, 1 global, 2 local, 3 reserved.
pub open spec fn header_kind(header: u8) -> u8 {
    (header >> 2) & 0x03
}

/// The tag in a header byte.
pub open spec fn header_tag(header: u8) -> u8 {
    (header >> 4) & 0x0F
}

/// The running bit offset `offset` moved on by `bits`, kept within 16 bits.
pub open spec fn advance(offset: u16, bits: int) -> u16 {
    ((offset + bits) % 0x1_0000) as u16
}

/// The number of whole bytes that hold `bits` bits.
pub open spec fn bytes_for(bits: u16) -> u16 {
    ((bits + 7) / 8) as u16
}

/// The rows of a size table that belong to report id `id`.
pub open spec fn row_for(id: u8) -> spec_fn((u8, u16)) -> bool {
    |row: (u8, u16)| row.0 == id
}

/// `table` after a report of `bytes` bytes was seen for report id `id`: the
/// first row for `id` keeps the larger size; an id not yet listed gets a row
/// of its own while there is room for one.
pub open spec fn record_size(table: Seq<(u8, u16)>, id: u8, bytes: u16) -> Seq<(u8, u16)> {
    let i = first_index(table, row_for(id));
    if i < table.len() {
        table.update(
            i,
            (
                table[i].0,
                if table[i].1 < bytes {
                    bytes
                } else {
                    table[i].1
                },
            ),
        )
    } else if table.len() < 8 {
        table.push((id, bytes))
    } else {
        table
    }
}

/// Bit 0 of an Input item's flags: the item is constant padding.
pub open spec fn input_is_constant(flags: u32) -> bool {
    flags & 0x01 != 0
}

/// The `j`-th field that an Input item with `flags` emits in state `st`.
pub open spec fn emitted_field(st: ParserState, flags: u32, j: int) -> ReportField {
    ReportField {
        report_type: ReportType::Input,
        report_id: st.report_id,
        usage: Usage { page: usage_page_of(st.usage_page), id: st.usage },
        bit_offset: advance(st.bit_offset, j * st.report_size),
        bit_size: st.report_size,
        logical_min: st.logical_min,
        logical_max: st.logical_max,
        is_relative: flags & 0x04 != 0,
        is_array: flags & 0x02 == 0,
    }
}

/// The number of fields that can still be kept.
pub open spec fn room(st: ParserState) -> int {
    if st.descriptor.fields.len() < 64 {
        64 - st.descriptor.fields.len()
    } else {
        0
    }
}

/// `st` after the first `n` fields of an Input item with `flags` were
/// emitted: the fields are appended and the offset has moved past them.
pub open spec fn emit_fields(st: ParserState, flags: u32, n: int) -> ParserState {
    ParserState {
        descriptor: DescriptorModel {
            fields: st.descriptor.fields + Seq::new(
                n as nat,
                |j: int| emitted_field(st, flags, j),
            ),
            ..st.descriptor
        },
        bit_offset: advance(st.bit_offset, n * st.report_size),
        ..st
    }
}

/// `st` with the offset moved past a whole main item,
/// `report_size * report_count` bits, and nothing emitted.
pub open spec fn skip_bits(st: ParserState) -> ParserState {
    ParserState { bit_offset: advance(st.bit_offset, st.report_size * st.report_count), ..st }
}

/// `st` with the size that the running offset amounts to recorded for the
/// current report id, in the table for `report_type`. Feature reports have
/// no table.
pub open spec fn record_report_size(st: ParserState, report_type: ReportType) -> ParserState {
    let bytes = bytes_for(st.bit_offset);
    match report_type {
        ReportType::Input => ParserState {
            descriptor: DescriptorModel {
                input_sizes: record_size(st.descriptor.input_sizes, st.report_id, bytes),
                ..st.descriptor
            },
            ..st
        },
        ReportType::Output => ParserState {
            descriptor: DescriptorModel {
                output_sizes: record_size(st.descriptor.output_sizes, st.report_id, bytes),
                ..st.descriptor
            },
            ..st
        },
        ReportType::Feature => st,
    }
}

/// An Input item. Constant padding emits nothing and moves the offset past
/// the item. Otherwise `report_count` fields are emitted, as far as there is
/// room; where there is not room for all, the run fails with
/// `TooManyFields`. An item that did not fail records the input report size.
pub open spec fn apply_input(st: ParserState, flags: u32) -> Outcome {
    if input_is_constant(flags) {
        done(record_report_size(skip_bits(st), ReportType::Input))
    } else if st.report_count <= room(st) {
        done(record_report_size(emit_fields(st, flags, st.report_count as int), ReportType::Input))
    } else {
        failed(emit_fields(st, flags, room(st)), ParseError::TooManyFields)
    }
}

/// An Output item: no field, the offset moves past the item, and the output
/// report size is recorded.
pub open spec fn apply_output(st: ParserState) -> ParserState {
    record_report_size(skip_bits(st), ReportType::Output)
}

/// A Feature item: the offset moves past the item and nothing else changes.
pub open spec fn apply_feature(st: ParserState) -> ParserState {
    skip_bits(st)
}

/// A main item. Collections and unknown tags change nothing.
pub open spec fn apply_main(st: ParserState, tag: u8, value: u32) -> Outcome {
    if tag == 0x08 {
        apply_input(st, value)
    } else if tag == 0x09 {
        done(apply_output(st))
    } else if tag == 0x0B {
        done(apply_feature(st))
    } else {
        done(st)
    }
}

/// A global item. Unknown tags change nothing.
pub open spec fn apply_global(st: ParserState, tag: u8, value: u32) -> ParserState {
    if tag == 0x00 {
        ParserState { usage_page: value as u16, ..st }
    } else if tag == 0x01 {
        ParserState { logical_min: sign_extend_spec(value, 32) as i32, ..st }
    } else if tag == 0x02 {
        ParserState { logical_max: sign_extend_spec(value, 32) as i32, ..st }
    } else if tag == 0x07 {
        ParserState { report_size: value as u8, ..st }
    } else if tag == 0x09 {
        ParserState { report_count: value as u8, ..st }
    } else if tag == 0x08 {
        ParserState { report_id: value as u8, ..st }
    } else {
        st
    }
}

/// A local item: only Usage is honoured.
pub open spec fn apply_local(st: ParserState, tag: u8, value: u32) -> ParserState {
    if tag == 0x00 {
        ParserState { usage: value as u16, ..st }
    } else {
        st
    }
}

/// One item of type `kind` with `tag` and payload value `value`.
pub open spec fn apply_item(st: ParserState, kind: u8, tag: u8, value: u32) -> Outcome {
    if kind == 0 {
        apply_main(st, tag, value)
    } else if kind == 1 {
        done(apply_global(st, tag, value))
    } else if kind == 2 {
        done(apply_local(st, tag, value))
    } else {
        done(st)
    }
}

/// What stands at a position of a descriptor.
pub enum Step {
    /// Nothing: the descriptor ends here.
    End,
    /// An item that does not fit in what is left of the descriptor.
    Cut,
    /// An item whose payload is read as a value; the next item stands at
    /// `next`.
    Item { kind: u8, tag: u8, value: u32, next: int },
    /// An item whose payload is passed over; the next item stands at `next`.
    Skip { next: int },
}

/// What stands at position `at` of `data`.
///
/// An item is a header byte, for size selector 3 a length byte, and the
/// payload. A payload of 0, 1, 2 or 4 bytes is read as a little-endian
/// value; one of another length is passed over.
pub open spec fn step_at(data: Seq<u8>, at: int) -> Step {
    if at < 0 || at >= data.len() {
        Step::End
    } else {
        let header = data[at];
        let long = header_size_code(header) == 3;
        if long && at + 1 >= data.len() {
            Step::Cut
        } else {
            let start = if long {
                at + 2
            } else {
                at + 1
            };
            let n: int = if long {
                data[at + 1] as int
            } else {
                header_size_code(header) as int
            };
            if start + n > data.len() {
                Step::Cut
            } else if n == 0 || n == 1 || n == 2 || n == 4 {
                Step::Item {
                    kind: header_kind(header),
                    tag: header_tag(header),
                    value: le_value(data.subrange(start, start + n)) as u32,
                    next: start + n,
                }
            } else {
                Step::Skip { next: start + n }
            }
        }
    }
}

/// The run over the items of `data` from position `at` on, begun in `st`.
/// Each item is applied in turn. An item that does not fit in what is left
/// of `data` ends the run with `UnexpectedEnd`, in the state before it.
pub open spec fn run_items(st: ParserState, data: Seq<u8>, at: int) -> Outcome
    decreases data.len() - at,
{
    match step_at(data, at) {
        Step::End => done(st),
        Step::Cut => failed(st, ParseError::UnexpectedEnd),
        Step::Skip { next } => run_items(st, data, next),
        Step::Item { kind, tag, value, next } => {
            let step = apply_item(st, kind, tag, value);
            if step.error is Some {
                step
            } else {
                run_items(step.state, data, next)
            }
        },
    }
}

/// The fields stand in the order of their bits: each ends where the next
/// begins or before, and the last ends at the running offset or before.
pub open spec fn in_order(st: ParserState) -> bool {
    &&& forall|i: int, j: int|
        0 <= i < j < st.descriptor.fields.len() ==> (#[trigger] st.descriptor.fields[i]).bit_offset
            + st.descriptor.fields[i].bit_size <= (#[trigger] st.descriptor.fields[j]).bit_offset
    &&& forall|i: int|
        0 <= i < st.descriptor.fields.len() ==> (#[trigger] st.descriptor.fields[i]).bit_offset
            + st.descriptor.fields[i].bit_size <= st.bit_offset
}

/// The item moves the running offset by `report_size * report_count` bits
/// at most, and that keeps the offset within 16 bits.
pub open spec fn item_in_range(st: ParserState, kind: u8, tag: u8) -> bool {
    kind == 0 && (tag == 0x08 || tag == 0x09 || tag == 0x0B) ==> st.bit_offset + st.report_size
        * st.report_count <= 0xFFFF
}

/// The run over `data` from `at` on, begun in `st`, keeps the running
/// offset within 16 bits at every item.
pub open spec fn stays_in_range(st: ParserState, data: Seq<u8>, at: int) -> bool
    decreases data.len() - at,
{
    match step_at(data, at) {
        Step::End => true,
        Step::Cut => true,
        Step::Skip { next } => stays_in_range(st, data, next),
        Step::Item { kind, tag, value, next } => {
            let step = apply_item(st, kind, tag, value);
            item_in_range(st, kind, tag) && (step.error is None ==> stays_in_range(
                step.state,
                data,
                next,
            ))
        },
    }
}

/// A field on the Keyboard page.
pub open spec fn is_keyboard_field(f: ReportField) -> bool {
    f.usage.page == UsagePage::Keyboard
}

/// A field on the Generic Desktop page whose usage is X, Y or Wheel.
pub open spec fn is_mouse_field(f: ReportField) -> bool {
    f.usage.page == UsagePage::GenericDesktop && (f.usage.id == 0x30 || f.usage.id == 0x31
        || f.usage.id == 0x38)
}

/// A field on the Button or the Game Controls page.
pub open spec fn is_gamepad_field(f: ReportField) -> bool {
    f.usage.page == UsagePage::Button || f.usage.page == UsagePage::GameControls
}

/// Some field of `fields` satisfies `p`.
pub open spec fn any_field(fields: Seq<ReportField>, p: spec_fn(ReportField) -> bool) -> bool {
    exists|i: int| 0 <= i < fields.len() && p(#[trigger] fields[i])
}

/// `st` with each device flag raised for which a field of `seen` speaks. A
/// flag that is already raised stays so.
pub open spec fn classify_seen(st: ParserState, seen: Seq<ReportField>) -> ParserState {
    let d = st.descriptor;
    ParserState {
        descriptor: DescriptorModel {
            is_keyboard: d.is_keyboard || any_field(seen, |f: ReportField| is_keyboard_field(f)),
            is_mouse: d.is_mouse || any_field(seen, |f: ReportField| is_mouse_field(f)),
            is_gamepad: d.is_gamepad || any_field(seen, |f: ReportField| is_gamepad_field(f)),
            ..d
        },
        ..st
    }
}

/// `st` with each device flag raised for which one of its fields speaks.
pub open spec fn classify(st: ParserState) -> ParserState {
    classify_seen(st, st.descriptor.fields)
}

/// A whole parse of `data` begun in `st`: the run over every item and, where
/// it did not fail, the classification of the device.
pub open spec fn parse_outcome(st: ParserState, data: Seq<u8>) -> Outcome {
    let run = run_items(st, data, 0);
    if run.error is Some {
        run
    } else {
        done(classify(run.state))
    }
}

/// What a fresh parser makes of `data`: the descriptor, or the reason for
/// which there is none.
pub open spec fn parse_spec(data: Seq<u8>) -> Result<DescriptorModel, ParseError> {
    let end = parse_outcome(ParserState::initial(), data);
    match end.error {
        None => Ok(end.state.descriptor),
        Some(e) => Err(e),
    }
}

/// The single-pass descriptor parser.
pub struct DescriptorParser {
    descriptor: HidDescriptor,
    current_usage_page: u16,
    current_usage: u16,
    current_report_id: u8,
    current_bit_offset: u16,
    logical_minimum: i32,
    logical_maximum: i32,
    report_size: u8,
    report_count: u8,
}

impl View for DescriptorParser {
    type V = ParserState;

    closed spec fn view(&self) -> ParserState {
        ParserState {
            descriptor: self.descriptor@,
            usage_page: self.current_usage_page,
            usage: self.current_usage,
            report_id: self.current_report_id,
            bit_offset: self.current_bit_offset,
            logical_min: self.logical_minimum,
            logical_max: self.logical_maximum,
            report_size: self.report_size,
            report_count: self.report_count,
        }
    }
}

/// Reads the low `bits` bits of `value` as a two's complement number.
pub fn sign_extend(value: u32, bits: u32) -> (r: i32)
    requires
        1 <= bits <= 32,
    ensures
        r == sign_extend_spec(value, bits),
{
    proof {
        vstd::arithmetic::power2::lemma2_to64();
    }
    if bits == 32 {
        if value >= 0x8000_0000 {
            (value as i64 - 0x1_0000_0000) as i32
        } else {
            value as i32
        }
    } else {
        proof {
            vstd::arithmetic::power2::lemma_pow2_strictly_increases(bits as nat, 32);
            vstd::bits::lemma_u32_shl_is_mul(1, bits);
        }
        let modulus: u32 = 1u32 << bits;
        let low: u32 = value % modulus;
        if low >= modulus - low {
            (low as i64 - modulus as i64) as i32
        } else {
            low as i32
        }
    }
}

/// Some field among the first `i + 1` satisfies `p` exactly if one among the
/// first `i` does or field `i` does.
proof fn lemma_any_field_next(fields: Seq<ReportField>, p: spec_fn(ReportField) -> bool, i: int)
    requires
        0 <= i < fields.len(),
    ensures
        any_field(fields.take(i + 1), p) == (any_field(fields.take(i), p) || p(fields[i])),
{
    let shorter = fields.take(i);
    let longer = fields.take(i + 1);
    if any_field(longer, p) {
        let k = choose|k: int| 0 <= k < longer.len() && p(#[trigger] longer[k]);
        if k < i {
            assert(p(shorter[k]));
        }
    }
    if any_field(shorter, p) {
        let k = choose|k: int| 0 <= k < shorter.len() && p(#[trigger] shorter[k]);
        assert(p(longer[k]));
    }
    if p(fields[i]) {
        assert(p(longer[i]));
    }
}

/// The values that one, two and four bytes spell.
proof fn lemma_le_value_short(bytes: Seq<u8>)
    ensures
        bytes.len() == 0 ==> le_value(bytes) == 0,
        bytes.len() == 1 ==> le_value(bytes) == bytes[0],
        bytes.len() == 2 ==> le_value(bytes) == bytes[0] + 256 * bytes[1],
        bytes.len() == 4 ==> le_value(bytes) == bytes[0] + 256 * bytes[1] + 65536 * bytes[2]
            + 16777216 * bytes[3],
{
    reveal_with_fuel(le_value, 5);
    if bytes.len() == 1 {
        assert(bytes.drop_first().len() == 0);
    } else if bytes.len() == 2 {
        let b1 = bytes.drop_first();
        assert(b1[0] == bytes[1]);
        assert(b1.drop_first().len() == 0);
    } else if bytes.len() == 4 {
        let b1 = bytes.drop_first();
        let b2 = b1.drop_first();
        let b3 = b2.drop_first();
        assert(b1[0] == bytes[1]);
        assert(b2[0] == bytes[2]);
        assert(b3[0] == bytes[3]);
        assert(b3.drop_first().len() == 0);
    }
}

/// Reads the payload of `n` bytes at position `at` as a little-endian value.
fn read_value(data: &[u8], at: usize, n: usize) -> (value: u32)
    requires
        n == 0 || n == 1 || n == 2 || n == 4,
        at + n <= data@.len(),
    ensures
        value == le_value(data@.subrange(at as int, at + n)),
{
    proof {
        lemma_le_value_short(data@.subrange(at as int, at + n));
    }
    if n == 0 {
        0
    } else if n == 1 {
        data[at] as u32
    } else if n == 2 {
        data[at] as u32 + 256 * (data[at + 1] as u32)
    } else {
        data[at] as u32 + 256 * (data[at + 1] as u32) + 65536 * (data[at + 2] as u32) + 16777216
            * (data[at + 3] as u32)
    }
}

/// Records in `sizes` that a report of `bytes` bytes was seen for `id`.
fn record_size_row(sizes: &mut heapless::Vec<(u8, u16), 8>, id: u8, bytes: u16)
    ensures
        size_rows(*final(sizes)) == record_size(size_rows(*old(sizes)), id, bytes),
{
    let ghost rows = size_rows(*sizes);
    let n: usize = sizes_as_slice(sizes).len();
    let mut i: usize = 0;
    while i < n && sizes_as_slice(sizes)[i].0 != id
        invariant
            i <= n,
            n == rows.len(),
            rows == size_rows(*sizes),
            forall|j: int| 0 <= j < i ==> (#[trigger] rows[j]).0 != id,
        decreases n - i,
    {
        i += 1;
    }
    proof {
        lemma_first_index_is(rows, row_for(id), i as int);
    }
    if i < n {
        let row = sizes_row_mut(sizes, i);
        if row.1 < bytes {
            row.1 = bytes;
        }
    } else {
        let _ = sizes_push(sizes, (id, bytes));
    }
}

impl DescriptorParser {
    /// A parser that has read nothing.
    pub fn new() -> (p: Self)
        ensures
            p@ == ParserState::initial(),
    {
        DescriptorParser {
            descriptor: HidDescriptor::new(),
            current_usage_page: 0,
            current_usage: 0,
            current_report_id: 0,
            current_bit_offset: 0,
            logical_minimum: 0,
            logical_maximum: 0,
            report_size: 0,
            report_count: 0,
        }
    }

    /// Global items: usage page, logical bounds, report size, count and id.
    fn handle_global_item(&mut self, tag: u8, value: u32) -> (r: Result<(), ParseError>)
        ensures
            r == result_of(None),
            final(self)@ == apply_global(old(self)@, tag, value),
    {
        match tag {
            0x00 => self.current_usage_page = value as u16,
            0x01 => self.logical_minimum = sign_extend(value, 32),
            0x02 => self.logical_maximum = sign_extend(value, 32),
            0x07 => self.report_size = value as u8,
            0x09 => self.report_count = value as u8,
            0x08 => self.current_report_id = value as u8,
            _ => {},
        }
        Ok(())
    }

    /// Local items: only Usage.
    fn handle_local_item(&mut self, tag: u8, value: u32) -> (r: Result<(), ParseError>)
        ensures
            r == result_of(None),
            final(self)@ == apply_local(old(self)@, tag, value),
    {
        match tag {
            0x00 => self.current_usage = value as u16,
            _ => {},
        }
        Ok(())
    }

    /// Main items: Input, Output, Feature, Collection and End Collection.
    fn handle_main_item(&mut self, tag: u8, value: u32) -> (r: Result<(), ParseError>)
        ensures
            final(self)@ == apply_main(old(self)@, tag, value).state,
            r == result_of(apply_main(old(self)@, tag, value).error),
    {
        match tag {
            0x08 => self.add_input_item(value),
            0x09 => self.add_output_item(value),
            0x0B => self.add_feature_item(value),
            0x0A => self.handle_collection(value),
            0x0C => self.handle_end_collection(),
            _ => Ok(()),
        }
    }

    /// Moves the running offset past a whole main item.
    fn skip_item_bits(&mut self)
        ensures
            final(self)@ == skip_bits(old(self)@),
    {
        assert(self.report_size * self.report_count <= 0xFFFF) by (nonlinear_arith)
            requires
                self.report_size <= 0xFF,
                self.report_count <= 0xFF,
        ;
        let bits: u16 = (self.report_size as u16) * (self.report_count as u16);
        self.current_bit_offset = self.current_bit_offset.wrapping_add(bits);
    }

    /// An Input item: data from the device to the host.
    fn add_input_item(&mut self, flags: u32) -> (r: Result<(), ParseError>)
        ensures
            final(self)@ == apply_input(old(self)@, flags).state,
            r == result_of(apply_input(old(self)@, flags).error),
    {
        let is_constant = (flags & 0x01) != 0;
        let is_relative = (flags & 0x04) != 0;
        let is_array = (flags & 0x02) == 0;

        if is_constant {
            self.skip_item_bits();
            self.update_report_size(ReportType::Input);
            return Ok(());
        }
        let ghost st = self@;
        let mut emitted: u8 = 0;
        proof {
            assert(st.descriptor.fields + Seq::new(0, |j: int| emitted_field(st, flags, j))
                =~= st.descriptor.fields);
        }
        while emitted < self.report_count
            invariant
                st == old(self)@,
                !input_is_constant(flags),
                emitted <= st.report_count,
                emitted <= room(st),
                self@ == emit_fields(st, flags, emitted as int),
                is_relative == (flags & 0x04 != 0),
                is_array == (flags & 0x02 == 0),
            decreases st.report_count - emitted,
        {
            let field = ReportField {
                report_type: ReportType::Input,
                report_id: self.current_report_id,
                usage: Usage { page: UsagePage::from(self.current_usage_page), id: self.current_usage },
                bit_offset: self.current_bit_offset,
                bit_size: self.report_size,
                logical_min: self.logical_minimum,
                logical_max: self.logical_maximum,
                is_relative,
                is_array,
            };
            assert(field == emitted_field(st, flags, emitted as int));
            let ghost before = field_items(self.descriptor.fields);
            if fields_push(&mut self.descriptor.fields, field).is_err() {
                assert(before.len() == st.descriptor.fields.len() + emitted);
                assert(room(st) == emitted);
                return Err(ParseError::TooManyFields);
            }
            self.current_bit_offset = self.current_bit_offset.wrapping_add(self.report_size as u16);
            proof {
                let n = emitted as int;
                assert((n + 1) * st.report_size == n * st.report_size + st.report_size)
                    by (nonlinear_arith);
                assert(n * st.report_size >= 0) by (nonlinear_arith)
                    requires
                        n >= 0,
                        st.report_size >= 0,
                ;
                assert(before.push(field) =~= st.descriptor.fields + Seq::new(
                    (n + 1) as nat,
                    |j: int| emitted_field(st, flags, j),
                ));
            }
            emitted += 1;
        }
        self.update_report_size(ReportType::Input);
        Ok(())
    }

    /// An Output item: data from the host to the device.
    fn add_output_item(&mut self, _flags: u32) -> (r: Result<(), ParseError>)
        ensures
            r == result_of(None),
            final(self)@ == apply_output(old(self)@),
    {
        self.skip_item_bits();
        self.update_report_size(ReportType::Output);
        Ok(())
    }

    /// A Feature item: configuration data in either direction.
    fn add_feature_item(&mut self, _flags: u32) -> (r: Result<(), ParseError>)
        ensures
            r == result_of(None),
            final(self)@ == apply_feature(old(self)@),
    {
        self.skip_item_bits();
        Ok(())
    }

    /// A Collection item: the hierarchy is not tracked.
    fn handle_collection(&mut self, _flags: u32) -> (r: Result<(), ParseError>)
        ensures
            r == result_of(None),
            final(self)@ == old(self)@,
    {
        Ok(())
    }

    /// An End Collection item: the hierarchy is not tracked.
    fn handle_end_collection(&mut self) -> (r: Result<(), ParseError>)
        ensures
            r == result_of(None),
            final(self)@ == old(self)@,
    {
        Ok(())
    }

    /// Raises the device flags for which a field speaks.
    fn detect_device_types(&mut self)
        ensures
            final(self)@ == classify(old(self)@),
    {
        let ghost st = self@;
        let n: usize = fields_as_slice(&self.descriptor.fields).len();
        let mut i: usize = 0;
        proof {
            assert(st.descriptor.fields.take(0).len() == 0);
        }
        while i < n
            invariant
                i <= n,
                n == st.descriptor.fields.len(),
                self@ == classify_seen(st, st.descriptor.fields.take(i as int)),
            decreases n - i,
        {
            let field = fields_as_slice(&self.descriptor.fields)[i];
            proof {
                let fields = st.descriptor.fields;
                lemma_any_field_next(fields, |f: ReportField| is_keyboard_field(f), i as int);
                lemma_any_field_next(fields, |f: ReportField| is_mouse_field(f), i as int);
                lemma_any_field_next(fields, |f: ReportField| is_gamepad_field(f), i as int);
            }
            match field.usage.page {
                UsagePage::Keyboard => self.descriptor.is_keyboard = true,
                UsagePage::GenericDesktop => {
                    if field.usage.id == 0x30 || field.usage.id == 0x31 || field.usage.id == 0x38 {
                        self.descriptor.is_mouse = true;
                    }
                },
                UsagePage::Button | UsagePage::GameControls => {
                    self.descriptor.is_gamepad = true;
                },
                _ => {},
            }
            i += 1;
        }
        proof {
            assert(st.descriptor.fields.take(n as int) =~= st.descriptor.fields);
        }
    }

    /// One item of type `item_type`: main, global or local; the reserved
    /// type changes nothing.
    fn handle_item(&mut self, item_type: u8, tag: u8, value: u32) -> (r: Result<(), ParseError>)
        ensures
            final(self)@ == apply_item(old(self)@, item_type, tag, value).state,
            r == result_of(apply_item(old(self)@, item_type, tag, value).error),
    {
        match item_type {
            0 => self.handle_main_item(tag, value),
            1 => self.handle_global_item(tag, value),
            2 => self.handle_local_item(tag, value),
            _ => Ok(()),
        }
    }

    /// Parses the descriptor `data`, continuing from the parser's state.
    ///
    /// On success every item of `data` has been applied and the device flags
    /// are set. On failure the parser stays as it stood when it gave up.
    pub fn parse(&mut self, data: &[u8]) -> (r: Result<(), ParseError>)
        ensures
            final(self)@ == parse_outcome(old(self)@, data@).state,
            r == result_of(parse_outcome(old(self)@, data@).error),
    {
        let mut i: usize = 0;
        while i < data.len()
            invariant
                i <= data.len(),
                run_items(old(self)@, data@, 0) == run_items(self@, data@, i as int),
            decreases data.len() - i,
        {
            let item_header = data[i];
            i += 1;

            let size = (item_header & 0x03) as usize;
            let item_type = (item_header >> 2) & 0x03;
            let tag = (item_header >> 4) & 0x0F;

            // Long items carry their length in a byte of its own.
            let actual_size = if size == 3 {
                if i >= data.len() {
                    return Err(ParseError::UnexpectedEnd);
                }
                let long_size = data[i] as usize;
                i += 1;
                long_size
            } else {
                size
            };

            if actual_size > data.len() - i {
                return Err(ParseError::UnexpectedEnd);
            }
            if actual_size == 0 || actual_size == 1 || actual_size == 2 || actual_size == 4 {
                let value = read_value(data, i, actual_size);
                i += actual_size;
                if let Err(e) = self.handle_item(item_type, tag, value) {
                    return Err(e);
                }
            } else {
                i += actual_size;
            }
        }

        self.detect_device_types();

        Ok(())
    }

    /// The descriptor built so far.
    pub fn descriptor(&self) -> (d: &HidDescriptor)
        ensures
            d@ == self@.descriptor,
    {
        &self.descriptor
    }

    /// Gives up the parser for the descriptor it built.
    pub fn into_descriptor(self) -> (d: HidDescriptor)
        ensures
            d@ == self@.descriptor,
    {
        self.descriptor
    }

    /// Records the report size that the running offset amounts to.
    fn update_report_size(&mut self, report_type: ReportType)
        ensures
            final(self)@ == record_report_size(old(self)@, report_type),
    {
        let size_bits = self.current_bit_offset;
        let size_bytes = ((size_bits as u32 + 7) / 8) as u16;
        match report_type {
            ReportType::Input => record_size_row(
                &mut self.descriptor.input_report_sizes,
                self.current_report_id,
                size_bytes,
            ),
            ReportType::Output => record_size_row(
                &mut self.descriptor.output_report_sizes,
                self.current_report_id,
                size_bytes,
            ),
            ReportType::Feature => {},
        }
    }
}

} // verus!
