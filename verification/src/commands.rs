//! What each command line means: the grammar of the host's commands and the
//! reaction that every line calls for, as mathematical definitions. The
//! command processor in [`crate::protocol`] is verified against them.

use vstd::prelude::*;
use vstd::wrapping::i16_specs::wrapping_sub;
use crate::descriptor::{parse_spec, DescriptorModel};
use crate::descriptor_cache::{CacheModel, CacheStats};
use crate::protocol::{hex_value, i16_text, leading_digits, wrapped_value};
use crate::recoil::{
    add_refusal, index_of, recoil_add, recoil_name, with_pattern, without_pattern, PatternModel,
};
use crate::saturating::clamp_i16;
use crate::scan::first_index;
use crate::text::{ascii, decimal_digits, decimal_value, equal_to, numeral};

verus! {

/// What the command processor holds, as mathematical values.
pub struct ProcessorModel {
    /// The bytes of the line that is being received.
    pub pending: Seq<u8>,
    pub patterns: Seq<PatternModel>,
    /// The pointer's position.
    pub x: i16,
    pub y: i16,
    /// The response that waits to be fetched; empty where there is none.
    pub response: Seq<u8>,
}

/// What a line asks the caller to do.
pub enum Action {
    /// Send a frame with this command code and payload to the FPGA.
    Frame { code: u8, payload: Seq<u8> },
    /// Fetch the response.
    Response,
    /// Restart the device.
    Restart,
    /// Nothing.
    NoOp,
}

/// Where a line leaves the processor and the descriptor cache, and what it
/// asks the caller to do.
pub struct Reaction {
    pub processor: ProcessorModel,
    pub cache: CacheModel,
    pub action: Action,
}

/// `line` begins with `prefix`.
pub open spec fn has_prefix(line: Seq<u8>, prefix: Seq<u8>) -> bool {
    line.len() >= prefix.len() && line.take(prefix.len() as int) == prefix
}

/// The first `limit` bytes of `text`, or all of it where it is shorter.
pub open spec fn clip(text: Seq<u8>, limit: int) -> Seq<u8> {
    if text.len() <= limit {
        text
    } else {
        text.take(limit)
    }
}

/// `out` with `piece` behind it, as far as the response buffer of 256 bytes
/// takes it.
pub open spec fn append(out: Seq<u8>, piece: Seq<u8>) -> Seq<u8> {
    clip(out + piece, 256)
}

/// The bytes that end a line: line feed and carriage return.
pub open spec fn ends_line() -> spec_fn(u8) -> bool {
    |b: u8| b == 0x0A || b == 0x0D
}

/// The signed number at the start of `text`, within 16 bits.
pub open spec fn int_value(text: Seq<u8>) -> i16 {
    wrapped_value(numeral(text).negative, numeral(text).digits)
}

/// The unsigned number at the very start of `text`, within 8 bits; none
/// where `text` does not start with a digit.
pub open spec fn u8_value(text: Seq<u8>) -> Option<u8> {
    if leading_digits(text).len() == 0 {
        None
    } else {
        Some((decimal_value(leading_digits(text)) % 256) as u8)
    }
}

/// The low eight bits of `v`.
pub open spec fn low_byte(v: i16) -> u8 {
    (v & 0xFF) as u8
}

/// The frame that injects a mouse report: command 0x11 with buttons, x, y,
/// wheel and a pan of 0.
pub open spec fn mouse_frame(buttons: u8, dx: u8, dy: u8, wheel: u8) -> Action {
    Action::Frame { code: 0x11, payload: seq![buttons, dx, dy, wheel, 0u8] }
}

/// What stands between the first `skip` bytes of `line` and the first `)`
/// behind them; none where there is no `)`.
pub open spec fn arguments(line: Seq<u8>, skip: int) -> Option<Seq<u8>> {
    let args = line.skip(skip);
    let close = first_index(args, equal_to(0x29));
    if close >= args.len() {
        None
    } else {
        Some(args.take(close))
    }
}

/// The two numbers of the arguments `x,y`; none without a comma.
pub open spec fn number_pair(args: Seq<u8>) -> Option<(i16, i16)> {
    let comma = first_index(args, equal_to(0x2C));
    if comma >= args.len() {
        None
    } else {
        Some((int_value(args.take(comma)), int_value(args.skip(comma + 1))))
    }
}

/// `nozen.move(x,y)`: the pointer moves by `(x, y)`, its position stopping
/// at the bounds of `i16`, and the movement is sent on.
pub open spec fn run_move(m: ProcessorModel, line: Seq<u8>) -> (ProcessorModel, Action) {
    match arguments(line, 11) {
        None => (m, Action::NoOp),
        Some(args) => match number_pair(args) {
            None => (m, Action::NoOp),
            Some((x, y)) => (
                ProcessorModel { x: clamp_i16(m.x + x), y: clamp_i16(m.y + y), ..m },
                mouse_frame(0, low_byte(x), low_byte(y), 0),
            ),
        },
    }
}

/// `nozen.moveto(x,y)`: the pointer is set to `(x, y)`, and the way there
/// from its position is sent on.
pub open spec fn run_moveto(m: ProcessorModel, line: Seq<u8>) -> (ProcessorModel, Action) {
    match arguments(line, 13) {
        None => (m, Action::NoOp),
        Some(args) => match number_pair(args) {
            None => (m, Action::NoOp),
            Some((x, y)) => (
                ProcessorModel { x, y, ..m },
                mouse_frame(0, low_byte(wrapping_sub(x, m.x)), low_byte(wrapping_sub(y, m.y)), 0),
            ),
        },
    }
}

/// A button command such as `nozen.left(1)`: the button of `mask` is
/// pressed where the first argument byte is `1`, and released otherwise.
pub open spec fn run_button(line: Seq<u8>, mask: u8, skip: int) -> Action {
    match arguments(line, skip) {
        None => Action::NoOp,
        Some(args) => mouse_frame(
            if line[skip] == 0x31 {
                mask
            } else {
                0
            },
            0,
            0,
            0,
        ),
    }
}

/// `nozen.wheel(amount)`: the wheel turns by `amount`.
pub open spec fn run_wheel(line: Seq<u8>) -> Action {
    match arguments(line, 12) {
        None => Action::NoOp,
        Some(args) => mouse_frame(0, 0, 0, low_byte(int_value(args))),
    }
}

/// The answer to `nozen.getpos`: `km.pos(x,y)` and a line feed.
pub open spec fn position_text(x: i16, y: i16) -> Seq<u8> {
    ascii("km.pos(") + i16_text(x) + seq![0x2Cu8] + i16_text(y) + seq![0x29u8, 0x0Au8]
}

/// The answer to `nozen.print(message)`: the message, at most 254 bytes of
/// it, and a line feed. There is none without a `)`.
pub open spec fn print_text(line: Seq<u8>) -> Option<Seq<u8>> {
    if line.len() <= 12 {
        None
    } else {
        match arguments(line, 12) {
            None => None,
            Some(message) => Some(clip(message, 254) + seq![0x0Au8]),
        }
    }
}

/// The name that a command gives as text: the bytes where they are UTF-8,
/// and `???` where they are not.
pub open spec fn name_text(name: Seq<u8>) -> Seq<u8> {
    if vstd::utf8::valid_utf8(name) {
        name
    } else {
        ascii("???")
    }
}

/// `nozen.recoil.add(name){steps}`: the pattern is added or replaced, and
/// the answer says so or gives the reason for which it was refused.
pub open spec fn run_recoil_add(m: ProcessorModel, line: Seq<u8>) -> ProcessorModel {
    match recoil_add(line) {
        None => ProcessorModel { response: ascii("Invalid recoil.add format\n"), ..m },
        Some(cmd) => match add_refusal(m.patterns, name_text(cmd.name), cmd.steps) {
            None => ProcessorModel {
                patterns: with_pattern(m.patterns, name_text(cmd.name), cmd.steps),
                response: ascii("Recoil pattern added\n"),
                ..m
            },
            Some(reason) => ProcessorModel {
                response: ascii("Error: ") + clip(vstd::utf8::encode_utf8(reason), 240) + seq![
                    0x0Au8,
                ],
                ..m
            },
        },
    }
}

/// `nozen.recoil.delete(name)`: the pattern is dropped, and the answer says
/// whether there was one.
pub open spec fn run_recoil_delete(m: ProcessorModel, line: Seq<u8>) -> ProcessorModel {
    match recoil_name(line, 19) {
        None => ProcessorModel { response: ascii("Invalid delete format\n"), ..m },
        Some(name) => if index_of(m.patterns, name_text(name)) < m.patterns.len() {
            ProcessorModel {
                patterns: without_pattern(m.patterns, name_text(name)),
                response: ascii("Pattern deleted\n"),
                ..m
            }
        } else {
            ProcessorModel { response: ascii("Pattern not found\n"), ..m }
        },
    }
}

/// `out` with the steps of `steps` from number `i` on behind it, separated
/// by commas, for as long as 10 bytes are left in the buffer before a step.
pub open spec fn append_steps(out: Seq<u8>, steps: Seq<i16>, i: int) -> Seq<u8>
    decreases steps.len() - i,
{
    if i < 0 || i >= steps.len() || out.len() + 10 > 256 {
        out
    } else {
        append_steps(
            append(
                if i > 0 {
                    append(out, seq![0x2Cu8])
                } else {
                    out
                },
                i16_text(steps[i]),
            ),
            steps,
            i + 1,
        )
    }
}

/// `out` with one line of the pattern list behind it: the name, at most 32
/// bytes of it, then `: {`, the first 12 steps, `,...` where there are more,
/// and `}` with a line feed.
pub open spec fn append_listed(out: Seq<u8>, p: PatternModel) -> Seq<u8> {
    let listed = append_steps(
        append(append(out, clip(p.name, 32)), ascii(": {")),
        clip_steps(p.steps, 12),
        0,
    );
    append(
        if p.steps.len() > 12 {
            append(listed, ascii(",..."))
        } else {
            listed
        },
        ascii("}\n"),
    )
}

/// The first `limit` steps of `steps`, or all of them where there are fewer.
pub open spec fn clip_steps(steps: Seq<i16>, limit: int) -> Seq<i16> {
    if steps.len() <= limit {
        steps
    } else {
        steps.take(limit)
    }
}

/// `out` with the lines for the patterns from number `k` on behind it, for
/// as long as 64 bytes are left in the buffer before a line.
pub open spec fn append_list(out: Seq<u8>, patterns: Seq<PatternModel>, k: int) -> Seq<u8>
    decreases patterns.len() - k,
{
    if k < 0 || k >= patterns.len() || out.len() + 64 > 256 {
        out
    } else {
        append_list(append_listed(out, patterns[k]), patterns, k + 1)
    }
}

/// The answer to `nozen.recoil.list`.
pub open spec fn list_text(patterns: Seq<PatternModel>) -> Seq<u8> {
    append_list(ascii("Stored patterns:\n"), patterns, 0)
}

/// The answer to `nozen.recoil.get(name)` for the pattern `p`: the name, at
/// most 32 bytes of it, then `: {`, the steps, and `}` with a line feed.
pub open spec fn pattern_text(p: PatternModel) -> Seq<u8> {
    append(append_steps(append(clip(p.name, 32), ascii(": {")), p.steps, 0), ascii("}\n"))
}

/// `nozen.recoil.get(name)`.
pub open spec fn recoil_get_text(patterns: Seq<PatternModel>, line: Seq<u8>) -> Seq<u8> {
    match recoil_name(line, 16) {
        None => ascii("Invalid get format\n"),
        Some(name) => if index_of(patterns, name_text(name)) < patterns.len() {
            pattern_text(patterns[index_of(patterns, name_text(name))])
        } else {
            ascii("Pattern not found\n")
        },
    }
}

/// `out` with a line `- name` for each pattern from number `k` on behind
/// it, for as long as the line fits in the buffer.
pub open spec fn append_names(out: Seq<u8>, patterns: Seq<PatternModel>, k: int) -> Seq<u8>
    decreases patterns.len() - k,
{
    if k < 0 || k >= patterns.len() || out.len() + patterns[k].name.len() + 3 > 256 {
        out
    } else {
        append_names(
            append(append(append(out, ascii("- ")), patterns[k].name), seq![0x0Au8]),
            patterns,
            k + 1,
        )
    }
}

/// The answer to `nozen.recoil.names`.
pub open spec fn names_text(patterns: Seq<PatternModel>) -> Seq<u8> {
    append_names(ascii("Available patterns:\n"), patterns, 0)
}

/// The value of the hexadecimal digit `c`, and 0 for a byte that is none.
pub open spec fn hex_or_zero(c: u8) -> u8 {
    match hex_value(c) {
        Some(v) => v,
        None => 0,
    }
}

/// The bytes that between them are no space and no comma.
pub open spec fn no_separator() -> spec_fn(u8) -> bool {
    |b: u8| b != 0x20 && b != 0x2C
}

/// The bytes that the hexadecimal text `hex` spells. Spaces and commas
/// before a pair of digits are passed over; a pair that is no pair of
/// hexadecimal digits is dropped; a single byte at the end is not read.
pub open spec fn hex_bytes(hex: Seq<u8>) -> Seq<u8>
    decreases hex.len(),
{
    let gap = first_index(hex, no_separator());
    if gap < 0 || gap + 1 >= hex.len() {
        Seq::empty()
    } else {
        let rest = hex_bytes(hex.skip(gap + 2));
        match (hex_value(hex[gap]), hex_value(hex[gap + 1])) {
            (Some(high), Some(low)) => seq![(high * 16 + low) as u8] + rest,
            _ => rest,
        }
    }
}

/// The parts of a descriptor line `[DESC:AA:I]{hex}` that the FPGA sends.
pub struct DescriptorLine {
    pub address: u8,
    pub interface: u8,
    pub bytes: Seq<u8>,
}

/// The parts of a descriptor line: the address in two hexadecimal digits
/// behind `[DESC:`, a colon, the interface in one digit, and the bytes
/// between the first `{` behind that and the first `}` or the end of the
/// line. A digit that is none counts as 0. There is no result where the
/// line is too short, the colon is missing or there is no `{`.
pub open spec fn descriptor_line(line: Seq<u8>) -> Option<DescriptorLine> {
    if line.len() < 10 || line[8] != 0x3A {
        None
    } else {
        let behind = line.skip(10);
        let open = first_index(behind, equal_to(0x7B));
        if open >= behind.len() {
            None
        } else {
            let data = behind.skip(open + 1);
            let close = first_index(data, equal_to(0x7D));
            Some(
                DescriptorLine {
                    address: (hex_or_zero(line[6]) * 16 + hex_or_zero(line[7])) as u8,
                    interface: hex_or_zero(line[9]),
                    bytes: clip(hex_bytes(data.take(close)), 1024),
                },
            )
        }
    }
}

/// The device kinds of a descriptor, each that applies in brackets and
/// with a space behind it.
pub open spec fn bracketed_kinds(d: DescriptorModel) -> Seq<u8> {
    (if d.is_keyboard {
        ascii("[Keyboard] ")
    } else {
        Seq::empty()
    }) + (if d.is_mouse {
        ascii("[Mouse] ")
    } else {
        Seq::empty()
    }) + (if d.is_gamepad {
        ascii("[Gamepad] ")
    } else {
        Seq::empty()
    })
}

/// The device kinds of a descriptor, each that applies with a space behind
/// it.
pub open spec fn spaced_kinds(d: DescriptorModel) -> Seq<u8> {
    (if d.is_keyboard {
        ascii("Keyboard ")
    } else {
        Seq::empty()
    }) + (if d.is_mouse {
        ascii("Mouse ")
    } else {
        Seq::empty()
    }) + (if d.is_gamepad {
        ascii("Gamepad ")
    } else {
        Seq::empty()
    })
}

/// The key of a cached descriptor in a log line: `dev=`, the address, ` if=`
/// and the interface, both in decimal.
pub open spec fn device_text(address: u8, interface: u8) -> Seq<u8> {
    ascii("dev=") + decimal_digits(address as nat) + ascii(" if=") + decimal_digits(
        interface as nat,
    )
}

/// The log line for a descriptor that was parsed and cached: the key, the
/// kinds, the key once more and the number of bytes.
pub open spec fn cached_text(address: u8, interface: u8, d: DescriptorModel, length: int) -> Seq<
    u8,
> {
    let head = ascii("[AUTO] HID descriptor: ") + device_text(address, interface) + ascii(" ");
    head + bracketed_kinds(d) + head + decimal_digits(length as nat) + ascii("B\n")
}

/// The log line for a descriptor that did not parse.
pub open spec fn refused_text(address: u8, interface: u8) -> Seq<u8> {
    ascii("[WARN] Failed to parse descriptor: ") + device_text(address, interface) + ascii("\n")
}

/// A descriptor line from the FPGA: the descriptor is parsed and cached and
/// looked up once, and the answer logs it; one that does not parse leaves
/// the cache alone and is logged as refused.
pub open spec fn run_descriptor(m: ProcessorModel, cache: CacheModel, line: Seq<u8>) -> Reaction {
    match descriptor_line(line) {
        None => Reaction { processor: m, cache, action: Action::NoOp },
        Some(found) => match parse_spec(found.bytes) {
            Ok(d) => Reaction {
                processor: ProcessorModel {
                    response: cached_text(
                        found.address,
                        found.interface,
                        d,
                        found.bytes.len() as int,
                    ),
                    ..m
                },
                cache: cache.insert(found.address, found.interface, d, found.bytes).touch(
                    found.address,
                    found.interface,
                ),
                action: Action::Response,
            },
            Err(_) => Reaction {
                processor: ProcessorModel {
                    response: refused_text(found.address, found.interface),
                    ..m
                },
                cache,
                action: Action::Response,
            },
        },
    }
}

/// The key in `nozen.descriptor.get(addr,iface)`: the number behind the
/// parenthesis and the number behind the first comma. Either may be
/// missing.
pub open spec fn descriptor_key(line: Seq<u8>) -> (Option<u8>, Option<u8>) {
    let args = line.skip(21);
    let comma = first_index(args, equal_to(0x2C));
    (
        u8_value(args),
        if comma >= args.len() {
            None
        } else {
            u8_value(args.skip(comma + 1))
        },
    )
}

/// The answer for a descriptor that was found: its key, its kinds and the
/// number of its fields, each line repeating those before it.
pub open spec fn found_text(address: u8, interface: u8, d: DescriptorModel) -> Seq<u8> {
    let first = ascii("[Descriptor] addr=") + decimal_digits(address as nat) + ascii(" iface=")
        + decimal_digits(interface as nat) + ascii("\n");
    let second = first + ascii("  Type: ") + spaced_kinds(d) + ascii("\n");
    let third = second + ascii("  Fields: ") + decimal_digits(d.fields.len()) + ascii("\n");
    first + second + third
}

/// `nozen.descriptor.get(addr,iface)`: a lookup in the cache, which counts
/// as a use of the entry.
pub open spec fn run_descriptor_get(m: ProcessorModel, cache: CacheModel, line: Seq<u8>) -> Reaction {
    match descriptor_key(line) {
        (None, _) => Reaction {
            processor: ProcessorModel { response: ascii("[ERROR] Invalid address\n"), ..m },
            cache,
            action: Action::Response,
        },
        (Some(_), None) => Reaction {
            processor: ProcessorModel { response: ascii("[ERROR] Invalid interface\n"), ..m },
            cache,
            action: Action::Response,
        },
        (Some(address), Some(interface)) => Reaction {
            processor: ProcessorModel {
                response: if cache.contains_key(address, interface) {
                    found_text(
                        address,
                        interface,
                        cache.entries[cache.slot(address, interface)].descriptor,
                    )
                } else {
                    ascii("[ERROR] Descriptor not found\n")
                },
                ..m
            },
            cache: cache.touch(address, interface),
            action: Action::Response,
        },
    }
}

/// The counts over the cache's entries.
pub open spec fn stats_of(cache: CacheModel) -> CacheStats {
    CacheStats {
        total_devices: cache.entries.len() as usize,
        keyboards: cache.entries.filter(crate::descriptor_cache::keyboard_entry()).len() as usize,
        mice: cache.entries.filter(crate::descriptor_cache::mouse_entry()).len() as usize,
        gamepads: cache.entries.filter(crate::descriptor_cache::gamepad_entry()).len() as usize,
        other: cache.entries.filter(crate::descriptor_cache::other_entry()).len() as usize,
    }
}

/// A line that leaves the cache alone and answers with `response`.
pub open spec fn answer(m: ProcessorModel, cache: CacheModel, response: Seq<u8>) -> Reaction {
    Reaction { processor: ProcessorModel { response, ..m }, cache, action: Action::Response }
}

/// A line that leaves the cache and the response alone.
pub open spec fn act(step: (ProcessorModel, Action), cache: CacheModel) -> Reaction {
    Reaction { processor: step.0, cache, action: step.1 }
}

/// The reaction to the line `line`. The first command word that the line
/// begins with decides; a line that begins with none is passed over.
pub open spec fn run_line(m: ProcessorModel, cache: CacheModel, line: Seq<u8>) -> Reaction {
    if has_prefix(line, ascii("[DESC:")) {
        run_descriptor(m, cache, line)
    } else if has_prefix(line, ascii("nozen.move(")) {
        act(run_move(m, line), cache)
    } else if has_prefix(line, ascii("nozen.moveto(")) {
        act(run_moveto(m, line), cache)
    } else if has_prefix(line, ascii("nozen.left(")) {
        act((m, run_button(line, 0x01, 11)), cache)
    } else if has_prefix(line, ascii("nozen.right(")) {
        act((m, run_button(line, 0x02, 12)), cache)
    } else if has_prefix(line, ascii("nozen.middle(")) {
        act((m, run_button(line, 0x04, 13)), cache)
    } else if has_prefix(line, ascii("nozen.side1(")) {
        act((m, run_button(line, 0x08, 12)), cache)
    } else if has_prefix(line, ascii("nozen.side2(")) {
        act((m, run_button(line, 0x10, 12)), cache)
    } else if has_prefix(line, ascii("nozen.wheel(")) {
        act((m, run_wheel(line)), cache)
    } else if has_prefix(line, ascii("nozen.getpos")) {
        answer(m, cache, position_text(m.x, m.y))
    } else if has_prefix(line, ascii("nozen.recoil.add(")) {
        Reaction { processor: run_recoil_add(m, line), cache, action: Action::Response }
    } else if has_prefix(line, ascii("nozen.recoil.delete(")) {
        Reaction { processor: run_recoil_delete(m, line), cache, action: Action::Response }
    } else if has_prefix(line, ascii("nozen.recoil.list")) {
        answer(m, cache, list_text(m.patterns))
    } else if has_prefix(line, ascii("nozen.recoil.get(")) {
        answer(m, cache, recoil_get_text(m.patterns, line))
    } else if has_prefix(line, ascii("nozen.recoil.names")) {
        answer(m, cache, names_text(m.patterns))
    } else if has_prefix(line, ascii("nozen.print(")) {
        match print_text(line) {
            Some(text) => answer(m, cache, text),
            None => Reaction { processor: m, cache, action: Action::NoOp },
        }
    } else if has_prefix(line, ascii("nozen.descriptor.get(")) {
        run_descriptor_get(m, cache, line)
    } else if has_prefix(line, ascii("nozen.descriptor.stats")) {
        answer(m, cache, stats_of(cache).line() + seq![0x0Au8])
    } else if has_prefix(line, ascii("nozen.restart")) {
        Reaction { processor: m, cache, action: Action::Restart }
    } else {
        Reaction { processor: m, cache, action: Action::NoOp }
    }
}

/// The reaction to the bytes `data` as they arrive. Bytes are gathered,
/// at most 256 of them, until a line feed or a carriage return ends the
/// line; the line is then run, and what follows it in `data` is dropped.
/// Data without a line end only adds to the line and calls for nothing.
pub open spec fn run_input(m: ProcessorModel, cache: CacheModel, data: Seq<u8>) -> Reaction {
    let end = first_index(data, ends_line());
    if end >= data.len() {
        Reaction {
            processor: ProcessorModel { pending: clip(m.pending + data, 256), ..m },
            cache,
            action: Action::NoOp,
        }
    } else {
        run_line(
            ProcessorModel { pending: Seq::empty(), ..m },
            cache,
            clip(m.pending + data.take(end), 256),
        )
    }
}

} // verus!
