//! The command protocol: text commands from the host, and the frames and
//! responses that answer them.

use vstd::prelude::*;
use vstd::string::StringSliceAdditionalSpecFns;
use vstd::wrapping::i16_specs::signed_crop;
use crate::bounded::{
    fields_as_slice, steps_as_slice, text_as_bytes, text_bytes, text_new,
};
use crate::bounded_map::name_as_str;
use crate::cache_laws::lemma_insert_keeps_raw;
use crate::commands::{
    append, append_list, append_listed, append_names, append_steps, arguments, bracketed_kinds,
    cached_text, clip, clip_steps, descriptor_line, device_text, ends_line, found_text,
    has_prefix, hex_bytes, hex_or_zero, list_text, mouse_frame, names_text, no_separator,
    number_pair, position_text, print_text, recoil_get_text, refused_text, run_button,
    run_descriptor, run_descriptor_get, run_input, run_line, run_move, run_moveto, run_recoil_add,
    run_recoil_delete, run_wheel, spaced_kinds, stats_of, Action, ProcessorModel, Reaction,
};
use crate::descriptor::parse_spec;
use crate::descriptor_cache::DescriptorCache;
use crate::recoil::{
    parse_recoil_add, parse_recoil_name, RecoilManager, RecoilPattern,
};
use crate::scan::first_index;
use crate::state::MouseState;
use crate::text::{
    ascii, ascii_bytes, decimal_digits, decimal_value, equal_to, is_digit,
    lemma_decimal_digits_len, lemma_decimal_digits_u64, numeral, position, push_ascii,
    push_decimal, scan_numeral, utf8_text,
};

verus! {

/// A command for the FPGA.
#[derive(Debug, PartialEq)]
pub struct Command {
    pub code: u8,
    pub payload: [u8; 128],
    /// The number of payload bytes in use.
    pub length: usize,
}

/// What the host's input asks for.
#[derive(Debug, PartialEq)]
pub enum CommandType {
    /// A command to send to the FPGA.
    FpgaCommand(Command),
    /// A response is ready in the processor's buffer.
    Response,
    /// The device is to restart.
    Restart,
    /// Nothing is to be done.
    NoOp,
}

impl CommandType {
    /// What the value asks the caller to do; of a command, the payload in
    /// use.
    pub open spec fn action(self) -> Action {
        match self {
            CommandType::FpgaCommand(c) => Action::Frame {
                code: c.code,
                payload: c.payload@.take(c.length as int),
            },
            CommandType::Response => Action::Response,
            CommandType::Restart => Action::Restart,
            CommandType::NoOp => Action::NoOp,
        }
    }

    /// A command's length lies within its payload, and the payload is 0
    /// behind it.
    pub open spec fn well_formed(self) -> bool {
        self matches CommandType::FpgaCommand(c) ==> c.length <= 128 && forall|i: int|
            c.length <= i < 128 ==> c.payload[i] == 0
    }
}

/// The upper-case hexadecimal digit for the low four bits of `nibble`.
pub open spec fn hex_digit_spec(nibble: u8) -> u8 {
    let low = nibble % 16;
    if low < 10 {
        (0x30 + low) as u8
    } else {
        (0x41 + low - 10) as u8
    }
}

/// The two hexadecimal digits of `byte`, high nibble first.
pub open spec fn hex_pair(byte: u8) -> Seq<u8> {
    seq![hex_digit_spec(byte / 16), hex_digit_spec(byte % 16)]
}

/// The sum of `code` and the bytes of `payload`, within 8 bits.
pub open spec fn checksum(code: u8, payload: Seq<u8>) -> u8
    decreases payload.len(),
{
    if payload.len() == 0 {
        code
    } else {
        ((checksum(code, payload.drop_last()) + payload.last()) % 256) as u8
    }
}

/// The text before the payload of a frame with command code `code` and
/// `length` payload bytes: `[CMD:XX] [LEN:YYYY] `, both numbers in
/// hexadecimal.
pub open spec fn frame_head(code: u8, length: int) -> Seq<u8> {
    seq![0x5Bu8, 0x43, 0x4D, 0x44, 0x3A] + hex_pair(code) + seq![0x5Du8, 0x20] + seq![
        0x5Bu8,
        0x4C,
        0x45,
        0x4E,
        0x3A,
    ] + hex_pair((length / 256) as u8) + hex_pair((length % 256) as u8) + seq![0x5Du8, 0x20]
}

/// The text behind the payload of a frame: ` [CKSUM:ZZ]` and a line feed.
pub open spec fn frame_tail(sum: u8) -> Seq<u8> {
    seq![0x20u8, 0x5B, 0x43, 0x4B, 0x53, 0x55, 0x4D, 0x3A] + hex_pair(sum) + seq![0x5Du8, 0x0A]
}

/// The frame for a command: head, the payload as it is, tail.
pub open spec fn uart_frame(code: u8, payload: Seq<u8>) -> Seq<u8> {
    frame_head(code, payload.len() as int) + payload + frame_tail(checksum(code, payload))
}

impl Command {
    /// The command's frame for the FPGA, in a buffer of 256 bytes of which
    /// those behind the frame are 0.
    pub fn to_uart_frame(&self) -> (frame: [u8; 256])
        requires
            self.length <= 128,
        ensures
            uart_frame(self.code, self.payload@.take(self.length as int)).len() == self.length
                + 32,
            frame@.take(self.length + 32) == uart_frame(
                self.code,
                self.payload@.take(self.length as int),
            ),
            forall|i: int| self.length + 32 <= i < 256 ==> frame[i] == 0,
    {
        let mut frame = [0u8;256];
        let ghost payload = self.payload@.take(self.length as int);
        let mut idx: usize = 0;

        // Command code
        write_str(&mut frame, &[0x5B, 0x43, 0x4D, 0x44, 0x3A], &mut idx);
        write_str(&mut frame, &[hex_digit(self.code >> 4), hex_digit(self.code & 0x0F)], &mut idx);
        write_str(&mut frame, &[0x5D, 0x20], &mut idx);

        // Length
        let high: u8 = (self.length / 256) as u8;
        let low: u8 = (self.length % 256) as u8;
        write_str(&mut frame, &[0x5B, 0x4C, 0x45, 0x4E, 0x3A], &mut idx);
        write_str(
            &mut frame,
            &[hex_digit(high >> 4), hex_digit(high & 0x0F), hex_digit(low >> 4), hex_digit(
                low & 0x0F,
            )],
            &mut idx,
        );
        write_str(&mut frame, &[0x5D, 0x20], &mut idx);
        proof {
            let c = self.code;
            assert(c >> 4 == c / 16 && c & 0x0F == c % 16) by (bit_vector);
            assert(high >> 4 == high / 16 && high & 0x0F == high % 16) by (bit_vector);
            assert(low >> 4 == low / 16 && low & 0x0F == low % 16) by (bit_vector);
            assert(hex_digit_spec((c / 16) as u8) == hex_digit_spec(c / 16));
            assert(idx == 20);
            assert(frame@.take(20) =~= frame_head(self.code, self.length as int));
        }

        // Payload, as it is
        let mut cksum: u8 = self.code;
        let mut i: usize = 0;
        while i < self.length
            invariant
                i <= self.length <= 128,
                idx == 20 + i,
                payload == self.payload@.take(self.length as int),
                frame@.take(20) == frame_head(self.code, self.length as int),
                frame@.subrange(20, 20 + i) == payload.take(i as int),
                forall|j: int| 20 + i <= j < 256 ==> frame[j] == 0,
                cksum == checksum(self.code, payload.take(i as int)),
            decreases self.length - i,
        {
            let ghost before = frame@;
            frame[idx] = self.payload[i];
            cksum = cksum.wrapping_add(self.payload[i]);
            proof {
                assert(frame@.take(20) =~= before.take(20));
                assert(frame@.subrange(20, 20 + i + 1) =~= payload.take(i + 1));
                assert(payload.take(i + 1).drop_last() =~= payload.take(i as int));
            }
            idx += 1;
            i += 1;
        }
        proof {
            assert(payload.take(self.length as int) =~= payload);
        }
        let ghost filled = frame@;

        // Checksum
        write_str(&mut frame, &[0x20, 0x5B, 0x43, 0x4B, 0x53, 0x55, 0x4D, 0x3A], &mut idx);
        write_str(&mut frame, &[hex_digit(cksum >> 4), hex_digit(cksum & 0x0F)], &mut idx);
        write_str(&mut frame, &[0x5D, 0x0A], &mut idx);
        proof {
            assert(cksum >> 4 == cksum / 16 && cksum & 0x0F == cksum % 16) by (bit_vector);
            let n = self.length as int;
            assert(idx == n + 32);
            assert(frame@.take(n + 32) =~= filled.take(20) + filled.subrange(20, 20 + n)
                + frame_tail(cksum));
            assert forall|j: int| n + 32 <= j < 256 implies frame[j] == 0 by {
                assert(frame@[j] == filled[j]);
            }
        }
        frame
    }
}

/// The upper-case hexadecimal digit for the low four bits of `nibble`.
pub fn hex_digit(nibble: u8) -> (digit: u8)
    ensures
        digit == hex_digit_spec(nibble),
{
    let low: u8 = nibble & 0x0F;
    assert(low == nibble % 16) by (bit_vector)
        requires
            low == nibble & 0x0F,
    ;
    if low < 10 {
        0x30 + low
    } else {
        0x41 + (low - 10)
    }
}

/// The value of the hexadecimal digit `c`, in either case; `None` for a
/// byte that is no hexadecimal digit.
pub open spec fn hex_value(c: u8) -> Option<u8> {
    if 0x30 <= c <= 0x39 {
        Some((c - 0x30) as u8)
    } else if 0x61 <= c <= 0x66 {
        Some((c - 0x61 + 10) as u8)
    } else if 0x41 <= c <= 0x46 {
        Some((c - 0x41 + 10) as u8)
    } else {
        None
    }
}

/// The value of the hexadecimal digit `c`.
pub fn hex_to_nibble(c: u8) -> (r: Option<u8>)
    ensures
        r == hex_value(c),
{
    if 0x30 <= c && c <= 0x39 {
        Some(c - 0x30)
    } else if 0x61 <= c && c <= 0x66 {
        Some(c - 0x61 + 10)
    } else if 0x41 <= c && c <= 0x46 {
        Some(c - 0x41 + 10)
    } else {
        None
    }
}

/// Reading one digit more keeps the value within 8 bits in step with the
/// number read so far.
proof fn lemma_low_byte_next_digit(read: int, value: u8, d: int)
    requires
        read >= 0,
        value == read % 256,
        0 <= d <= 9,
    ensures
        vstd::wrapping::u8_specs::wrapping_add(
            vstd::wrapping::u8_specs::wrapping_mul(value, 10),
            d as u8,
        ) == (10 * read + d) % 256,
{
    let m = vstd::wrapping::u8_specs::wrapping_mul(value, 10);
    let q = read / 256;
    let k = (value * 10) / 256;
    vstd::arithmetic::div_mod::lemma_fundamental_div_mod(read, 256);
    vstd::arithmetic::div_mod::lemma_fundamental_div_mod(value * 10, 256);
    assert(10 * read + d == 256 * (10 * q) + (10 * value + d));
    vstd::arithmetic::div_mod::lemma_mod_multiples_vanish(10 * q, 10 * value + d, 256);
    assert(10 * value + d == 256 * k + (m + d));
    vstd::arithmetic::div_mod::lemma_mod_multiples_vanish(k, m + d, 256);
    if m + d > 255 {
        vstd::arithmetic::div_mod::lemma_mod_multiples_vanish(1, m + d - 256, 256);
        vstd::arithmetic::div_mod::lemma_small_mod((m + d - 256) as nat, 256);
    } else {
        vstd::arithmetic::div_mod::lemma_small_mod((m + d) as nat, 256);
    }
}

/// The digits at the very start of `data`.
pub open spec fn leading_digits(data: Seq<u8>) -> Seq<u8> {
    data.take(crate::scan::first_index(data, crate::text::not_digit()))
}

/// Reads the unsigned decimal number at the very start of `data`, within 8
/// bits. There is none where `data` does not start with a digit.
pub fn parse_u8_from_slice(data: &[u8]) -> (r: Option<u8>)
    ensures
        leading_digits(data@).len() == 0 ==> r is None,
        leading_digits(data@).len() > 0 ==> r == Some(
            (decimal_value(leading_digits(data@)) % 256) as u8,
        ),
{
    let mut value: u8 = 0;
    let mut idx: usize = 0;
    while idx < data.len() && data[idx] >= 0x30 && data[idx] <= 0x39
        invariant
            idx <= data@.len(),
            forall|j: int| 0 <= j < idx ==> !crate::text::not_digit()(#[trigger] data@[j]),
            value == decimal_value(data@.take(idx as int)) % 256,
        decreases data@.len() - idx,
    {
        proof {
            assert(data@.take(idx + 1).drop_last() =~= data@.take(idx as int));
            lemma_low_byte_next_digit(
                decimal_value(data@.take(idx as int)) as int,
                value,
                data@[idx as int] - 0x30,
            );
        }
        value = value.wrapping_mul(10).wrapping_add(data[idx] - 0x30);
        idx += 1;
    }
    proof {
        crate::scan::lemma_first_index_is(data@, crate::text::not_digit(), idx as int);
    }
    if idx > 0 {
        Some(value)
    } else {
        None
    }
}

/// `signed_crop` gives the one number in the range of `i16` that differs
/// from its argument by a multiple of 65536.
proof fn lemma_crop_unique(x: int, r: int)
    requires
        i16::MIN <= r <= i16::MAX,
        (r - x) % 65536 == 0,
    ensures
        signed_crop(x) == r,
{
}

/// Reading one digit more keeps the wrapped value in step with the number
/// read so far.
proof fn lemma_crop_next_digit(read: int, value: i16, d: int)
    requires
        value == signed_crop(read),
        0 <= d <= 9,
    ensures
        vstd::wrapping::i16_specs::wrapping_add(
            vstd::wrapping::i16_specs::wrapping_mul(value, 10),
            d as i16,
        ) == signed_crop(10 * read + d),
{
    let m = vstd::wrapping::i16_specs::wrapping_mul(value, 10);
    let s = vstd::wrapping::i16_specs::wrapping_add(m, d as i16);
    assert((value - read) % 65536 == 0);
    assert((m - value * 10) % 65536 == 0);
    assert((s - (m + d)) % 65536 == 0);
    assert((s - (10 * read + d)) % 65536 == 0);
    lemma_crop_unique(10 * read + d, s as int);
}

/// Negating the wrapped value gives the wrapped value of the negation.
proof fn lemma_crop_negate(read: int, value: i16)
    requires
        value == signed_crop(read),
    ensures
        vstd::wrapping::i16_specs::wrapping_sub(0i16, value) == signed_crop(-read),
{
    let s = vstd::wrapping::i16_specs::wrapping_sub(0i16, value);
    assert((value - read) % 65536 == 0);
    assert((s + value) % 65536 == 0);
    lemma_crop_unique(-read, s as int);
}

/// The number that a numeral stands for, within 16 bits: a value outside
/// the range of `i16` wraps around.
pub open spec fn wrapped_value(negative: bool, digits: Seq<u8>) -> i16 {
    if negative {
        signed_crop(-(decimal_value(digits) as int))
    } else {
        signed_crop(decimal_value(digits) as int)
    }
}

/// Reads the signed decimal number at the start of `data`: spaces, an
/// optional minus sign, digits. Text without a digit reads as 0, and a
/// number outside the range of `i16` wraps around.
pub fn parse_int(data: &[u8]) -> (r: Option<i16>)
    ensures
        r == Some(wrapped_value(numeral(data@).negative, numeral(data@).digits)),
{
    let (negative, first, end) = scan_numeral(data);
    let mut value: i16 = 0;
    let mut idx: usize = first;
    while idx < end
        invariant
            first <= idx <= end <= data@.len(),
            forall|j: int| first <= j < end ==> is_digit(#[trigger] data@[j]),
            value == signed_crop(decimal_value(data@.subrange(first as int, idx as int)) as int),
        decreases end - idx,
    {
        proof {
            assert(data@.subrange(first as int, idx + 1).drop_last() =~= data@.subrange(
                first as int,
                idx as int,
            ));
            assert(is_digit(data@[idx as int]));
            lemma_crop_next_digit(
                decimal_value(data@.subrange(first as int, idx as int)) as int,
                value,
                data@[idx as int] - 0x30,
            );
        }
        value = value.wrapping_mul(10).wrapping_add((data[idx] - 0x30) as i16);
        idx += 1;
    }
    if negative {
        proof {
            lemma_crop_negate(
                decimal_value(data@.subrange(first as int, end as int)) as int,
                value,
            );
        }
        value = 0i16.wrapping_sub(value);
    }
    Some(value)
}

/// The decimal text of `value`: a minus sign for a negative number, then
/// the digits of its size. For `i16::MIN` the text is the minus sign alone.
pub open spec fn i16_text(value: i16) -> Seq<u8> {
    if value == i16::MIN {
        seq![0x2Du8]
    } else if value < 0 {
        seq![0x2Du8] + decimal_digits((-value) as nat)
    } else {
        decimal_digits(value as nat)
    }
}

/// Writes the decimal text of `value` to the start of `buf` and returns its
/// length, which is at most 6.
pub fn format_i16(value: i16, buf: &mut [u8]) -> (n: usize)
    requires
        old(buf)@.len() >= 6,
    ensures
        n == i16_text(value).len(),
        1 <= n <= 6,
        final(buf)@.len() == old(buf)@.len(),
        final(buf)@ == i16_text(value) + old(buf)@.skip(n as int),
{
    let ghost before = buf@;
    let mut idx: usize = 0;
    let mut val: i16 = value;

    if val < 0 {
        buf[idx] = 0x2D;
        idx += 1;
        val = 0i16.wrapping_sub(val);
    }
    let ghost size: nat = if val < 0 {
        0
    } else {
        val as nat
    };
    proof {
        assert(vstd::arithmetic::power::pow(10, 5) == 100000) by {
            reveal_with_fuel(vstd::arithmetic::power::pow, 6);
        }
        crate::text::lemma_decimal_digits_len(size, 5);
    }

    // The digits, least significant first.
    let mut temp = [0u8;6];
    let mut temp_idx: usize = 0;
    if val == 0 {
        temp[0] = 0x30;
        temp_idx = 1;
    } else {
        let ghost all = decimal_digits(size);
        // Nothing is left of a value whose negation is not positive.
        let mut rest: u16 = if val > 0 {
            val as u16
        } else {
            0
        };
        while rest > 0
            invariant
                rest > 0 ==> size > 0,
                rest == 0 && temp_idx == 0 ==> value == i16::MIN,
                value == i16::MIN ==> rest == 0 && temp_idx == 0,
                size <= 32767,
                temp_idx <= 5,
                all == decimal_digits(size),
                all.len() <= 5,
                rest > 0 ==> all.len() == decimal_digits(rest as nat).len() + temp_idx,
                rest > 0 ==> all.take(decimal_digits(rest as nat).len() as int) == decimal_digits(
                    rest as nat,
                ),
                rest == 0 && temp_idx > 0 ==> temp_idx == all.len(),
                forall|j: int| 0 <= j < temp_idx ==> temp[j] == all[all.len() - 1 - j],
            decreases rest,
        {
            let ghost cur = decimal_digits(rest as nat);
            temp[temp_idx] = 0x30 + (rest % 10) as u8;
            proof {
                assert(all[cur.len() - 1] == cur[cur.len() - 1]);
                if rest >= 10 {
                    let shorter = decimal_digits((rest / 10) as nat);
                    assert(cur == shorter.push((0x30 + rest % 10) as u8));
                    assert(all.take(shorter.len() as int) =~= cur.take(shorter.len() as int));
                    assert(cur.take(shorter.len() as int) =~= shorter);
                }
            }
            rest /= 10;
            temp_idx += 1;
        }
    }

    // Most significant digit first into the output.
    let ghost sign = buf@.take(idx as int);
    let ghost digits = if value == i16::MIN {
        Seq::<u8>::empty()
    } else {
        decimal_digits(size)
    };
    let mut i: usize = temp_idx;
    let start: usize = idx;
    proof {
        if value == i16::MIN {
            assert(temp_idx == 0);
        } else if val == 0 {
            assert(digits =~= seq![0x30u8]);
        } else {
            assert(temp_idx > 0);
        }
        assert(digits.take(0) =~= Seq::<u8>::empty());
        assert(buf@ =~= sign + before.skip(idx as int));
    }
    while i > 0
        invariant
            i <= temp_idx <= 5,
            start <= 1,
            idx == start + (temp_idx - i),
            buf@.len() == before.len(),
            buf@.len() >= 6,
            temp_idx == digits.len(),
            forall|j: int| 0 <= j < temp_idx ==> temp[j] == digits[temp_idx - 1 - j],
            buf@ == sign + digits.take(temp_idx - i) + before.skip(idx as int),
            sign.len() == start,
        decreases i,
    {
        i -= 1;
        buf[idx] = temp[i];
        proof {
            assert(buf@ =~= sign + digits.take(temp_idx - i) + before.skip(idx + 1));
        }
        idx += 1;
    }
    proof {
        assert(digits.take(temp_idx as int) =~= digits);
        assert(sign + digits =~= i16_text(value));
    }
    idx
}

/// Copies as much of `data` behind the first `*len` bytes of `buf` as there
/// is room for, and moves `*len` past the copy.
pub fn write_str(buf: &mut [u8], data: &[u8], len: &mut usize)
    requires
        *old(len) <= old(buf)@.len(),
    ensures
        final(buf)@.len() == old(buf)@.len(),
        *final(len) == *old(len) + fitting(data@.len() as int, old(buf)@.len() - *old(len)),
        final(buf)@ == old(buf)@.take(*old(len) as int) + data@.take(*final(len) - *old(len))
            + old(buf)@.skip(*final(len) as int),
{
    let room: usize = buf.len() - *len;
    let copy_len: usize = if data.len() < room {
        data.len()
    } else {
        room
    };
    let start: usize = *len;
    let ghost before = buf@;
    let mut k: usize = 0;
    while k < copy_len
        invariant
            k <= copy_len,
            copy_len <= data@.len(),
            start + copy_len <= buf@.len(),
            start + copy_len <= usize::MAX,
            buf@.len() == before.len(),
            buf@ == before.take(start as int) + data@.take(k as int) + before.skip(start + k),
        decreases copy_len - k,
    {
        buf[start + k] = data[k];
        assert(buf@ =~= before.take(start as int) + data@.take(k + 1) + before.skip(start + k + 1));
        k += 1;
    }
    *len = start + copy_len;
    proof {
        assert(before =~= before.take(start as int) + data@.take(0) + before.skip(start as int));
    }
}

/// The smaller of the `wanted` bytes and the `room` for them.
pub open spec fn fitting(wanted: int, room: int) -> int {
    if wanted < room {
        wanted
    } else {
        room
    }
}

/// Whether `line` begins with `prefix`.
pub fn starts_with(line: &[u8], prefix: &[u8]) -> (r: bool)
    ensures
        r == has_prefix(line@, prefix@),
{
    if line.len() < prefix.len() {
        return false;
    }
    let mut i: usize = 0;
    while i < prefix.len()
        invariant
            i <= prefix@.len() <= line@.len(),
            line@.take(i as int) == prefix@.take(i as int),
        decreases prefix@.len() - i,
    {
        if line[i] != prefix[i] {
            proof {
                assert(line@.take(prefix@.len() as int)[i as int] != prefix@[i as int]);
            }
            return false;
        }
        proof {
            assert(line@.take(i + 1) =~= line@.take(i as int).push(line@[i as int]));
            assert(prefix@.take(i + 1) =~= prefix@.take(i as int).push(prefix@[i as int]));
        }
        i += 1;
    }
    proof {
        assert(prefix@.take(prefix@.len() as int) =~= prefix@);
    }
    true
}

/// What stands between the first `skip` bytes of `line` and the first `)`
/// behind them.
fn arguments_of(line: &[u8], skip: usize) -> (r: Option<&[u8]>)
    requires
        skip <= line@.len(),
    ensures
        r is Some <==> arguments(line@, skip as int) is Some,
        r matches Some(args) ==> Some(args@) == arguments(line@, skip as int),
{
    let args = &line[skip..line.len()];
    assert(args@ =~= line@.skip(skip as int));
    match position(args, 0x29) {
        Some(close) => {
            let inner = &args[0..close];
            assert(inner@ =~= args@.take(close as int));
            Some(inner)
        },
        None => None,
    }
}

/// The two numbers of the arguments `x,y`.
fn number_pair_of(args: &[u8]) -> (r: Option<(i16, i16)>)
    ensures
        r == number_pair(args@),
{
    let comma = match position(args, 0x2C) {
        Some(p) => p,
        None => return None,
    };
    let end: usize = args.len();
    let x_str = &args[0..comma];
    let y_str = &args[comma + 1..end];
    assert(x_str@ =~= args@.take(comma as int));
    assert(y_str@ =~= args@.skip(comma + 1));
    let x = match parse_int(x_str) {
        Some(v) => v,
        None => return None,
    };
    let y = match parse_int(y_str) {
        Some(v) => v,
        None => return None,
    };
    Some((x, y))
}

/// Puts `piece` behind the first `*len` bytes of the response under
/// construction, as far as the buffer takes it.
fn put(buf: &mut [u8; 256], piece: &[u8], len: &mut usize)
    requires
        *old(len) <= 256,
    ensures
        *final(len) <= 256,
        final(buf)@.take(*final(len) as int) == append(old(buf)@.take(*old(len) as int), piece@),
{
    let ghost before = buf@;
    let ghost start = *len as int;
    write_str(buf, piece, len);
    proof {
        assert(buf@.take(*len as int) =~= append(before.take(start), piece@));
    }
}

/// Puts the ASCII text `piece` behind the response under construction.
fn put_text(buf: &mut [u8; 256], piece: &str, len: &mut usize)
    requires
        *old(len) <= 256,
        piece.is_ascii(),
    ensures
        *final(len) <= 256,
        final(buf)@.take(*final(len) as int) == append(
            old(buf)@.take(*old(len) as int),
            ascii(piece),
        ),
{
    put(buf, ascii_bytes(piece), len);
}

/// Puts the decimal text of `value` behind the response under construction.
fn put_i16(buf: &mut [u8; 256], value: i16, len: &mut usize)
    requires
        *old(len) <= 256,
    ensures
        *final(len) <= 256,
        final(buf)@.take(*final(len) as int) == append(
            old(buf)@.take(*old(len) as int),
            i16_text(value),
        ),
{
    let mut number = [0u8;6];
    let n = format_i16(value, &mut number);
    let digits = &number[0..n];
    assert(digits@ =~= i16_text(value));
    put(buf, digits, len);
}

/// Puts the steps behind the response under construction, separated by
/// commas, for as long as 10 bytes are left before a step.
fn put_steps(buf: &mut [u8; 256], steps: &[i16], len: &mut usize)
    requires
        *old(len) <= 256,
    ensures
        *final(len) <= 256,
        final(buf)@.take(*final(len) as int) == append_steps(
            old(buf)@.take(*old(len) as int),
            steps@,
            0,
        ),
{
    let ghost out = buf@.take(*len as int);
    let mut i: usize = 0;
    while i < steps.len() && *len + 10 <= 256
        invariant
            i <= steps@.len(),
            *len <= 256,
            append_steps(out, steps@, 0) == append_steps(buf@.take(*len as int), steps@, i as int),
        decreases steps@.len() - i,
    {
        let ghost cur = buf@.take(*len as int);
        if i > 0 {
            let comma = [0x2Cu8];
            assert(comma@ =~= seq![0x2Cu8]);
            put(buf, &comma, len);
        }
        put_i16(buf, steps[i], len);
        proof {
            assert(append_steps(cur, steps@, i as int) == append_steps(
                buf@.take(*len as int),
                steps@,
                i + 1,
            ));
        }
        i += 1;
    }
}

/// Puts the name of `pattern`, at most 32 bytes of it, behind the response
/// under construction.
fn put_name(buf: &mut [u8; 256], pattern: &RecoilPattern, len: &mut usize)
    requires
        *old(len) <= 256,
    ensures
        *final(len) <= 256,
        final(buf)@.take(*final(len) as int) == append(
            old(buf)@.take(*old(len) as int),
            clip(pattern@.name, 32),
        ),
{
    let name_bytes = name_as_str(&pattern.name).as_bytes();
    let name_len: usize = if name_bytes.len() < 32 {
        name_bytes.len()
    } else {
        32
    };
    let shown = &name_bytes[0..name_len];
    assert(shown@ =~= clip(pattern@.name, 32));
    put(buf, shown, len);
}

/// Puts the list line of `pattern` behind the response under construction.
fn put_listed(buf: &mut [u8; 256], pattern: &RecoilPattern, len: &mut usize)
    requires
        *old(len) <= 256,
    ensures
        *final(len) <= 256,
        final(buf)@.take(*final(len) as int) == append_listed(
            old(buf)@.take(*old(len) as int),
            pattern@,
        ),
{
    proof {
        reveal_strlit(": {");
        reveal_strlit(",...");
        reveal_strlit("}\n");
    }
    put_name(buf, pattern, len);
    put_text(buf, ": {", len);
    let steps = steps_as_slice(&pattern.steps);
    let shown: usize = if steps.len() < 12 {
        steps.len()
    } else {
        12
    };
    let first = &steps[0..shown];
    assert(first@ =~= clip_steps(pattern@.steps, 12));
    put_steps(buf, first, len);
    if steps.len() > 12 {
        put_text(buf, ",...", len);
    }
    put_text(buf, "}\n", len);
}

/// A number below 256 has at most 3 digits, and one below 10000 at most 4.
proof fn lemma_short_numbers(n: nat)
    ensures
        1 <= decimal_digits(n).len(),
        n < 256 ==> decimal_digits(n).len() <= 3,
        n < 10000 ==> decimal_digits(n).len() <= 4,
        n <= u64::MAX ==> decimal_digits(n).len() <= 20,
{
    assert(vstd::arithmetic::power::pow(10, 3) == 1000 && vstd::arithmetic::power::pow(10, 4)
        == 10000) by {
        reveal_with_fuel(vstd::arithmetic::power::pow, 5);
    }
    if n < 1000 {
        lemma_decimal_digits_len(n, 3);
    }
    if n < 10000 {
        lemma_decimal_digits_len(n, 4);
    }
    if n <= u64::MAX {
        lemma_decimal_digits_u64(n as u64);
    } else {
        reveal_with_fuel(decimal_digits, 2);
    }
}

/// The byte with the high nibble `high` and the low nibble `low`.
fn join_nibbles(high: u8, low: u8) -> (b: u8)
    requires
        high < 16,
        low < 16,
    ensures
        b == high * 16 + low,
{
    let b = (high << 4) | low;
    assert(b == high * 16 + low) by (bit_vector)
        requires
            b == (high << 4) | low,
            high < 16,
            low < 16,
    ;
    b
}

/// The value of the hexadecimal digit `c`, and 0 for a byte that is none.
fn nibble_or_zero(c: u8) -> (v: u8)
    ensures
        v == hex_or_zero(c),
        v < 16,
{
    match hex_to_nibble(c) {
        Some(v) => v,
        None => 0,
    }
}

/// Decodes the hexadecimal text `hex` into `out` and returns the number of
/// bytes, at most 1024.
fn decode_hex(hex: &[u8], out: &mut [u8; 1024]) -> (n: usize)
    ensures
        n <= 1024,
        final(out)@.take(n as int) == clip(hex_bytes(hex@), 1024),
{
    let mut desc_len: usize = 0;
    let mut i: usize = 0;
    let mut ended = false;
    proof {
        assert(hex@.skip(0) =~= hex@);
        assert(out@.take(0) + hex_bytes(hex@) =~= hex_bytes(hex@));
    }
    while i < hex.len() && desc_len < 1024 && !ended
        invariant
            i <= hex@.len(),
            desc_len <= 1024,
            ended ==> hex_bytes(hex@.skip(i as int)).len() == 0,
            clip(hex_bytes(hex@), 1024) == clip(
                out@.take(desc_len as int) + hex_bytes(hex@.skip(i as int)),
                1024,
            ),
        decreases hex@.len() - i + (if ended { 0int } else { 1int }),
    {
        let ghost from = i as int;
        let ghost rest = hex@.skip(from);
        let ghost done = out@.take(desc_len as int);
        // Spaces and commas between bytes are passed over.
        while i < hex.len() && (hex[i] == 0x20 || hex[i] == 0x2C)
            invariant
                from <= i <= hex@.len(),
                forall|j: int| from <= j < i ==> !no_separator()(#[trigger] hex@[j]),
            decreases hex@.len() - i,
        {
            i += 1;
        }
        proof {
            assert forall|j: int| 0 <= j < i - from implies !no_separator()(#[trigger] rest[j]) by {
                assert(rest[j] == hex@[from + j]);
            }
            if i < hex@.len() {
                assert(rest[i - from] == hex@[i as int]);
            }
            crate::scan::lemma_first_index_is(rest, no_separator(), i - from);
        }
        if hex.len() - i > 1 {
            let high = hex_to_nibble(hex[i]);
            let low = hex_to_nibble(hex[i + 1]);
            proof {
                assert(rest.skip(i - from + 2) =~= hex@.skip(i + 2));
                assert(rest[i - from] == hex@[i as int]);
                assert(rest[i - from + 1] == hex@[i + 1]);
            }
            match (high, low) {
                (Some(h), Some(l)) => {
                    out[desc_len] = join_nibbles(h, l);
                    desc_len += 1;
                    proof {
                        assert(out@.take(desc_len as int) =~= done.push((h * 16 + l) as u8));
                        assert(done + hex_bytes(rest) =~= out@.take(desc_len as int) + hex_bytes(
                            hex@.skip(i + 2),
                        ));
                    }
                },
                _ => {
                    proof {
                        assert(out@.take(desc_len as int) =~= done);
                    }
                },
            }
            i += 2;
        } else {
            ended = true;
            proof {
                assert(hex_bytes(rest).len() == 0);
                lemma_hex_bytes_tail(hex@, from, i as int);
            }
        }
    }
    proof {
        if desc_len < 1024 {
            if i >= hex@.len() {
                assert(hex@.skip(i as int).len() == 0);
            }
            assert(out@.take(desc_len as int) + hex_bytes(hex@.skip(i as int)) =~= out@.take(
                desc_len as int,
            ));
        } else {
            assert(clip(out@.take(1024) + hex_bytes(hex@.skip(i as int)), 1024) =~= out@.take(
                1024,
            ));
        }
    }
    desc_len
}

/// Text of which only separators and at most one more byte are left spells
/// no byte, from wherever among the separators it is read.
proof fn lemma_hex_bytes_tail(hex: Seq<u8>, from: int, i: int)
    requires
        0 <= from <= i <= hex.len(),
        hex.len() - i <= 1,
        forall|j: int| from <= j < i ==> !no_separator()(#[trigger] hex[j]),
    ensures
        hex_bytes(hex.skip(i)).len() == 0,
{
    let tail = hex.skip(i);
    crate::scan::lemma_first_index(tail, no_separator());
}

/// Reads a descriptor line: the address, the interface, and the bytes,
/// which are written to `out` and counted.
fn read_descriptor_line(line: &[u8], out: &mut [u8; 1024]) -> (r: Option<(u8, u8, usize)>)
    ensures
        r is Some <==> descriptor_line(line@) is Some,
        r matches Some(found) ==> found.2 <= 1024 && descriptor_line(line@) == Some(
            crate::commands::DescriptorLine {
                address: found.0,
                interface: found.1,
                bytes: final(out)@.take(found.2 as int),
            },
        ),
{
    // Address in two digits, a colon, the interface in one digit.
    if line.len() < 8 {
        return None;
    }
    let addr = join_nibbles(nibble_or_zero(line[6]), nibble_or_zero(line[7]));
    if line.len() <= 8 || line[8] != 0x3A {
        return None;
    }
    if line.len() <= 9 {
        return None;
    }
    let iface = nibble_or_zero(line[9]);

    // The hexadecimal text between the braces.
    let behind = &line[10..line.len()];
    assert(behind@ =~= line@.skip(10));
    let open = match position(behind, 0x7B) {
        Some(p) => p,
        None => return None,
    };
    let data = &behind[open + 1..behind.len()];
    assert(data@ =~= behind@.skip(open + 1));
    let close = match position(data, 0x7D) {
        Some(p) => p,
        None => data.len(),
    };
    let hex_data = &data[0..close];
    assert(hex_data@ =~= data@.take(close as int));
    let desc_len = decode_hex(hex_data, out);
    Some((addr, iface, desc_len))
}

/// The command that injects a mouse report.
fn mouse_command(buttons: u8, dx: u8, dy: u8, wheel: u8) -> (r: CommandType)
    ensures
        r.action() == mouse_frame(buttons, dx, dy, wheel),
        r.well_formed(),
{
    let mut payload = [0u8;128];
    payload[0] = buttons;
    payload[1] = dx;
    payload[2] = dy;
    payload[3] = wheel;
    payload[4] = 0x00;
    assert(payload@.take(5) =~= seq![buttons, dx, dy, wheel, 0u8]);
    CommandType::FpgaCommand(Command { code: 0x11, payload, length: 5 })
}

/// The command processor: it gathers the host's input into lines, runs
/// each line, and holds the response until it is fetched.
pub struct CommandProcessor {
    buffer: [u8; 256],
    index: usize,
    pub recoil_manager: RecoilManager,
    pub mouse_state: MouseState,
    pub response_buffer: [u8; 256],
    pub response_len: usize,
}

impl View for CommandProcessor {
    type V = ProcessorModel;

    closed spec fn view(&self) -> ProcessorModel {
        ProcessorModel {
            pending: self.buffer@.take(self.index as int),
            patterns: self.recoil_manager@,
            x: self.mouse_state.x,
            y: self.mouse_state.y,
            response: self.response_buffer@.take(self.response_len as int),
        }
    }
}

impl CommandProcessor {
    /// The line and the response lie within their buffers, and the pattern
    /// store is in order.
    pub closed spec fn wf(&self) -> bool {
        &&& self.index <= 256
        &&& self.response_len <= 256
        &&& self.recoil_manager.wf()
    }

    /// A processor that has received nothing: no pattern, the pointer at
    /// the origin, no response.
    pub fn new() -> (processor: Self)
        ensures
            processor.wf(),
            processor@ == (ProcessorModel {
                pending: Seq::empty(),
                patterns: Seq::empty(),
                x: 0,
                y: 0,
                response: Seq::empty(),
            }),
    {
        let processor = CommandProcessor {
            buffer: [0u8;256],
            index: 0,
            recoil_manager: RecoilManager::new(),
            mouse_state: MouseState::new(),
            response_buffer: [0u8;256],
            response_len: 0,
        };
        proof {
            assert(processor@.pending =~= Seq::empty());
            assert(processor@.response =~= Seq::empty());
            assert(processor@.patterns =~= Seq::empty());
        }
        processor
    }

    /// Hands out the response, if there is one, and forgets it.
    pub fn get_response(&mut self) -> (r: Option<&[u8]>)
        requires
            old(self).wf(),
        ensures
            final(self).wf(),
            final(self)@ == (ProcessorModel { response: Seq::empty(), ..old(self)@ }),
            old(self)@.response.len() == 0 ==> r is None,
            old(self)@.response.len() > 0 ==> r is Some && r.unwrap()@ == old(self)@.response,
    {
        if self.response_len > 0 {
            let len = self.response_len;
            self.response_len = 0;
            proof {
                assert(self@.response =~= Seq::empty());
            }
            let response = &self.response_buffer[0..len];
            assert(response@ =~= old(self)@.response);
            Some(response)
        } else {
            proof {
                assert(self@.response =~= Seq::empty());
            }
            None
        }
    }

    /// Takes in the host's input `data`.
    ///
    /// Bytes are gathered into a line of at most 256 bytes; what does not
    /// fit is dropped. A line feed or a carriage return ends the line: the
    /// line is run, and the rest of `data` is not looked at.
    pub fn parse(&mut self, data: &[u8], descriptor_cache: &mut DescriptorCache) -> (r: CommandType)
        requires
            old(self).wf(),
            old(descriptor_cache).wf(),
            old(descriptor_cache)@.clock + 2 <= u32::MAX,
        ensures
            final(self).wf(),
            final(descriptor_cache).wf(),
            (Reaction {
                processor: final(self)@,
                cache: final(descriptor_cache)@,
                action: r.action(),
            }) == run_input(old(self)@, old(descriptor_cache)@, data@),
            r.well_formed(),
    {
        let ghost before = self@;
        let mut k: usize = 0;
        proof {
            assert(before.pending + data@.take(0) =~= before.pending);
        }
        while k < data.len()
            invariant
                k <= data@.len(),
                self.wf(),
                descriptor_cache.wf(),
                *descriptor_cache == *old(descriptor_cache),
                descriptor_cache@.clock + 2 <= u32::MAX,
                before == old(self)@,
                forall|j: int| 0 <= j < k ==> !ends_line()(#[trigger] data@[j]),
                self@ == (ProcessorModel {
                    pending: clip(before.pending + data@.take(k as int), 256),
                    ..before
                }),
            decreases data@.len() - k,
        {
            let byte = data[k];
            let ghost gathered = clip(before.pending + data@.take(k as int), 256);
            proof {
                assert(self.buffer@.take(self.index as int) == gathered);
                assert(self.index == gathered.len());
                assert(before.pending + data@.take(k + 1) =~= (before.pending + data@.take(
                    k as int,
                )).push(byte));
            }
            if byte == 0x0A || byte == 0x0D {
                proof {
                    crate::scan::lemma_first_index_is(data@, ends_line(), k as int);
                }
                // The line is run from a copy: running it may write to the
                // processor.
                let line_buf = self.buffer;
                let line_len = self.index;
                self.index = 0;
                proof {
                    assert(self@.pending =~= Seq::empty());
                }
                let line = &line_buf[0..line_len];
                assert(line@ =~= clip(before.pending + data@.take(k as int), 256));
                return self.parse_line(line, descriptor_cache);
            } else if self.index < 256 {
                self.buffer[self.index] = byte;
                self.index += 1;
                proof {
                    assert(self.buffer@.take(self.index as int) =~= gathered.push(byte));
                    assert(gathered.push(byte) =~= clip(
                        before.pending + data@.take(k + 1),
                        256,
                    ));
                }
            } else {
                proof {
                    assert(gathered =~= clip(before.pending + data@.take(k + 1), 256));
                }
            }
            k += 1;
        }
        proof {
            crate::scan::lemma_first_index_is(data@, ends_line(), data@.len() as int);
            assert(data@.take(data@.len() as int) =~= data@);
        }
        CommandType::NoOp
    }

    /// Runs one line.
    #[verifier::rlimit(30)]
    fn parse_line(&mut self, line: &[u8], descriptor_cache: &mut DescriptorCache) -> (r: CommandType)
        requires
            old(self).wf(),
            old(descriptor_cache).wf(),
            old(descriptor_cache)@.clock + 2 <= u32::MAX,
            line@.len() <= 256,
        ensures
            final(self).wf(),
            final(descriptor_cache).wf(),
            (Reaction {
                processor: final(self)@,
                cache: final(descriptor_cache)@,
                action: r.action(),
            }) == run_line(old(self)@, old(descriptor_cache)@, line@),
            r.well_formed(),
    {
        proof {
            reveal_strlit("[DESC:");
            reveal_strlit("nozen.move(");
            reveal_strlit("nozen.moveto(");
            reveal_strlit("nozen.left(");
            reveal_strlit("nozen.right(");
            reveal_strlit("nozen.middle(");
            reveal_strlit("nozen.side1(");
            reveal_strlit("nozen.side2(");
            reveal_strlit("nozen.wheel(");
            reveal_strlit("nozen.getpos");
            reveal_strlit("nozen.recoil.add(");
            reveal_strlit("nozen.recoil.delete(");
            reveal_strlit("nozen.recoil.list");
            reveal_strlit("nozen.recoil.get(");
            reveal_strlit("nozen.recoil.names");
            reveal_strlit("nozen.print(");
            reveal_strlit("nozen.descriptor.get(");
            reveal_strlit("nozen.descriptor.stats");
            reveal_strlit("nozen.restart");
        }
        // A descriptor that the FPGA forwards comes without the command word.
        if starts_with(line, ascii_bytes("[DESC:")) {
            return self.handle_fpga_descriptor(line, descriptor_cache);
        }
        if starts_with(line, ascii_bytes("nozen.move(")) {
            self.parse_mouse_move(line)
        } else if starts_with(line, ascii_bytes("nozen.moveto(")) {
            self.parse_mouse_moveto(line)
        } else if starts_with(line, ascii_bytes("nozen.left(")) {
            self.parse_button_command(line, 0x01, ascii_bytes("nozen.left("))
        } else if starts_with(line, ascii_bytes("nozen.right(")) {
            self.parse_button_command(line, 0x02, ascii_bytes("nozen.right("))
        } else if starts_with(line, ascii_bytes("nozen.middle(")) {
            self.parse_button_command(line, 0x04, ascii_bytes("nozen.middle("))
        } else if starts_with(line, ascii_bytes("nozen.side1(")) {
            self.parse_button_command(line, 0x08, ascii_bytes("nozen.side1("))
        } else if starts_with(line, ascii_bytes("nozen.side2(")) {
            self.parse_button_command(line, 0x10, ascii_bytes("nozen.side2("))
        } else if starts_with(line, ascii_bytes("nozen.wheel(")) {
            self.parse_wheel_command(line)
        } else if starts_with(line, ascii_bytes("nozen.getpos")) {
            self.handle_getpos()
        } else if starts_with(line, ascii_bytes("nozen.recoil.add(")) {
            self.handle_recoil_add(line)
        } else if starts_with(line, ascii_bytes("nozen.recoil.delete(")) {
            self.handle_recoil_delete(line)
        } else if starts_with(line, ascii_bytes("nozen.recoil.list")) {
            self.handle_recoil_list()
        } else if starts_with(line, ascii_bytes("nozen.recoil.get(")) {
            self.handle_recoil_get(line)
        } else if starts_with(line, ascii_bytes("nozen.recoil.names")) {
            self.handle_recoil_names()
        } else if starts_with(line, ascii_bytes("nozen.print(")) {
            self.handle_print(line)
        } else if starts_with(line, ascii_bytes("nozen.descriptor.get(")) {
            self.handle_descriptor_get(line, descriptor_cache)
        } else if starts_with(line, ascii_bytes("nozen.descriptor.stats")) {
            self.handle_descriptor_stats(descriptor_cache)
        } else if starts_with(line, ascii_bytes("nozen.restart")) {
            CommandType::Restart
        } else {
            CommandType::NoOp
        }
    }

    /// Makes `text` the response.
    fn respond(&mut self, text: &[u8])
        requires
            old(self).wf(),
            text@.len() <= 256,
        ensures
            final(self).wf(),
            final(self)@ == (ProcessorModel { response: text@, ..old(self)@ }),
    {
        self.response_len = 0;
        write_str(&mut self.response_buffer, text, &mut self.response_len);
        proof {
            assert(self@.response =~= text@);
        }
    }

    /// `nozen.move(x,y)`.
    fn parse_mouse_move(&mut self, line: &[u8]) -> (r: CommandType)
        requires
            old(self).wf(),
            line@.len() >= 11,
        ensures
            final(self).wf(),
            final(self)@ == run_move(old(self)@, line@).0,
            r.action() == run_move(old(self)@, line@).1,
            r.well_formed(),
    {
        let args = match arguments_of(line, 11) {
            Some(a) => a,
            None => return CommandType::NoOp,
        };
        let (x, y) = match number_pair_of(args) {
            Some(pair) => pair,
            None => return CommandType::NoOp,
        };
        self.mouse_state.update_relative(x, y);
        mouse_command(0x00, (x & 0xFF) as u8, (y & 0xFF) as u8, 0x00)
    }

    /// `nozen.moveto(x,y)`.
    fn parse_mouse_moveto(&mut self, line: &[u8]) -> (r: CommandType)
        requires
            old(self).wf(),
            line@.len() >= 13,
        ensures
            final(self).wf(),
            final(self)@ == run_moveto(old(self)@, line@).0,
            r.action() == run_moveto(old(self)@, line@).1,
            r.well_formed(),
    {
        let args = match arguments_of(line, 13) {
            Some(a) => a,
            None => return CommandType::NoOp,
        };
        let (target_x, target_y) = match number_pair_of(args) {
            Some(pair) => pair,
            None => return CommandType::NoOp,
        };
        let (dx, dy) = self.mouse_state.delta_to(target_x, target_y);
        self.mouse_state.set_position(target_x, target_y);
        mouse_command(0x00, (dx & 0xFF) as u8, (dy & 0xFF) as u8, 0x00)
    }

    /// A button command: `prefix`, then `1` to press or anything else to
    /// release, then `)`.
    fn parse_button_command(&self, line: &[u8], button_mask: u8, prefix: &[u8]) -> (r: CommandType)
        requires
            prefix@.len() <= line@.len(),
        ensures
            r.action() == run_button(line@, button_mask, prefix@.len() as int),
            r.well_formed(),
    {
        let args = match arguments_of(line, prefix.len()) {
            Some(a) => a,
            None => return CommandType::NoOp,
        };
        proof {
            crate::scan::lemma_first_index(line@.skip(prefix@.len() as int), equal_to(0x29));
        }
        let state = line[prefix.len()];
        let buttons = if state == 0x31 {
            button_mask
        } else {
            0x00
        };
        mouse_command(buttons, 0x00, 0x00, 0x00)
    }

    /// `nozen.wheel(amount)`.
    fn parse_wheel_command(&self, line: &[u8]) -> (r: CommandType)
        requires
            line@.len() >= 12,
        ensures
            r.action() == run_wheel(line@),
            r.well_formed(),
    {
        let amount_str = match arguments_of(line, 12) {
            Some(a) => a,
            None => return CommandType::NoOp,
        };
        let amount = match parse_int(amount_str) {
            Some(v) => v,
            None => return CommandType::NoOp,
        };
        mouse_command(0x00, 0x00, 0x00, (amount & 0xFF) as u8)
    }

    /// `nozen.getpos`: answers with the pointer's position.
    fn handle_getpos(&mut self) -> (r: CommandType)
        requires
            old(self).wf(),
        ensures
            final(self).wf(),
            final(self)@ == (ProcessorModel {
                response: position_text(old(self)@.x, old(self)@.y),
                ..old(self)@
            }),
            r.action() == Action::Response,
            r.well_formed(),
    {
        let (x, y) = self.mouse_state.position();
        let mut resp = [0u8;256];
        let mut idx: usize = 0;
        let mut number = [0u8;6];
        proof {
            reveal_strlit("km.pos(");
        }
        write_str(&mut resp, ascii_bytes("km.pos("), &mut idx);
        let n = format_i16(x, &mut number);
        write_str(&mut resp, &number[0..n], &mut idx);
        write_str(&mut resp, &[0x2C], &mut idx);
        let n = format_i16(y, &mut number);
        write_str(&mut resp, &number[0..n], &mut idx);
        write_str(&mut resp, &[0x29, 0x0A], &mut idx);
        proof {
            assert(resp@.take(idx as int) =~= position_text(x, y));
        }
        self.respond(&resp[0..idx]);
        CommandType::Response
    }

    /// `nozen.print(message)`: answers with the message.
    fn handle_print(&mut self, line: &[u8]) -> (r: CommandType)
        requires
            old(self).wf(),
            12 <= line@.len() <= 256,
        ensures
            final(self).wf(),
            match print_text(line@) {
                Some(text) => final(self)@ == (ProcessorModel { response: text, ..old(self)@ })
                    && r.action() == Action::Response,
                None => final(self)@ == old(self)@ && r.action() == Action::NoOp,
            },
            r.well_formed(),
    {
        let args_start: usize = 12;
        if line.len() <= args_start {
            return CommandType::NoOp;
        }
        let message = match arguments_of(line, args_start) {
            Some(a) => a,
            None => return CommandType::NoOp,
        };
        let msg_len: usize = if message.len() < 254 {
            message.len()
        } else {
            254
        };
        self.response_len = 0;
        write_str(&mut self.response_buffer, &message[0..msg_len], &mut self.response_len);
        write_str(&mut self.response_buffer, &[0x0A], &mut self.response_len);
        proof {
            assert(message@.subrange(0, msg_len as int) =~= clip(message@, 254));
            assert(self@.response =~= clip(message@, 254) + seq![0x0Au8]);
        }
        CommandType::Response
    }

    /// Makes the ASCII text `text` the response.
    fn respond_text(&mut self, text: &str)
        requires
            old(self).wf(),
            text.is_ascii(),
            text@.len() <= 256,
        ensures
            final(self).wf(),
            final(self)@ == (ProcessorModel { response: ascii(text), ..old(self)@ }),
    {
        self.respond(ascii_bytes(text));
    }

    /// `nozen.recoil.add(name){steps}`.
    fn handle_recoil_add(&mut self, line: &[u8]) -> (r: CommandType)
        requires
            old(self).wf(),
        ensures
            final(self).wf(),
            final(self)@ == run_recoil_add(old(self)@, line@),
            r.action() == Action::Response,
            r.well_formed(),
    {
        proof {
            reveal_strlit("???");
            reveal_strlit("Recoil pattern added\n");
            reveal_strlit("Error: ");
            reveal_strlit("Invalid recoil.add format\n");
        }
        match parse_recoil_add(line) {
            Some((name, steps)) => {
                let name_str = match utf8_text(name) {
                    Some(text) => text,
                    None => {
                        proof {
                            vstd::string::is_ascii_spec_bytes("???");
                        }
                        "???"
                    },
                };
                let steps_slice: &[i16] = steps_as_slice(&steps);
                match self.recoil_manager.add_pattern(name_str, steps_slice) {
                    Ok(_) => {
                        self.respond_text("Recoil pattern added\n");
                    },
                    Err(e) => {
                        let mut resp = [0u8;256];
                        let mut idx: usize = 0;
                        put_text(&mut resp, "Error: ", &mut idx);
                        let e_bytes = e.as_bytes();
                        let e_len: usize = if e_bytes.len() < 240 {
                            e_bytes.len()
                        } else {
                            240
                        };
                        let shown = &e_bytes[0..e_len];
                        assert(shown@ =~= clip(e_bytes@, 240));
                        put(&mut resp, shown, &mut idx);
                        put(&mut resp, &[0x0A], &mut idx);
                        proof {
                            assert(resp@.take(idx as int) =~= ascii("Error: ") + clip(
                                e_bytes@,
                                240,
                            ) + seq![0x0Au8]);
                        }
                        self.respond(&resp[0..idx]);
                    },
                }
            },
            None => {
                self.respond_text("Invalid recoil.add format\n");
            },
        }
        CommandType::Response
    }

    /// `nozen.recoil.delete(name)`.
    fn handle_recoil_delete(&mut self, line: &[u8]) -> (r: CommandType)
        requires
            old(self).wf(),
        ensures
            final(self).wf(),
            final(self)@ == run_recoil_delete(old(self)@, line@),
            r.action() == Action::Response,
            r.well_formed(),
    {
        proof {
            reveal_strlit("???");
            reveal_strlit("nozen.recoil.delete");
            reveal_strlit("Pattern deleted\n");
            reveal_strlit("Pattern not found\n");
            reveal_strlit("Invalid delete format\n");
        }
        match parse_recoil_name(line, ascii_bytes("nozen.recoil.delete")) {
            Some(name) => {
                let name_str = match utf8_text(name) {
                    Some(text) => text,
                    None => {
                        proof {
                            vstd::string::is_ascii_spec_bytes("???");
                        }
                        "???"
                    },
                };
                if self.recoil_manager.delete_pattern(name_str) {
                    self.respond_text("Pattern deleted\n");
                } else {
                    self.respond_text("Pattern not found\n");
                }
            },
            None => {
                self.respond_text("Invalid delete format\n");
            },
        }
        CommandType::Response
    }

    /// `nozen.recoil.list`: answers with a line for each pattern.
    fn handle_recoil_list(&mut self) -> (r: CommandType)
        requires
            old(self).wf(),
        ensures
            final(self).wf(),
            final(self)@ == (ProcessorModel {
                response: list_text(old(self)@.patterns),
                ..old(self)@
            }),
            r.action() == Action::Response,
            r.well_formed(),
    {
        let mut resp = [0u8;256];
        let mut idx: usize = 0;
        proof {
            reveal_strlit("Stored patterns:\n");
        }
        put_text(&mut resp, "Stored patterns:\n", &mut idx);
        let patterns = self.recoil_manager.list_patterns();
        let ghost model = self@.patterns;
        let mut k: usize = 0;
        while k < patterns.len() && idx + 64 <= 256
            invariant
                k <= patterns@.len(),
                idx <= 256,
                patterns@.len() == model.len(),
                forall|j: int| 0 <= j < patterns@.len() ==> (#[trigger] patterns@[j])@ == model[j],
                list_text(model) == append_list(resp@.take(idx as int), model, k as int),
            decreases patterns@.len() - k,
        {
            let ghost cur = resp@.take(idx as int);
            put_listed(&mut resp, patterns[k], &mut idx);
            proof {
                assert(append_list(cur, model, k as int) == append_list(
                    resp@.take(idx as int),
                    model,
                    k + 1,
                ));
            }
            k += 1;
        }
        self.respond(&resp[0..idx]);
        CommandType::Response
    }

    /// `nozen.recoil.get(name)`: answers with the pattern.
    fn handle_recoil_get(&mut self, line: &[u8]) -> (r: CommandType)
        requires
            old(self).wf(),
        ensures
            final(self).wf(),
            final(self)@ == (ProcessorModel {
                response: recoil_get_text(old(self)@.patterns, line@),
                ..old(self)@
            }),
            r.action() == Action::Response,
            r.well_formed(),
    {
        proof {
            reveal_strlit("???");
            reveal_strlit("nozen.recoil.get");
            reveal_strlit(": {");
            reveal_strlit("}\n");
            reveal_strlit("Pattern not found\n");
            reveal_strlit("Invalid get format\n");
        }
        match parse_recoil_name(line, ascii_bytes("nozen.recoil.get")) {
            Some(name) => {
                let name_str = match utf8_text(name) {
                    Some(text) => text,
                    None => {
                        proof {
                            vstd::string::is_ascii_spec_bytes("???");
                        }
                        "???"
                    },
                };
                let mut resp = [0u8;256];
                let mut idx: usize = 0;
                let found = match self.recoil_manager.get_pattern(name_str) {
                    Some(pattern) => {
                        put_name(&mut resp, pattern, &mut idx);
                        put_text(&mut resp, ": {", &mut idx);
                        put_steps(&mut resp, steps_as_slice(&pattern.steps), &mut idx);
                        put_text(&mut resp, "}\n", &mut idx);
                        proof {
                            assert(Seq::<u8>::empty() + clip(pattern@.name, 32) =~= clip(
                                pattern@.name,
                                32,
                            ));
                        }
                        true
                    },
                    None => false,
                };
                if found {
                    self.respond(&resp[0..idx]);
                } else {
                    self.respond_text("Pattern not found\n");
                }
            },
            None => {
                self.respond_text("Invalid get format\n");
            },
        }
        CommandType::Response
    }

    /// `nozen.recoil.names`: answers with the names of the patterns.
    fn handle_recoil_names(&mut self) -> (r: CommandType)
        requires
            old(self).wf(),
        ensures
            final(self).wf(),
            final(self)@ == (ProcessorModel {
                response: names_text(old(self)@.patterns),
                ..old(self)@
            }),
            r.action() == Action::Response,
            r.well_formed(),
    {
        let mut resp = [0u8;256];
        let mut idx: usize = 0;
        proof {
            reveal_strlit("Available patterns:\n");
            reveal_strlit("- ");
        }
        put_text(&mut resp, "Available patterns:\n", &mut idx);
        let names = self.recoil_manager.list_names();
        let ghost model = self@.patterns;
        let mut k: usize = 0;
        let mut full = false;
        while k < names.len() && !full
            invariant
                k <= names@.len(),
                idx <= 256,
                names@.len() == model.len(),
                forall|j: int|
                    0 <= j < names@.len() ==> (#[trigger] names@[j]).spec_bytes() == model[j].name,
                names_text(model) == append_names(resp@.take(idx as int), model, k as int),
                full ==> append_names(resp@.take(idx as int), model, k as int) == resp@.take(
                    idx as int,
                ),
                "- ".is_ascii(),
            decreases names@.len() - k + (if full { 0int } else { 1int }),
        {
            let name = names[k];
            let name_bytes = name.as_bytes();
            if name_bytes.len() > 256 || idx + name_bytes.len() + 3 > 256 {
                full = true;
            } else {
                let ghost cur = resp@.take(idx as int);
                let line_feed = [0x0Au8];
                assert(line_feed@ =~= seq![0x0Au8]);
                put_text(&mut resp, "- ", &mut idx);
                put(&mut resp, name_bytes, &mut idx);
                put(&mut resp, &line_feed, &mut idx);
                proof {
                    assert(name_bytes@ == model[k as int].name);
                    assert(append_names(cur, model, k as int) == append_names(
                        resp@.take(idx as int),
                        model,
                        k + 1,
                    ));
                }
                k += 1;
            }
        }
        self.respond(&resp[0..idx]);
        CommandType::Response
    }

    /// Puts `piece` behind the response.
    fn add_to_response(&mut self, piece: &[u8])
        requires
            old(self).wf(),
        ensures
            final(self).wf(),
            final(self)@ == (ProcessorModel {
                response: append(old(self)@.response, piece@),
                ..old(self)@
            }),
    {
        put(&mut self.response_buffer, piece, &mut self.response_len);
    }

    /// Puts the ASCII text `piece` behind the response.
    fn add_text_to_response(&mut self, piece: &str)
        requires
            old(self).wf(),
            piece.is_ascii(),
        ensures
            final(self).wf(),
            final(self)@ == (ProcessorModel {
                response: append(old(self)@.response, ascii(piece)),
                ..old(self)@
            }),
    {
        self.add_to_response(ascii_bytes(piece));
    }

    /// Forgets the response.
    fn clear_response(&mut self)
        requires
            old(self).wf(),
        ensures
            final(self).wf(),
            final(self)@ == (ProcessorModel { response: Seq::empty(), ..old(self)@ }),
    {
        self.response_len = 0;
        proof {
            assert(self@.response =~= Seq::empty());
        }
    }

    /// Logs a descriptor that was parsed and cached.
    fn respond_cached(
        &mut self,
        addr: u8,
        iface: u8,
        is_keyboard: bool,
        is_mouse: bool,
        is_gamepad: bool,
        desc_len: usize,
        Ghost(d): Ghost<crate::descriptor::DescriptorModel>,
    )
        requires
            old(self).wf(),
            desc_len <= 1024,
            d.is_keyboard == is_keyboard,
            d.is_mouse == is_mouse,
            d.is_gamepad == is_gamepad,
        ensures
            final(self).wf(),
            final(self)@ == (ProcessorModel {
                response: cached_text(addr, iface, d, desc_len as int),
                ..old(self)@
            }),
    {
        proof {
            reveal_strlit("[AUTO] HID descriptor: ");
            reveal_strlit("dev=");
            reveal_strlit(" if=");
            reveal_strlit(" ");
            reveal_strlit("B\n");
            reveal_strlit("[Keyboard] ");
            reveal_strlit("[Mouse] ");
            reveal_strlit("[Gamepad] ");
            lemma_short_numbers(addr as nat);
            lemma_short_numbers(iface as nat);
            lemma_short_numbers(desc_len as nat);
        }
        self.clear_response();
        let mut msg = text_new();
        push_ascii(&mut msg, "[AUTO] HID descriptor: ");
        push_ascii(&mut msg, "dev=");
        push_decimal(&mut msg, addr as u64);
        push_ascii(&mut msg, " if=");
        push_decimal(&mut msg, iface as u64);
        push_ascii(&mut msg, " ");
        let ghost head = text_bytes(msg);
        assert(head =~= ascii("[AUTO] HID descriptor: ") + device_text(addr, iface) + ascii(" "));
        self.add_to_response(text_as_bytes(&msg));
        assert(self@.response =~= head);
        if is_keyboard {
            self.add_text_to_response("[Keyboard] ");
        }
        if is_mouse {
            self.add_text_to_response("[Mouse] ");
        }
        if is_gamepad {
            self.add_text_to_response("[Gamepad] ");
        }
        assert(self@.response =~= head + bracketed_kinds(d));
        push_decimal(&mut msg, desc_len as u64);
        push_ascii(&mut msg, "B\n");
        self.add_to_response(text_as_bytes(&msg));
        assert(self@.response =~= cached_text(addr, iface, d, desc_len as int));
    }

    /// Logs a descriptor that did not parse.
    fn respond_refused(&mut self, addr: u8, iface: u8)
        requires
            old(self).wf(),
        ensures
            final(self).wf(),
            final(self)@ == (ProcessorModel { response: refused_text(addr, iface), ..old(self)@ }),
    {
        proof {
            reveal_strlit("[WARN] Failed to parse descriptor: ");
            reveal_strlit("dev=");
            reveal_strlit(" if=");
            reveal_strlit("\n");
            lemma_short_numbers(addr as nat);
            lemma_short_numbers(iface as nat);
        }
        self.clear_response();
        let mut msg = text_new();
        push_ascii(&mut msg, "[WARN] Failed to parse descriptor: ");
        push_ascii(&mut msg, "dev=");
        push_decimal(&mut msg, addr as u64);
        push_ascii(&mut msg, " if=");
        push_decimal(&mut msg, iface as u64);
        push_ascii(&mut msg, "\n");
        self.add_to_response(text_as_bytes(&msg));
        assert(self@.response =~= refused_text(addr, iface));
    }

    /// A descriptor line that the FPGA sends when it has seen a HID report
    /// descriptor: `[DESC:AA:I]{hex}`.
    fn handle_fpga_descriptor(&mut self, line: &[u8], descriptor_cache: &mut DescriptorCache) -> (r:
        CommandType)
        requires
            old(self).wf(),
            old(descriptor_cache).wf(),
            old(descriptor_cache)@.clock + 2 <= u32::MAX,
        ensures
            final(self).wf(),
            final(descriptor_cache).wf(),
            (Reaction {
                processor: final(self)@,
                cache: final(descriptor_cache)@,
                action: r.action(),
            }) == run_descriptor(old(self)@, old(descriptor_cache)@, line@),
            r.well_formed(),
    {
        let mut descriptor_bytes = [0u8;1024];
        let (addr, iface, desc_len) = match read_descriptor_line(line, &mut descriptor_bytes) {
            Some(found) => found,
            None => return CommandType::NoOp,
        };
        let raw = &descriptor_bytes[0..desc_len];
        assert(raw@ =~= descriptor_bytes@.take(desc_len as int));
        let ghost cache_before = descriptor_cache@;

        match descriptor_cache.add(addr, iface, raw) {
            Ok(()) => {
                let ghost d = parse_spec(raw@).unwrap();
                proof {
                    lemma_insert_keeps_raw(cache_before, addr, iface, d, raw@);
                }
                let (is_keyboard, is_mouse, is_gamepad) = match descriptor_cache.get(addr, iface) {
                    Some(desc) => (desc.is_keyboard, desc.is_mouse, desc.is_gamepad),
                    None => (false, false, false),
                };
                self.respond_cached(
                    addr,
                    iface,
                    is_keyboard,
                    is_mouse,
                    is_gamepad,
                    desc_len,
                    Ghost(d),
                );
                CommandType::Response
            },
            Err(_) => {
                self.respond_refused(addr, iface);
                CommandType::Response
            },
        }
    }

    /// `nozen.descriptor.get(addr,iface)`: answers with what is cached for
    /// the key.
    fn handle_descriptor_get(&mut self, line: &[u8], descriptor_cache: &mut DescriptorCache) -> (r:
        CommandType)
        requires
            old(self).wf(),
            old(descriptor_cache).wf(),
            old(descriptor_cache)@.clock + 1 <= u32::MAX,
            line@.len() >= 21,
        ensures
            final(self).wf(),
            final(descriptor_cache).wf(),
            (Reaction {
                processor: final(self)@,
                cache: final(descriptor_cache)@,
                action: r.action(),
            }) == run_descriptor_get(old(self)@, old(descriptor_cache)@, line@),
            r.well_formed(),
    {
        proof {
            reveal_strlit("[ERROR] Invalid address\n");
            reveal_strlit("[ERROR] Invalid interface\n");
            reveal_strlit("[ERROR] Descriptor not found\n");
            reveal_strlit("[Descriptor] addr=");
            reveal_strlit(" iface=");
            reveal_strlit("\n");
            reveal_strlit("  Type: ");
            reveal_strlit("Keyboard ");
            reveal_strlit("Mouse ");
            reveal_strlit("Gamepad ");
            reveal_strlit("  Fields: ");
        }
        let args = &line[21..line.len()];
        assert(args@ =~= line@.skip(21));
        let addr = match parse_u8_from_slice(args) {
            Some(v) => v,
            None => {
                self.respond_text("[ERROR] Invalid address\n");
                return CommandType::Response;
            },
        };
        let iface_text = match position(args, 0x2C) {
            Some(comma) => {
                let behind = &args[comma + 1..args.len()];
                assert(behind@ =~= args@.skip(comma + 1));
                Some(behind)
            },
            None => None,
        };
        let iface = match iface_text {
            Some(text) => parse_u8_from_slice(text),
            None => None,
        };
        let iface = match iface {
            Some(v) => v,
            None => {
                self.respond_text("[ERROR] Invalid interface\n");
                return CommandType::Response;
            },
        };
        let ghost cache_before = descriptor_cache@;
        let found = match descriptor_cache.get(addr, iface) {
            Some(desc) => Some(
                (
                    desc.is_keyboard,
                    desc.is_mouse,
                    desc.is_gamepad,
                    fields_as_slice(&desc.fields).len(),
                ),
            ),
            None => None,
        };
        match found {
            Some((is_keyboard, is_mouse, is_gamepad, field_count)) => {
                let ghost d = cache_before.entries[cache_before.slot(addr, iface)].descriptor;
                proof {
                    lemma_short_numbers(addr as nat);
                    lemma_short_numbers(iface as nat);
                    lemma_short_numbers(field_count as nat);
                }
                self.clear_response();
                let mut msg = text_new();
                push_ascii(&mut msg, "[Descriptor] addr=");
                push_decimal(&mut msg, addr as u64);
                push_ascii(&mut msg, " iface=");
                push_decimal(&mut msg, iface as u64);
                push_ascii(&mut msg, "\n");
                let ghost first = text_bytes(msg);
                self.add_to_response(text_as_bytes(&msg));

                push_ascii(&mut msg, "  Type: ");
                if is_keyboard {
                    push_ascii(&mut msg, "Keyboard ");
                }
                if is_mouse {
                    push_ascii(&mut msg, "Mouse ");
                }
                if is_gamepad {
                    push_ascii(&mut msg, "Gamepad ");
                }
                push_ascii(&mut msg, "\n");
                let ghost second = text_bytes(msg);
                assert(second =~= first + ascii("  Type: ") + spaced_kinds(d) + ascii("\n"));
                self.add_to_response(text_as_bytes(&msg));

                push_ascii(&mut msg, "  Fields: ");
                push_decimal(&mut msg, field_count as u64);
                push_ascii(&mut msg, "\n");
                self.add_to_response(text_as_bytes(&msg));
                proof {
                    assert(self@.response =~= found_text(addr, iface, d));
                }
                CommandType::Response
            },
            None => {
                self.respond_text("[ERROR] Descriptor not found\n");
                CommandType::Response
            },
        }
    }

    /// `nozen.descriptor.stats`: answers with the counts over the cache.
    fn handle_descriptor_stats(&mut self, descriptor_cache: &DescriptorCache) -> (r: CommandType)
        requires
            old(self).wf(),
            descriptor_cache.wf(),
        ensures
            final(self).wf(),
            final(self)@ == (ProcessorModel {
                response: stats_of(descriptor_cache@).line() + seq![0x0Au8],
                ..old(self)@
            }),
            r.action() == Action::Response,
            r.well_formed(),
    {
        let stats = descriptor_cache.get_stats();
        assert(stats == stats_of(descriptor_cache@));
        let stats_str = stats.format();
        proof {
            lemma_short_numbers(stats.total_devices as nat);
            lemma_short_numbers(stats.keyboards as nat);
            lemma_short_numbers(stats.mice as nat);
            lemma_short_numbers(stats.gamepads as nat);
            lemma_short_numbers(stats.other as nat);
            reveal_strlit("Devices:");
            reveal_strlit(" K:");
            reveal_strlit(" M:");
            reveal_strlit(" G:");
            reveal_strlit(" O:");
        }
        self.clear_response();
        self.add_to_response(text_as_bytes(&stats_str));
        let line_feed = [0x0Au8];
        assert(line_feed@ =~= seq![0x0Au8]);
        self.add_to_response(&line_feed);
        proof {
            assert(self@.response =~= stats.line() + seq![0x0Au8]);
        }
        CommandType::Response
    }
}

} // verus!
