//! ASCII text: decimal numbers and the pieces that responses are made of.

use vstd::prelude::*;
use vstd::string::StringSliceAdditionalSpecFns;
use crate::bounded::{text_bytes, text_push, text_push_str};
use crate::scan::{first_index, lemma_first_index_is};

verus! {

/// The bytes of the ASCII text `s`, one for each character.
pub open spec fn ascii(s: &str) -> Seq<u8> {
    Seq::new(s@.len(), |i: int| s@[i] as u8)
}

/// The decimal digits of `n` as ASCII bytes, most significant first and
/// without leading zeros.
pub open spec fn decimal_digits(n: nat) -> Seq<u8>
    decreases n,
{
    if n < 10 {
        seq![(0x30 + n) as u8]
    } else {
        decimal_digits(n / 10).push((0x30 + n % 10) as u8)
    }
}

/// A number below `10^k` has at most `k` digits, and at least one.
pub proof fn lemma_decimal_digits_len(n: nat, k: nat)
    requires
        k >= 1,
        n < vstd::arithmetic::power::pow(10, k),
    ensures
        1 <= decimal_digits(n).len() <= k,
    decreases k,
{
    vstd::arithmetic::power::lemma_pow1(10);
    if n < 10 {
    } else {
        assert(k >= 2);
        vstd::arithmetic::power::lemma_pow_adds(10, (k - 1) as nat, 1);
        assert(n / 10 < vstd::arithmetic::power::pow(10, (k - 1) as nat)) by (nonlinear_arith)
            requires
                n < vstd::arithmetic::power::pow(10, (k - 1) as nat) * 10,
        ;
        lemma_decimal_digits_len(n / 10, (k - 1) as nat);
    }
}

/// A 64-bit number has at most 20 digits.
pub proof fn lemma_decimal_digits_u64(n: u64)
    ensures
        1 <= decimal_digits(n as nat).len() <= 20,
{
    assert(vstd::arithmetic::power::pow(10, 20) == 100000000000000000000int) by {
        reveal_with_fuel(vstd::arithmetic::power::pow, 21);
    }
    lemma_decimal_digits_len(n as nat, 20);
}

/// Appends the decimal digits of `n` to `s`, which has room for them.
pub(crate) fn push_decimal(s: &mut heapless::String<128>, n: u64)
    requires
        text_bytes(*old(s)).len() + decimal_digits(n as nat).len() <= 128,
    ensures
        text_bytes(*final(s)) == text_bytes(*old(s)) + decimal_digits(n as nat),
{
    let ghost before = text_bytes(*s);
    let mut digits: [u8; 20] = [0;20];
    let mut count: usize = 0;
    let mut rest: u64 = n;
    proof {
        lemma_decimal_digits_u64(n);
    }
    // The digits of `n`, least significant first.
    loop
        invariant_except_break
            count < 20,
            decimal_digits(n as nat).len() <= 20,
            decimal_digits(n as nat).len() == decimal_digits(rest as nat).len() + count,
            forall|j: int|
                0 <= j < count ==> digits[j] == decimal_digits(n as nat)[decimal_digits(
                    n as nat,
                ).len() - 1 - j],
            decimal_digits(n as nat).take(decimal_digits(rest as nat).len() as int)
                == decimal_digits(rest as nat),
        ensures
            1 <= count <= 20,
            count == decimal_digits(n as nat).len(),
            forall|j: int|
                0 <= j < count ==> digits[j] == decimal_digits(n as nat)[count - 1 - j],
        decreases rest,
    {
        let ghost all = decimal_digits(n as nat);
        let ghost cur = decimal_digits(rest as nat);
        digits[count] = 0x30 + (rest % 10) as u8;
        count += 1;
        if rest < 10 {
            assert(cur.len() == 1);
            assert(all[0] == cur[0]);
            break ;
        }
        proof {
            let shorter = decimal_digits((rest / 10) as nat);
            assert(cur == shorter.push((0x30 + rest % 10) as u8));
            assert(all[cur.len() - 1] == cur[cur.len() - 1]);
            assert(all.take(shorter.len() as int) =~= cur.take(shorter.len() as int));
            assert(cur.take(shorter.len() as int) =~= shorter);
            lemma_decimal_digits_u64(rest / 10);
        }
        rest = rest / 10;
    }
    let mut written: usize = 0;
    while written < count
        invariant
            written <= count <= 20,
            count == decimal_digits(n as nat).len(),
            before.len() + count <= 128,
            forall|j: int|
                0 <= j < count ==> digits[j] == decimal_digits(n as nat)[count - 1 - j],
            text_bytes(*s) == before + decimal_digits(n as nat).take(written as int),
        decreases count - written,
    {
        let digit: u8 = digits[count - 1 - written];
        proof {
            lemma_digit_is_ascii(n as nat, written as int);
        }
        let pushed = text_push(s, digit as char);
        proof {
            let all = decimal_digits(n as nat);
            vstd::utf8::is_ascii_chars_encode_utf8(seq![digit as char]);
            assert(vstd::utf8::encode_utf8(seq![digit as char]) =~= seq![digit]);
            assert(before + all.take(written as int) + seq![digit] =~= before + all.take(
                written + 1,
            ));
        }
        written += 1;
    }
    proof {
        assert(decimal_digits(n as nat).take(count as int) =~= decimal_digits(n as nat));
    }
}

/// Every decimal digit is one of the ASCII characters `0` to `9`.
pub proof fn lemma_digit_is_ascii(n: nat, i: int)
    requires
        0 <= i < decimal_digits(n).len(),
    ensures
        0x30 <= decimal_digits(n)[i] <= 0x39,
    decreases n,
{
    if n < 10 {
    } else {
        if i < decimal_digits(n / 10).len() {
            lemma_digit_is_ascii(n / 10, i);
        }
    }
}

/// Appends the ASCII text `piece` to `s`, which has room for it.
pub(crate) fn push_ascii(s: &mut heapless::String<128>, piece: &str)
    requires
        piece.is_ascii(),
        text_bytes(*old(s)).len() + piece@.len() <= 128,
    ensures
        text_bytes(*final(s)) == text_bytes(*old(s)) + ascii(piece),
{
    proof {
        vstd::string::is_ascii_spec_bytes(piece);
    }
    let _ = text_push_str(s, piece);
}

/// The bytes equal to `c`.
pub open spec fn equal_to(c: u8) -> spec_fn(u8) -> bool {
    |b: u8| b == c
}

/// The bytes other than `c`.
pub open spec fn other_than(c: u8) -> spec_fn(u8) -> bool {
    |b: u8| b != c
}

/// An ASCII decimal digit.
pub open spec fn is_digit(b: u8) -> bool {
    0x30 <= b <= 0x39
}

/// The bytes that are no decimal digit.
pub open spec fn not_digit() -> spec_fn(u8) -> bool {
    |b: u8| !is_digit(b)
}

/// The number that the decimal digits `digits` spell; 0 for none.
pub open spec fn decimal_value(digits: Seq<u8>) -> nat
    decreases digits.len(),
{
    if digits.len() == 0 {
        0
    } else {
        (10 * decimal_value(digits.drop_last()) + (digits.last() - 0x30)) as nat
    }
}

/// A decimal number as it stands at the start of a text: any number of
/// spaces, an optional minus sign, and the digits that follow.
pub struct Numeral {
    pub negative: bool,
    pub digits: Seq<u8>,
}

/// The numeral at the start of `data`. What follows the digits is not
/// looked at, and there may be no digit at all.
pub open spec fn numeral(data: Seq<u8>) -> Numeral {
    let spaces = first_index(data, other_than(0x20));
    let negative = spaces < data.len() && data[spaces] == 0x2D;
    let rest = data.skip(
        if negative {
            spaces + 1
        } else {
            spaces
        },
    );
    Numeral { negative, digits: rest.take(first_index(rest, not_digit())) }
}

/// The position of the first `c` in `data`, or `None` where there is none.
pub fn position(data: &[u8], c: u8) -> (r: Option<usize>)
    ensures
        match r {
            Some(i) => i == first_index(data@, equal_to(c)) && i < data@.len(),
            None => first_index(data@, equal_to(c)) == data@.len(),
        },
{
    let mut i: usize = 0;
    while i < data.len() && data[i] != c
        invariant
            i <= data@.len(),
            forall|j: int| 0 <= j < i ==> !equal_to(c)(#[trigger] data@[j]),
        decreases data@.len() - i,
    {
        i += 1;
    }
    proof {
        lemma_first_index_is(data@, equal_to(c), i as int);
    }
    if i < data.len() {
        Some(i)
    } else {
        None
    }
}

/// Where the numeral at the start of `data` has its digits: the position of
/// the first and the position behind the last, and whether a minus sign
/// stands before them.
pub fn scan_numeral(data: &[u8]) -> (r: (bool, usize, usize))
    ensures
        r.0 == numeral(data@).negative,
        r.1 <= r.2 <= data@.len(),
        data@.subrange(r.1 as int, r.2 as int) == numeral(data@).digits,
        forall|j: int| r.1 <= j < r.2 ==> is_digit(#[trigger] data@[j]),
{
    let mut idx: usize = 0;
    while idx < data.len() && data[idx] == 0x20
        invariant
            idx <= data@.len(),
            forall|j: int| 0 <= j < idx ==> !other_than(0x20)(#[trigger] data@[j]),
        decreases data@.len() - idx,
    {
        idx += 1;
    }
    proof {
        lemma_first_index_is(data@, other_than(0x20), idx as int);
    }
    let mut negative = false;
    if idx < data.len() && data[idx] == 0x2D {
        negative = true;
        idx += 1;
    }
    let first: usize = idx;
    let ghost rest = data@.skip(first as int);
    while idx < data.len() && data[idx] >= 0x30 && data[idx] <= 0x39
        invariant
            first <= idx <= data@.len(),
            rest == data@.skip(first as int),
            forall|j: int| 0 <= j < idx - first ==> !not_digit()(#[trigger] rest[j]),
        decreases data@.len() - idx,
    {
        idx += 1;
    }
    proof {
        lemma_first_index_is(rest, not_digit(), idx - first);
        assert(data@.subrange(first as int, idx as int) =~= rest.take(idx - first));
        assert forall|j: int| first <= j < idx implies is_digit(#[trigger] data@[j]) by {
            assert(!not_digit()(rest[j - first]));
        }
    }
    (negative, first, idx)
}

/// The bytes of the ASCII text `s`.
pub fn ascii_bytes(s: &str) -> (b: &[u8])
    requires
        s.is_ascii(),
    ensures
        b@ == ascii(s),
{
    proof {
        vstd::string::is_ascii_spec_bytes(s);
    }
    s.as_bytes()
}

/// `core::str::from_utf8`, its error dropped: the text that `bytes` encode
/// in UTF-8, or `None` where they are no UTF-8.
#[verifier::external_body]
pub(crate) fn utf8_text(bytes: &[u8]) -> (r: Option<&str>)
    ensures
        r is Some <==> vstd::utf8::valid_utf8(bytes@),
        r matches Some(text) ==> text.spec_bytes() == bytes@,
{
    core::str::from_utf8(bytes).ok()
}

} // verus!
