//! The wire format, stated as mathematics.
//!
//! Integers travel as base-128 varints: groups of seven payload bits,
//! most significant group first, with the continuation bit `0x80` set on
//! every byte but the last.  A signed varint's first byte carries only
//! six payload bits, because bit `0x40` holds the sign of the value.
//! Floating-point bit patterns travel as fixed-width big-endian words.
//!
//! Encoding is described by [`uvarint`] and [`svarint`]; decoding, with
//! its overflow and truncation behaviour, by [`uvar_decode`] and
//! [`svar_decode`], which mirror the executable decoder step for step.

use vstd::prelude::*;
use vstd::utf8::{
    decode_first_scalar, decode_utf8, is_leading_byte_width_1, is_leading_byte_width_2,
    is_leading_byte_width_3, is_leading_byte_width_4, valid_first_scalar, valid_utf8,
};

verus! {

// ---------------------------------------------------------------------------
// Encoding
// ---------------------------------------------------------------------------
/// The leading bytes of a varint: every group carries the continuation
/// bit, most significant group first.
pub open spec fn uvarint_pref(v: nat) -> Seq<u8>
    decreases v,
{
    if v < 0x80 {
        seq![(v + 0x80) as u8]
    } else {
        uvarint_pref(v / 0x80) + seq![((v % 0x80) + 0x80) as u8]
    }
}

/// The unsigned varint encoding of `v`.
pub open spec fn uvarint(v: nat) -> Seq<u8> {
    if v < 0x80 {
        seq![v as u8]
    } else {
        uvarint_pref(v / 0x80) + seq![(v % 0x80) as u8]
    }
}

/// The sign bit carried by the first byte of a signed varint.
pub open spec fn sign_flag(neg: bool) -> nat {
    if neg {
        0x40
    } else {
        0x00
    }
}

/// The leading bytes of a signed varint of magnitude `m`: the first one
/// holds six payload bits, the sign bit and the continuation bit; the
/// rest are ordinary continuation groups.
pub open spec fn svarint_pref(m: nat, neg: bool) -> Seq<u8>
    decreases m,
{
    if m < 0x40 {
        seq![(m + sign_flag(neg) + 0x80) as u8]
    } else {
        svarint_pref(m / 0x80, neg) + seq![((m % 0x80) + 0x80) as u8]
    }
}

/// The signed varint encoding of a magnitude and a sign.
pub open spec fn svarint(m: nat, neg: bool) -> Seq<u8> {
    if m < 0x40 {
        seq![(m + sign_flag(neg)) as u8]
    } else {
        svarint_pref(m / 0x80, neg) + seq![(m % 0x80) as u8]
    }
}

/// The magnitude of a signed 64-bit value.
pub open spec fn abs_i64(v: i64) -> nat {
    if v >= 0 {
        v as nat
    } else {
        (-(v as int)) as nat
    }
}

/// The wire encoding of a signed 64-bit integer.
pub open spec fn ivarint(v: i64) -> Seq<u8> {
    svarint(abs_i64(v), v < 0)
}

// ---------------------------------------------------------------------------
// Decoding
// ---------------------------------------------------------------------------
/// What reading one value from the head of a byte stream yields.
pub enum Decoded<T> {
    /// The value, and the number of bytes it occupied.
    Value { v: T, len: int },
    /// The stream ended before the value was complete.
    Truncated,
    /// The value's magnitude exceeded its target width.
    Overflow,
    /// The bytes did not hold valid UTF-8 (text and characters only).
    BadUtf8,
}

/// Adds `k` to the consumed length of a successful read.
pub open spec fn shifted<T>(d: Decoded<T>, k: int) -> Decoded<T> {
    match d {
        Decoded::Value { v, len } => Decoded::Value { v, len: len + k },
        _ => d,
    }
}

/// The bound that an unsigned decode enforces: an explicit maximum for a
/// width-bounded target, or the full 64-bit range.
pub open spec fn uvar_bound(max: Option<u64>) -> nat {
    match max {
        Option::Some(m) => m as nat,
        Option::None => u64::MAX as nat,
    }
}

/// Continues an unsigned varint whose bytes so far accumulated to `acc`
/// and ended with the continuation bit set.  Each step folds in seven
/// more bits, checking the 64-bit width and then the bound `max`.
pub open spec fn uvar_decode_more(b: Seq<u8>, acc: nat, max: nat) -> Decoded<u64>
    decreases b.len(),
{
    if b.len() == 0 {
        Decoded::Truncated
    } else {
        let byte = b[0];
        let lsb = (byte % 0x80) as nat;
        if acc * 0x80 > u64::MAX {
            Decoded::Overflow
        } else {
            let acc2 = acc * 0x80 + lsb;
            if acc2 > max {
                Decoded::Overflow
            } else if byte >= 0x80 {
                shifted(uvar_decode_more(b.drop_first(), acc2, max), 1)
            } else {
                Decoded::Value { v: acc2 as u64, len: 1 }
            }
        }
    }
}

/// Reads an unsigned varint from the head of `b`.  The first byte's
/// seven payload bits seed the accumulator and are not checked against
/// the bound; the decoder checks only as continuation groups fold in.
pub open spec fn uvar_decode(b: Seq<u8>, max: nat) -> Decoded<u64> {
    if b.len() == 0 {
        Decoded::Truncated
    } else {
        let first = b[0];
        let seed = (first % 0x80) as nat;
        if first >= 0x80 {
            shifted(uvar_decode_more(b.drop_first(), seed, max), 1)
        } else {
            Decoded::Value { v: seed as u64, len: 1 }
        }
    }
}

/// Whether a magnitude fits a signed bound: a negative value may reach
/// one past the maximum, since magnitude `max + 1` is the minimum value.
pub open spec fn sbound_ok(mag: nat, neg: bool, max: Option<i64>) -> bool {
    match max {
        Option::Some(m) => if neg {
            mag <= m + 1
        } else {
            mag <= m
        },
        Option::None => true,
    }
}

/// The accumulated value that, together with a final zero group, a clear
/// continuation bit and a set sign bit, denotes the signed 64-bit
/// minimum, whose magnitude does not fit the non-negative 64-bit range.
pub open spec fn min_sentinel() -> nat {
    0x0100_0000_0000_0000
}

/// Continues a signed varint's magnitude: as [`uvar_decode_more`], but
/// the width check is the signed maximum, the bound check distinguishes
/// the signs, and the terminal byte pattern of the signed 64-bit minimum
/// is recognised before it could overflow.
pub open spec fn svar_decode_more(b: Seq<u8>, acc: nat, neg: bool, max: Option<i64>) -> Decoded<
    i64,
>
    decreases b.len(),
{
    if b.len() == 0 {
        Decoded::Truncated
    } else {
        let byte = b[0];
        let lsb = (byte % 0x80) as nat;
        let more = byte >= 0x80;
        if !more && neg && lsb == 0 && acc == min_sentinel() {
            Decoded::Value { v: i64::MIN, len: 1 }
        } else if acc * 0x80 > i64::MAX {
            Decoded::Overflow
        } else {
            let acc2 = acc * 0x80 + lsb;
            if !sbound_ok(acc2, neg, max) {
                Decoded::Overflow
            } else if more {
                shifted(svar_decode_more(b.drop_first(), acc2, neg, max), 1)
            } else {
                Decoded::Value {
                    v: if neg {
                        (-(acc2 as int)) as i64
                    } else {
                        acc2 as i64
                    },
                    len: 1,
                }
            }
        }
    }
}

/// Reads a signed varint from the head of `b`: the first byte gives the
/// sign and six unchecked payload bits, the rest follow
/// [`svar_decode_more`].
pub open spec fn svar_decode(b: Seq<u8>, max: Option<i64>) -> Decoded<i64> {
    if b.len() == 0 {
        Decoded::Truncated
    } else {
        let first = b[0];
        let neg = first % 0x80 >= 0x40;
        let seed = (first % 0x40) as nat;
        if first >= 0x80 {
            shifted(svar_decode_more(b.drop_first(), seed, neg, max), 1)
        } else {
            Decoded::Value {
                v: if neg {
                    (-(seed as int)) as i64
                } else {
                    seed as i64
                },
                len: 1,
            }
        }
    }
}

/// A varint decode yields a value, truncation or overflow, never a
/// UTF-8 fault.
pub proof fn lemma_uvar_more_not_text(b: Seq<u8>, acc: nat, max: nat)
    ensures
        !(uvar_decode_more(b, acc, max) is BadUtf8),
    decreases b.len(),
{
    if b.len() > 0 {
        lemma_uvar_more_not_text(b.drop_first(), acc * 0x80 + (b[0] % 0x80) as nat, max);
    }
}

/// A varint decode yields a value, truncation or overflow, never a
/// UTF-8 fault.
pub proof fn lemma_uvar_not_text(b: Seq<u8>, max: nat)
    ensures
        !(uvar_decode(b, max) is BadUtf8),
{
    if b.len() > 0 && b[0] >= 0x80 {
        lemma_uvar_more_not_text(b.drop_first(), (b[0] % 0x80) as nat, max);
    }
}

/// A successful varint decode consumes at least one byte and no more
/// than the stream holds.
pub proof fn lemma_uvar_more_len(b: Seq<u8>, acc: nat, max: nat)
    ensures
        uvar_decode_more(b, acc, max) matches Decoded::Value { v, len } ==> 1 <= len <= b.len(),
    decreases b.len(),
{
    if b.len() > 0 {
        lemma_uvar_more_len(b.drop_first(), acc * 0x80 + (b[0] % 0x80) as nat, max);
    }
}

/// A successful varint decode consumes at least one byte and no more
/// than the stream holds.
pub proof fn lemma_uvar_len(b: Seq<u8>, max: nat)
    ensures
        uvar_decode(b, max) matches Decoded::Value { v, len } ==> 1 <= len <= b.len(),
{
    if b.len() > 0 && b[0] >= 0x80 {
        lemma_uvar_more_len(b.drop_first(), (b[0] % 0x80) as nat, max);
    }
}

/// A successful bounded decode never yields a value above the bound:
/// every continuation step checks the accumulator against it.
pub proof fn lemma_uvar_more_value_bound(b: Seq<u8>, acc: nat, max: nat)
    ensures
        uvar_decode_more(b, acc, max) matches Decoded::Value { v, len } ==> v <= max,
    decreases b.len(),
{
    if b.len() > 0 {
        lemma_uvar_more_value_bound(b.drop_first(), acc * 0x80 + (b[0] % 0x80) as nat, max);
    }
}

/// A successful bounded decode fits the bound, provided the bound covers
/// the unchecked seven payload bits of a first byte without continuation.
pub proof fn lemma_uvar_value_bound(b: Seq<u8>, max: nat)
    requires
        max >= 0x7f,
    ensures
        uvar_decode(b, max) matches Decoded::Value { v, len } ==> v <= max,
{
    if b.len() > 0 && b[0] >= 0x80 {
        lemma_uvar_more_value_bound(b.drop_first(), (b[0] % 0x80) as nat, max);
    }
}

/// A successful bounded signed decode stays within `-(max + 1) ..= max`:
/// each step checks the magnitude, and the sentinel of the 64-bit
/// minimum cannot be reached when the bound sits below it.
pub proof fn lemma_svar_more_value_range(b: Seq<u8>, acc: nat, neg: bool, m: i64)
    requires
        m >= 0,
        (m as int) + 1 < min_sentinel(),
        acc != min_sentinel(),
    ensures
        svar_decode_more(b, acc, neg, Some(m)) matches Decoded::Value { v, len } ==> -(m as int) - 1
            <= v <= m,
    decreases b.len(),
{
    if b.len() > 0 {
        let acc2 = acc * 0x80 + (b[0] % 0x80) as nat;
        if acc * 0x80 <= i64::MAX && sbound_ok(acc2, neg, Some(m)) {
            lemma_svar_more_value_range(b.drop_first(), acc2, neg, m);
        }
    }
}

/// A successful bounded signed decode stays within `-(max + 1) ..= max`,
/// provided the bound covers the unchecked six payload bits of a first
/// byte without continuation and sits below the minimum's sentinel.
pub proof fn lemma_svar_value_range(b: Seq<u8>, m: i64)
    requires
        m >= 0x3f,
        (m as int) + 1 < min_sentinel(),
    ensures
        svar_decode(b, Some(m)) matches Decoded::Value { v, len } ==> -(m as int) - 1 <= v <= m,
{
    if b.len() > 0 && b[0] >= 0x80 {
        lemma_svar_more_value_range(
            b.drop_first(),
            (b[0] % 0x40) as nat,
            b[0] % 0x80 >= 0x40,
            m,
        );
    }
}

// ---------------------------------------------------------------------------
// Fixed-width big-endian words
// ---------------------------------------------------------------------------
/// The 4-byte big-endian form of a 32-bit word.
pub open spec fn be32_bytes(v: u32) -> Seq<u8> {
    seq![
        (v / 0x0100_0000) as u8,
        ((v / 0x0001_0000) % 0x100) as u8,
        ((v / 0x100) % 0x100) as u8,
        (v % 0x100) as u8,
    ]
}

/// The 32-bit word held by 4 big-endian bytes.
pub open spec fn be32_value(b: Seq<u8>) -> u32
    recommends
        b.len() == 4,
{
    (b[0] * 0x0100_0000 + b[1] * 0x0001_0000 + b[2] * 0x100 + b[3]) as u32
}

/// The 8-byte big-endian form of a 64-bit word.
pub open spec fn be64_bytes(v: u64) -> Seq<u8> {
    seq![
        (v / 0x0100_0000_0000_0000) as u8,
        ((v / 0x0001_0000_0000_0000) % 0x100) as u8,
        ((v / 0x0000_0100_0000_0000) % 0x100) as u8,
        ((v / 0x0000_0001_0000_0000) % 0x100) as u8,
        ((v / 0x0100_0000) % 0x100) as u8,
        ((v / 0x0001_0000) % 0x100) as u8,
        ((v / 0x100) % 0x100) as u8,
        (v % 0x100) as u8,
    ]
}

/// The 64-bit word held by 8 big-endian bytes.
pub open spec fn be64_value(b: Seq<u8>) -> u64
    recommends
        b.len() == 8,
{
    (b[0] * 0x0100_0000_0000_0000 + b[1] * 0x0001_0000_0000_0000 + b[2] * 0x0000_0100_0000_0000
        + b[3] * 0x0000_0001_0000_0000 + b[4] * 0x0100_0000 + b[5] * 0x0001_0000 + b[6] * 0x100
        + b[7]) as u64
}

/// The signed 8-bit value whose two's-complement byte is `b`.
pub open spec fn i8_from_byte(b: u8) -> i8 {
    if b < 0x80 {
        b as i8
    } else {
        (b - 0x100) as i8
    }
}

// ---------------------------------------------------------------------------
// Text and raw byte sequences
// ---------------------------------------------------------------------------
/// The number of bytes a UTF-8 lead byte announces, or 0 when the byte
/// cannot begin an encoding.
pub open spec fn utf8_head_width(b0: u8) -> int {
    if is_leading_byte_width_1(b0) {
        1
    } else if is_leading_byte_width_2(b0) {
        2
    } else if is_leading_byte_width_3(b0) {
        3
    } else if is_leading_byte_width_4(b0) {
        4
    } else {
        0
    }
}

/// Reads one character from the head of `b`: the lead byte announces the
/// width, the whole encoding must be present and must be a well-formed
/// scalar encoding.
pub open spec fn char_decode(b: Seq<u8>) -> Decoded<char> {
    if b.len() == 0 {
        Decoded::Truncated
    } else {
        let w = utf8_head_width(b[0]);
        if w == 0 {
            Decoded::BadUtf8
        } else if b.len() < w {
            Decoded::Truncated
        } else if valid_first_scalar(b) {
            Decoded::Value { v: decode_first_scalar(b) as char, len: w }
        } else {
            Decoded::BadUtf8
        }
    }
}

/// Reads a length-prefixed string from the head of `b`: an unbounded
/// varint byte count, then that many bytes, which must be valid UTF-8.
pub open spec fn str_decode(b: Seq<u8>) -> Decoded<Seq<char>> {
    match uvar_decode(b, u64::MAX as nat) {
        Decoded::Value { v: n, len: k } => {
            if b.len() - k < n {
                Decoded::Truncated
            } else {
                let data = b.subrange(k, k + n);
                if valid_utf8(data) {
                    Decoded::Value { v: decode_utf8(data), len: k + n }
                } else {
                    Decoded::BadUtf8
                }
            }
        },
        Decoded::Truncated => Decoded::Truncated,
        Decoded::Overflow => Decoded::Overflow,
        Decoded::BadUtf8 => Decoded::BadUtf8,
    }
}

/// Reads a length-prefixed raw byte sequence from the head of `b`.
pub open spec fn blob_decode(b: Seq<u8>) -> Decoded<Seq<u8>> {
    match uvar_decode(b, u64::MAX as nat) {
        Decoded::Value { v: n, len: k } => {
            if b.len() - k < n {
                Decoded::Truncated
            } else {
                Decoded::Value { v: b.subrange(k, k + n), len: k + n }
            }
        },
        Decoded::Truncated => Decoded::Truncated,
        Decoded::Overflow => Decoded::Overflow,
        Decoded::BadUtf8 => Decoded::BadUtf8,
    }
}

} // verus!
