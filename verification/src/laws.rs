//! The laws relating encoding and decoding.
//!
//! The public proof functions here state, over the specification
//! functions of [`crate::wire`], that decoding undoes encoding for
//! every value and every trailing stream; that a bounded decode of an
//! encoded value above the bound reports an overflow; and that a decode
//! from a strict prefix of an encoding reports a truncation.

use vstd::prelude::*;

use vstd::utf8::{encode_scalar, encode_utf8};

use crate::wire::{
    abs_i64, be32_bytes, be32_value, be64_bytes, be64_value, blob_decode, char_decode,
    i8_from_byte, ivarint,
    sbound_ok, shifted, sign_flag, str_decode, svar_decode, svar_decode_more, svarint_pref,
    uvar_decode, uvar_decode_more, uvarint, uvarint_pref, Decoded,
};

verus! {

/// Powers of the base: the weight of a group `k` places above the last.
spec fn pow128(k: nat) -> nat
    decreases k,
{
    if k == 0 {
        1
    } else {
        0x80 * pow128((k - 1) as nat)
    }
}

proof fn lemma_shifted_shifted<T>(d: Decoded<T>, a: int, b: int)
    ensures
        shifted(shifted(d, a), b) == shifted(d, a + b),
{
}

/// Absorbing the leading groups of `w` into an accumulator mid-varint:
/// the decode continues into `low` with the combined value, or reports
/// an overflow when the combined value breaks the bound.
proof fn lemma_upref_more(w: nat, acc: nat, low: Seq<u8>, max: nat)
    requires
        acc * pow128(uvarint_pref(w).len() as nat) + w <= u64::MAX,
        max <= u64::MAX,
    ensures
        ({
            let fin = acc * pow128(uvarint_pref(w).len() as nat) + w;
            if fin <= max {
                uvar_decode_more(uvarint_pref(w) + low, acc, max) == shifted(
                    uvar_decode_more(low, fin, max),
                    uvarint_pref(w).len() as int,
                )
            } else {
                uvar_decode_more(uvarint_pref(w) + low, acc, max) is Overflow
            }
        }),
    decreases w,
{
    if w < 0x80 {
        let byte = (w + 0x80) as u8;
        let fin = acc * 0x80 + w;
        assert(pow128(0) == 1);
        assert(pow128(1) == 0x80);
        assert(uvarint_pref(w) + low =~= seq![byte] + low);
        assert((seq![byte] + low)[0] == byte);
        assert((seq![byte] + low).drop_first() =~= low);
    } else {
        let p1 = uvarint_pref(w / 0x80);
        let l1 = p1.len() as nat;
        let byte = ((w % 0x80) + 0x80) as u8;
        assert(uvarint_pref(w) =~= p1 + seq![byte]);
        assert(uvarint_pref(w).len() == l1 + 1);
        assert(pow128(l1 + 1) == 0x80 * pow128(l1));
        let a1 = acc * pow128(l1) + w / 0x80;
        let fin = acc * pow128(l1 + 1) + w;
        assert(acc * (0x80 * pow128(l1)) == (acc * pow128(l1)) * 0x80) by (nonlinear_arith);
        assert(fin == a1 * 0x80 + w % 0x80);
        assert(a1 <= a1 * 0x80) by (nonlinear_arith)
            requires
                a1 >= 0,
        ;
        assert(a1 <= fin);
        lemma_upref_more(w / 0x80, acc, seq![byte] + low, max);
        assert((p1 + seq![byte]) + low =~= p1 + (seq![byte] + low));
        assert((seq![byte] + low)[0] == byte);
        assert((seq![byte] + low).drop_first() =~= low);
        if fin <= max {
            lemma_shifted_shifted(uvar_decode_more(low, fin, max), 1, l1 as int);
        } else if a1 <= max {
            assert(uvar_decode_more(seq![byte] + low, a1, max) is Overflow);
        }
    }
}

/// Reading an encoding's leading groups from the top of a stream: the
/// decode seeds itself with the first group unchecked and absorbs the
/// rest, or reports an overflow when a multi-group value breaks the
/// bound.
proof fn lemma_upref_top(w: nat, low: Seq<u8>, max: nat)
    requires
        w <= u64::MAX,
        max <= u64::MAX,
    ensures
        ({
            if w <= max || w < 0x80 {
                uvar_decode(uvarint_pref(w) + low, max) == shifted(
                    uvar_decode_more(low, w, max),
                    uvarint_pref(w).len() as int,
                )
            } else {
                uvar_decode(uvarint_pref(w) + low, max) is Overflow
            }
        }),
    decreases w,
{
    if w < 0x80 {
        let byte = (w + 0x80) as u8;
        assert(uvarint_pref(w) + low =~= seq![byte] + low);
        assert((seq![byte] + low)[0] == byte);
        assert((seq![byte] + low).drop_first() =~= low);
    } else {
        let p1 = uvarint_pref(w / 0x80);
        let l1 = p1.len() as nat;
        let byte = ((w % 0x80) + 0x80) as u8;
        assert(uvarint_pref(w) =~= p1 + seq![byte]);
        assert((p1 + seq![byte]) + low =~= p1 + (seq![byte] + low));
        assert((seq![byte] + low)[0] == byte);
        assert((seq![byte] + low).drop_first() =~= low);
        lemma_upref_top(w / 0x80, seq![byte] + low, max);
        if w / 0x80 <= max || w / 0x80 < 0x80 {
            lemma_shifted_shifted(uvar_decode_more(low, w, max), 1, l1 as int);
        }
    }
}

/// Round trip of an unsigned varint: decoding the encoding of `v` from
/// the head of any stream yields `v` and consumes exactly the
/// encoding, for any bound that admits `v`.
pub proof fn lemma_uvarint_round_trip(v: u64, low: Seq<u8>, max: nat)
    requires
        v <= max,
        max <= u64::MAX,
    ensures
        uvar_decode(uvarint(v as nat) + low, max) == (Decoded::<u64>::Value {
            v,
            len: uvarint(v as nat).len() as int,
        }),
{
    if v < 0x80 {
        assert((uvarint(v as nat) + low)[0] == v as u8);
    } else {
        let w = (v as nat) / 0x80;
        let byte = ((v as nat) % 0x80) as u8;
        assert(uvarint(v as nat) + low =~= uvarint_pref(w) + (seq![byte] + low));
        assert((seq![byte] + low)[0] == byte);
        assert((seq![byte] + low).drop_first() =~= low);
        lemma_upref_top(w, seq![byte] + low, max);
    }
}

/// Overflow detection for unsigned varints: decoding the encoding of a
/// value above the bound reports an integer overflow, for any bound
/// that covers a single payload group.
pub proof fn lemma_uvarint_overflow(v: u64, low: Seq<u8>, max: nat)
    requires
        0x7f <= max,
        max < v,
    ensures
        uvar_decode(uvarint(v as nat) + low, max) is Overflow,
{
    let w = (v as nat) / 0x80;
    let byte = ((v as nat) % 0x80) as u8;
    assert(uvarint(v as nat) + low =~= uvarint_pref(w) + (seq![byte] + low));
    assert((seq![byte] + low)[0] == byte);
    assert((seq![byte] + low).drop_first() =~= low);
    lemma_upref_top(w, seq![byte] + low, max);
}

/// A strict prefix of an encoding's leading groups decodes to a
/// truncation: every leading byte carries the continuation bit.
proof fn lemma_upref_top_trunc(w: nat, k: int, max: nat)
    requires
        0 <= k <= uvarint_pref(w).len(),
        w <= max,
        max <= u64::MAX,
    ensures
        uvar_decode(uvarint_pref(w).take(k), max) == Decoded::<u64>::Truncated,
    decreases w,
{
    if w < 0x80 {
        let byte = (w + 0x80) as u8;
        if k == 1 {
            assert(uvarint_pref(w).take(k) =~= seq![byte]);
            assert(seq![byte].drop_first() =~= Seq::<u8>::empty());
        } else {
            assert(uvarint_pref(w).take(k) =~= Seq::<u8>::empty());
        }
    } else {
        let p1 = uvarint_pref(w / 0x80);
        let l1 = p1.len() as int;
        let byte = ((w % 0x80) + 0x80) as u8;
        assert(uvarint_pref(w) =~= p1 + seq![byte]);
        if k <= l1 {
            assert(uvarint_pref(w).take(k) =~= p1.take(k));
            lemma_upref_top_trunc(w / 0x80, k, max);
        } else {
            assert(uvarint_pref(w).take(k) =~= uvarint_pref(w) + Seq::<u8>::empty());
            lemma_upref_top(w, Seq::<u8>::empty(), max);
        }
    }
}

/// Reading a signed encoding's leading groups from the top of a
/// stream: the first byte gives the sign and seeds the magnitude with
/// six unchecked bits, the rest absorb as continuation groups, or the
/// decode reports an overflow when a multi-group magnitude breaks the
/// bound.
proof fn lemma_spref_top(m: nat, neg: bool, low: Seq<u8>, max: Option<i64>)
    requires
        m <= i64::MAX,
    ensures
        ({
            if m < 0x40 || sbound_ok(m, neg, max) {
                svar_decode(svarint_pref(m, neg) + low, max) == shifted(
                    svar_decode_more(low, m, neg, max),
                    svarint_pref(m, neg).len() as int,
                )
            } else {
                svar_decode(svarint_pref(m, neg) + low, max) is Overflow
            }
        }),
    decreases m,
{
    if m < 0x40 {
        let byte = (m + sign_flag(neg) + 0x80) as u8;
        assert(svarint_pref(m, neg) + low =~= seq![byte] + low);
        assert((seq![byte] + low)[0] == byte);
        assert((seq![byte] + low).drop_first() =~= low);
    } else {
        let p1 = svarint_pref(m / 0x80, neg);
        let l1 = p1.len() as nat;
        let byte = ((m % 0x80) + 0x80) as u8;
        assert(svarint_pref(m, neg) =~= p1 + seq![byte]);
        assert((p1 + seq![byte]) + low =~= p1 + (seq![byte] + low));
        assert((seq![byte] + low)[0] == byte);
        assert((seq![byte] + low).drop_first() =~= low);
        lemma_spref_top(m / 0x80, neg, seq![byte] + low, max);
        if m / 0x80 < 0x40 || sbound_ok(m / 0x80, neg, max) {
            lemma_shifted_shifted(svar_decode_more(low, m, neg, max), 1, l1 as int);
        }
    }
}

/// Round trip of a signed varint: decoding the encoding of `v` from
/// the head of any stream yields `v` and consumes exactly the
/// encoding, for any bound that admits `v`; the signed 64-bit minimum
/// needs a bound whose negative range reaches its sentinel.
#[verifier::rlimit(50)]
pub proof fn lemma_ivarint_round_trip(v: i64, low: Seq<u8>, max: Option<i64>)
    requires
        match max {
            Option::Some(m) => {
                if v == i64::MIN {
                    (m as int) + 1 >= 0x0100_0000_0000_0000
                } else if v < 0 {
                    -(v as int) <= (m as int) + 1
                } else {
                    v <= m
                }
            },
            Option::None => true,
        },
    ensures
        svar_decode(ivarint(v) + low, max) == (Decoded::<i64>::Value {
            v,
            len: ivarint(v).len() as int,
        }),
{
    let mag = abs_i64(v);
    let neg = v < 0;
    if mag < 0x40 {
        let byte = (mag + sign_flag(neg)) as u8;
        assert((ivarint(v) + low)[0] == byte);
    } else {
        let w = mag / 0x80;
        let byte = (mag % 0x80) as u8;
        assert(ivarint(v) + low =~= svarint_pref(w, neg) + (seq![byte] + low));
        assert((seq![byte] + low)[0] == byte);
        assert((seq![byte] + low).drop_first() =~= low);
        lemma_spref_top(w, neg, seq![byte] + low, max);
    }
}

/// Overflow detection for signed varints: decoding the encoding of a
/// value outside the bounded range reports an integer overflow, for
/// any bound that covers a single payload group.
pub proof fn lemma_ivarint_overflow(v: i64, low: Seq<u8>, m: i64)
    requires
        0x3f <= m,
        if v == i64::MIN {
            (m as int) + 1 < 0x0100_0000_0000_0000
        } else if v < 0 {
            -(v as int) > (m as int) + 1
        } else {
            v > m
        },
    ensures
        svar_decode(ivarint(v) + low, Some(m)) is Overflow,
{
    let mag = abs_i64(v);
    let neg = v < 0;
    let w = mag / 0x80;
    let byte = (mag % 0x80) as u8;
    assert(ivarint(v) + low =~= svarint_pref(w, neg) + (seq![byte] + low));
    assert((seq![byte] + low)[0] == byte);
    assert((seq![byte] + low).drop_first() =~= low);
    lemma_spref_top(w, neg, seq![byte] + low, Some(m));
}

/// A strict prefix of a signed encoding's leading groups decodes to a
/// truncation: every leading byte carries the continuation bit.
proof fn lemma_spref_top_trunc(m: nat, neg: bool, k: int, max: Option<i64>)
    requires
        0 <= k <= svarint_pref(m, neg).len(),
        m <= i64::MAX,
        m < 0x40 || sbound_ok(m, neg, max),
    ensures
        svar_decode(svarint_pref(m, neg).take(k), max) == Decoded::<i64>::Truncated,
    decreases m,
{
    if m < 0x40 {
        let byte = (m + sign_flag(neg) + 0x80) as u8;
        if k == 1 {
            assert(svarint_pref(m, neg).take(k) =~= seq![byte]);
            assert(seq![byte].drop_first() =~= Seq::<u8>::empty());
        } else {
            assert(svarint_pref(m, neg).take(k) =~= Seq::<u8>::empty());
        }
    } else {
        let p1 = svarint_pref(m / 0x80, neg);
        let l1 = p1.len() as int;
        let byte = ((m % 0x80) + 0x80) as u8;
        assert(svarint_pref(m, neg) =~= p1 + seq![byte]);
        if k <= l1 {
            assert(svarint_pref(m, neg).take(k) =~= p1.take(k));
            lemma_spref_top_trunc(m / 0x80, neg, k, max);
        } else {
            assert(svarint_pref(m, neg).take(k) =~= svarint_pref(m, neg) + Seq::<u8>::empty());
            lemma_spref_top(m, neg, Seq::<u8>::empty(), max);
        }
    }
}

/// Truncation detection for signed varints: decoding any strict prefix
/// of the encoding of `v` reports a truncation, for any bound that
/// admits `v`.
pub proof fn lemma_ivarint_truncated(v: i64, k: int, max: Option<i64>)
    requires
        0 <= k < ivarint(v).len(),
        match max {
            Option::Some(m) => {
                if v == i64::MIN {
                    (m as int) + 1 >= 0x0100_0000_0000_0000
                } else if v < 0 {
                    -(v as int) <= (m as int) + 1
                } else {
                    v <= m
                }
            },
            Option::None => true,
        },
    ensures
        svar_decode(ivarint(v).take(k), max) == Decoded::<i64>::Truncated,
{
    let mag = abs_i64(v);
    let neg = v < 0;
    if mag < 0x40 {
        assert(ivarint(v).take(k) =~= Seq::<u8>::empty());
    } else {
        let w = mag / 0x80;
        let byte = (mag % 0x80) as u8;
        assert(ivarint(v) =~= svarint_pref(w, neg) + seq![byte]);
        assert(k <= svarint_pref(w, neg).len());
        assert(ivarint(v).take(k) =~= svarint_pref(w, neg).take(k));
        lemma_spref_top_trunc(w, neg, k, max);
    }
}

/// Truncation detection for unsigned varints: decoding any strict
/// prefix of the encoding of `v` reports a truncation, for any bound
/// that admits `v`.
pub proof fn lemma_uvarint_truncated(v: u64, k: int, max: nat)
    requires
        0 <= k < uvarint(v as nat).len(),
        v <= max,
        max <= u64::MAX,
    ensures
        uvar_decode(uvarint(v as nat).take(k), max) == Decoded::<u64>::Truncated,
{
    if v < 0x80 {
        assert(uvarint(v as nat).take(k) =~= Seq::<u8>::empty());
    } else {
        let w = (v as nat) / 0x80;
        let byte = ((v as nat) % 0x80) as u8;
        assert(uvarint(v as nat) =~= uvarint_pref(w) + seq![byte]);
        assert(k <= uvarint_pref(w).len());
        assert(uvarint(v as nat).take(k) =~= uvarint_pref(w).take(k));
        lemma_upref_top_trunc(w, k, max);
    }
}

/// Round trip of a character: decoding the UTF-8 encoding of `c` from
/// the head of any stream yields `c` and consumes exactly its
/// encoding.
pub proof fn lemma_char_round_trip(c: char, low: Seq<u8>)
    ensures
        char_decode(encode_scalar(c as u32) + low) == (Decoded::<char>::Value {
            v: c,
            len: encode_scalar(c as u32).len() as int,
        }),
{
    let u = c as u32;
    vstd::utf8::char_is_scalar(c);
    vstd::utf8::char_u32_cast(c, u);
    assert(seq![c].drop_first() =~= Seq::<char>::empty());
    assert(encode_utf8(Seq::<char>::empty()) == Seq::<u8>::empty());
    assert(seq![c][0] == c);
    assert(encode_utf8(seq![c]) == encode_scalar(u) + encode_utf8(Seq::<char>::empty()));
    assert(encode_scalar(u) + Seq::<u8>::empty() =~= encode_scalar(u));
    assert(encode_utf8(seq![c]) =~= encode_scalar(u));
    vstd::utf8::encode_utf8_first_scalar(seq![c]);
    let e = encode_scalar(u);
    let b = e + low;
    assert(forall|i: int| 0 <= i < e.len() ==> b[i] == e[i]);
    assert(vstd::utf8::valid_first_scalar(b));
    assert(vstd::utf8::decode_first_codepoint(b) == vstd::utf8::decode_first_codepoint(e));
}

/// Round trip of a length-prefixed string: decoding the encoding of a
/// character sequence from the head of any stream yields the same
/// characters and consumes the length prefix and the UTF-8 bytes.
pub proof fn lemma_str_round_trip(s: Seq<char>, low: Seq<u8>)
    requires
        encode_utf8(s).len() <= u64::MAX,
    ensures
        str_decode(uvarint(encode_utf8(s).len()) + encode_utf8(s) + low) == (Decoded::<
            Seq<char>,
        >::Value {
            v: s,
            len: uvarint(encode_utf8(s).len()).len() + encode_utf8(s).len() as int,
        }),
{
    let e = encode_utf8(s);
    let pre = uvarint(e.len());
    assert(pre + e + low =~= pre + (e + low));
    lemma_uvarint_round_trip(e.len() as u64, e + low, u64::MAX as nat);
    let b = pre + e + low;
    assert(b.subrange(pre.len() as int, pre.len() + e.len() as int) =~= e);
    vstd::utf8::encode_utf8_valid_utf8(s);
    vstd::utf8::encode_utf8_decode_utf8(s);
}

/// Round trip of a length-prefixed raw byte sequence: decoding the
/// encoding of `d` from the head of any stream yields `d` and
/// consumes the length prefix and the bytes.
pub proof fn lemma_bytes_round_trip(d: Seq<u8>, low: Seq<u8>)
    requires
        d.len() <= u64::MAX,
    ensures
        blob_decode(uvarint(d.len()) + d + low) == (Decoded::<Seq<u8>>::Value {
            v: d,
            len: uvarint(d.len()).len() + d.len() as int,
        }),
{
    let pre = uvarint(d.len());
    assert(pre + d + low =~= pre + (d + low));
    lemma_uvarint_round_trip(d.len() as u64, d + low, u64::MAX as nat);
    let b = pre + d + low;
    assert(b.subrange(pre.len() as int, pre.len() + d.len() as int) =~= d);
}

/// Round trip of a two's-complement byte: reading back the byte
/// written for a signed 8-bit value yields the value.
pub proof fn lemma_i8_round_trip(v: i8)
    ensures
        i8_from_byte(
            if v >= 0 {
                v as u8
            } else {
                (v + 0x100) as u8
            },
        ) == v,
{
}

/// Round trip of a 32-bit word through its big-endian bytes.
pub proof fn lemma_be32_round_trip(v: u32)
    ensures
        be32_value(be32_bytes(v)) == v,
{
    assert((((v / 0x0100_0000) as u8) as u32) * 0x0100_0000 + ((((v / 0x0001_0000)
        % 0x100) as u8) as u32) * 0x0001_0000 + ((((v / 0x100) % 0x100) as u8) as u32) * 0x100 + ((
    (v % 0x100) as u8) as u32) == v) by (bit_vector);
}

/// Round trip of a 64-bit word through its big-endian bytes.
pub proof fn lemma_be64_round_trip(v: u64)
    ensures
        be64_value(be64_bytes(v)) == v,
{
    assert((((v / 0x0100_0000_0000_0000) as u8) as u64) * 0x0100_0000_0000_0000 + ((((v
        / 0x0001_0000_0000_0000) % 0x100) as u8) as u64) * 0x0001_0000_0000_0000 + ((((v
        / 0x0000_0100_0000_0000) % 0x100) as u8) as u64) * 0x0000_0100_0000_0000 + ((((v
        / 0x0000_0001_0000_0000) % 0x100) as u8) as u64) * 0x0000_0001_0000_0000 + ((((v
        / 0x0100_0000) % 0x100) as u8) as u64) * 0x0100_0000 + ((((v / 0x0001_0000)
        % 0x100) as u8) as u64) * 0x0001_0000 + ((((v / 0x100) % 0x100) as u8) as u64) * 0x100 + ((
    (v % 0x100) as u8) as u64) == v) by (bit_vector);
}

} // verus!
