//! The read half of the traversal protocol: a cursor over a borrowed
//! input slice.
//!
//! The cursor shrinks as values are read; text and raw byte results
//! borrow from the input rather than copying it.  Each method's
//! contract states the exact value read and the bytes consumed in terms
//! of the decoding specification functions of [`crate::wire`]; on an
//! error the cursor is safe but, for multi-byte values, at an
//! unspecified position, and no further reads should be attempted.

use vstd::prelude::*;
use vstd::slice::slice_subrange;
use vstd::utf8::{
    decode_first_codepoint, decode_first_scalar, encode_utf8, is_scalar,
    length_of_first_codepoint, valid_first_scalar,
    valid_leading_and_continuation_bytes_first_codepoint, valid_utf8,
};

use crate::error::Error;
use crate::wire::{
    blob_decode, char_decode, be32_value, be64_value, i8_from_byte, lemma_svar_value_range,
    lemma_uvar_len, lemma_uvar_not_text, lemma_uvar_value_bound, shifted, str_decode,
    svar_decode, svar_decode_more, uvar_bound, uvar_decode, uvar_decode_more, Decoded,
};

verus! {

broadcast use vstd::utf8::char_u32_cast;

/// Relies on `char::from_u32`: a 32-bit value converts exactly when it
/// is a Unicode scalar, and the conversion preserves the numeric value.
#[verifier::external_body]
fn char_from_u32(v: u32) -> (r: Option<char>)
    ensures
        r is Some <==> is_scalar(v),
        r matches Some(c) ==> c as u32 == v,
{
    char::from_u32(v)
}

/// Relies on `core::str::from_utf8`: conversion succeeds exactly on
/// valid UTF-8, and the characters of the resulting string encode back
/// to the input bytes.
#[verifier::external_body]
fn bytes_to_str<'a>(v: &'a [u8]) -> (r: Option<&'a str>)
    ensures
        r is Some <==> valid_utf8(v@),
        r matches Some(s) ==> encode_utf8(s@) == v@,
{
    core::str::from_utf8(v).ok()
}

/// A single-use cursor over a borrowed input slice.
pub struct Deserializer<'de> {
    buffer: &'de [u8],
}

impl<'de> View for Deserializer<'de> {
    type V = Seq<u8>;

    closed spec fn view(&self) -> Seq<u8> {
        self.buffer@
    }
}

impl<'de> Deserializer<'de> {
    /// A deserializer positioned at the start of `buffer`.
    pub fn new(buffer: &'de [u8]) -> (r: Self)
        ensures
            r@ == buffer@,
    {
        Deserializer { buffer }
    }

    /// Drops the first `k` bytes of the remaining input.
    fn advance(&mut self, k: usize)
        requires
            k <= old(self)@.len(),
        ensures
            final(self)@ == old(self)@.skip(k as int),
    {
        let b: &'de [u8] = self.buffer;
        self.buffer = slice_subrange(b, k, b.len());
    }

    /// Reads one byte as a boolean; any nonzero byte is true.
    pub fn parse_bool(&mut self) -> (r: Result<bool, Error>)
        ensures
            old(self)@.len() == 0 ==> r == Err::<bool, Error>(Error::ValueTruncated) && final(self)@ == old(self)@,
            old(self)@.len() > 0 ==> r == Ok::<bool, Error>(old(self)@[0] != 0) && final(self)@
                == old(self)@.skip(1),
    {
        if self.buffer.len() == 0 {
            return Err(Error::ValueTruncated);
        }
        let byte = self.buffer[0];
        self.advance(1);
        Ok(byte != 0)
    }

    /// Reads one byte as an unsigned 8-bit integer.
    pub fn parse_u8(&mut self) -> (r: Result<u8, Error>)
        ensures
            old(self)@.len() == 0 ==> r == Err::<u8, Error>(Error::ValueTruncated) && final(self)@
                == old(self)@,
            old(self)@.len() > 0 ==> r == Ok::<u8, Error>(old(self)@[0]) && final(self)@ == old(
                self,
            )@.skip(1),
    {
        if self.buffer.len() == 0 {
            return Err(Error::ValueTruncated);
        }
        let byte = self.buffer[0];
        self.advance(1);
        Ok(byte)
    }

    /// Reads one byte as a two's-complement signed 8-bit integer.
    pub fn parse_i8(&mut self) -> (r: Result<i8, Error>)
        ensures
            old(self)@.len() == 0 ==> r == Err::<i8, Error>(Error::ValueTruncated) && final(self)@
                == old(self)@,
            old(self)@.len() > 0 ==> r == Ok::<i8, Error>(i8_from_byte(old(self)@[0])) && final(self)@ == old(self)@.skip(1),
    {
        if self.buffer.len() == 0 {
            return Err(Error::ValueTruncated);
        }
        let byte = self.buffer[0];
        self.advance(1);
        if byte < 0x80 {
            Ok(byte as i8)
        } else {
            Ok(((byte as i16) - 0x100) as i8)
        }
    }

    /// Reads one control byte of an optional value: the payload is
    /// present exactly when the byte is nonzero, and the caller then
    /// reads it.
    pub fn parse_option(&mut self) -> (r: Result<bool, Error>)
        ensures
            old(self)@.len() == 0 ==> r == Err::<bool, Error>(Error::ValueTruncated) && final(self)@ == old(self)@,
            old(self)@.len() > 0 ==> r == Ok::<bool, Error>(old(self)@[0] != 0) && final(self)@
                == old(self)@.skip(1),
    {
        if self.buffer.len() == 0 {
            return Err(Error::ValueTruncated);
        }
        let byte = self.buffer[0];
        self.advance(1);
        Ok(byte != 0)
    }

    /// Reads an unsigned varint, rejecting values above `max` when a
    /// bound for a narrower target is given.
    pub fn parse_u64(&mut self, max: Option<u64>) -> (r: Result<u64, Error>)
        ensures
            uvar_decode(old(self)@, uvar_bound(max)) matches Decoded::Value { v, len } ==> r
                == Ok::<u64, Error>(v) && final(self)@ == old(self)@.skip(len),
            uvar_decode(old(self)@, uvar_bound(max)) is Truncated ==> r == Err::<u64, Error>(
                Error::ValueTruncated,
            ),
            uvar_decode(old(self)@, uvar_bound(max)) is Overflow ==> r == Err::<u64, Error>(
                Error::IntegerOverflow,
            ),
    {
        let ghost b0 = old(self)@;
        let ghost bd = uvar_bound(max);
        if self.buffer.len() == 0 {
            return Err(Error::ValueTruncated);
        }
        let first = self.buffer[0];
        self.advance(1);
        let mut acc: u64 = (first % 0x80) as u64;
        if first < 0x80 {
            return Ok(acc);
        }
        proof {
            assert(b0.drop_first() =~= b0.skip(1));
        }
        let mut more: bool = true;
        while more
            invariant
                b0 == old(self)@,
                self@.len() <= b0.len(),
                self@ == b0.skip(b0.len() - self@.len()),
                more ==> uvar_decode(b0, bd) == shifted(
                    uvar_decode_more(self@, acc as nat, bd),
                    b0.len() - self@.len(),
                ),
                !more ==> uvar_decode(b0, bd) == (Decoded::Value {
                    v: acc,
                    len: b0.len() - self@.len(),
                }),
                uvar_bound(max) == bd,
                match max {
                    Some(m) => bd == m as nat,
                    None => bd == u64::MAX as nat,
                },
            decreases self@.len(),
        {
            if self.buffer.len() == 0 {
                return Err(Error::ValueTruncated);
            }
            let ghost pre = self@;
            let next = self.buffer[0];
            self.advance(1);
            proof {
                assert(pre.drop_first() =~= self@);
                assert(b0.skip(b0.len() - pre.len()).skip(1) =~= b0.skip(b0.len() - pre.len() + 1));
            }
            let lsb: u64 = (next % 0x80) as u64;
            more = next >= 0x80;
            if acc > u64::MAX / 0x80 {
                return Err(Error::IntegerOverflow);
            }
            acc = acc * 0x80 + lsb;
            let exceeded: bool = match max {
                Some(m) => acc > m,
                None => false,
            };
            if exceeded {
                return Err(Error::IntegerOverflow);
            }
        }
        Ok(acc)
    }

    /// Reads an unsigned varint bounded by the 16-bit maximum.
    pub fn parse_u16(&mut self) -> (r: Result<u16, Error>)
        ensures
            uvar_decode(old(self)@, u16::MAX as nat) matches Decoded::Value { v, len } ==> r
                == Ok::<u16, Error>(v as u16) && final(self)@ == old(self)@.skip(len),
            uvar_decode(old(self)@, u16::MAX as nat) is Truncated ==> r == Err::<u16, Error>(
                Error::ValueTruncated,
            ),
            uvar_decode(old(self)@, u16::MAX as nat) is Overflow ==> r == Err::<u16, Error>(
                Error::IntegerOverflow,
            ),
    {
        proof {
            lemma_uvar_value_bound(old(self)@, u16::MAX as nat);
        }
        match self.parse_u64(Some(0xFFFF)) {
            Ok(v) => Ok(v as u16),
            Err(e) => Err(e),
        }
    }

    /// Reads an unsigned varint bounded by the 32-bit maximum.
    pub fn parse_u32(&mut self) -> (r: Result<u32, Error>)
        ensures
            uvar_decode(old(self)@, u32::MAX as nat) matches Decoded::Value { v, len } ==> r
                == Ok::<u32, Error>(v as u32) && final(self)@ == old(self)@.skip(len),
            uvar_decode(old(self)@, u32::MAX as nat) is Truncated ==> r == Err::<u32, Error>(
                Error::ValueTruncated,
            ),
            uvar_decode(old(self)@, u32::MAX as nat) is Overflow ==> r == Err::<u32, Error>(
                Error::IntegerOverflow,
            ),
    {
        proof {
            lemma_uvar_value_bound(old(self)@, u32::MAX as nat);
        }
        match self.parse_u64(Some(0xFFFF_FFFF)) {
            Ok(v) => Ok(v as u32),
            Err(e) => Err(e),
        }
    }

    /// Reads an unbounded unsigned varint as a length or index,
    /// rejecting values the platform's word cannot hold.
    pub fn parse_usize(&mut self) -> (r: Result<usize, Error>)
        ensures
            uvar_decode(old(self)@, u64::MAX as nat) matches Decoded::Value { v, len } ==> if v
                <= usize::MAX {
                r == Ok::<usize, Error>(v as usize) && final(self)@ == old(self)@.skip(len)
            } else {
                r == Err::<usize, Error>(Error::IntegerOverflow)
            },
            uvar_decode(old(self)@, u64::MAX as nat) is Truncated ==> r == Err::<usize, Error>(
                Error::ValueTruncated,
            ),
            uvar_decode(old(self)@, u64::MAX as nat) is Overflow ==> r == Err::<usize, Error>(
                Error::IntegerOverflow,
            ),
    {
        match self.parse_u64(None) {
            Ok(v) => {
                if v <= usize::MAX as u64 {
                    Ok(v as usize)
                } else {
                    Err(Error::IntegerOverflow)
                }
            },
            Err(e) => Err(e),
        }
    }

    /// Reads a signed varint, rejecting magnitudes above `max` (or
    /// `max + 1` for negative values) when a bound for a narrower
    /// target is given.  The terminal byte pattern of the signed
    /// 64-bit minimum is recognised directly, since its magnitude
    /// cannot be negated within 64 bits.
    pub fn parse_i64(&mut self, max: Option<i64>) -> (r: Result<i64, Error>)
        ensures
            svar_decode(old(self)@, max) matches Decoded::Value { v, len } ==> r == Ok::<
                i64,
                Error,
            >(v) && final(self)@ == old(self)@.skip(len),
            svar_decode(old(self)@, max) is Truncated ==> r == Err::<i64, Error>(
                Error::ValueTruncated,
            ),
            svar_decode(old(self)@, max) is Overflow ==> r == Err::<i64, Error>(
                Error::IntegerOverflow,
            ),
    {
        let ghost b0 = old(self)@;
        if self.buffer.len() == 0 {
            return Err(Error::ValueTruncated);
        }
        let first = self.buffer[0];
        self.advance(1);
        let neg: bool = (first % 0x80) >= 0x40;
        let mut acc: i64 = (first % 0x40) as i64;
        if first < 0x80 {
            let v = if neg {
                -acc
            } else {
                acc
            };
            return Ok(v);
        }
        proof {
            assert(b0.drop_first() =~= b0.skip(1));
        }
        let mut more: bool = true;
        while more
            invariant
                b0 == old(self)@,
                self@.len() <= b0.len(),
                self@ == b0.skip(b0.len() - self@.len()),
                0 <= acc,
                more ==> svar_decode(b0, max) == shifted(
                    svar_decode_more(self@, acc as nat, neg, max),
                    b0.len() - self@.len(),
                ),
                !more ==> svar_decode(b0, max) == (Decoded::Value {
                    v: if neg {
                        (-(acc as int)) as i64
                    } else {
                        acc as i64
                    },
                    len: b0.len() - self@.len(),
                }),
            decreases self@.len(),
        {
            if self.buffer.len() == 0 {
                return Err(Error::ValueTruncated);
            }
            let ghost pre = self@;
            let next = self.buffer[0];
            self.advance(1);
            proof {
                assert(pre.drop_first() =~= self@);
                assert(b0.skip(b0.len() - pre.len()).skip(1) =~= b0.skip(b0.len() - pre.len() + 1));
            }
            let lsb: i64 = (next % 0x80) as i64;
            more = next >= 0x80;
            if !more && neg && lsb == 0 && acc == 0x0100_0000_0000_0000i64 {
                return Ok(i64::MIN);
            }
            if acc > i64::MAX / 0x80 {
                return Err(Error::IntegerOverflow);
            }
            acc = acc * 0x80 + lsb;
            let exceeded: bool = match max {
                Some(m) => if neg {
                    acc - 1 > m
                } else {
                    acc > m
                },
                None => false,
            };
            if exceeded {
                return Err(Error::IntegerOverflow);
            }
        }
        let v = if neg {
            -acc
        } else {
            acc
        };
        Ok(v)
    }

    /// Reads a signed varint bounded by the 16-bit range.
    pub fn parse_i16(&mut self) -> (r: Result<i16, Error>)
        ensures
            svar_decode(old(self)@, Some(i16::MAX as i64)) matches Decoded::Value { v, len } ==> r
                == Ok::<i16, Error>(v as i16) && final(self)@ == old(self)@.skip(len),
            svar_decode(old(self)@, Some(i16::MAX as i64)) is Truncated ==> r == Err::<i16, Error>(
                Error::ValueTruncated,
            ),
            svar_decode(old(self)@, Some(i16::MAX as i64)) is Overflow ==> r == Err::<i16, Error>(
                Error::IntegerOverflow,
            ),
    {
        proof {
            lemma_svar_value_range(old(self)@, i16::MAX as i64);
        }
        match self.parse_i64(Some(0x7FFF)) {
            Ok(v) => Ok(v as i16),
            Err(e) => Err(e),
        }
    }

    /// Reads a signed varint bounded by the 32-bit range.
    pub fn parse_i32(&mut self) -> (r: Result<i32, Error>)
        ensures
            svar_decode(old(self)@, Some(i32::MAX as i64)) matches Decoded::Value { v, len } ==> r
                == Ok::<i32, Error>(v as i32) && final(self)@ == old(self)@.skip(len),
            svar_decode(old(self)@, Some(i32::MAX as i64)) is Truncated ==> r == Err::<i32, Error>(
                Error::ValueTruncated,
            ),
            svar_decode(old(self)@, Some(i32::MAX as i64)) is Overflow ==> r == Err::<i32, Error>(
                Error::IntegerOverflow,
            ),
    {
        proof {
            lemma_svar_value_range(old(self)@, i32::MAX as i64);
        }
        match self.parse_i64(Some(0x7FFF_FFFF)) {
            Ok(v) => Ok(v as i32),
            Err(e) => Err(e),
        }
    }

    /// Reads the bit pattern of a 32-bit float: 4 big-endian bytes.
    /// On truncation nothing is consumed.
    pub fn parse_f32_bits(&mut self) -> (r: Result<u32, Error>)
        ensures
            old(self)@.len() < 4 ==> r == Err::<u32, Error>(Error::ValueTruncated) && final(self)@
                == old(self)@,
            old(self)@.len() >= 4 ==> r == Ok::<u32, Error>(be32_value(old(self)@.take(4)))
                && final(self)@ == old(self)@.skip(4),
    {
        if self.buffer.len() < 4 {
            return Err(Error::ValueTruncated);
        }
        let b0 = self.buffer[0];
        let b1 = self.buffer[1];
        let b2 = self.buffer[2];
        let b3 = self.buffer[3];
        self.advance(4);
        Ok((b0 as u32) * 0x0100_0000 + (b1 as u32) * 0x0001_0000 + (b2 as u32) * 0x100 + (
        b3 as u32))
    }

    /// Reads the bit pattern of a 64-bit float: 8 big-endian bytes.
    /// On truncation nothing is consumed.
    pub fn parse_f64_bits(&mut self) -> (r: Result<u64, Error>)
        ensures
            old(self)@.len() < 8 ==> r == Err::<u64, Error>(Error::ValueTruncated) && final(self)@
                == old(self)@,
            old(self)@.len() >= 8 ==> r == Ok::<u64, Error>(be64_value(old(self)@.take(8)))
                && final(self)@ == old(self)@.skip(8),
    {
        if self.buffer.len() < 8 {
            return Err(Error::ValueTruncated);
        }
        let b0 = self.buffer[0];
        let b1 = self.buffer[1];
        let b2 = self.buffer[2];
        let b3 = self.buffer[3];
        let b4 = self.buffer[4];
        let b5 = self.buffer[5];
        let b6 = self.buffer[6];
        let b7 = self.buffer[7];
        self.advance(8);
        Ok(
            (b0 as u64) * 0x0100_0000_0000_0000 + (b1 as u64) * 0x0001_0000_0000_0000 + (
            b2 as u64) * 0x0000_0100_0000_0000 + (b3 as u64) * 0x0000_0001_0000_0000 + (b4 as u64)
                * 0x0100_0000 + (b5 as u64) * 0x0001_0000 + (b6 as u64) * 0x100 + (b7 as u64),
        )
    }

    /// Reads one character from its UTF-8 encoding: the lead byte
    /// announces the width, and the whole encoding must be a
    /// well-formed scalar.  On an error nothing is consumed.
    pub fn parse_char(&mut self) -> (r: Result<char, Error>)
        ensures
            char_decode(old(self)@) matches Decoded::Value { v, len } ==> r == Ok::<char, Error>(v)
                && final(self)@ == old(self)@.skip(len),
            char_decode(old(self)@) is Truncated ==> r == Err::<char, Error>(Error::ValueTruncated)
                && final(self)@ == old(self)@,
            char_decode(old(self)@) is BadUtf8 ==> r == Err::<char, Error>(Error::InvalidUtf8)
                && final(self)@ == old(self)@,
    {
        if self.buffer.len() == 0 {
            return Err(Error::ValueTruncated);
        }
        let b0 = self.buffer[0];
        let n: usize = if b0 <= 0x7F {
            1
        } else if 0xC0 <= b0 && b0 <= 0xDF {
            2
        } else if 0xE0 <= b0 && b0 <= 0xEF {
            3
        } else if 0xF0 <= b0 && b0 <= 0xF7 {
            4
        } else {
            return Err(Error::InvalidUtf8);
        };
        if self.buffer.len() < n {
            return Err(Error::ValueTruncated);
        }
        let cp: u32;
        if n == 1 {
            proof {
                assert(b0 & 0x7F == b0) by (bit_vector)
                    requires
                        b0 <= 0x7F,
                ;
            }
            cp = b0 as u32;
        } else {
            let b1 = self.buffer[1];
            if !(0x80 <= b1 && b1 <= 0xBF) {
                return Err(Error::InvalidUtf8);
            }
            if n == 2 {
                cp = (((b0 & 0x1F) as u32) << 6) | ((b1 & 0x3F) as u32);
                proof {
                    assert((((b0 & 0x1F) as u32) << 6) | ((b1 & 0x3F) as u32) <= 0x7FF)
                        by (bit_vector);
                }
                if cp < 0x80 {
                    return Err(Error::InvalidUtf8);
                }
            } else {
                let b2 = self.buffer[2];
                if !(0x80 <= b2 && b2 <= 0xBF) {
                    return Err(Error::InvalidUtf8);
                }
                if n == 3 {
                    cp = (((b0 & 0x0F) as u32) << 12) | (((b1 & 0x3F) as u32) << 6) | ((b2
                        & 0x3F) as u32);
                    proof {
                        assert((((b0 & 0x0F) as u32) << 12) | (((b1 & 0x3F) as u32) << 6) | ((b2
                            & 0x3F) as u32) <= 0xFFFF) by (bit_vector);
                    }
                    if cp < 0x800 || (0xD800 <= cp && cp <= 0xDFFF) {
                        return Err(Error::InvalidUtf8);
                    }
                } else {
                    let b3 = self.buffer[3];
                    if !(0x80 <= b3 && b3 <= 0xBF) {
                        return Err(Error::InvalidUtf8);
                    }
                    cp = (((b0 & 0x07) as u32) << 18) | (((b1 & 0x3F) as u32) << 12) | (((b2
                        & 0x3F) as u32) << 6) | ((b3 & 0x3F) as u32);
                    if cp < 0x10000 || 0x10FFFF < cp {
                        return Err(Error::InvalidUtf8);
                    }
                }
            }
        }
        proof {
            assert(valid_leading_and_continuation_bytes_first_codepoint(self@));
            assert(length_of_first_codepoint(self@) == n as int);
            assert(decode_first_codepoint(self@) == cp);
            assert(valid_first_scalar(self@));
            assert(is_scalar(cp));
        }
        match char_from_u32(cp) {
            Some(c) => {
                proof {
                    vstd::utf8::char_u32_cast(c, cp);
                    assert(decode_first_scalar(self@) as char == c);
                }
                self.advance(n);
                Ok(c)
            },
            None => {
                proof {
                    assert(false);
                }
                Err(Error::InvalidUtf8)
            },
        }
    }

    /// Reads a length-prefixed string: a varint byte count, then that
    /// many bytes, which must be valid UTF-8.  The result borrows from
    /// the input.
    pub fn parse_str(&mut self) -> (r: Result<&'de str, Error>)
        ensures
            str_decode(old(self)@) matches Decoded::Value { v, len } ==> r is Ok && r->Ok_0@ == v
                && final(self)@ == old(self)@.skip(len),
            str_decode(old(self)@) is Truncated ==> r is Err && r->Err_0 == Error::ValueTruncated,
            str_decode(old(self)@) is Overflow ==> r is Err && r->Err_0 == Error::IntegerOverflow,
            str_decode(old(self)@) is BadUtf8 ==> r is Err && r->Err_0 == Error::InvalidUtf8,
    {
        let ghost b0 = old(self)@;
        let ghost d = uvar_decode(b0, u64::MAX as nat);
        proof {
            lemma_uvar_not_text(b0, u64::MAX as nat);
            lemma_uvar_len(b0, u64::MAX as nat);
        }
        let n_u64 = match self.parse_u64(None) {
            Ok(v) => {
                proof {
                    assert(d is Value);
                }
                v
            },
            Err(e) => {
                return Err(e);
            },
        };
        proof {
            assert(d->v == n_u64);
            assert(self@ == b0.skip(d->len));
        }
        if (self.buffer.len() as u64) < n_u64 {
            return Err(Error::ValueTruncated);
        }
        let n = n_u64 as usize;
        let b: &'de [u8] = self.buffer;
        let data: &'de [u8] = slice_subrange(b, 0, n);
        proof {
            assert(data@ =~= b0.subrange(d->len, d->len + n_u64 as int));
            assert(b0.skip(d->len).skip(n as int) =~= b0.skip(d->len + n as int));
        }
        match bytes_to_str(data) {
            Some(s) => {
                proof {
                    vstd::utf8::encode_utf8_decode_utf8(s@);
                }
                self.advance(n);
                Ok(s)
            },
            None => Err(Error::InvalidUtf8),
        }
    }

    /// Reads a length-prefixed raw byte sequence: a varint length, then
    /// that many bytes, unvalidated.  The result borrows from the
    /// input.
    pub fn parse_bytes(&mut self) -> (r: Result<&'de [u8], Error>)
        ensures
            blob_decode(old(self)@) matches Decoded::Value { v, len } ==> r is Ok && r->Ok_0@ == v
                && final(self)@ == old(self)@.skip(len),
            blob_decode(old(self)@) is Truncated ==> r is Err && r->Err_0 == Error::ValueTruncated,
            blob_decode(old(self)@) is Overflow ==> r is Err && r->Err_0 == Error::IntegerOverflow,
    {
        let ghost b0 = old(self)@;
        let ghost d = uvar_decode(b0, u64::MAX as nat);
        proof {
            lemma_uvar_not_text(b0, u64::MAX as nat);
            lemma_uvar_len(b0, u64::MAX as nat);
        }
        let n_u64 = match self.parse_u64(None) {
            Ok(v) => {
                proof {
                    assert(d is Value);
                }
                v
            },
            Err(e) => {
                return Err(e);
            },
        };
        proof {
            assert(d->v == n_u64);
            assert(self@ == b0.skip(d->len));
        }
        if (self.buffer.len() as u64) < n_u64 {
            return Err(Error::ValueTruncated);
        }
        let n = n_u64 as usize;
        let b: &'de [u8] = self.buffer;
        let data: &'de [u8] = slice_subrange(b, 0, n);
        proof {
            assert(data@ =~= b0.subrange(d->len, d->len + n_u64 as int));
            assert(b0.skip(d->len).skip(n as int) =~= b0.skip(d->len + n as int));
        }
        self.advance(n);
        Ok(data)
    }

    /// The number of input bytes not yet consumed.
    pub fn remaining(&self) -> (r: usize)
        ensures
            r == self@.len(),
    {
        self.buffer.len()
    }
}

} // verus!
