//! The write half of the traversal protocol: a cursor over a growable
//! output buffer.
//!
//! Each method appends the wire form of one scalar or one piece of
//! container framing, and its contract states the exact bytes appended
//! in terms of the specification functions of [`crate::wire`].  A
//! serializer is created for one top-level encode call and the buffer is
//! taken from it when that call is done.

use vstd::prelude::*;
use vstd::utf8::{encode_scalar, encode_utf8, is_scalar};

use crate::error::Error;
use crate::wire::{
    be32_bytes, be64_bytes, ivarint, svarint_pref, uvarint, uvarint_pref,
};

verus! {

broadcast use vstd::utf8::char_is_scalar;

/// A single-use cursor over an exclusively owned output buffer.
pub struct Serializer {
    buffer: Vec<u8>,
}

impl View for Serializer {
    type V = Seq<u8>;

    closed spec fn view(&self) -> Seq<u8> {
        self.buffer@
    }
}

impl Serializer {
    /// A serializer over a fresh, empty output buffer.
    pub fn new() -> (r: Serializer)
        ensures
            r@ == Seq::<u8>::empty(),
    {
        Serializer { buffer: Vec::new() }
    }

    /// Hands the encoded bytes out, consuming the serializer.
    pub fn into_bytes(self) -> (r: Vec<u8>)
        ensures
            r@ == self@,
    {
        self.buffer
    }

    /// Appends every byte of `other` in order.
    fn extend_bytes(&mut self, other: &[u8])
        ensures
            final(self)@ == old(self)@ + other@,
    {
        let n = other.len();
        let mut i: usize = 0;
        while i < n
            invariant
                i <= n,
                n == other@.len(),
                self@ == old(self)@ + other@.take(i as int),
            decreases n - i,
        {
            let b = other[i];
            self.buffer.push(b);
            proof {
                assert(old(self)@ + other@.take(i + 1) =~= (old(self)@ + other@.take(i as int)).push(
                    other@[i as int],
                ));
            }
            i = i + 1;
        }
        proof {
            assert(other@.take(n as int) =~= other@);
        }
    }

    /// Appends the continuation-marked leading groups of `v`.
    fn write_upref(&mut self, v: u64)
        ensures
            final(self)@ == old(self)@ + uvarint_pref(v as nat),
        decreases v,
    {
        if v < 0x80 {
            self.buffer.push((v + 0x80) as u8);
            proof {
                assert(old(self)@ + uvarint_pref(v as nat) =~= old(self)@.push((v + 0x80) as u8));
            }
        } else {
            self.write_upref(v / 0x80);
            self.buffer.push(((v % 0x80) + 0x80) as u8);
            proof {
                assert(old(self)@ + uvarint_pref(v as nat) =~= (old(self)@ + uvarint_pref(
                    (v / 0x80) as nat,
                )).push(((v % 0x80) + 0x80) as u8));
            }
        }
    }

    /// Appends the unsigned varint encoding of `v`.
    pub fn serialize_u64(&mut self, v: u64)
        ensures
            final(self)@ == old(self)@ + uvarint(v as nat),
    {
        if v < 0x80 {
            self.buffer.push(v as u8);
            proof {
                assert(old(self)@ + uvarint(v as nat) =~= old(self)@.push(v as u8));
            }
        } else {
            self.write_upref(v / 0x80);
            self.buffer.push((v % 0x80) as u8);
            proof {
                assert(old(self)@ + uvarint(v as nat) =~= (old(self)@ + uvarint_pref(
                    (v / 0x80) as nat,
                )).push((v % 0x80) as u8));
            }
        }
    }

    /// Appends the unsigned varint encoding of a length or index.
    pub fn serialize_usize(&mut self, v: usize)
        ensures
            final(self)@ == old(self)@ + uvarint(v as nat),
    {
        self.serialize_u64(v as u64);
    }

    /// Appends the unsigned varint encoding of `v`; a 16-bit value is
    /// framed exactly as its 64-bit widening would be.
    pub fn serialize_u16(&mut self, v: u16)
        ensures
            final(self)@ == old(self)@ + uvarint(v as nat),
    {
        self.serialize_u64(v as u64);
    }

    /// Appends the unsigned varint encoding of `v`; a 32-bit value is
    /// framed exactly as its 64-bit widening would be.
    pub fn serialize_u32(&mut self, v: u32)
        ensures
            final(self)@ == old(self)@ + uvarint(v as nat),
    {
        self.serialize_u64(v as u64);
    }

    /// Appends the continuation-marked leading groups of a signed
    /// varint: the first byte written carries the sign bit.
    fn write_spref(&mut self, m: u64, neg: bool)
        ensures
            final(self)@ == old(self)@ + svarint_pref(m as nat, neg),
        decreases m,
    {
        let flag: u64 = if neg {
            0x40
        } else {
            0x00
        };
        if m < 0x40 {
            self.buffer.push((m + flag + 0x80) as u8);
            proof {
                assert(old(self)@ + svarint_pref(m as nat, neg) =~= old(self)@.push(
                    (m + flag + 0x80) as u8,
                ));
            }
        } else {
            self.write_spref(m / 0x80, neg);
            self.buffer.push(((m % 0x80) + 0x80) as u8);
            proof {
                assert(old(self)@ + svarint_pref(m as nat, neg) =~= (old(self)@ + svarint_pref(
                    (m / 0x80) as nat,
                    neg,
                )).push(((m % 0x80) + 0x80) as u8));
            }
        }
    }

    /// Appends the signed varint encoding of `v`, including the signed
    /// 64-bit minimum, whose magnitude is taken without negating it.
    pub fn serialize_i64(&mut self, v: i64)
        ensures
            final(self)@ == old(self)@ + ivarint(v),
    {
        let neg: bool = v < 0;
        let m: u64 = if v >= 0 {
            v as u64
        } else if v == i64::MIN {
            0x8000_0000_0000_0000u64
        } else {
            (-v) as u64
        };
        let flag: u64 = if neg {
            0x40
        } else {
            0x00
        };
        if m < 0x40 {
            self.buffer.push((m + flag) as u8);
            proof {
                assert(old(self)@ + ivarint(v) =~= old(self)@.push((m + flag) as u8));
            }
        } else {
            self.write_spref(m / 0x80, neg);
            self.buffer.push((m % 0x80) as u8);
            proof {
                assert(old(self)@ + ivarint(v) =~= (old(self)@ + svarint_pref(
                    (m / 0x80) as nat,
                    neg,
                )).push((m % 0x80) as u8));
            }
        }
    }

    /// Appends the signed varint encoding of `v`; a 16-bit value is
    /// framed exactly as its 64-bit widening would be.
    pub fn serialize_i16(&mut self, v: i16)
        ensures
            final(self)@ == old(self)@ + ivarint(v as i64),
    {
        self.serialize_i64(v as i64);
    }

    /// Appends the signed varint encoding of `v`; a 32-bit value is
    /// framed exactly as its 64-bit widening would be.
    pub fn serialize_i32(&mut self, v: i32)
        ensures
            final(self)@ == old(self)@ + ivarint(v as i64),
    {
        self.serialize_i64(v as i64);
    }

    /// Appends a boolean as a single byte, `0x01` for true.
    pub fn serialize_bool(&mut self, v: bool)
        ensures
            final(self)@ == old(self)@ + seq![if v { 1u8 } else { 0u8 }],
    {
        let b: u8 = if v {
            1
        } else {
            0
        };
        self.buffer.push(b);
        proof {
            assert(old(self)@ + seq![b] =~= old(self)@.push(b));
        }
    }

    /// Appends an unsigned 8-bit integer as its single raw byte.
    pub fn serialize_u8(&mut self, v: u8)
        ensures
            final(self)@ == old(self)@ + seq![v],
    {
        self.buffer.push(v);
        proof {
            assert(old(self)@ + seq![v] =~= old(self)@.push(v));
        }
    }

    /// Appends a signed 8-bit integer as its single two's-complement
    /// byte.
    pub fn serialize_i8(&mut self, v: i8)
        ensures
            final(self)@ == old(self)@ + seq![
                if v >= 0 {
                    v as u8
                } else {
                    (v + 0x100) as u8
                },
            ],
    {
        let b: u8 = if v >= 0 {
            v as u8
        } else {
            ((v as i16) + 0x100) as u8
        };
        self.buffer.push(b);
        proof {
            assert(old(self)@ + seq![b] =~= old(self)@.push(b));
        }
    }

    /// Appends the 32-bit word `bits` as 4 big-endian bytes.
    pub fn serialize_f32_bits(&mut self, bits: u32)
        ensures
            final(self)@ == old(self)@ + be32_bytes(bits),
    {
        self.buffer.push((bits / 0x0100_0000) as u8);
        self.buffer.push(((bits / 0x0001_0000) % 0x100) as u8);
        self.buffer.push(((bits / 0x100) % 0x100) as u8);
        self.buffer.push((bits % 0x100) as u8);
        proof {
            assert(old(self)@ + be32_bytes(bits) =~= old(self)@.push(
                (bits / 0x0100_0000) as u8,
            ).push(((bits / 0x0001_0000) % 0x100) as u8).push(((bits / 0x100) % 0x100) as u8).push(
                (bits % 0x100) as u8,
            ));
        }
    }

    /// Appends the 64-bit word `bits` as 8 big-endian bytes.
    pub fn serialize_f64_bits(&mut self, bits: u64)
        ensures
            final(self)@ == old(self)@ + be64_bytes(bits),
    {
        self.buffer.push((bits / 0x0100_0000_0000_0000) as u8);
        self.buffer.push(((bits / 0x0001_0000_0000_0000) % 0x100) as u8);
        self.buffer.push(((bits / 0x0000_0100_0000_0000) % 0x100) as u8);
        self.buffer.push(((bits / 0x0000_0001_0000_0000) % 0x100) as u8);
        self.buffer.push(((bits / 0x0100_0000) % 0x100) as u8);
        self.buffer.push(((bits / 0x0001_0000) % 0x100) as u8);
        self.buffer.push(((bits / 0x100) % 0x100) as u8);
        self.buffer.push((bits % 0x100) as u8);
        proof {
            assert(old(self)@ + be64_bytes(bits) =~= old(self)@.push(
                (bits / 0x0100_0000_0000_0000) as u8,
            ).push(((bits / 0x0001_0000_0000_0000) % 0x100) as u8).push(
                ((bits / 0x0000_0100_0000_0000) % 0x100) as u8,
            ).push(((bits / 0x0000_0001_0000_0000) % 0x100) as u8).push(
                ((bits / 0x0100_0000) % 0x100) as u8,
            ).push(((bits / 0x0001_0000) % 0x100) as u8).push(((bits / 0x100) % 0x100) as u8).push(
                (bits % 0x100) as u8,
            ));
        }
    }

    /// Appends the UTF-8 encoding of one character, with no length
    /// prefix: the width is implicit in the lead byte.
    pub fn serialize_char(&mut self, v: char)
        ensures
            final(self)@ == old(self)@ + encode_scalar(v as u32),
    {
        let u = v as u32;
        proof {
            assert(is_scalar(u));
        }
        if u < 0x80 {
            proof {
                assert(((u & 0x7F) as u8) == u as u8) by (bit_vector)
                    requires
                        u < 0x80,
                ;
            }
            self.buffer.push(u as u8);
            proof {
                assert(old(self)@ + encode_scalar(u) =~= old(self)@.push(u as u8));
            }
        } else if u < 0x800 {
            let b1: u8 = 0xC0 | ((u >> 6) & 0x1F) as u8;
            let b2: u8 = 0x80 | (u & 0x3F) as u8;
            self.buffer.push(b1);
            self.buffer.push(b2);
            proof {
                assert(old(self)@ + encode_scalar(u) =~= old(self)@.push(b1).push(b2));
            }
        } else if u < 0x10000 {
            let b1: u8 = 0xE0 | ((u >> 12) & 0x0F) as u8;
            let b2: u8 = 0x80 | ((u >> 6) & 0x3F) as u8;
            let b3: u8 = 0x80 | (u & 0x3F) as u8;
            self.buffer.push(b1);
            self.buffer.push(b2);
            self.buffer.push(b3);
            proof {
                assert(old(self)@ + encode_scalar(u) =~= old(self)@.push(b1).push(b2).push(b3));
            }
        } else {
            let b1: u8 = 0xF0 | ((u >> 18) & 0x7) as u8;
            let b2: u8 = 0x80 | ((u >> 12) & 0x3F) as u8;
            let b3: u8 = 0x80 | ((u >> 6) & 0x3F) as u8;
            let b4: u8 = 0x80 | (u & 0x3F) as u8;
            self.buffer.push(b1);
            self.buffer.push(b2);
            self.buffer.push(b3);
            self.buffer.push(b4);
            proof {
                assert(old(self)@ + encode_scalar(u) =~= old(self)@.push(b1).push(b2).push(b3).push(
                    b4,
                ));
            }
        }
    }

    /// Appends a string as a varint byte count followed by that many
    /// UTF-8 bytes.
    pub fn serialize_str(&mut self, v: &str)
        ensures
            final(self)@ == old(self)@ + uvarint(encode_utf8(v@).len()) + encode_utf8(v@),
    {
        let bytes = v.as_bytes();
        let n = bytes.len();
        self.serialize_usize(n);
        self.extend_bytes(bytes);
    }

    /// Appends a raw byte sequence as a varint length followed by that
    /// many bytes, with no validation.
    pub fn serialize_bytes(&mut self, v: &[u8])
        ensures
            final(self)@ == old(self)@ + uvarint(v@.len()) + v@,
    {
        let n = v.len();
        self.serialize_usize(n);
        self.extend_bytes(v);
    }

    /// Appends the control byte of an absent optional value.
    pub fn serialize_none(&mut self)
        ensures
            final(self)@ == old(self)@ + seq![0u8],
    {
        self.buffer.push(0);
        proof {
            assert(old(self)@ + seq![0u8] =~= old(self)@.push(0u8));
        }
    }

    /// Appends the control byte of a present optional value; the caller
    /// then encodes the payload.
    pub fn serialize_some(&mut self)
        ensures
            final(self)@ == old(self)@ + seq![1u8],
    {
        self.buffer.push(1);
        proof {
            assert(old(self)@ + seq![1u8] =~= old(self)@.push(1u8));
        }
    }

    /// Appends nothing: the unit value and zero-field records have no
    /// wire representation.
    pub fn serialize_unit(&mut self)
        ensures
            final(self)@ == old(self)@,
    {
    }

    /// Appends the varint index of a tagged union's variant; the caller
    /// then encodes the variant's payload, if it has one.
    pub fn serialize_variant_index(&mut self, variant_index: u32)
        ensures
            final(self)@ == old(self)@ + uvarint(variant_index as nat),
    {
        self.serialize_u64(variant_index as u64);
    }

    /// Begins a variable-length sequence: its length must be known up
    /// front and is appended as a varint; the caller then encodes each
    /// element in order.
    pub fn serialize_seq(&mut self, len: Option<usize>) -> (r: Result<(), Error>)
        ensures
            len matches Some(n) ==> r == Ok::<(), Error>(()) && final(self)@ == old(self)@
                + uvarint(n as nat),
            len is None ==> r == Err::<(), Error>(Error::LengthRequired) && final(self)@ == old(
                self,
            )@,
    {
        match len {
            Some(n) => {
                self.serialize_usize(n);
                Ok(())
            },
            None => Err(Error::LengthRequired),
        }
    }

    /// Begins a key-value map: its entry count must be known up front
    /// and is appended as a varint; the caller then encodes the entries
    /// as interleaved keys and values in iteration order.
    pub fn serialize_map(&mut self, len: Option<usize>) -> (r: Result<(), Error>)
        ensures
            len matches Some(n) ==> r == Ok::<(), Error>(()) && final(self)@ == old(self)@
                + uvarint(n as nat),
            len is None ==> r == Err::<(), Error>(Error::LengthRequired) && final(self)@ == old(
                self,
            )@,
    {
        match len {
            Some(n) => {
                self.serialize_usize(n);
                Ok(())
            },
            None => Err(Error::LengthRequired),
        }
    }
}

} // verus!
