//! The variable-length integer codec of the block-data stream.
//!
//! Each 32-bit value is stored as a run of bytes, least-significant
//! 7-bit group first; every byte except the last one of a value has its
//! high bit set as a continuation marker. A value may span at most five
//! bytes; at the fifth byte only the low four bits of the group still
//! fall inside the 32-bit value, so the stored group is truncated there,
//! and a sixth continuation byte is a malformed stream. A trailing,
//! incomplete value (the stream ends while a continuation is pending) is
//! dropped silently, as the on-disk format's readers do.

use vstd::prelude::*;

verus! {

use crate::decode::DecodeError;

/// The unsigned byte that the signed on-disk byte stands for.
pub open spec fn u8_of_i8(b: i8) -> u8 {
    if b >= 0 {
        b as u8
    } else {
        (b + 256) as u8
    }
}

/// A signed byte sequence reinterpreted as unsigned bytes.
pub open spec fn bytes_of(s: Seq<i8>) -> Seq<u8> {
    Seq::new(s.len(), |i: int| u8_of_i8(s[i]))
}

/// The 32-bit two's-complement value holding the unsigned value `v`.
/// (Values of 2^32 and above do not arise; they map to 0.)
pub open spec fn to_i32(v: nat) -> i32 {
    if v < 0x80000000 {
        v as i32
    } else if v < 0x100000000 {
        (v - 0x100000000) as i32
    } else {
        0
    }
}

/// What a 7-bit group contributes to the value when it arrives at the
/// given bit offset. At offset 28 only the low four bits of the group
/// still fall inside the 32-bit value; the rest is discarded, matching
/// the wrapping shift of the format's readers.
pub open spec fn group_value(g: nat, position: nat) -> nat {
    if position == 0 {
        g
    } else if position == 7 {
        g * 0x80
    } else if position == 14 {
        g * 0x4000
    } else if position == 21 {
        g * 0x200000
    } else {
        (g % 16) * 0x10000000
    }
}

/// Upper bound of the value accumulated before a group arrives at the
/// given bit offset: the weight of that offset.
pub open spec fn position_weight(position: nat) -> nat {
    if position == 0 {
        1
    } else if position == 7 {
        0x80
    } else if position == 14 {
        0x4000
    } else if position == 21 {
        0x200000
    } else {
        0x10000000
    }
}

/// The decoder as a state machine over the remaining bytes, the value
/// accumulated so far and the bit offset of the next group. `None` is
/// the malformed case: a value that asks for more than five groups.
pub open spec fn spec_decode_state(bytes: Seq<u8>, value: nat, position: nat) -> Option<Seq<i32>>
    decreases bytes.len(),
{
    if bytes.len() == 0 {
        Some(Seq::<i32>::empty())
    } else {
        let b = bytes[0];
        let v2 = value + group_value((b % 0x80) as nat, position);
        if b < 0x80 {
            match spec_decode_state(bytes.drop_first(), 0, 0) {
                Some(s) => Some(seq![to_i32(v2)] + s),
                None => None,
            }
        } else if position + 7 > 32 {
            None
        } else {
            spec_decode_state(bytes.drop_first(), v2, position + 7)
        }
    }
}

/// The sequence of 32-bit values held in a varint byte stream, or `None`
/// where the stream is malformed.
pub open spec fn spec_decode_varints(bytes: Seq<u8>) -> Option<Seq<i32>> {
    spec_decode_state(bytes, 0, 0)
}

/// The byte run encoding one unsigned value: 7-bit groups, least
/// significant first, continuation bit on every byte but the last.
pub open spec fn spec_encode_one(v: nat) -> Seq<u8>
    decreases v,
{
    if v < 0x80 {
        seq![v as u8]
    } else {
        seq![(v % 0x80 + 0x80) as u8] + spec_encode_one(v / 0x80)
    }
}

/// The byte stream encoding a sequence of non-negative 32-bit values.
pub open spec fn spec_encode(xs: Seq<i32>) -> Seq<u8>
    decreases xs.len(),
{
    if xs.len() == 0 {
        Seq::<u8>::empty()
    } else {
        spec_encode_one(xs[0] as nat) + spec_encode(xs.drop_first())
    }
}

/// Decodes a varint byte stream into the 32-bit values it holds.
/// Fails, without panicking, where a value asks for more than five
/// groups; a trailing incomplete value is dropped.
pub fn read_varint_array(read: &Vec<i8>) -> (r: Result<Vec<i32>, DecodeError>)
    ensures
        match r {
            Ok(data) => spec_decode_varints(bytes_of(read@)) == Some(data@),
            Err(e) => spec_decode_varints(bytes_of(read@)) is None && e
                == DecodeError::MalformedVarint,
        },
{
    let ghost bs = bytes_of(read@);
    let mut data: Vec<i32> = Vec::new();
    let mut value: u32 = 0;
    let mut position: u32 = 0;
    let mut cursor: usize = 0;
    proof {
        assert(bs.skip(0) =~= bs);
        if let Some(s) = spec_decode_varints(bs) {
            assert(data@ + s =~= s);
        }
    }
    while cursor < read.len()
        invariant
            cursor <= read.len(),
            bs == bytes_of(read@),
            bs.len() == read@.len(),
            position == 0 || position == 7 || position == 14 || position == 21 || position == 28,
            (value as nat) < position_weight(position as nat),
            spec_decode_state(bs.skip(cursor as int), value as nat, position as nat) is Some
                <==> spec_decode_varints(bs) is Some,
            spec_decode_state(bs.skip(cursor as int), value as nat, position as nat) matches Some(
                s,
            ) ==> spec_decode_varints(bs) == Some(data@ + s),
        decreases read.len() - cursor,
    {
        let ghost oc = cursor as int;
        let ghost old_value = value as nat;
        let ghost old_position = position as nat;
        let b: i8 = read[cursor];
        let ub: u8 = if b >= 0 {
            b as u8
        } else {
            ((b as i16) + 256) as u8
        };
        proof {
            assert(ub == u8_of_i8(b));
            assert(bs.skip(oc)[0] == bs[oc]);
            assert(bs[oc] == u8_of_i8(read@[oc]));
            assert(bs.skip(oc).drop_first() =~= bs.skip(oc + 1));
        }
        cursor = cursor + 1;
        let g: u32 = (ub % 0x80) as u32;
        let mult: u32 = if position == 0 {
            1
        } else if position == 7 {
            0x80
        } else if position == 14 {
            0x4000
        } else if position == 21 {
            0x200000
        } else {
            0x10000000
        };
        let gg: u32 = if position == 28 {
            g % 16
        } else {
            g
        };
        let addend: u32 = gg * mult;
        proof {
            assert(addend == group_value((ub % 0x80) as nat, old_position));
        }
        let v2: u32 = value + addend;
        if ub < 0x80 {
            let x: i32 = if v2 <= 0x7FFFFFFF {
                v2 as i32
            } else {
                ((v2 as i64) - 0x100000000i64) as i32
            };
            proof {
                assert(x == to_i32(v2 as nat));
                assert(spec_decode_state(bs.skip(oc), old_value, old_position)
                    == match spec_decode_state(bs.skip(oc + 1), 0, 0) {
                    Some(s) => Some(seq![to_i32(v2 as nat)] + s),
                    None => None,
                });
                if let Some(s) = spec_decode_state(bs.skip(oc + 1), 0, 0) {
                    assert(data@ + (seq![x] + s) =~= (data@ + seq![x]) + s);
                }
            }
            data.push(x);
            value = 0;
            position = 0;
        } else {
            proof {
                if old_position == 28 {
                    assert(spec_decode_state(bs.skip(oc), old_value, old_position) is None);
                } else {
                    assert(spec_decode_state(bs.skip(oc), old_value, old_position)
                        == spec_decode_state(bs.skip(oc + 1), v2 as nat, old_position + 7));
                }
            }
            if position >= 28 {
                return Err(DecodeError::MalformedVarint);
            }
            value = v2;
            position = position + 7;
        }
    }
    proof {
        assert(bs.skip(read@.len() as int) =~= Seq::<u8>::empty());
        assert(spec_decode_state(Seq::<u8>::empty(), value as nat, position as nat) == Some(
            Seq::<i32>::empty(),
        ));
        assert(data@ + Seq::<i32>::empty() =~= data@);
    }
    Ok(data)
}

/// Turns an unsigned byte into the signed byte that stands for it on
/// disk.
fn byte_to_i8(x: u8) -> (r: i8)
    ensures
        u8_of_i8(r) == x,
{
    if x < 128 {
        x as i8
    } else {
        ((x as i16) - 256) as i8
    }
}

/// `spec_encode` distributes over concatenation.
proof fn lemma_encode_concat(a: Seq<i32>, b: Seq<i32>)
    ensures
        spec_encode(a + b) == spec_encode(a) + spec_encode(b),
    decreases a.len(),
{
    if a.len() == 0 {
        assert(a + b =~= b);
        assert(spec_encode(a) + spec_encode(b) =~= spec_encode(b));
    } else {
        assert((a + b).drop_first() =~= a.drop_first() + b);
        lemma_encode_concat(a.drop_first(), b);
        assert(spec_encode_one((a + b)[0] as nat) + (spec_encode(a.drop_first()) + spec_encode(b))
            =~= (spec_encode_one(a[0] as nat) + spec_encode(a.drop_first())) + spec_encode(b));
    }
}

/// Encodes a sequence of non-negative 32-bit values as a varint byte
/// stream.
pub fn write_varint_array(data: &Vec<i32>) -> (r: Vec<i8>)
    requires
        forall|i: int| 0 <= i < data@.len() ==> data@[i] >= 0,
    ensures
        bytes_of(r@) == spec_encode(data@),
{
    let mut out: Vec<i8> = Vec::new();
    let mut idx: usize = 0;
    while idx < data.len()
        invariant
            idx <= data.len(),
            forall|i: int| 0 <= i < data@.len() ==> data@[i] >= 0,
            bytes_of(out@) == spec_encode(data@.take(idx as int)),
        decreases data.len() - idx,
    {
        let ghost prev = data@.take(idx as int);
        let mut v: u32 = data[idx] as u32;
        let ghost v0 = v as nat;
        while v >= 0x80
            invariant
                bytes_of(out@) + spec_encode_one(v as nat) == spec_encode(prev)
                    + spec_encode_one(v0),
            decreases v,
        {
            let byte: u8 = (v % 0x80 + 0x80) as u8;
            let ghost old_out = out@;
            out.push(byte_to_i8(byte));
            proof {
                assert(bytes_of(out@) =~= bytes_of(old_out) + seq![byte]);
                assert(spec_encode_one(v as nat) == seq![byte] + spec_encode_one((v / 0x80) as nat));
                assert(bytes_of(out@) + spec_encode_one((v / 0x80) as nat) =~= (bytes_of(old_out)
                    + spec_encode_one(v as nat)));
            }
            v = v / 0x80;
        }
        let ghost old_out = out@;
        out.push(byte_to_i8(v as u8));
        proof {
            let one = seq![data@[idx as int]];
            assert(bytes_of(out@) =~= bytes_of(old_out) + seq![v as u8]);
            assert(spec_encode_one(v as nat) =~= seq![v as u8]);
            assert(data@.take(idx as int + 1) =~= prev + one);
            lemma_encode_concat(prev, one);
            assert(one[0] as nat == v0);
            assert(one.drop_first() =~= Seq::<i32>::empty());
            assert(spec_encode(one.drop_first()) =~= Seq::<u8>::empty());
            assert(spec_encode(one) =~= spec_encode_one(v0));
            assert(bytes_of(out@) =~= spec_encode(data@.take(idx as int + 1)));
        }
        idx = idx + 1;
    }
    proof {
        assert(data@.take(data@.len() as int) =~= data@);
    }
    out
}

/// Decoding an encoded value, starting mid-stream with an accumulated
/// value and a group offset that still has room for it, yields exactly
/// the accumulated value plus the encoded value at that offset, and then
/// carries on with the rest of the stream.
proof fn lemma_decode_one(v: nat, value: nat, position: nat, rest: Seq<u8>)
    requires
        position == 0 || position == 7 || position == 14 || position == 21 || position == 28,
        value < position_weight(position),
        value + v * position_weight(position) < 0x100000000,
    ensures
        spec_decode_state(spec_encode_one(v) + rest, value, position) == match spec_decode_state(
            rest,
            0,
            0,
        ) {
            Some(s) => Some(seq![to_i32(value + v * position_weight(position))] + s),
            None => None,
        },
    decreases v,
{
    let w = position_weight(position);
    let bytes = spec_encode_one(v) + rest;
    if v < 0x80 {
        let b = (v as u8);
        assert(bytes[0] == b);
        assert(bytes.drop_first() =~= rest);
        assert((b % 0x80) as nat == v);
        if position == 28 {
            assert(v * 0x10000000 < 0x100000000 - value);
            assert(v < 16) by (nonlinear_arith)
                requires
                    v * 0x10000000 < 0x100000000,
            ;
            assert(group_value(v, 28) == (v % 16) * 0x10000000);
            assert(v % 16 == v);
        }
        assert(group_value(v, position) == v * w);
    } else {
        let g = v % 0x80;
        let q = v / 0x80;
        let b = (g + 0x80) as u8;
        assert(bytes[0] == b);
        assert(bytes.drop_first() =~= spec_encode_one(q) + rest);
        assert(b >= 0x80);
        assert((b % 0x80) as nat == g);
        vstd::arithmetic::div_mod::lemma_fundamental_div_mod(v as int, 0x80);
        assert(v == 0x80 * q + g);
        if position == 28 {
            assert(false) by (nonlinear_arith)
                requires
                    v >= 0x80,
                    value + v * 0x10000000 < 0x100000000,
            ;
        }
        assert(position + 7 <= 32);
        let w2 = position_weight(position + 7);
        assert(w2 == 0x80 * w);
        assert(group_value(g, position) == g * w);
        let value2 = value + g * w;
        assert(g * w <= 0x7F * w) by (nonlinear_arith)
            requires
                g <= 0x7F,
                w >= 1,
        ;
        assert(value2 < w2);
        assert(value2 + q * w2 == value + v * w) by (nonlinear_arith)
            requires
                v == 0x80 * q + g,
                w2 == 0x80 * w,
                value2 == value + g * w,
        ;
        assert(q * w2 + value2 < 0x100000000);
        lemma_decode_one(q, value2, position + 7, rest);
    }
}

/// Varint round trip: a sequence of non-negative 32-bit values, encoded
/// and then decoded, comes back exactly as it was.
pub proof fn lemma_varint_round_trip(xs: Seq<i32>)
    requires
        forall|i: int| 0 <= i < xs.len() ==> xs[i] >= 0,
    ensures
        spec_decode_varints(spec_encode(xs)) == Some(xs),
    decreases xs.len(),
{
    if xs.len() == 0 {
        assert(spec_encode(xs).len() == 0);
        assert(Seq::<i32>::empty() =~= xs);
    } else {
        let v = xs[0] as nat;
        let rest = spec_encode(xs.drop_first());
        lemma_varint_round_trip(xs.drop_first());
        lemma_decode_one(v, 0, 0, rest);
        assert(v * 1 == v) by (nonlinear_arith);
        assert(to_i32(v) == xs[0]);
        assert(seq![xs[0]] + xs.drop_first() =~= xs);
    }
}

} // verus!
