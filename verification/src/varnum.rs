//! Variable-length integers: seven bits to a byte, low group first, the high
//! bit of a byte set where another byte follows.

use crate::buffer::{buf_bytes, buf_len, buf_set, put_u8, read_u8};
use crate::codec::{Decode, Encode, Wire};
use crate::error::{DecodeError, EncodeError};
use bytes::BytesMut;
use vstd::prelude::*;

verus! {

/// The groups of `v`, low group first: the fewest bytes that hold it.
pub open spec fn varnum_bytes(v: nat) -> Seq<u8>
    decreases v,
{
    if v < 128 {
        seq![v as u8]
    } else {
        seq![(v % 128 + 128) as u8] + varnum_bytes(v / 128)
    }
}

/// The number that the groups at the front of `s` spell and how many bytes
/// they take, reading at most `max` bytes. The number is not yet cut down to
/// a width.
pub open spec fn varnum_value(s: Seq<u8>, max: nat) -> Result<(nat, nat), DecodeError>
    decreases max,
{
    if max == 0 {
        Err(DecodeError::VarNumTooLarge)
    } else if s.len() == 0 {
        Err(DecodeError::UnexpectedEof)
    } else if s[0] < 128 {
        Ok((s[0] as nat, 1nat))
    } else {
        match varnum_value(s.skip(1), (max - 1) as nat) {
            Ok((v, n)) => Ok((((s[0] - 128) + 128 * v) as nat, n + 1)),
            Err(e) => Err(e),
        }
    }
}

/// The number of bytes in `varnum_bytes(v)`.
pub open spec fn varnum_len(v: nat) -> nat
    decreases v,
{
    if v < 128 {
        1
    } else {
        1 + varnum_len(v / 128)
    }
}

/// `varnum_len` counts the bytes of `varnum_bytes`.
pub proof fn lemma_varnum_len(v: nat)
    ensures
        varnum_bytes(v).len() == varnum_len(v),
    decreases v,
{
    if v >= 128 {
        lemma_varnum_len(v / 128);
    }
}

/// Reading the groups of `v`, whatever follows them, gives `v` back.
pub proof fn lemma_varnum_round_trip(v: nat, rest: Seq<u8>, max: nat)
    requires
        varnum_len(v) <= max,
    ensures
        varnum_value(varnum_bytes(v) + rest, max) == Ok::<(nat, nat), DecodeError>(
            (v, varnum_len(v)),
        ),
    decreases v,
{
    let s = varnum_bytes(v) + rest;
    if v < 128 {
        assert(s[0] == v as u8);
    } else {
        assert(s[0] == (v % 128 + 128) as u8);
        assert(s.skip(1) =~= varnum_bytes(v / 128) + rest);
        lemma_varnum_round_trip(v / 128, rest, (max - 1) as nat);
    }
}

/// Reading never takes more bytes than there are, nor more than `max`.
pub proof fn lemma_varnum_value_len(s: Seq<u8>, max: nat)
    ensures
        varnum_value(s, max) is Ok ==> 1 <= varnum_value(s, max).unwrap().1 <= s.len()
            && varnum_value(s, max).unwrap().1 <= max,
    decreases max,
{
    if max > 0 && s.len() > 0 && s[0] >= 128 {
        lemma_varnum_value_len(s.skip(1), (max - 1) as nat);
    }
}

/// `128^k`.
pub open spec fn pow128(k: nat) -> nat
    decreases k,
{
    if k == 0 {
        1
    } else {
        128 * pow128((k - 1) as nat)
    }
}

/// The number that the low seven bits of every byte of `s` spell, low group
/// first.
pub open spec fn groups_value(s: Seq<u8>) -> nat
    decreases s.len(),
{
    if s.len() == 0 {
        0
    } else {
        (s[0] % 128) as nat + 128 * groups_value(s.skip(1))
    }
}

proof fn lemma_pow128_table()
    ensures
        pow128(0) == 1,
        pow128(1) == 0x80,
        pow128(2) == 0x4000,
        pow128(3) == 0x20_0000,
        pow128(4) == 0x1000_0000,
        pow128(5) == 0x8_0000_0000,
        pow128(6) == 0x400_0000_0000,
        pow128(7) == 0x2_0000_0000_0000,
        pow128(8) == 0x100_0000_0000_0000,
        pow128(9) == 0x8000_0000_0000_0000,
{
    reveal_with_fuel(pow128, 11);
}

proof fn lemma_groups_bound(s: Seq<u8>)
    ensures
        groups_value(s) < pow128(s.len()),
    decreases s.len(),
{
    if s.len() > 0 {
        lemma_groups_bound(s.skip(1));
    }
}

proof fn lemma_groups_push(s: Seq<u8>, k: nat)
    requires
        k < s.len(),
    ensures
        groups_value(s.take(k + 1int)) == groups_value(s.take(k as int)) + (s[k as int] % 128)
            * pow128(k),
    decreases k,
{
    let long = s.take(k + 1int);
    let short = s.take(k as int);
    assert(long[0] == s[0]);
    assert(groups_value(long) == (s[0] % 128) as nat + 128 * groups_value(long.skip(1)));
    if k == 0 {
        assert(long.skip(1) =~= Seq::<u8>::empty());
        assert(short =~= Seq::<u8>::empty());
        assert(groups_value(long.skip(1)) == 0);
        assert(groups_value(short) == 0);
        assert(pow128(0) == 1);
    } else {
        assert(short[0] == s[0]);
        assert(groups_value(short) == (s[0] % 128) as nat + 128 * groups_value(short.skip(1)));
        let t = s.skip(1);
        lemma_groups_push(t, (k - 1) as nat);
        assert(s.take(k + 1int).skip(1) =~= t.take(k as int));
        assert(s.take(k as int).skip(1) =~= t.take(k - 1));
        assert(t[k - 1] == s[k as int]);
        let a = groups_value(t.take(k - 1));
        let b = (s[k as int] % 128) as nat;
        let p = pow128((k - 1) as nat);
        assert(128 * (a + b * p) == 128 * a + b * (128 * p)) by (nonlinear_arith);
    }
}

/// Where the first `k` bytes all carry the continuation bit and byte `k`
/// does not, the groups end at byte `k`.
proof fn lemma_varnum_value_stop(s: Seq<u8>, max: nat, k: nat)
    requires
        k < max,
        k < s.len(),
        forall|j: int| 0 <= j < k ==> s[j] >= 128,
        s[k as int] < 128,
    ensures
        varnum_value(s, max) == Ok::<(nat, nat), DecodeError>(
            (groups_value(s.take(k + 1int)), k + 1),
        ),
    decreases k,
{
    if k == 0 {
        assert(s.take(1int).skip(1) =~= Seq::<u8>::empty());
        assert(groups_value(s.take(1int).skip(1)) == 0);
    } else {
        let t = s.skip(1);
        assert forall|j: int| 0 <= j < k - 1 implies t[j] >= 128 by {
            assert(t[j] == s[j + 1]);
        }
        lemma_varnum_value_stop(t, (max - 1) as nat, (k - 1) as nat);
        assert(s.take(k + 1int).skip(1) =~= t.take(k as int));
    }
}

/// Where the first `k` bytes all carry the continuation bit, reading fails
/// if they are all there is or all that may be read.
proof fn lemma_varnum_value_fail(s: Seq<u8>, max: nat, k: nat)
    requires
        k <= s.len(),
        forall|j: int| 0 <= j < k ==> s[j] >= 128,
        k == s.len() || k >= max,
    ensures
        k >= max ==> varnum_value(s, max) == Err::<(nat, nat), DecodeError>(
            DecodeError::VarNumTooLarge,
        ),
        k < max ==> varnum_value(s, max) == Err::<(nat, nat), DecodeError>(
            DecodeError::UnexpectedEof,
        ),
    decreases max,
{
    if max > 0 && s.len() > 0 {
        if k == 0 {
        } else {
            let t = s.skip(1);
            assert forall|j: int| 0 <= j < k - 1 implies t[j] >= 128 by {
                assert(t[j] == s[j + 1]);
            }
            lemma_varnum_value_fail(t, (max - 1) as nat, (k - 1) as nat);
        }
    }
}

proof fn lemma_bits_u32(val: u32)
    by (bit_vector)
    ensures
        (val & 0xFFFF_FF80 == 0) <==> val < 128,
        val >> 7 == val / 128,
        ((val as u8) | 0x80u8) == (val % 128 + 128) as u8,
        val < 128 ==> (val as u8) == val,
{
}

proof fn lemma_bits_u64(val: u64)
    by (bit_vector)
    ensures
        (val & 0xFFFF_FFFF_FFFF_FF80 == 0) <==> val < 128,
        val >> 7 == val / 128,
        ((val as u8) | 0x80u8) == (val % 128 + 128) as u8,
        val < 128 ==> (val as u8) == val,
{
}

proof fn lemma_byte_bits(b: u8)
    by (bit_vector)
    ensures
        (b & 0x7F) == b % 128,
        (b & 0x80 == 0) <==> b < 128,
{
}

proof fn lemma_group_or_u32(val: u32, x: u32, shift: u32)
    by (bit_vector)
    requires
        x < 128,
    ensures
        shift == 0 && val == 0 ==> (val | (x << shift)) == x,
        shift == 7 && val < 0x80 ==> (val | (x << shift)) == val + x * 0x80,
        shift == 14 && val < 0x4000 ==> (val | (x << shift)) == val + x * 0x4000,
        shift == 21 && val < 0x20_0000 ==> (val | (x << shift)) == val + x * 0x20_0000,
        shift == 28 && val < 0x1000_0000 ==> (val | (x << shift)) == (val + x * 0x1000_0000)
            % 0x1_0000_0000,
{
}

proof fn lemma_group_or_u64(val: u64, x: u64, shift: u64)
    by (bit_vector)
    requires
        x < 128,
    ensures
        shift == 0 && val == 0 ==> (val | (x << shift)) == x,
        shift == 7 && val < 0x80 ==> (val | (x << shift)) == val + x * 0x80,
        shift == 14 && val < 0x4000 ==> (val | (x << shift)) == val + x * 0x4000,
        shift == 21 && val < 0x20_0000 ==> (val | (x << shift)) == val + x * 0x20_0000,
        shift == 28 && val < 0x1000_0000 ==> (val | (x << shift)) == val + x * 0x1000_0000,
        shift == 35 && val < 0x8_0000_0000 ==> (val | (x << shift)) == val + x * 0x8_0000_0000,
        shift == 42 && val < 0x400_0000_0000 ==> (val | (x << shift)) == val + x
            * 0x400_0000_0000,
        shift == 49 && val < 0x2_0000_0000_0000 ==> (val | (x << shift)) == val + x
            * 0x2_0000_0000_0000,
        shift == 56 && val < 0x100_0000_0000_0000 ==> (val | (x << shift)) == val + x
            * 0x100_0000_0000_0000,
        shift == 63 && val < 0x8000_0000_0000_0000 ==> (val | (x << shift)) == (val + x
            * 0x8000_0000_0000_0000) % 0x1_0000_0000_0000_0000,
{
}

proof fn lemma_sign_u32(v: i32)
    by (bit_vector)
    ensures
        ((v as u32) as i32) == v,
{
}

proof fn lemma_sign_u64(v: i64)
    by (bit_vector)
    ensures
        ((v as u64) as i64) == v,
{
}

/// The bytes of a 32-bit variable-length integer: the groups of its
/// two's-complement bit pattern.
pub open spec fn var_int_bytes(v: i32) -> Seq<u8> {
    varnum_bytes((v as u32) as nat)
}

/// The 32-bit integer at the front of `s`, read from at most five bytes.
pub open spec fn var_int_parse(s: Seq<u8>) -> Result<(i32, nat), DecodeError> {
    match varnum_value(s, 5) {
        Ok((v, n)) => Ok((((v % 0x1_0000_0000) as u32) as i32, n)),
        Err(e) => Err(e),
    }
}

/// The bytes of a 64-bit variable-length integer.
pub open spec fn var_long_bytes(v: i64) -> Seq<u8> {
    varnum_bytes((v as u64) as nat)
}

/// The 64-bit integer at the front of `s`, read from at most ten bytes.
pub open spec fn var_long_parse(s: Seq<u8>) -> Result<(i64, nat), DecodeError> {
    match varnum_value(s, 10) {
        Ok((v, n)) => Ok((((v % 0x1_0000_0000_0000_0000) as u64) as i64, n)),
        Err(e) => Err(e),
    }
}

/// Every 32-bit pattern takes one to five bytes.
pub proof fn lemma_var_int_len(v: i32)
    ensures
        1 <= var_int_bytes(v).len() <= 5,
        var_int_bytes(v).len() == varnum_len((v as u32) as nat),
{
    lemma_varnum_len((v as u32) as nat);
    reveal_with_fuel(varnum_len, 6);
}

/// Every 64-bit pattern takes one to ten bytes.
pub proof fn lemma_var_long_len(v: i64)
    ensures
        1 <= var_long_bytes(v).len() <= 10,
        var_long_bytes(v).len() == varnum_len((v as u64) as nat),
{
    lemma_varnum_len((v as u64) as nat);
    reveal_with_fuel(varnum_len, 11);
}

/// A 32-bit signed integer in one to five bytes.
#[derive(Debug, Copy, Clone, PartialEq, Eq, PartialOrd, Ord, Hash, Structural)]
pub struct VarInt(pub i32);

/// A 64-bit signed integer in one to ten bytes.
#[derive(Debug, Copy, Clone, PartialEq, Eq, PartialOrd, Ord, Hash, Structural)]
pub struct VarLong(pub i64);

impl VarInt {
    /// The number of bytes that `encode` writes for this value.
    pub fn size(self) -> (n: usize)
        ensures
            n == var_int_bytes(self.0).len(),
            1 <= n <= 5,
    {
        let v: u32 = self.0 as u32;
        proof {
            lemma_var_int_len(self.0);
            reveal_with_fuel(varnum_len, 6);
        }
        if v < 0x80 {
            1
        } else if v < 0x4000 {
            2
        } else if v < 0x20_0000 {
            3
        } else if v < 0x1000_0000 {
            4
        } else {
            5
        }
    }
}

impl VarInt {
    /// Writes the bytes of this value over the bytes of `buf` from `at`
    /// onward. Every other byte stays.
    pub fn overwrite(self, buf: &mut BytesMut, at: usize)
        requires
            at + var_int_bytes(self.0).len() <= buf_bytes(*old(buf)).len(),
        ensures
            buf_bytes(*final(buf)) == buf_bytes(*old(buf)).take(at as int) + var_int_bytes(self.0)
                + buf_bytes(*old(buf)).skip(at + var_int_bytes(self.0).len()),
    {
        let mut val: u32 = self.0 as u32;
        let mut pos: usize = at;
        let len: usize = buf_len(buf);
        let ghost base = buf_bytes(*buf);
        let ghost mut done: Seq<u8> = Seq::empty();
        proof {
            assert(done + varnum_bytes(val as nat) =~= var_int_bytes(self.0));
            assert(base =~= base.take(at as int) + done + base.skip(pos as int));
        }
        loop
            invariant
                base == buf_bytes(*old(buf)),
                len == base.len(),
                at + var_int_bytes(self.0).len() <= base.len(),
                pos == at + done.len(),
                done + varnum_bytes(val as nat) == var_int_bytes(self.0),
                buf_bytes(*buf) == base.take(at as int) + done + base.skip(pos as int),
            decreases val,
        {
            proof {
                lemma_bits_u32(val);
                lemma_varnum_len(val as nat);
            }
            if val & 0xFFFF_FF80 == 0 {
                buf_set(buf, pos, val as u8);
                proof {
                    assert(buf_bytes(*buf) =~= base.take(at as int) + var_int_bytes(self.0)
                        + base.skip(at + var_int_bytes(self.0).len()));
                }
                return ;
            }
            let byte: u8 = #[verifier::truncate] (val as u8) | 0x80;
            buf_set(buf, pos, byte);
            proof {
                lemma_varnum_len((val / 128) as nat);
                assert(done.push(byte) + varnum_bytes((val / 128) as nat) =~= done + varnum_bytes(
                    val as nat,
                ));
                assert(buf_bytes(*buf) =~= base.take(at as int) + done.push(byte) + base.skip(
                    pos + 1,
                ));
                done = done.push(byte);
            }
            pos = pos + 1;
            val = val >> 7;
        }
    }
}

impl VarLong {
    /// The number of bytes that `encode` writes for this value.
    pub fn size(self) -> (n: usize)
        ensures
            n == var_long_bytes(self.0).len(),
            1 <= n <= 10,
    {
        let v: u64 = self.0 as u64;
        proof {
            lemma_var_long_len(self.0);
            reveal_with_fuel(varnum_len, 11);
        }
        if v < 0x80 {
            1
        } else if v < 0x4000 {
            2
        } else if v < 0x20_0000 {
            3
        } else if v < 0x1000_0000 {
            4
        } else if v < 0x8_0000_0000 {
            5
        } else if v < 0x400_0000_0000 {
            6
        } else if v < 0x2_0000_0000_0000 {
            7
        } else if v < 0x100_0000_0000_0000 {
            8
        } else if v < 0x8000_0000_0000_0000 {
            9
        } else {
            10
        }
    }
}

impl Wire for VarInt {
    type Model = i32;

    open spec fn model(&self) -> i32 {
        self.0
    }

    open spec fn encoding(m: i32) -> Result<Seq<u8>, EncodeError> {
        Ok(var_int_bytes(m))
    }

    open spec fn parse(s: Seq<u8>) -> Result<(i32, nat), DecodeError> {
        var_int_parse(s)
    }

    open spec fn self_delimiting() -> bool {
        true
    }

    open spec fn well_formed() -> bool {
        true
    }

    proof fn lemma_parse_len(s: Seq<u8>) {
        lemma_varnum_value_len(s, 5);
        if var_int_parse(s) is Ok {
            assert(var_int_parse(s).unwrap().1 == varnum_value(s, 5).unwrap().1);
            assert(Self::parse(s).unwrap().1 <= s.len());
        }
    }

    proof fn lemma_round_trip(m: i32, rest: Seq<u8>) {
        let v = (m as u32) as nat;
        lemma_var_int_len(m);
        lemma_varnum_round_trip(v, rest, 5);
        lemma_varnum_len(v);
        lemma_sign_u32(m);
    }
}

impl Wire for VarLong {
    type Model = i64;

    open spec fn model(&self) -> i64 {
        self.0
    }

    open spec fn encoding(m: i64) -> Result<Seq<u8>, EncodeError> {
        Ok(var_long_bytes(m))
    }

    open spec fn parse(s: Seq<u8>) -> Result<(i64, nat), DecodeError> {
        var_long_parse(s)
    }

    open spec fn self_delimiting() -> bool {
        true
    }

    open spec fn well_formed() -> bool {
        true
    }

    proof fn lemma_parse_len(s: Seq<u8>) {
        lemma_varnum_value_len(s, 10);
        if var_long_parse(s) is Ok {
            assert(var_long_parse(s).unwrap().1 == varnum_value(s, 10).unwrap().1);
            assert(Self::parse(s).unwrap().1 <= s.len());
        }
    }

    proof fn lemma_round_trip(m: i64, rest: Seq<u8>) {
        let v = (m as u64) as nat;
        lemma_var_long_len(m);
        lemma_varnum_round_trip(v, rest, 10);
        lemma_varnum_len(v);
        lemma_sign_u64(m);
    }
}

impl Encode for VarInt {
    fn encode(&self, wtr: &mut BytesMut) -> (r: Result<(), EncodeError>) {
        let mut val: u32 = self.0 as u32;
        loop
            invariant
                buf_bytes(*wtr) + varnum_bytes(val as nat) == buf_bytes(*old(wtr)) + var_int_bytes(
                    self.0,
                ),
            decreases val,
        {
            proof {
                lemma_bits_u32(val);
            }
            if val & 0xFFFF_FF80 == 0 {
                put_u8(wtr, val as u8);
                proof {
                    assert(buf_bytes(*wtr) =~= buf_bytes(*old(wtr)) + var_int_bytes(self.0));
                }
                return Ok(());
            }
            let ghost before = buf_bytes(*wtr);
            put_u8(wtr, #[verifier::truncate] (val as u8) | 0x80);
            proof {
                assert(buf_bytes(*wtr) + varnum_bytes((val / 128) as nat) =~= before
                    + varnum_bytes(val as nat));
            }
            val = val >> 7;
        }
    }
}

impl Encode for VarLong {
    fn encode(&self, wtr: &mut BytesMut) -> (r: Result<(), EncodeError>) {
        let mut val: u64 = self.0 as u64;
        loop
            invariant
                buf_bytes(*wtr) + varnum_bytes(val as nat) == buf_bytes(*old(wtr))
                    + var_long_bytes(self.0),
            decreases val,
        {
            proof {
                lemma_bits_u64(val);
            }
            if val & 0xFFFF_FFFF_FFFF_FF80 == 0 {
                put_u8(wtr, val as u8);
                proof {
                    assert(buf_bytes(*wtr) =~= buf_bytes(*old(wtr)) + var_long_bytes(self.0));
                }
                return Ok(());
            }
            let ghost before = buf_bytes(*wtr);
            put_u8(wtr, #[verifier::truncate] (val as u8) | 0x80);
            proof {
                assert(buf_bytes(*wtr) + varnum_bytes((val / 128) as nat) =~= before
                    + varnum_bytes(val as nat));
            }
            val = val >> 7;
        }
    }
}

impl<'a> Decode<'a> for VarInt {
    fn decode(rdr: &mut &'a [u8]) -> (r: Result<Self, DecodeError>) {
        let start: &'a [u8] = *rdr;
        let mut val: u32 = 0;
        let mut i: u32 = 0;
        while i < 5
            invariant
                i <= 5,
                i <= start@.len(),
                rdr@ == start@.skip(i as int),
                start@ == old(rdr)@,
                forall|j: int| 0 <= j < i ==> start@[j] >= 128,
                i < 5 ==> val as nat == groups_value(start@.take(i as int)),
            decreases 5 - i,
        {
            let byte: u8 = match read_u8(rdr) {
                Ok(b) => b,
                Err(_) => {
                    proof {
                        lemma_varnum_value_fail(start@, 5, i as nat);
                    }
                    *rdr = start;
                    return Err(DecodeError::UnexpectedEof);
                },
            };
            let shift: u32 = i * 7;
            let group: u32 = (byte & 0x7F) as u32;
            proof {
                lemma_byte_bits(byte);
                lemma_group_or_u32(val, group, shift);
                lemma_groups_bound(start@.take(i as int));
                lemma_groups_push(start@, i as nat);
                lemma_pow128_table();
                assert(start@[i as int] == byte);
                assert(rdr@ =~= start@.skip(i + 1));
            }
            let next: u32 = val | (group << shift);
            proof {
                let low = groups_value(start@.take(i as int));
                let all = groups_value(start@.take(i + 1));
                if i == 0 {
                    assert(all == low + group * 1);
                } else if i == 1 {
                    assert(all == low + group * 0x80);
                } else if i == 2 {
                    assert(all == low + group * 0x4000);
                } else if i == 3 {
                    assert(all == low + group * 0x20_0000);
                } else {
                    assert(all == low + group * 0x1000_0000);
                }
                assert(next as nat == all % 0x1_0000_0000);
            }
            if byte & 0x80 == 0 {
                proof {
                    lemma_varnum_value_stop(start@, 5, i as nat);
                }
                return Ok(VarInt(#[verifier::truncate] (next as i32)));
            }
            val = next;
            i += 1;
        }
        proof {
            lemma_varnum_value_fail(start@, 5, 5);
        }
        *rdr = start;
        Err(DecodeError::VarNumTooLarge)
    }
}

impl<'a> Decode<'a> for VarLong {
    fn decode(rdr: &mut &'a [u8]) -> (r: Result<Self, DecodeError>) {
        let start: &'a [u8] = *rdr;
        let mut val: u64 = 0;
        let mut i: u64 = 0;
        while i < 10
            invariant
                i <= 10,
                i <= start@.len(),
                rdr@ == start@.skip(i as int),
                start@ == old(rdr)@,
                forall|j: int| 0 <= j < i ==> start@[j] >= 128,
                i < 10 ==> val as nat == groups_value(start@.take(i as int)),
            decreases 10 - i,
        {
            let byte: u8 = match read_u8(rdr) {
                Ok(b) => b,
                Err(_) => {
                    proof {
                        lemma_varnum_value_fail(start@, 10, i as nat);
                    }
                    *rdr = start;
                    return Err(DecodeError::UnexpectedEof);
                },
            };
            let shift: u64 = i * 7;
            let group: u64 = (byte & 0x7F) as u64;
            proof {
                lemma_byte_bits(byte);
                lemma_group_or_u64(val, group, shift);
                lemma_groups_bound(start@.take(i as int));
                lemma_groups_push(start@, i as nat);
                lemma_pow128_table();
                assert(start@[i as int] == byte);
                assert(rdr@ =~= start@.skip(i + 1));
            }
            let next: u64 = val | (group << shift);
            proof {
                let low = groups_value(start@.take(i as int));
                let all = groups_value(start@.take(i + 1));
                if i == 0 {
                    assert(all == low + group * 1);
                } else if i == 1 {
                    assert(all == low + group * 0x80);
                } else if i == 2 {
                    assert(all == low + group * 0x4000);
                } else if i == 3 {
                    assert(all == low + group * 0x20_0000);
                } else if i == 4 {
                    assert(all == low + group * 0x1000_0000);
                } else if i == 5 {
                    assert(all == low + group * 0x8_0000_0000);
                } else if i == 6 {
                    assert(all == low + group * 0x400_0000_0000);
                } else if i == 7 {
                    assert(all == low + group * 0x2_0000_0000_0000);
                } else if i == 8 {
                    assert(all == low + group * 0x100_0000_0000_0000);
                } else {
                    assert(all == low + group * 0x8000_0000_0000_0000);
                }
                assert(next as nat == all % 0x1_0000_0000_0000_0000);
            }
            if byte & 0x80 == 0 {
                proof {
                    lemma_varnum_value_stop(start@, 10, i as nat);
                }
                return Ok(VarLong(#[verifier::truncate] (next as i64)));
            }
            val = next;
            i += 1;
        }
        proof {
            lemma_varnum_value_fail(start@, 10, 10);
        }
        *rdr = start;
        Err(DecodeError::VarNumTooLarge)
    }
}


/// Five bytes that all carry the continuation bit are no 32-bit integer,
/// whatever follows them.
pub proof fn lemma_var_int_too_long(s: Seq<u8>)
    requires
        s.len() >= 5,
        forall|j: int| 0 <= j < 5 ==> s[j] >= 128,
    ensures
        var_int_parse(s) == Err::<(i32, nat), DecodeError>(DecodeError::VarNumTooLarge),
{
    lemma_varnum_value_fail(s, 5, 5);
}

/// Ten bytes that all carry the continuation bit are no 64-bit integer,
/// whatever follows them.
pub proof fn lemma_var_long_too_long(s: Seq<u8>)
    requires
        s.len() >= 10,
        forall|j: int| 0 <= j < 10 ==> s[j] >= 128,
    ensures
        var_long_parse(s) == Err::<(i64, nat), DecodeError>(DecodeError::VarNumTooLarge),
{
    lemma_varnum_value_fail(s, 10, 10);
}

/// Every byte of an integer but its last carries the continuation bit.
proof fn lemma_varnum_bytes_shape(v: nat, j: int)
    requires
        0 <= j < varnum_len(v),
    ensures
        varnum_bytes(v).len() == varnum_len(v),
        j < varnum_len(v) - 1 ==> varnum_bytes(v)[j] >= 128,
    decreases v,
{
    lemma_varnum_len(v);
    if v >= 128 {
        lemma_varnum_len(v / 128);
        if j > 0 {
            lemma_varnum_bytes_shape(v / 128, j - 1);
        }
    }
}

/// An integer that has not wholly arrived reads as input that ends too
/// early, never as a wrong integer.
pub proof fn lemma_var_int_cut_short(v: i32, k: int)
    requires
        0 <= k < var_int_bytes(v).len(),
    ensures
        var_int_parse(var_int_bytes(v).take(k)) == Err::<(i32, nat), DecodeError>(
            DecodeError::UnexpectedEof,
        ),
{
    let n = (v as u32) as nat;
    let cut = var_int_bytes(v).take(k);
    lemma_var_int_len(v);
    assert forall|j: int| 0 <= j < k implies cut[j] >= 128 by {
        lemma_varnum_bytes_shape(n, j);
    }
    lemma_varnum_value_fail(cut, 5, k as nat);
}

} // verus!
