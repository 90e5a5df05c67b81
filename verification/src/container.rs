//! Values made of other values: optional values, sequences with and without
//! a count in front, and tuples.

use crate::buffer::{buf_bytes, buf_len, buf_truncate};
use crate::codec::{Decode, Encode, Wire};
use crate::error::{DecodeError, EncodeError};
use crate::varnum::{var_int_bytes, var_int_parse, VarInt};
use bytes::BytesMut;
use vstd::prelude::*;

verus! {

/// The models of a sequence of values.
pub open spec fn seq_model<T: Wire>(s: Seq<T>) -> Seq<T::Model> {
    Seq::new(s.len(), |i: int| s[i].model())
}

/// The bytes of the items of `m`, one after another, or the first reason
/// why an item cannot be written.
pub open spec fn seq_encoding<T: Wire>(m: Seq<T::Model>) -> Result<Seq<u8>, EncodeError>
    decreases m.len(),
{
    if m.len() == 0 {
        Ok(Seq::empty())
    } else {
        match T::encoding(m[0]) {
            Err(e) => Err(e),
            Ok(head) => match seq_encoding::<T>(m.skip(1)) {
                Ok(tail) => Ok(head + tail),
                Err(e) => Err(e),
            },
        }
    }
}

/// The `count` items at the front of `s` and the bytes they take, or the
/// first reason why an item cannot be read.
pub open spec fn seq_parse<T: Wire>(s: Seq<u8>, count: nat) -> Result<
    (Seq<T::Model>, nat),
    DecodeError,
>
    decreases count,
{
    if count == 0 {
        Ok((Seq::empty(), 0))
    } else {
        match T::parse(s) {
            Err(e) => Err(e),
            Ok((head, n)) => match seq_parse::<T>(s.skip(n as int), (count - 1) as nat) {
                Ok((tail, k)) => Ok((seq![head] + tail, n + k)),
                Err(e) => Err(e),
            },
        }
    }
}

/// Reading items never takes more bytes than there are, and gives as many
/// items as were asked for.
pub proof fn lemma_seq_parse_len<T: Wire>(s: Seq<u8>, count: nat)
    ensures
        seq_parse::<T>(s, count) is Ok ==> seq_parse::<T>(s, count).unwrap().1 <= s.len()
            && seq_parse::<T>(s, count).unwrap().0.len() == count,
    decreases count,
{
    if count > 0 {
        T::lemma_parse_len(s);
        if T::parse(s) is Ok {
            let n = T::parse(s).unwrap().1;
            lemma_seq_parse_len::<T>(s.skip(n as int), (count - 1) as nat);
        }
    }
}

/// Items written one after another are read back one after another.
pub proof fn lemma_seq_round_trip<T: Wire>(m: Seq<T::Model>, rest: Seq<u8>)
    requires
        T::well_formed(),
        T::self_delimiting(),
        seq_encoding::<T>(m) is Ok,
    ensures
        seq_parse::<T>(seq_encoding::<T>(m).unwrap() + rest, m.len()) == Ok::<
            (Seq<T::Model>, nat),
            DecodeError,
        >((m, seq_encoding::<T>(m).unwrap().len())),
    decreases m.len(),
{
    if m.len() > 0 {
        let head = T::encoding(m[0]).unwrap();
        let tail = seq_encoding::<T>(m.skip(1)).unwrap();
        let all = head + tail + rest;
        T::lemma_round_trip(m[0], tail + rest);
        assert(head + (tail + rest) =~= all);
        assert(all.skip(head.len() as int) =~= tail + rest);
        lemma_seq_round_trip::<T>(m.skip(1), rest);
        assert(seq![m[0]] + m.skip(1) =~= m);
    } else {
        assert(m =~= Seq::empty());
    }
}

/// Appends each item of `items` in turn. Where one has no encoding the
/// buffer is left as it was.
pub fn encode_slice<T: Encode>(items: &[T], wtr: &mut BytesMut) -> (r: Result<(), EncodeError>)
    ensures
        match seq_encoding::<T>(seq_model(items@)) {
            Ok(bytes) => r is Ok && buf_bytes(*final(wtr)) == buf_bytes(*old(wtr)) + bytes,
            Err(e) => r == Err::<(), EncodeError>(e) && buf_bytes(*final(wtr)) == buf_bytes(
                *old(wtr),
            ),
        },
{
    let start: usize = buf_len(wtr);
    let ghost m = seq_model(items@);
    let mut i: usize = 0;
    proof {
        assert(m.skip(0) =~= m);
        match seq_encoding::<T>(m) {
            Ok(all) => {
                assert(buf_bytes(*wtr).skip(start as int) + all =~= all);
            },
            Err(_) => {},
        }
    }
    while i < items.len()
        invariant
            i <= items@.len(),
            m == seq_model(items@),
            start == buf_bytes(*old(wtr)).len(),
            buf_bytes(*old(wtr)).is_prefix_of(buf_bytes(*wtr)),
            seq_encoding::<T>(m) == match seq_encoding::<T>(m.skip(i as int)) {
                Ok(tail) => Ok::<Seq<u8>, EncodeError>(
                    buf_bytes(*wtr).skip(start as int) + tail,
                ),
                Err(e) => Err(e),
            },
        decreases items@.len() - i,
    {
        let ghost before = buf_bytes(*wtr);
        proof {
            assert(m.skip(i as int)[0] == items@[i as int].model());
            assert(m.skip(i as int).skip(1) =~= m.skip(i + 1));
        }
        match items[i].encode(wtr) {
            Ok(()) => {
                proof {
                    let head = T::encoding(items@[i as int].model()).unwrap();
                    assert(buf_bytes(*wtr).skip(start as int) =~= before.skip(start as int)
                        + head);
                    match seq_encoding::<T>(m.skip(i + 1)) {
                        Ok(tail) => {
                            assert(before.skip(start as int) + (head + tail) =~= before.skip(
                                start as int,
                            ) + head + tail);
                        },
                        Err(_) => {},
                    }
                }
            },
            Err(e) => {
                buf_truncate(wtr, start);
                proof {
                    assert(before.take(start as int) =~= buf_bytes(*old(wtr)));
                }
                return Err(e);
            },
        }
        i += 1;
    }
    proof {
        assert(m.skip(i as int) =~= Seq::<T::Model>::empty());
        assert(buf_bytes(*wtr) =~= buf_bytes(*old(wtr)) + buf_bytes(*wtr).skip(start as int));
    }
    Ok(())
}

/// Reads `count` items one after another. Where one cannot be read, `rdr`
/// is left as it was.
pub fn decode_seq<'a, T: Decode<'a>>(rdr: &mut &'a [u8], count: usize) -> (r: Result<
    Vec<T>,
    DecodeError,
>)
    ensures
        match seq_parse::<T>(old(rdr)@, count as nat) {
            Ok((m, n)) => r is Ok && seq_model(r.unwrap()@) == m && final(rdr)@ == old(rdr)@.skip(
                n as int,
            ),
            Err(e) => r is Err && r->Err_0 == e && final(rdr)@ == old(rdr)@,
        },
{
    let start: &'a [u8] = *rdr;
    let mut items: Vec<T> = Vec::new();
    let ghost mut used: nat = 0;
    let mut i: usize = 0;
    while i < count
        invariant
            i <= count,
            items@.len() == i,
            start@ == old(rdr)@,
            used <= start@.len(),
            rdr@ == start@.skip(used as int),
            seq_parse::<T>(start@, count as nat) == match seq_parse::<T>(
                rdr@,
                (count - i) as nat,
            ) {
                Ok((tail, k)) => Ok::<(Seq<T::Model>, nat), DecodeError>(
                    (seq_model(items@) + tail, used + k),
                ),
                Err(e) => Err(e),
            },
        decreases count - i,
    {
        let ghost before = rdr@;
        let ghost done = seq_model(items@);
        proof {
            T::lemma_parse_len(before);
        }
        match T::decode(rdr) {
            Ok(item) => {
                proof {
                    let n = T::parse(before).unwrap().1;
                    assert(rdr@ =~= start@.skip((used + n) as int));
                    match seq_parse::<T>(rdr@, (count - i - 1) as nat) {
                        Ok((tail, k)) => {
                            assert(done.push(item.model()) + tail =~= done + (seq![item.model()]
                                + tail));
                        },
                        Err(_) => {},
                    }
                    used = used + n;
                }
                items.push(item);
                proof {
                    assert(seq_model(items@) =~= done.push(item.model()));
                }
            },
            Err(e) => {
                *rdr = start;
                return Err(e);
            },
        }
        i += 1;
    }
    proof {
        assert(seq_model(items@) + Seq::<T::Model>::empty() =~= seq_model(items@));
    }
    Ok(items)
}

impl<'b, T: Wire> Wire for &'b T {
    type Model = T::Model;

    open spec fn model(&self) -> T::Model {
        (**self).model()
    }

    open spec fn encoding(m: T::Model) -> Result<Seq<u8>, EncodeError> {
        T::encoding(m)
    }

    open spec fn parse(s: Seq<u8>) -> Result<(T::Model, nat), DecodeError> {
        T::parse(s)
    }

    open spec fn self_delimiting() -> bool {
        T::self_delimiting()
    }

    open spec fn well_formed() -> bool {
        T::well_formed()
    }

    proof fn lemma_parse_len(s: Seq<u8>) {
        T::lemma_parse_len(s);
    }

    proof fn lemma_round_trip(m: T::Model, rest: Seq<u8>) {
        T::lemma_round_trip(m, rest);
    }
}

impl<'b, T: Encode> Encode for &'b T {
    fn encode(&self, wtr: &mut BytesMut) -> (r: Result<(), EncodeError>) {
        (**self).encode(wtr)
    }
}


impl Wire for () {
    type Model = ();

    open spec fn model(&self) -> () {
        ()
    }

    open spec fn encoding(m: ()) -> Result<Seq<u8>, EncodeError> {
        Ok(Seq::empty())
    }

    open spec fn parse(s: Seq<u8>) -> Result<((), nat), DecodeError> {
        Ok(((), 0))
    }

    open spec fn self_delimiting() -> bool {
        true
    }

    open spec fn well_formed() -> bool {
        true
    }

    proof fn lemma_parse_len(s: Seq<u8>) {
    }

    proof fn lemma_round_trip(m: (), rest: Seq<u8>) {
    }
}

impl Encode for () {
    fn encode(&self, wtr: &mut BytesMut) -> (r: Result<(), EncodeError>) {
        proof {
            assert(buf_bytes(*wtr) + Seq::<u8>::empty() =~= buf_bytes(*wtr));
        }
        Ok(())
    }
}

impl<'a> Decode<'a> for () {
    fn decode(rdr: &mut &'a [u8]) -> (r: Result<Self, DecodeError>) {
        proof {
            assert(rdr@.skip(0) =~= rdr@);
        }
        Ok(())
    }
}

/// The bytes of an optional value: a presence flag, then the value where
/// there is one.
pub open spec fn option_encoding<T: Wire>(m: Option<T::Model>) -> Result<Seq<u8>, EncodeError> {
    match m {
        Some(t) => match T::encoding(t) {
            Ok(bytes) => Ok(seq![1u8] + bytes),
            Err(e) => Err(e),
        },
        None => Ok(seq![0u8]),
    }
}

/// The optional value at the front of `s`. Any flag but zero says that a
/// value follows.
pub open spec fn option_parse<T: Wire>(s: Seq<u8>) -> Result<(Option<T::Model>, nat), DecodeError> {
    if s.len() < 1 {
        Err(DecodeError::UnexpectedEof)
    } else if s[0] == 0 {
        Ok((None, 1))
    } else {
        match T::parse(s.skip(1)) {
            Ok((t, n)) => Ok((Some(t), n + 1)),
            Err(e) => Err(e),
        }
    }
}

impl<T: Wire> Wire for Option<T> {
    type Model = Option<T::Model>;

    open spec fn model(&self) -> Option<T::Model> {
        match self {
            Some(t) => Some(t.model()),
            None => None,
        }
    }

    open spec fn encoding(m: Option<T::Model>) -> Result<Seq<u8>, EncodeError> {
        option_encoding::<T>(m)
    }

    open spec fn parse(s: Seq<u8>) -> Result<(Option<T::Model>, nat), DecodeError> {
        option_parse::<T>(s)
    }

    open spec fn self_delimiting() -> bool {
        T::self_delimiting()
    }

    open spec fn well_formed() -> bool {
        T::well_formed()
    }

    proof fn lemma_parse_len(s: Seq<u8>) {
        if s.len() >= 1 {
            T::lemma_parse_len(s.skip(1));
        }
    }

    proof fn lemma_round_trip(m: Option<T::Model>, rest: Seq<u8>) {
        match m {
            Some(t) => {
                T::lemma_round_trip(t, rest);
                let bytes = T::encoding(t).unwrap();
                assert((seq![1u8] + bytes + rest).skip(1) =~= bytes + rest);
            },
            None => {},
        }
    }
}

impl<T: Encode> Encode for Option<T> {
    fn encode(&self, wtr: &mut BytesMut) -> (r: Result<(), EncodeError>) {
        let start: usize = buf_len(wtr);
        match self {
            Some(t) => {
                let _ = true.encode(wtr);
                match t.encode(wtr) {
                    Ok(()) => {
                        proof {
                            let bytes = T::encoding(t.model()).unwrap();
                            assert(buf_bytes(*old(wtr)) + seq![1u8] + bytes =~= buf_bytes(
                                *old(wtr),
                            ) + (seq![1u8] + bytes));
                        }
                        Ok(())
                    },
                    Err(e) => {
                        buf_truncate(wtr, start);
                        proof {
                            assert((buf_bytes(*old(wtr)) + seq![1u8]).take(start as int)
                                =~= buf_bytes(*old(wtr)));
                        }
                        Err(e)
                    },
                }
            },
            None => false.encode(wtr),
        }
    }
}

impl<'a, T: Decode<'a>> Decode<'a> for Option<T> {
    fn decode(rdr: &mut &'a [u8]) -> (r: Result<Self, DecodeError>) {
        let start: &'a [u8] = *rdr;
        let present: bool = match bool::decode(rdr) {
            Ok(b) => b,
            Err(e) => {
                return Err(e);
            },
        };
        if present {
            proof {
                T::lemma_parse_len(rdr@);
            }
            match T::decode(rdr) {
                Ok(t) => {
                    proof {
                        let n = T::parse(start@.skip(1)).unwrap().1;
                        assert(rdr@ =~= start@.skip((n + 1) as int));
                    }
                    Ok(Some(t))
                },
                Err(e) => {
                    *rdr = start;
                    Err(e)
                },
            }
        } else {
            Ok(None)
        }
    }
}

/// The bytes of a counted sequence: the count as a `VarInt`, then the items.
pub open spec fn counted_encoding<T: Wire>(m: Seq<T::Model>) -> Result<Seq<u8>, EncodeError> {
    if m.len() > i32::MAX {
        Err(EncodeError::SizeExceeded)
    } else {
        match seq_encoding::<T>(m) {
            Ok(items) => Ok(var_int_bytes(m.len() as i32) + items),
            Err(e) => Err(e),
        }
    }
}

/// The counted sequence at the front of `s`. A negative count is refused.
pub open spec fn counted_parse<T: Wire>(s: Seq<u8>) -> Result<(Seq<T::Model>, nat), DecodeError> {
    match var_int_parse(s) {
        Err(e) => Err(e),
        Ok((count, k)) => if count < 0 {
            Err(DecodeError::NegativeLength)
        } else {
            match seq_parse::<T>(s.skip(k as int), count as nat) {
                Ok((items, n)) => Ok((items, k + n)),
                Err(e) => Err(e),
            }
        },
    }
}

/// Reading a counted sequence never takes more bytes than there are.
pub proof fn lemma_counted_parse_len<T: Wire>(s: Seq<u8>)
    ensures
        counted_parse::<T>(s) is Ok ==> counted_parse::<T>(s).unwrap().1 <= s.len(),
{
    VarInt::lemma_parse_len(s);
    if var_int_parse(s) is Ok {
        let (count, k) = var_int_parse(s).unwrap();
        if count >= 0 {
            lemma_seq_parse_len::<T>(s.skip(k as int), count as nat);
        }
    }
}

/// A counted sequence of self-delimiting items reads back as it was written.
pub proof fn lemma_counted_round_trip<T: Wire>(m: Seq<T::Model>, rest: Seq<u8>)
    requires
        T::well_formed(),
        T::self_delimiting(),
        counted_encoding::<T>(m) is Ok,
    ensures
        counted_parse::<T>(counted_encoding::<T>(m).unwrap() + rest) == Ok::<
            (Seq<T::Model>, nat),
            DecodeError,
        >((m, counted_encoding::<T>(m).unwrap().len())),
{
    let count = m.len() as i32;
    let prefix = var_int_bytes(count);
    let items = seq_encoding::<T>(m).unwrap();
    VarInt::lemma_round_trip(count, items + rest);
    assert(prefix + (items + rest) =~= prefix + items + rest);
    assert((prefix + items + rest).skip(prefix.len() as int) =~= items + rest);
    lemma_seq_round_trip::<T>(m, rest);
}

/// Appends the count of `items` and then each item. Where there are more
/// than `i32::MAX` items, or one has no encoding, the buffer is left as it
/// was.
pub fn encode_counted<T: Encode>(items: &[T], wtr: &mut BytesMut) -> (r: Result<(), EncodeError>)
    ensures
        match counted_encoding::<T>(seq_model(items@)) {
            Ok(bytes) => r is Ok && buf_bytes(*final(wtr)) == buf_bytes(*old(wtr)) + bytes,
            Err(e) => r == Err::<(), EncodeError>(e) && buf_bytes(*final(wtr)) == buf_bytes(
                *old(wtr),
            ),
        },
{
    let len: usize = items.len();
    if len > 0x7FFF_FFFF {
        return Err(EncodeError::SizeExceeded);
    }
    let start: usize = buf_len(wtr);
    let _ = VarInt(len as i32).encode(wtr);
    let ghost prefix = var_int_bytes(len as i32);
    match encode_slice(items, wtr) {
        Ok(()) => {
            proof {
                let bytes = seq_encoding::<T>(seq_model(items@)).unwrap();
                assert(buf_bytes(*old(wtr)) + prefix + bytes =~= buf_bytes(*old(wtr)) + (prefix
                    + bytes));
            }
            Ok(())
        },
        Err(e) => {
            buf_truncate(wtr, start);
            proof {
                assert((buf_bytes(*old(wtr)) + prefix).take(start as int) =~= buf_bytes(
                    *old(wtr),
                ));
            }
            Err(e)
        },
    }
}

/// Reads a count and then that many items. Where the count is negative or
/// an item cannot be read, `rdr` is left as it was.
pub fn decode_counted<'a, T: Decode<'a>>(rdr: &mut &'a [u8]) -> (r: Result<Vec<T>, DecodeError>)
    ensures
        match counted_parse::<T>(old(rdr)@) {
            Ok((m, n)) => r is Ok && seq_model(r.unwrap()@) == m && final(rdr)@ == old(rdr)@.skip(
                n as int,
            ),
            Err(e) => r is Err && r->Err_0 == e && final(rdr)@ == old(rdr)@,
        },
{
    let start: &'a [u8] = *rdr;
    let count: i32 = match VarInt::decode(rdr) {
        Ok(v) => v.0,
        Err(e) => {
            return Err(e);
        },
    };
    if count < 0 {
        *rdr = start;
        return Err(DecodeError::NegativeLength);
    }
    proof {
        VarInt::lemma_parse_len(start@);
        lemma_seq_parse_len::<T>(rdr@, count as nat);
    }
    match decode_seq::<T>(rdr, count as usize) {
        Ok(items) => {
            proof {
                let k = var_int_parse(start@).unwrap().1;
                let n = seq_parse::<T>(start@.skip(k as int), count as nat).unwrap().1;
                assert(rdr@ =~= start@.skip((k + n) as int));
            }
            Ok(items)
        },
        Err(e) => {
            *rdr = start;
            Err(e)
        },
    }
}

impl<T: Wire> Wire for Vec<T> {
    type Model = Seq<T::Model>;

    open spec fn model(&self) -> Seq<T::Model> {
        seq_model(self@)
    }

    open spec fn encoding(m: Seq<T::Model>) -> Result<Seq<u8>, EncodeError> {
        counted_encoding::<T>(m)
    }

    open spec fn parse(s: Seq<u8>) -> Result<(Seq<T::Model>, nat), DecodeError> {
        counted_parse::<T>(s)
    }

    open spec fn self_delimiting() -> bool {
        true
    }

    open spec fn well_formed() -> bool {
        T::well_formed() && T::self_delimiting()
    }

    proof fn lemma_parse_len(s: Seq<u8>) {
        lemma_counted_parse_len::<T>(s);
    }

    proof fn lemma_round_trip(m: Seq<T::Model>, rest: Seq<u8>) {
        lemma_counted_round_trip::<T>(m, rest);
    }
}

impl<T: Encode> Encode for Vec<T> {
    fn encode(&self, wtr: &mut BytesMut) -> (r: Result<(), EncodeError>) {
        encode_counted(self.as_slice(), wtr)
    }
}

impl<'a, T: Decode<'a>> Decode<'a> for Vec<T> {
    fn decode(rdr: &mut &'a [u8]) -> (r: Result<Self, DecodeError>) {
        decode_counted::<T>(rdr)
    }
}

/// A sequence that travels with its count in front, as a `Vec` does.
#[derive(Debug, Clone, PartialEq, Eq, PartialOrd, Ord, Hash)]
pub struct LenPrefixed<T>(pub Vec<T>);

impl<T: Wire> Wire for LenPrefixed<T> {
    type Model = Seq<T::Model>;

    open spec fn model(&self) -> Seq<T::Model> {
        seq_model(self.0@)
    }

    open spec fn encoding(m: Seq<T::Model>) -> Result<Seq<u8>, EncodeError> {
        counted_encoding::<T>(m)
    }

    open spec fn parse(s: Seq<u8>) -> Result<(Seq<T::Model>, nat), DecodeError> {
        counted_parse::<T>(s)
    }

    open spec fn self_delimiting() -> bool {
        true
    }

    open spec fn well_formed() -> bool {
        T::well_formed() && T::self_delimiting()
    }

    proof fn lemma_parse_len(s: Seq<u8>) {
        lemma_counted_parse_len::<T>(s);
    }

    proof fn lemma_round_trip(m: Seq<T::Model>, rest: Seq<u8>) {
        lemma_counted_round_trip::<T>(m, rest);
    }
}

impl<T: Encode> Encode for LenPrefixed<T> {
    fn encode(&self, wtr: &mut BytesMut) -> (r: Result<(), EncodeError>) {
        encode_counted(self.0.as_slice(), wtr)
    }
}

impl<'a, T: Decode<'a>> Decode<'a> for LenPrefixed<T> {
    fn decode(rdr: &mut &'a [u8]) -> (r: Result<Self, DecodeError>) {
        match decode_counted::<T>(rdr) {
            Ok(items) => Ok(LenPrefixed(items)),
            Err(e) => Err(e),
        }
    }
}

/// `TryFrom<Vec<T>>` for an array: a vector of exactly `N` items becomes
/// the array of those items; any other vector is refused.
#[verifier::external_body]
fn vec_into_array<T, const N: usize>(items: Vec<T>) -> (r: Option<[T; N]>)
    ensures
        r is Some <==> items@.len() == N,
        r is Some ==> r.unwrap()@ == items@,
{
    <[T; N]>::try_from(items).ok()
}

impl<T: Wire, const N: usize> Wire for [T; N] {
    type Model = Seq<T::Model>;

    open spec fn model(&self) -> Seq<T::Model> {
        seq_model(self@)
    }

    /// Exactly `N` items and no count. A sequence of another length is the
    /// model of no array of this type.
    open spec fn encoding(m: Seq<T::Model>) -> Result<Seq<u8>, EncodeError> {
        if m.len() == N {
            seq_encoding::<T>(m)
        } else {
            Err(EncodeError::SizeExceeded)
        }
    }

    open spec fn parse(s: Seq<u8>) -> Result<(Seq<T::Model>, nat), DecodeError> {
        seq_parse::<T>(s, N as nat)
    }

    open spec fn self_delimiting() -> bool {
        true
    }

    open spec fn well_formed() -> bool {
        T::well_formed() && T::self_delimiting()
    }

    proof fn lemma_parse_len(s: Seq<u8>) {
        lemma_seq_parse_len::<T>(s, N as nat);
    }

    proof fn lemma_round_trip(m: Seq<T::Model>, rest: Seq<u8>) {
        lemma_seq_round_trip::<T>(m, rest);
    }
}

impl<T: Encode, const N: usize> Encode for [T; N] {
    fn encode(&self, wtr: &mut BytesMut) -> (r: Result<(), EncodeError>) {
        proof {
            vstd::array::array_len_matches_n(self);
        }
        encode_slice(self.as_slice(), wtr)
    }
}

impl<'a, T: Decode<'a>, const N: usize> Decode<'a> for [T; N] {
    fn decode(rdr: &mut &'a [u8]) -> (r: Result<Self, DecodeError>) {
        proof {
            lemma_seq_parse_len::<T>(rdr@, N as nat);
        }
        match decode_seq::<T>(rdr, N) {
            Ok(items) => {
                proof {
                    assert(seq_model(items@).len() == items@.len());
                }
                match vec_into_array::<T, N>(items) {
                    Some(array) => Ok(array),
                    None => Err(DecodeError::UnexpectedEof),
                }
            },
            Err(e) => Err(e),
        }
    }
}

/// The bytes of two values, one after the other.
pub open spec fn pair_encoding<A: Wire, B: Wire>(m: (A::Model, B::Model)) -> Result<
    Seq<u8>,
    EncodeError,
> {
    match A::encoding(m.0) {
        Err(e) => Err(e),
        Ok(first) => match B::encoding(m.1) {
            Ok(second) => Ok(first + second),
            Err(e) => Err(e),
        },
    }
}

/// Two values at the front of `s`, one after the other.
pub open spec fn pair_parse<A: Wire, B: Wire>(s: Seq<u8>) -> Result<
    ((A::Model, B::Model), nat),
    DecodeError,
> {
    match A::parse(s) {
        Err(e) => Err(e),
        Ok((a, n)) => match B::parse(s.skip(n as int)) {
            Ok((b, k)) => Ok(((a, b), n + k)),
            Err(e) => Err(e),
        },
    }
}

impl<A: Wire, B: Wire> Wire for (A, B) {
    type Model = (A::Model, B::Model);

    open spec fn model(&self) -> (A::Model, B::Model) {
        (self.0.model(), self.1.model())
    }

    open spec fn encoding(m: (A::Model, B::Model)) -> Result<Seq<u8>, EncodeError> {
        pair_encoding::<A, B>(m)
    }

    open spec fn parse(s: Seq<u8>) -> Result<((A::Model, B::Model), nat), DecodeError> {
        pair_parse::<A, B>(s)
    }

    open spec fn self_delimiting() -> bool {
        B::self_delimiting()
    }

    open spec fn well_formed() -> bool {
        A::well_formed() && A::self_delimiting() && B::well_formed()
    }

    proof fn lemma_parse_len(s: Seq<u8>) {
        A::lemma_parse_len(s);
        if A::parse(s) is Ok {
            B::lemma_parse_len(s.skip(A::parse(s).unwrap().1 as int));
        }
    }

    proof fn lemma_round_trip(m: (A::Model, B::Model), rest: Seq<u8>) {
        let first = A::encoding(m.0).unwrap();
        let second = B::encoding(m.1).unwrap();
        A::lemma_round_trip(m.0, second + rest);
        B::lemma_round_trip(m.1, rest);
        assert(first + (second + rest) =~= first + second + rest);
        assert((first + second + rest).skip(first.len() as int) =~= second + rest);
    }
}

impl<A: Encode, B: Encode> Encode for (A, B) {
    fn encode(&self, wtr: &mut BytesMut) -> (r: Result<(), EncodeError>) {
        let start: usize = buf_len(wtr);
        match self.0.encode(wtr) {
            Ok(()) => {},
            Err(e) => {
                return Err(e);
            },
        }
        match self.1.encode(wtr) {
            Ok(()) => {
                proof {
                    let first = A::encoding(self.0.model()).unwrap();
                    let second = B::encoding(self.1.model()).unwrap();
                    assert(buf_bytes(*old(wtr)) + first + second =~= buf_bytes(*old(wtr)) + (first
                        + second));
                }
                Ok(())
            },
            Err(e) => {
                buf_truncate(wtr, start);
                proof {
                    let first = A::encoding(self.0.model()).unwrap();
                    assert((buf_bytes(*old(wtr)) + first).take(start as int) =~= buf_bytes(
                        *old(wtr),
                    ));
                }
                Err(e)
            },
        }
    }
}

impl<'a, A: Decode<'a>, B: Decode<'a>> Decode<'a> for (A, B) {
    fn decode(rdr: &mut &'a [u8]) -> (r: Result<Self, DecodeError>) {
        let start: &'a [u8] = *rdr;
        proof {
            A::lemma_parse_len(start@);
        }
        let a: A = match A::decode(rdr) {
            Ok(a) => a,
            Err(e) => {
                return Err(e);
            },
        };
        proof {
            B::lemma_parse_len(rdr@);
        }
        match B::decode(rdr) {
            Ok(b) => {
                proof {
                    let n = A::parse(start@).unwrap().1;
                    let k = B::parse(start@.skip(n as int)).unwrap().1;
                    assert(rdr@ =~= start@.skip((n + k) as int));
                }
                Ok((a, b))
            },
            Err(e) => {
                *rdr = start;
                Err(e)
            },
        }
    }
}

impl<A: Wire, B: Wire, C: Wire> Wire for (A, B, C) {
    type Model = (A::Model, B::Model, C::Model);

    open spec fn model(&self) -> (A::Model, B::Model, C::Model) {
        (self.0.model(), self.1.model(), self.2.model())
    }

    open spec fn encoding(m: (A::Model, B::Model, C::Model)) -> Result<Seq<u8>, EncodeError> {
        <(A, (B, C))>::encoding((m.0, (m.1, m.2)))
    }

    open spec fn parse(s: Seq<u8>) -> Result<((A::Model, B::Model, C::Model), nat), DecodeError> {
        match <(A, (B, C))>::parse(s) {
            Ok(((a, (b, c)), n)) => Ok(((a, b, c), n)),
            Err(e) => Err(e),
        }
    }

    open spec fn self_delimiting() -> bool {
        <(A, (B, C))>::self_delimiting()
    }

    open spec fn well_formed() -> bool {
        <(A, (B, C))>::well_formed()
    }

    proof fn lemma_parse_len(s: Seq<u8>) {
        <(A, (B, C))>::lemma_parse_len(s);
    }

    proof fn lemma_round_trip(m: (A::Model, B::Model, C::Model), rest: Seq<u8>) {
        <(A, (B, C))>::lemma_round_trip((m.0, (m.1, m.2)), rest);
    }
}

impl<A: Encode, B: Encode, C: Encode> Encode for (A, B, C) {
    fn encode(&self, wtr: &mut BytesMut) -> (r: Result<(), EncodeError>) {
        (&self.0, (&self.1, &self.2)).encode(wtr)
    }
}

impl<'a, A: Decode<'a>, B: Decode<'a>, C: Decode<'a>> Decode<'a> for (A, B, C) {
    fn decode(rdr: &mut &'a [u8]) -> (r: Result<Self, DecodeError>) {
        match <(A, (B, C))>::decode(rdr) {
            Ok((a, (b, c))) => Ok((a, b, c)),
            Err(e) => Err(e),
        }
    }
}

impl<A: Wire, B: Wire, C: Wire, D: Wire> Wire for (A, B, C, D) {
    type Model = (A::Model, B::Model, C::Model, D::Model);

    open spec fn model(&self) -> (A::Model, B::Model, C::Model, D::Model) {
        (self.0.model(), self.1.model(), self.2.model(), self.3.model())
    }

    open spec fn encoding(m: (A::Model, B::Model, C::Model, D::Model)) -> Result<
        Seq<u8>,
        EncodeError,
    > {
        <(A, (B, (C, D)))>::encoding((m.0, (m.1, (m.2, m.3))))
    }

    open spec fn parse(s: Seq<u8>) -> Result<
        ((A::Model, B::Model, C::Model, D::Model), nat),
        DecodeError,
    > {
        match <(A, (B, (C, D)))>::parse(s) {
            Ok(((a, (b, (c, d))), n)) => Ok(((a, b, c, d), n)),
            Err(e) => Err(e),
        }
    }

    open spec fn self_delimiting() -> bool {
        <(A, (B, (C, D)))>::self_delimiting()
    }

    open spec fn well_formed() -> bool {
        <(A, (B, (C, D)))>::well_formed()
    }

    proof fn lemma_parse_len(s: Seq<u8>) {
        <(A, (B, (C, D)))>::lemma_parse_len(s);
    }

    proof fn lemma_round_trip(m: (A::Model, B::Model, C::Model, D::Model), rest: Seq<u8>) {
        <(A, (B, (C, D)))>::lemma_round_trip((m.0, (m.1, (m.2, m.3))), rest);
    }
}

impl<A: Encode, B: Encode, C: Encode, D: Encode> Encode for (A, B, C, D) {
    fn encode(&self, wtr: &mut BytesMut) -> (r: Result<(), EncodeError>) {
        (&self.0, (&self.1, (&self.2, &self.3))).encode(wtr)
    }
}

impl<'a, A: Decode<'a>, B: Decode<'a>, C: Decode<'a>, D: Decode<'a>> Decode<'a> for (A, B, C, D) {
    fn decode(rdr: &mut &'a [u8]) -> (r: Result<Self, DecodeError>) {
        match <(A, (B, (C, D)))>::decode(rdr) {
            Ok((a, (b, (c, d)))) => Ok((a, b, c, d)),
            Err(e) => Err(e),
        }
    }
}

} // verus!
