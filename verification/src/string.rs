//! Strings: the number of UTF-16 code units as a `VarInt`, then the UTF-8
//! bytes. A bound on a string counts code units too.

use crate::bounded::Bounded;
use crate::buffer::{buf_bytes, put_slice};
use crate::codec::{Decode, Encode, Wire};
use crate::error::{DecodeError, EncodeError};
use crate::varnum::{var_int_bytes, var_int_parse, VarInt};
use bytes::BytesMut;
use vstd::prelude::*;
use vstd::slice::slice_subrange;
use vstd::string::StringSliceAdditionalSpecFns;
use vstd::utf8::{
    char_is_scalar, decode_utf8, encode_scalar, encode_utf8, encode_utf8_decode_utf8,
    encode_utf8_valid_utf8, valid_utf8,
};

verus! {

/// The most code units that a string without a bound of its own may hold.
pub const MAX_STRING_LEN: usize = 32767;

/// The UTF-16 code units that one character takes.
pub open spec fn char_units(c: char) -> nat {
    if (c as u32) < 0x10000 {
        1
    } else {
        2
    }
}

/// The UTF-16 code units that the characters of `chars` take.
pub open spec fn utf16_len(chars: Seq<char>) -> nat
    decreases chars.len(),
{
    if chars.len() == 0 {
        0
    } else {
        char_units(chars[0]) + utf16_len(chars.drop_first())
    }
}

/// The number of bytes in the UTF-8 form of a character, told from its
/// first byte.
pub open spec fn lead_width(b: u8) -> nat {
    if b < 0x80 {
        1
    } else if b < 0xE0 {
        2
    } else if b < 0xF0 {
        3
    } else {
        4
    }
}

/// The UTF-16 code units of a character, told from the first byte of its
/// UTF-8 form.
pub open spec fn lead_units(b: u8) -> nat {
    if b < 0xF0 {
        1
    } else {
        2
    }
}

/// The UTF-16 code units of the characters whose UTF-8 forms make up `s`,
/// going by first bytes alone.
pub open spec fn utf8_units(s: Seq<u8>) -> nat
    decreases s.len(),
{
    if s.len() == 0 {
        0
    } else if lead_width(s[0]) >= s.len() {
        lead_units(s[0])
    } else {
        lead_units(s[0]) + utf8_units(s.skip(lead_width(s[0]) as int))
    }
}

/// The number of bytes at the front of `s` whose characters, going by first
/// bytes alone, take exactly `units` code units.
pub open spec fn units_prefix(s: Seq<u8>, units: nat) -> Result<nat, DecodeError>
    decreases s.len(),
{
    if units == 0 {
        Ok(0)
    } else if s.len() == 0 {
        Err(DecodeError::UnexpectedEof)
    } else if lead_units(s[0]) > units {
        Err(DecodeError::InvalidUtf8)
    } else if lead_width(s[0]) > s.len() {
        Err(DecodeError::UnexpectedEof)
    } else {
        match units_prefix(
            s.skip(lead_width(s[0]) as int),
            (units - lead_units(s[0])) as nat,
        ) {
            Ok(n) => Ok(n + lead_width(s[0])),
            Err(e) => Err(e),
        }
    }
}

proof fn lemma_lead_bytes(c: u32)
    by (bit_vector)
    ensures
        ((c & 0x7F) as u8) < 0x80,
        0xC0 <= (0xC0u8 | ((c >> 6) & 0x1F) as u8) < 0xE0,
        0xE0 <= (0xE0u8 | ((c >> 12) & 0x0F) as u8) < 0xF0,
        0xF0 <= (0xF0u8 | ((c >> 18) & 0x7) as u8),
{
}

/// The UTF-8 form of a character starts with a byte that tells its length
/// and its code units.
proof fn lemma_scalar_lead(c: char)
    ensures
        1 <= encode_scalar(c as u32).len() <= 4,
        lead_width(encode_scalar(c as u32)[0]) == encode_scalar(c as u32).len(),
        lead_units(encode_scalar(c as u32)[0]) == char_units(c),
{
    char_is_scalar(c);
    lemma_lead_bytes(c as u32);
}

/// Counting code units from first bytes gives the count of the characters.
proof fn lemma_utf8_units(chars: Seq<char>)
    ensures
        utf8_units(encode_utf8(chars)) == utf16_len(chars),
        utf16_len(chars) <= encode_utf8(chars).len(),
    decreases chars.len(),
{
    if chars.len() > 0 {
        let head = encode_scalar(chars[0] as u32);
        let tail = encode_utf8(chars.drop_first());
        lemma_scalar_lead(chars[0]);
        lemma_utf8_units(chars.drop_first());
        assert((head + tail)[0] == head[0]);
        assert((head + tail).skip(head.len() as int) =~= tail);
        if tail.len() == 0 {
            assert(chars.drop_first().len() == 0) by {
                if chars.drop_first().len() > 0 {
                    lemma_scalar_lead(chars.drop_first()[0]);
                }
            }
        }
    }
}

/// The code units of a string lead to the end of its UTF-8 form, whatever
/// follows.
proof fn lemma_units_prefix(chars: Seq<char>, rest: Seq<u8>)
    ensures
        units_prefix(encode_utf8(chars) + rest, utf16_len(chars)) == Ok::<nat, DecodeError>(
            encode_utf8(chars).len(),
        ),
    decreases chars.len(),
{
    if chars.len() > 0 {
        let head = encode_scalar(chars[0] as u32);
        let tail = encode_utf8(chars.drop_first());
        lemma_scalar_lead(chars[0]);
        lemma_units_prefix(chars.drop_first(), rest);
        assert((head + tail + rest)[0] == head[0]);
        assert((head + tail + rest).skip(head.len() as int) =~= tail + rest);
    }
}

proof fn lemma_units_prefix_len(s: Seq<u8>, units: nat)
    ensures
        units_prefix(s, units) is Ok ==> units_prefix(s, units).unwrap() <= s.len(),
    decreases s.len(),
{
    if units > 0 && s.len() > 0 && lead_units(s[0]) <= units && lead_width(s[0]) <= s.len() {
        lemma_units_prefix_len(
            s.skip(lead_width(s[0]) as int),
            (units - lead_units(s[0])) as nat,
        );
    }
}

/// The bytes of a string that may hold `max` code units.
pub open spec fn str_encoding(chars: Seq<char>, max: nat) -> Result<Seq<u8>, EncodeError> {
    if utf16_len(chars) > max || utf16_len(chars) > i32::MAX {
        Err(EncodeError::SizeExceeded)
    } else {
        Ok(var_int_bytes(utf16_len(chars) as i32) + encode_utf8(chars))
    }
}

/// The string at the front of `s` that may hold `max` code units.
pub open spec fn str_parse(s: Seq<u8>, max: nat) -> Result<(Seq<char>, nat), DecodeError> {
    match var_int_parse(s) {
        Err(e) => Err(e),
        Ok((count, k)) => if count < 0 {
            Err(DecodeError::NegativeLength)
        } else if count > s.len() - k {
            Err(DecodeError::UnexpectedEof)
        } else {
            match units_prefix(s.skip(k as int), count as nat) {
                Err(e) => Err(e),
                Ok(n) => if !valid_utf8(s.skip(k as int).take(n as int)) {
                    Err(DecodeError::InvalidUtf8)
                } else if count > max {
                    Err(DecodeError::SizeExceeded)
                } else {
                    Ok((decode_utf8(s.skip(k as int).take(n as int)), k + n))
                },
            }
        },
    }
}

/// Reading a string never takes more bytes than there are.
pub proof fn lemma_str_parse_len(s: Seq<u8>, max: nat)
    ensures
        str_parse(s, max) is Ok ==> str_parse(s, max).unwrap().1 <= s.len(),
{
    VarInt::lemma_parse_len(s);
    if var_int_parse(s) is Ok {
        let (count, k) = var_int_parse(s).unwrap();
        if count >= 0 {
            lemma_units_prefix_len(s.skip(k as int), count as nat);
        }
    }
}

/// A string within its bound reads back as it was written, whatever
/// follows it.
pub proof fn lemma_str_round_trip(chars: Seq<char>, max: nat, rest: Seq<u8>)
    requires
        str_encoding(chars, max) is Ok,
    ensures
        str_parse(str_encoding(chars, max).unwrap() + rest, max) == Ok::<
            (Seq<char>, nat),
            DecodeError,
        >((chars, str_encoding(chars, max).unwrap().len())),
{
    let count = utf16_len(chars) as i32;
    let prefix = var_int_bytes(count);
    let body = encode_utf8(chars);
    let all = prefix + body + rest;
    VarInt::lemma_round_trip(count, body + rest);
    assert(prefix + (body + rest) =~= all);
    assert(all.skip(prefix.len() as int) =~= body + rest);
    lemma_utf8_units(chars);
    lemma_units_prefix(chars, rest);
    assert((body + rest).take(body.len() as int) =~= body);
    encode_utf8_valid_utf8(chars);
    encode_utf8_decode_utf8(chars);
}

/// A string one code unit over its bound is refused when it is written
/// and refused when it is read: here it was written under a wider bound.
pub proof fn lemma_str_over_bound(chars: Seq<char>, max: nat, wider: nat, rest: Seq<u8>)
    requires
        utf16_len(chars) > max,
        str_encoding(chars, wider) is Ok,
    ensures
        str_encoding(chars, max) == Err::<Seq<u8>, EncodeError>(EncodeError::SizeExceeded),
        str_parse(str_encoding(chars, wider).unwrap() + rest, max) == Err::<
            (Seq<char>, nat),
            DecodeError,
        >(DecodeError::SizeExceeded),
{
    let count = utf16_len(chars) as i32;
    let prefix = var_int_bytes(count);
    let body = encode_utf8(chars);
    let all = prefix + body + rest;
    VarInt::lemma_round_trip(count, body + rest);
    assert(prefix + (body + rest) =~= all);
    assert(all.skip(prefix.len() as int) =~= body + rest);
    lemma_utf8_units(chars);
    lemma_units_prefix(chars, rest);
    assert((body + rest).take(body.len() as int) =~= body);
    encode_utf8_valid_utf8(chars);
}

/// `std::str::from_utf8`: the string that the bytes spell, where they are
/// UTF-8.
#[verifier::external_body]
pub(crate) fn str_from_utf8<'a>(bytes: &'a [u8]) -> (r: Option<&'a str>)
    ensures
        r is Some <==> valid_utf8(bytes@),
        r is Some ==> r.unwrap().spec_bytes() == bytes@,
{
    std::str::from_utf8(bytes).ok()
}

/// The code units of the UTF-8 bytes in `bytes`, unless there are more than
/// `limit`.
fn count_units(bytes: &[u8], limit: usize) -> (r: Option<usize>)
    requires
        limit <= 0x7FFF_FFFF,
    ensures
        r == if utf8_units(bytes@) <= limit {
            Some(utf8_units(bytes@) as usize)
        } else {
            None::<usize>
        },
{
    let len: usize = bytes.len();
    let mut pos: usize = 0;
    let mut units: usize = 0;
    proof {
        assert(bytes@.skip(0) =~= bytes@);
    }
    while pos < len
        invariant
            len == bytes@.len(),
            pos <= len,
            units <= limit,
            limit <= 0x7FFF_FFFF,
            utf8_units(bytes@) == units + utf8_units(bytes@.skip(pos as int)),
        decreases len - pos,
    {
        let lead: u8 = bytes[pos];
        let width: usize = if lead < 0x80 {
            1
        } else if lead < 0xE0 {
            2
        } else if lead < 0xF0 {
            3
        } else {
            4
        };
        let ghost tail = bytes@.skip(pos as int);
        proof {
            assert(tail[0] == lead);
        }
        units = units + if lead < 0xF0 {
            1
        } else {
            2
        };
        if width >= len - pos {
            pos = len;
            proof {
                assert(utf8_units(bytes@.skip(pos as int)) == 0);
            }
        } else {
            pos = pos + width;
            proof {
                assert(tail.skip(width as int) =~= bytes@.skip(pos as int));
            }
        }
        if units > limit {
            return None;
        }
    }
    Some(units)
}

/// Where the characters that take `units` code units end in `bytes`.
fn find_units_end(bytes: &[u8], units: usize) -> (r: Result<usize, DecodeError>)
    ensures
        match units_prefix(bytes@, units as nat) {
            Ok(n) => r is Ok && r->Ok_0 == n,
            Err(e) => r is Err && r->Err_0 == e,
        },
{
    let len: usize = bytes.len();
    let mut pos: usize = 0;
    let mut left: usize = units;
    proof {
        assert(bytes@.skip(0) =~= bytes@);
    }
    while left > 0
        invariant
            len == bytes@.len(),
            pos <= len,
            left <= units,
            units_prefix(bytes@, units as nat) == match units_prefix(
                bytes@.skip(pos as int),
                left as nat,
            ) {
                Ok(n) => Ok::<nat, DecodeError>((n + pos) as nat),
                Err(e) => Err(e),
            },
        decreases left,
    {
        if pos >= len {
            return Err(DecodeError::UnexpectedEof);
        }
        let lead: u8 = bytes[pos];
        let ghost tail = bytes@.skip(pos as int);
        proof {
            assert(tail[0] == lead);
        }
        let lead_units: usize = if lead < 0xF0 {
            1
        } else {
            2
        };
        if lead_units > left {
            return Err(DecodeError::InvalidUtf8);
        }
        let width: usize = if lead < 0x80 {
            1
        } else if lead < 0xE0 {
            2
        } else if lead < 0xF0 {
            3
        } else {
            4
        };
        if width > len - pos {
            return Err(DecodeError::UnexpectedEof);
        }
        pos = pos + width;
        left = left - lead_units;
        proof {
            assert(tail.skip(width as int) =~= bytes@.skip(pos as int));
        }
    }
    Ok(pos)
}

/// Appends `s` as a string that may hold `max` code units. Where it holds
/// more, the buffer is left as it was.
pub fn encode_str(s: &str, max: usize, wtr: &mut BytesMut) -> (r: Result<(), EncodeError>)
    ensures
        match str_encoding(s@, max as nat) {
            Ok(bytes) => r is Ok && buf_bytes(*final(wtr)) == buf_bytes(*old(wtr)) + bytes,
            Err(e) => r == Err::<(), EncodeError>(e) && buf_bytes(*final(wtr)) == buf_bytes(
                *old(wtr),
            ),
        },
{
    let bytes: &[u8] = s.as_bytes();
    let limit: usize = if max < 0x7FFF_FFFF {
        max
    } else {
        0x7FFF_FFFF
    };
    proof {
        lemma_utf8_units(s@);
    }
    let units: usize = match count_units(bytes, limit) {
        Some(n) => n,
        None => {
            return Err(EncodeError::SizeExceeded);
        },
    };
    let _ = VarInt(units as i32).encode(wtr);
    put_slice(wtr, bytes);
    proof {
        let prefix = var_int_bytes(units as i32);
        assert(buf_bytes(*old(wtr)) + prefix + bytes@ =~= buf_bytes(*old(wtr)) + (prefix
            + bytes@));
    }
    Ok(())
}

/// Reads a string that may hold `max` code units. Where there is none,
/// `rdr` is left as it was.
pub fn decode_str<'a>(rdr: &mut &'a [u8], max: usize) -> (r: Result<&'a str, DecodeError>)
    ensures
        match str_parse(old(rdr)@, max as nat) {
            Ok((m, n)) => r is Ok && r->Ok_0@ == m && final(rdr)@ == old(rdr)@.skip(n as int),
            Err(e) => r is Err && r->Err_0 == e && final(rdr)@ == old(rdr)@,
        },
{
    let start: &'a [u8] = *rdr;
    let count: i32 = match VarInt::decode(rdr) {
        Ok(v) => v.0,
        Err(e) => {
            return Err(e);
        },
    };
    proof {
        VarInt::lemma_parse_len(start@);
    }
    if count < 0 {
        *rdr = start;
        return Err(DecodeError::NegativeLength);
    }
    let units: usize = count as usize;
    let after: &'a [u8] = *rdr;
    if units > after.len() {
        *rdr = start;
        return Err(DecodeError::UnexpectedEof);
    }
    proof {
        lemma_units_prefix_len(after@, units as nat);
    }
    let end: usize = match find_units_end(after, units) {
        Ok(n) => n,
        Err(e) => {
            *rdr = start;
            return Err(e);
        },
    };
    let body: &'a [u8] = slice_subrange(after, 0, end);
    proof {
        assert(body@ =~= after@.take(end as int));
    }
    let text: &'a str = match str_from_utf8(body) {
        Some(text) => text,
        None => {
            *rdr = start;
            return Err(DecodeError::InvalidUtf8);
        },
    };
    if units > max {
        *rdr = start;
        return Err(DecodeError::SizeExceeded);
    }
    *rdr = slice_subrange(after, end, after.len());
    proof {
        let k = var_int_parse(start@).unwrap().1;
        assert(rdr@ =~= start@.skip((k + end) as int));
        encode_utf8_decode_utf8(text@);
    }
    Ok(text)
}


impl<'a> Wire for &'a str {
    type Model = Seq<char>;

    open spec fn model(&self) -> Seq<char> {
        (*self)@
    }

    open spec fn encoding(m: Seq<char>) -> Result<Seq<u8>, EncodeError> {
        str_encoding(m, MAX_STRING_LEN as nat)
    }

    open spec fn parse(s: Seq<u8>) -> Result<(Seq<char>, nat), DecodeError> {
        str_parse(s, MAX_STRING_LEN as nat)
    }

    open spec fn self_delimiting() -> bool {
        true
    }

    open spec fn well_formed() -> bool {
        true
    }

    proof fn lemma_parse_len(s: Seq<u8>) {
        lemma_str_parse_len(s, MAX_STRING_LEN as nat);
    }

    proof fn lemma_round_trip(m: Seq<char>, rest: Seq<u8>) {
        lemma_str_round_trip(m, MAX_STRING_LEN as nat, rest);
    }
}

impl<'a> Encode for &'a str {
    fn encode(&self, wtr: &mut BytesMut) -> (r: Result<(), EncodeError>) {
        encode_str(self, MAX_STRING_LEN, wtr)
    }
}

impl<'a> Decode<'a> for &'a str {
    fn decode(rdr: &mut &'a [u8]) -> (r: Result<Self, DecodeError>) {
        match decode_str(rdr, MAX_STRING_LEN) {
            Ok(text) => Ok(text),
            Err(e) => Err(e),
        }
    }
}

impl Wire for String {
    type Model = Seq<char>;

    open spec fn model(&self) -> Seq<char> {
        self@
    }

    open spec fn encoding(m: Seq<char>) -> Result<Seq<u8>, EncodeError> {
        str_encoding(m, MAX_STRING_LEN as nat)
    }

    open spec fn parse(s: Seq<u8>) -> Result<(Seq<char>, nat), DecodeError> {
        str_parse(s, MAX_STRING_LEN as nat)
    }

    open spec fn self_delimiting() -> bool {
        true
    }

    open spec fn well_formed() -> bool {
        true
    }

    proof fn lemma_parse_len(s: Seq<u8>) {
        lemma_str_parse_len(s, MAX_STRING_LEN as nat);
    }

    proof fn lemma_round_trip(m: Seq<char>, rest: Seq<u8>) {
        lemma_str_round_trip(m, MAX_STRING_LEN as nat, rest);
    }
}

impl Encode for String {
    fn encode(&self, wtr: &mut BytesMut) -> (r: Result<(), EncodeError>) {
        encode_str(self.as_str(), MAX_STRING_LEN, wtr)
    }
}

impl<'a> Decode<'a> for String {
    fn decode(rdr: &mut &'a [u8]) -> (r: Result<Self, DecodeError>) {
        match decode_str(rdr, MAX_STRING_LEN) {
            Ok(text) => Ok(text.to_owned()),
            Err(e) => Err(e),
        }
    }
}

impl<'a, const MAX: usize> Wire for Bounded<&'a str, MAX> {
    type Model = Seq<char>;

    open spec fn model(&self) -> Seq<char> {
        self.0@
    }

    open spec fn encoding(m: Seq<char>) -> Result<Seq<u8>, EncodeError> {
        str_encoding(m, MAX as nat)
    }

    open spec fn parse(s: Seq<u8>) -> Result<(Seq<char>, nat), DecodeError> {
        str_parse(s, MAX as nat)
    }

    open spec fn self_delimiting() -> bool {
        true
    }

    open spec fn well_formed() -> bool {
        true
    }

    proof fn lemma_parse_len(s: Seq<u8>) {
        lemma_str_parse_len(s, MAX as nat);
    }

    proof fn lemma_round_trip(m: Seq<char>, rest: Seq<u8>) {
        lemma_str_round_trip(m, MAX as nat, rest);
    }
}

impl<'a, const MAX: usize> Encode for Bounded<&'a str, MAX> {
    fn encode(&self, wtr: &mut BytesMut) -> (r: Result<(), EncodeError>) {
        encode_str(self.0, MAX, wtr)
    }
}

impl<'a, const MAX: usize> Decode<'a> for Bounded<&'a str, MAX> {
    fn decode(rdr: &mut &'a [u8]) -> (r: Result<Self, DecodeError>) {
        match decode_str(rdr, MAX) {
            Ok(text) => Ok(Bounded(text)),
            Err(e) => Err(e),
        }
    }
}

impl<const MAX: usize> Wire for Bounded<String, MAX> {
    type Model = Seq<char>;

    open spec fn model(&self) -> Seq<char> {
        self.0@
    }

    open spec fn encoding(m: Seq<char>) -> Result<Seq<u8>, EncodeError> {
        str_encoding(m, MAX as nat)
    }

    open spec fn parse(s: Seq<u8>) -> Result<(Seq<char>, nat), DecodeError> {
        str_parse(s, MAX as nat)
    }

    open spec fn self_delimiting() -> bool {
        true
    }

    open spec fn well_formed() -> bool {
        true
    }

    proof fn lemma_parse_len(s: Seq<u8>) {
        lemma_str_parse_len(s, MAX as nat);
    }

    proof fn lemma_round_trip(m: Seq<char>, rest: Seq<u8>) {
        lemma_str_round_trip(m, MAX as nat, rest);
    }
}

impl<const MAX: usize> Encode for Bounded<String, MAX> {
    fn encode(&self, wtr: &mut BytesMut) -> (r: Result<(), EncodeError>) {
        encode_str(self.0.as_str(), MAX, wtr)
    }
}

impl<'a, const MAX: usize> Decode<'a> for Bounded<String, MAX> {
    fn decode(rdr: &mut &'a [u8]) -> (r: Result<Self, DecodeError>) {
        match decode_str(rdr, MAX) {
            Ok(text) => Ok(Bounded(text.to_owned())),
            Err(e) => Err(e),
        }
    }
}

} // verus!
