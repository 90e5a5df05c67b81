//! Named binary tags: a tree of typed values that describes itself on the
//! wire. Lengths and counts are fixed-width here, never `VarInt`s.

use crate::buffer::{
    buf_bytes, buf_len, buf_truncate, bytes_as_slice, bytes_from_vec, frozen_bytes, get_u16, get_u8,
    put_slice, put_u16, put_u32, put_u8,
};
use crate::codec::{Decode, Encode, Wire};
use crate::container::{
    decode_seq, encode_slice, lemma_seq_parse_len, lemma_seq_round_trip, seq_encoding, seq_model,
    seq_parse,
};
use crate::string::str_from_utf8;
use crate::endian::{be_bytes, be_value};
use crate::error::{DecodeError, EncodeError};
use crate::primitive::{lemma_fixed_parse_bound, lemma_fixed_round_trip, Float32, Float64};
use bytes::{Bytes, BytesMut};
use indexmap::IndexMap;
use vstd::prelude::*;
use vstd::slice::{slice_subrange, slice_to_vec};
use vstd::utf8::{decode_utf8, encode_utf8, valid_utf8};

verus! {

/// A tag as mathematics: what a tag holds, apart from how it is stored.
pub enum NbtValue {
    End,
    Byte(i8),
    Short(i16),
    Int(i32),
    Long(i64),
    Float(u32),
    Double(u64),
    ByteArray(Seq<u8>),
    String(Seq<char>),
    List(Seq<NbtValue>),
    Compound(Seq<(Seq<char>, NbtValue)>),
    IntArray(Seq<i32>),
    LongArray(Seq<i64>),
}

/// The id byte of each kind of tag.
pub open spec fn tag_id(v: NbtValue) -> u8 {
    match v {
        NbtValue::End => 0,
        NbtValue::Byte(_) => 1,
        NbtValue::Short(_) => 2,
        NbtValue::Int(_) => 3,
        NbtValue::Long(_) => 4,
        NbtValue::Float(_) => 5,
        NbtValue::Double(_) => 6,
        NbtValue::ByteArray(_) => 7,
        NbtValue::String(_) => 8,
        NbtValue::List(_) => 9,
        NbtValue::Compound(_) => 10,
        NbtValue::IntArray(_) => 11,
        NbtValue::LongArray(_) => 12,
    }
}

/// Whether no two entries share a name.
pub open spec fn distinct_keys(entries: Seq<(Seq<char>, NbtValue)>) -> bool {
    forall|i: int, j: int| 0 <= i < j < entries.len() ==> entries[i].0 != entries[j].0
}

/// Whether every item is of the kind of the first.
pub open spec fn one_kind(items: Seq<NbtValue>) -> bool {
    forall|i: int| 0 <= i < items.len() ==> tag_id(#[trigger] items[i]) == tag_id(items[0])
}

/// The id that a list declares for its items: that of the first, or End
/// for a list without items.
pub open spec fn list_kind(items: Seq<NbtValue>) -> u8 {
    if items.len() == 0 {
        0
    } else {
        tag_id(items[0])
    }
}

/// A name or string on the wire: its length in bytes in 16 bits, then its
/// UTF-8 bytes.
pub open spec fn nbt_string(chars: Seq<char>) -> Result<Seq<u8>, EncodeError> {
    if encode_utf8(chars).len() > 0xFFFF {
        Err(EncodeError::SizeExceeded)
    } else {
        Ok(be_bytes(encode_utf8(chars).len(), 2) + encode_utf8(chars))
    }
}

/// What follows the id byte of a tag.
pub open spec fn nbt_payload(v: NbtValue) -> Result<Seq<u8>, EncodeError>
    decreases v, 0nat,
{
    match v {
        NbtValue::End => Ok(Seq::empty()),
        NbtValue::Byte(x) => Ok(seq![x as u8]),
        NbtValue::Short(x) => Ok(be_bytes((x as u16) as nat, 2)),
        NbtValue::Int(x) => Ok(be_bytes((x as u32) as nat, 4)),
        NbtValue::Long(x) => Ok(be_bytes((x as u64) as nat, 8)),
        NbtValue::Float(bits) => Ok(be_bytes(bits as nat, 4)),
        NbtValue::Double(bits) => Ok(be_bytes(bits as nat, 8)),
        NbtValue::ByteArray(bytes) => if bytes.len() > i32::MAX {
            Err(EncodeError::SizeExceeded)
        } else {
            Ok(be_bytes(bytes.len(), 4) + bytes)
        },
        NbtValue::String(chars) => nbt_string(chars),
        NbtValue::List(items) => if items.len() > i32::MAX {
            Err(EncodeError::SizeExceeded)
        } else if !one_kind(items) {
            Err(EncodeError::MixedList)
        } else {
            match nbt_items(items) {
                Ok(bytes) => Ok(seq![list_kind(items)] + be_bytes(items.len(), 4) + bytes),
                Err(e) => Err(e),
            }
        },
        NbtValue::Compound(entries) => if !distinct_keys(entries) {
            Err(EncodeError::DuplicateKey)
        } else {
            match nbt_entries(entries) {
                Ok(bytes) => Ok(bytes + seq![0u8]),
                Err(e) => Err(e),
            }
        },
        NbtValue::IntArray(ints) => if ints.len() > i32::MAX {
            Err(EncodeError::SizeExceeded)
        } else {
            Ok(be_bytes(ints.len(), 4) + seq_encoding::<i32>(ints).unwrap())
        },
        NbtValue::LongArray(longs) => if longs.len() > i32::MAX {
            Err(EncodeError::SizeExceeded)
        } else {
            Ok(be_bytes(longs.len(), 4) + seq_encoding::<i64>(longs).unwrap())
        },
    }
}

/// The payloads of the items of a list, one after another.
pub open spec fn nbt_items(items: Seq<NbtValue>) -> Result<Seq<u8>, EncodeError>
    decreases items, items.len(),
{
    if items.len() == 0 {
        Ok(Seq::empty())
    } else {
        match nbt_payload(items[0]) {
            Err(e) => Err(e),
            Ok(head) => match nbt_items(items.skip(1)) {
                Ok(tail) => Ok(head + tail),
                Err(e) => Err(e),
            },
        }
    }
}

/// One entry of a compound: the id of its value, its name, the payload of
/// its value. An End tag cannot be the value of an entry.
pub open spec fn nbt_entry(name: Seq<char>, v: NbtValue) -> Result<Seq<u8>, EncodeError>
    decreases v, 1nat,
{
    if v is End {
        Err(EncodeError::EndInCompound)
    } else {
        match nbt_string(name) {
            Err(e) => Err(e),
            Ok(key) => match nbt_payload(v) {
                Ok(bytes) => Ok(seq![tag_id(v)] + key + bytes),
                Err(e) => Err(e),
            },
        }
    }
}

/// The entries of a compound, one after another, without the End tag that
/// closes it.
pub open spec fn nbt_entries(entries: Seq<(Seq<char>, NbtValue)>) -> Result<Seq<u8>, EncodeError>
    decreases entries, entries.len(),
{
    if entries.len() == 0 {
        Ok(Seq::empty())
    } else {
        match nbt_entry(entries[0].0, entries[0].1) {
            Err(e) => Err(e),
            Ok(head) => match nbt_entries(entries.skip(1)) {
                Ok(tail) => Ok(head + tail),
                Err(e) => Err(e),
            },
        }
    }
}

/// A tag on the wire: its id byte, then its payload.
pub open spec fn nbt_encoding(v: NbtValue) -> Result<Seq<u8>, EncodeError> {
    match nbt_payload(v) {
        Ok(bytes) => Ok(seq![tag_id(v)] + bytes),
        Err(e) => Err(e),
    }
}

/// A tag.
#[derive(Debug, PartialEq)]
pub enum NBT {
    End(),
    Byte(i8),
    Short(i16),
    Int(i32),
    Long(i64),
    /// The bits of a single-precision number.
    Float(Float32),
    /// The bits of a double-precision number.
    Double(Float64),
    ByteArray(Bytes),
    String(String),
    List(List),
    Compound(Compound),
    IntArray(Vec<i32>),
    LongArray(Vec<i64>),
}

/// The items of a list tag, in order.
#[derive(Debug, PartialEq)]
pub struct List(pub Vec<NBT>);

/// An `IndexMap` of the `indexmap` crate from names to tags. Nothing inside
/// it is seen here; [`map_entries`] names what it holds.
#[derive(Debug, PartialEq)]
#[verifier::external_body]
pub struct EntryMap {
    inner: IndexMap<String, NBT>,
}

/// The entries of a compound tag, in the order in which their names were
/// first inserted. No two entries share a name.
#[derive(Debug, PartialEq)]
pub struct Compound {
    map: EntryMap,
}

/// The names of the entries that an `EntryMap` holds, each with the value
/// of its tag, in the order in which the map walks them.
pub uninterp spec fn map_entries(m: EntryMap) -> Seq<(Seq<char>, NbtValue)>;

/// The values of a sequence of tags.
pub open spec fn values_of(tags: Seq<NBT>) -> Seq<NbtValue>
    decreases tags, tags.len(),
{
    if tags.len() == 0 {
        Seq::empty()
    } else {
        values_of(tags.drop_last()).push(tags.last().value())
    }
}

impl NBT {
    /// What the tag holds.
    pub open spec fn value(&self) -> NbtValue
        decreases self,
    {
        match self {
            NBT::End() => NbtValue::End,
            NBT::Byte(x) => NbtValue::Byte(*x),
            NBT::Short(x) => NbtValue::Short(*x),
            NBT::Int(x) => NbtValue::Int(*x),
            NBT::Long(x) => NbtValue::Long(*x),
            NBT::Float(x) => NbtValue::Float(x.0),
            NBT::Double(x) => NbtValue::Double(x.0),
            NBT::ByteArray(bytes) => NbtValue::ByteArray(frozen_bytes(*bytes)),
            NBT::String(s) => NbtValue::String(s@),
            NBT::List(list) => NbtValue::List(values_of(list.0@)),
            NBT::Compound(c) => NbtValue::Compound(c@),
            NBT::IntArray(ints) => NbtValue::IntArray(ints@),
            NBT::LongArray(longs) => NbtValue::LongArray(longs@),
        }
    }
}

impl Compound {
    /// The names and values of the entries, in order.
    pub closed spec fn view(&self) -> Seq<(Seq<char>, NbtValue)> {
        map_entries(self.map)
    }

    #[verifier::type_invariant]
    spec fn names_differ(&self) -> bool {
        distinct_keys(self@)
    }
}

/// The values of tags, item by item.
pub proof fn lemma_values_of(tags: Seq<NBT>)
    ensures
        values_of(tags).len() == tags.len(),
        forall|i: int|
            #![trigger values_of(tags)[i]]
            #![trigger tags[i]]
            0 <= i < tags.len() ==> values_of(tags)[i] == tags[i].value(),
    decreases tags.len(),
{
    if tags.len() > 0 {
        lemma_values_of(tags.drop_last());
        assert forall|i: int| 0 <= i < tags.len() implies values_of(tags)[i]
            == tags[i].value() by {
            if i < tags.len() - 1 {
                assert(tags.drop_last()[i] == tags[i]);
            }
        }
    }
}

/// Where the entry named `key` stands, if there is one.
pub open spec fn key_index(entries: Seq<(Seq<char>, NbtValue)>, key: Seq<char>) -> Option<int>
    decreases entries.len(),
{
    if entries.len() == 0 {
        None
    } else if entries.last().0 == key {
        Some(entries.len() - 1)
    } else {
        key_index(entries.drop_last(), key)
    }
}

/// The entries after `key` has been given the value `v`: in the place of
/// the entry of that name, or at the end where no entry had it.
pub open spec fn entries_insert(
    entries: Seq<(Seq<char>, NbtValue)>,
    key: Seq<char>,
    v: NbtValue,
) -> Seq<(Seq<char>, NbtValue)> {
    match key_index(entries, key) {
        Some(i) => entries.update(i, (key, v)),
        None => entries.push((key, v)),
    }
}

/// What `key_index` finds carries the name, and where it finds nothing no
/// entry does.
pub proof fn lemma_key_index(entries: Seq<(Seq<char>, NbtValue)>, key: Seq<char>)
    ensures
        match key_index(entries, key) {
            Some(i) => 0 <= i < entries.len() && entries[i].0 == key,
            None => forall|j: int| 0 <= j < entries.len() ==> (#[trigger] entries[j]).0 != key,
        },
    decreases entries.len(),
{
    if entries.len() > 0 && entries.last().0 != key {
        lemma_key_index(entries.drop_last(), key);
        if key_index(entries, key) is None {
            assert forall|j: int| 0 <= j < entries.len() implies (#[trigger] entries[j]).0
                != key by {
                if j < entries.len() - 1 {
                    assert(entries.drop_last()[j] == entries[j]);
                }
            }
        }
    }
}

/// Where names differ, the entry of a name is where that name is found.
pub proof fn lemma_key_index_at(entries: Seq<(Seq<char>, NbtValue)>, i: int)
    requires
        distinct_keys(entries),
        0 <= i < entries.len(),
    ensures
        key_index(entries, entries[i].0) == Some(i),
{
    lemma_key_index(entries, entries[i].0);
}

/// Inserting keeps names different.
pub proof fn lemma_insert_distinct(entries: Seq<(Seq<char>, NbtValue)>, key: Seq<char>, v: NbtValue)
    requires
        distinct_keys(entries),
    ensures
        distinct_keys(entries_insert(entries, key, v)),
{
    lemma_key_index(entries, key);
}

impl List {
    /// A list without items.
    pub fn new() -> (r: List)
        ensures
            r.0@.len() == 0,
    {
        List(Vec::new())
    }

    /// A list without items, with room for `capacity` of them.
    pub fn with_capacity(capacity: usize) -> (r: List)
        ensures
            r.0@.len() == 0,
    {
        List(Vec::with_capacity(capacity))
    }

    /// Adds `tag` at the end.
    pub fn push(&mut self, tag: NBT)
        ensures
            final(self).0@ == old(self).0@.push(tag),
    {
        self.0.push(tag);
    }

    /// The number of items.
    pub fn len(&self) -> (n: usize)
        ensures
            n == self.0@.len(),
    {
        self.0.len()
    }

    /// Whether there are no items.
    pub fn is_empty(&self) -> (b: bool)
        ensures
            b == (self.0@.len() == 0),
    {
        self.0.len() == 0
    }

    /// The item at `index`, if there is one.
    pub fn get(&self, index: usize) -> (r: Option<&NBT>)
        ensures
            index < self.0@.len() ==> r == Some(&self.0@[index as int]),
            index >= self.0@.len() ==> r is None,
    {
        if index < self.0.len() {
            Some(&self.0[index])
        } else {
            None
        }
    }

    /// The first item, if there is one.
    pub fn first(&self) -> (r: Option<&NBT>)
        ensures
            self.0@.len() > 0 ==> r == Some(&self.0@[0]),
            self.0@.len() == 0 ==> r is None,
    {
        self.get(0)
    }
}

/// `IndexMap::new`: a map without entries.
#[verifier::external_body]
fn map_new() -> (m: EntryMap)
    ensures
        map_entries(m) == Seq::<(Seq<char>, NbtValue)>::empty(),
{
    EntryMap { inner: IndexMap::new() }
}

/// `IndexMap::len`: the number of entries.
#[verifier::external_body]
fn map_len(m: &EntryMap) -> (n: usize)
    ensures
        n == map_entries(*m).len(),
{
    m.inner.len()
}

/// `IndexMap::get_index`: the name and the tag at a place in the order, if
/// the map has that many entries.
#[verifier::external_body]
fn map_get_index(m: &EntryMap, index: usize) -> (r: Option<(&String, &NBT)>)
    ensures
        index < map_entries(*m).len() ==> r is Some && r.unwrap().0@ == map_entries(
            *m,
        )[index as int].0 && r.unwrap().1.value() == map_entries(*m)[index as int].1,
        index >= map_entries(*m).len() ==> r is None,
{
    m.inner.get_index(index)
}

/// `IndexMap::get_index_of`: the place of the entry of a name, if the map
/// has one.
#[verifier::external_body]
fn map_get_index_of(m: &EntryMap, key: &str) -> (r: Option<usize>)
    ensures
        match key_index(map_entries(*m), key@) {
            Some(i) => r is Some && r.unwrap() == i && i < map_entries(*m).len(),
            None => r is None,
        },
{
    m.inner.get_index_of(key)
}

/// `IndexMap::insert`: an entry of the name keeps its name and its place,
/// takes the new tag and hands back the old one; without such an entry
/// the new one goes last.
#[verifier::external_body]
fn map_insert(m: &mut EntryMap, key: String, tag: NBT) -> (r: Option<NBT>)
    ensures
        map_entries(*final(m)) == entries_insert(map_entries(*old(m)), key@, tag.value()),
        match key_index(map_entries(*old(m)), key@) {
            Some(i) => r is Some && r.unwrap().value() == map_entries(*old(m))[i].1,
            None => r is None,
        },
{
    m.inner.insert(key, tag)
}

/// `IndexMap::shift_remove`: the entry of the name leaves and hands back
/// its tag, and the entries behind it move up; without such an entry
/// nothing changes.
#[verifier::external_body]
fn map_shift_remove(m: &mut EntryMap, key: &str) -> (r: Option<NBT>)
    ensures
        match key_index(map_entries(*old(m)), key@) {
            Some(i) => r is Some && r.unwrap().value() == map_entries(*old(m))[i].1
                && map_entries(*final(m)) == map_entries(*old(m)).remove(i),
            None => r is None && map_entries(*final(m)) == map_entries(*old(m)),
        },
{
    m.inner.shift_remove(key)
}

/// `Clone` for `IndexMap`: a map of its own with the same entries in the
/// same order.
#[verifier::external_body]
fn map_clone(m: &EntryMap) -> (r: EntryMap)
    ensures
        map_entries(r) == map_entries(*m),
{
    EntryMap { inner: m.inner.clone() }
}

impl Compound {
    /// A compound without entries.
    pub fn new() -> (r: Compound)
        ensures
            r@.len() == 0,
    {
        Compound { map: map_new() }
    }

    /// The number of entries.
    pub fn len(&self) -> (n: usize)
        ensures
            n == self@.len(),
    {
        map_len(&self.map)
    }

    /// Whether there are no entries.
    pub fn is_empty(&self) -> (b: bool)
        ensures
            b == (self@.len() == 0),
    {
        self.len() == 0
    }

    /// Whether an entry is named `key`.
    pub fn contains_key(&self, key: &str) -> (b: bool)
        ensures
            b == key_index(self@, key@) is Some,
    {
        map_get_index_of(&self.map, key).is_some()
    }

    /// The value of the entry named `key`, if there is one.
    pub fn get(&self, key: &str) -> (r: Option<&NBT>)
        ensures
            match key_index(self@, key@) {
                Some(i) => r is Some && r.unwrap().value() == self@[i].1,
                None => r is None,
            },
    {
        match map_get_index_of(&self.map, key) {
            Some(i) => match map_get_index(&self.map, i) {
                Some(entry) => Some(entry.1),
                None => None,
            },
            None => None,
        }
    }

    /// The name and the value of the entry at `index`, if there is one.
    pub fn get_index(&self, index: usize) -> (r: Option<(&str, &NBT)>)
        ensures
            index < self@.len() ==> r is Some && r.unwrap().0@ == self@[index as int].0
                && r.unwrap().1.value() == self@[index as int].1,
            index >= self@.len() ==> r is None,
    {
        match map_get_index(&self.map, index) {
            Some(entry) => Some((entry.0.as_str(), entry.1)),
            None => None,
        }
    }

    /// Takes the entry named `key` out, if there is one, and hands back its
    /// value. The entries behind it move up.
    pub fn remove(&mut self, key: &str) -> (r: Option<NBT>)
        ensures
            match key_index(old(self)@, key@) {
                Some(i) => r is Some && r.unwrap().value() == old(self)@[i].1 && final(self)@
                    == old(self)@.remove(i),
                None => r is None && final(self)@ == old(self)@,
            },
    {
        proof {
            use_type_invariant(&*self);
            lemma_key_index(self@, key@);
        }
        let mut map: EntryMap = map_new();
        std::mem::swap(&mut map, &mut self.map);
        let taken: Option<NBT> = map_shift_remove(&mut map, key);
        self.map = map;
        taken
    }

    /// Gives the entry named `key` the value `tag`. An entry of that name
    /// keeps its place and hands back the value it had; otherwise the
    /// entry goes to the end.
    pub fn insert(&mut self, key: String, tag: NBT) -> (r: Option<NBT>)
        ensures
            final(self)@ == entries_insert(old(self)@, key@, tag.value()),
            match key_index(old(self)@, key@) {
                Some(i) => r is Some && r.unwrap().value() == old(self)@[i].1,
                None => r is None,
            },
    {
        proof {
            use_type_invariant(&*self);
            lemma_insert_distinct(self@, key@, tag.value());
        }
        let mut map: EntryMap = map_new();
        std::mem::swap(&mut map, &mut self.map);
        let replaced: Option<NBT> = map_insert(&mut map, key, tag);
        self.map = map;
        replaced
    }
}

/// A copy of each tag of `tags`.
fn copy_items(tags: &Vec<NBT>) -> (r: Vec<NBT>)
    ensures
        values_of(r@) == values_of(tags@),
    decreases tags,
{
    let mut copies: Vec<NBT> = Vec::new();
    let mut i: usize = 0;
    proof {
        lemma_values_of(tags@);
    }
    while i < tags.len()
        invariant
            i <= tags@.len(),
            copies@.len() == i,
            forall|j: int| 0 <= j < i ==> (#[trigger] copies@[j]).value() == tags@[j].value(),
        decreases tags@.len() - i,
    {
        proof {
            vstd::std_specs::vec::axiom_vec_index_decreases(*tags, i as int);
        }
        let copy: NBT = tags[i].copy();
        copies.push(copy);
        i += 1;
    }
    proof {
        lemma_values_of(copies@);
        assert(values_of(copies@) =~= values_of(tags@));
    }
    copies
}

impl NBT {
    /// A tag of its own that holds the same value.
    pub fn copy(&self) -> (r: NBT)
        ensures
            r.value() == self.value(),
        decreases self,
    {
        match self {
            NBT::End() => NBT::End(),
            NBT::Byte(x) => NBT::Byte(*x),
            NBT::Short(x) => NBT::Short(*x),
            NBT::Int(x) => NBT::Int(*x),
            NBT::Long(x) => NBT::Long(*x),
            NBT::Float(x) => NBT::Float(*x),
            NBT::Double(x) => NBT::Double(*x),
            NBT::ByteArray(bytes) => NBT::ByteArray(bytes.clone()),
            NBT::String(s) => NBT::String(s.clone()),
            NBT::List(list) => NBT::List(List(copy_items(&list.0))),
            NBT::Compound(c) => NBT::Compound(c.clone()),
            NBT::IntArray(ints) => NBT::IntArray(slice_to_vec(ints.as_slice())),
            NBT::LongArray(longs) => NBT::LongArray(slice_to_vec(longs.as_slice())),
        }
    }
}

impl Clone for NBT {
    fn clone(&self) -> (r: NBT)
        ensures
            r.value() == self.value(),
    {
        self.copy()
    }
}

impl Clone for List {
    fn clone(&self) -> (r: List)
        ensures
            values_of(r.0@) == values_of(self.0@),
    {
        List(copy_items(&self.0))
    }
}

impl Clone for Compound {
    fn clone(&self) -> (r: Compound)
        ensures
            r@ == self@,
    {
        proof {
            use_type_invariant(self);
        }
        Compound { map: map_clone(&self.map) }
    }
}

/// A sequence of plain integers always has an encoding.
proof fn lemma_ints_total(ints: Seq<i32>)
    ensures
        seq_encoding::<i32>(ints) is Ok,
    decreases ints.len(),
{
    if ints.len() > 0 {
        lemma_ints_total(ints.skip(1));
    }
}

proof fn lemma_longs_total(longs: Seq<i64>)
    ensures
        seq_encoding::<i64>(longs) is Ok,
    decreases longs.len(),
{
    if longs.len() > 0 {
        lemma_longs_total(longs.skip(1));
    }
}

/// Appends a name or string: its length in bytes in 16 bits, then its
/// bytes. Where it is longer than 65535 bytes the buffer is left as it was.
fn encode_nbt_string(s: &str, wtr: &mut BytesMut) -> (r: Result<(), EncodeError>)
    ensures
        match nbt_string(s@) {
            Ok(bytes) => r is Ok && buf_bytes(*final(wtr)) == buf_bytes(*old(wtr)) + bytes,
            Err(e) => r == Err::<(), EncodeError>(e) && buf_bytes(*final(wtr)) == buf_bytes(
                *old(wtr),
            ),
        },
{
    let bytes: &[u8] = s.as_bytes();
    if bytes.len() > 0xFFFF {
        return Err(EncodeError::SizeExceeded);
    }
    put_u16(wtr, bytes.len() as u16);
    put_slice(wtr, bytes);
    proof {
        let prefix = be_bytes(bytes@.len(), 2);
        assert(buf_bytes(*old(wtr)) + prefix + bytes@ =~= buf_bytes(*old(wtr)) + (prefix
            + bytes@));
    }
    Ok(())
}

/// Whether every tag is of the kind of the first.
fn all_one_kind(items: &Vec<NBT>) -> (r: bool)
    ensures
        r == one_kind(values_of(items@)),
{
    proof {
        lemma_values_of(items@);
    }
    if items.len() == 0 {
        return true;
    }
    let kind: u8 = items[0].id();
    let mut i: usize = 1;
    while i < items.len()
        invariant
            1 <= i <= items@.len(),
            kind == tag_id(values_of(items@)[0]),
            values_of(items@).len() == items@.len(),
            forall|j: int|
                #![trigger values_of(items@)[j]]
                0 <= j < items@.len() ==> values_of(items@)[j] == items@[j].value(),
            forall|j: int| 0 <= j < i ==> tag_id(#[trigger] values_of(items@)[j]) == kind,
        decreases items@.len() - i,
    {
        if items[i].id() != kind {
            proof {
                assert(tag_id(values_of(items@)[i as int]) != kind);
            }
            return false;
        }
        i += 1;
    }
    true
}

/// Appends the payloads of `items`, one after another.
fn encode_items(items: &Vec<NBT>, wtr: &mut BytesMut) -> (r: Result<(), EncodeError>)
    ensures
        match nbt_items(values_of(items@)) {
            Ok(bytes) => r is Ok && buf_bytes(*final(wtr)) == buf_bytes(*old(wtr)) + bytes,
            Err(e) => r == Err::<(), EncodeError>(e) && buf_bytes(*final(wtr)) == buf_bytes(
                *old(wtr),
            ),
        },
    decreases values_of(items@), 0nat,
{
    let start: usize = buf_len(wtr);
    let ghost vals = values_of(items@);
    let mut i: usize = 0;
    proof {
        lemma_values_of(items@);
        assert(vals.skip(0) =~= vals);
        match nbt_items(vals) {
            Ok(all) => {
                assert(buf_bytes(*wtr).skip(start as int) + all =~= all);
            },
            Err(_) => {},
        }
    }
    while i < items.len()
        invariant
            i <= items@.len(),
            vals == values_of(items@),
            vals.len() == items@.len(),
            forall|j: int|
                #![trigger vals[j]]
                0 <= j < items@.len() ==> vals[j] == items@[j].value(),
            start == buf_bytes(*old(wtr)).len(),
            buf_bytes(*old(wtr)).is_prefix_of(buf_bytes(*wtr)),
            nbt_items(vals) == match nbt_items(vals.skip(i as int)) {
                Ok(tail) => Ok::<Seq<u8>, EncodeError>(
                    buf_bytes(*wtr).skip(start as int) + tail,
                ),
                Err(e) => Err(e),
            },
        decreases items@.len() - i,
    {
        let ghost before = buf_bytes(*wtr);
        proof {
            assert(vals.skip(i as int)[0] == vals[i as int]);
            assert(vals.skip(i as int).skip(1) =~= vals.skip(i + 1));
            assert(decreases_to!(vals => vals[i as int]));
        }
        match items[i].encode_payload(wtr) {
            Ok(()) => {
                proof {
                    let head = nbt_payload(vals[i as int]).unwrap();
                    assert(buf_bytes(*wtr).skip(start as int) =~= before.skip(start as int)
                        + head);
                    match nbt_items(vals.skip(i + 1)) {
                        Ok(tail) => {
                            assert(before.skip(start as int) + (head + tail) =~= before.skip(
                                start as int,
                            ) + head + tail);
                        },
                        Err(_) => {},
                    }
                }
            },
            Err(e) => {
                buf_truncate(wtr, start);
                proof {
                    assert(before.take(start as int) =~= buf_bytes(*old(wtr)));
                }
                return Err(e);
            },
        }
        i += 1;
    }
    proof {
        assert(vals.skip(i as int) =~= Seq::<NbtValue>::empty());
        assert(buf_bytes(*wtr) =~= buf_bytes(*old(wtr)) + buf_bytes(*wtr).skip(start as int));
    }
    Ok(())
}

/// Appends one entry of a compound.
fn encode_entry(name: &str, tag: &NBT, wtr: &mut BytesMut) -> (r: Result<(), EncodeError>)
    ensures
        match nbt_entry(name@, tag.value()) {
            Ok(bytes) => r is Ok && buf_bytes(*final(wtr)) == buf_bytes(*old(wtr)) + bytes,
            Err(e) => r == Err::<(), EncodeError>(e) && buf_bytes(*final(wtr)) == buf_bytes(
                *old(wtr),
            ),
        },
    decreases tag.value(), 1nat,
{
    let start: usize = buf_len(wtr);
    let id: u8 = tag.id();
    if id == 0 {
        return Err(EncodeError::EndInCompound);
    }
    put_u8(wtr, id);
    match encode_nbt_string(name, wtr) {
        Ok(()) => {},
        Err(e) => {
            buf_truncate(wtr, start);
            proof {
                assert(buf_bytes(*old(wtr)).push(id).take(start as int) =~= buf_bytes(*old(wtr)));
            }
            return Err(e);
        },
    }
    let ghost key = nbt_string(name@).unwrap();
    match tag.encode_payload(wtr) {
        Ok(()) => {
            proof {
                let bytes = nbt_payload(tag.value()).unwrap();
                assert(buf_bytes(*old(wtr)).push(id) + key + bytes =~= buf_bytes(*old(wtr)) + (
                seq![id] + key + bytes));
            }
            Ok(())
        },
        Err(e) => {
            buf_truncate(wtr, start);
            proof {
                assert((buf_bytes(*old(wtr)).push(id) + key).take(start as int) =~= buf_bytes(
                    *old(wtr),
                ));
            }
            Err(e)
        },
    }
}

/// Appends the entries of a compound, one after another.
fn encode_entries(c: &Compound, wtr: &mut BytesMut) -> (r: Result<(), EncodeError>)
    ensures
        match nbt_entries(c@) {
            Ok(bytes) => r is Ok && buf_bytes(*final(wtr)) == buf_bytes(*old(wtr)) + bytes,
            Err(e) => r == Err::<(), EncodeError>(e) && buf_bytes(*final(wtr)) == buf_bytes(
                *old(wtr),
            ),
        },
    decreases c@, 0nat,
{
    let start: usize = buf_len(wtr);
    let ghost vals = c@;
    let len: usize = c.len();
    let mut i: usize = 0;
    proof {
        assert(vals.skip(0) =~= vals);
        match nbt_entries(vals) {
            Ok(all) => {
                assert(buf_bytes(*wtr).skip(start as int) + all =~= all);
            },
            Err(_) => {},
        }
    }
    while i < len
        invariant
            i <= len,
            vals == c@,
            len == vals.len(),
            start == buf_bytes(*old(wtr)).len(),
            buf_bytes(*old(wtr)).is_prefix_of(buf_bytes(*wtr)),
            nbt_entries(vals) == match nbt_entries(vals.skip(i as int)) {
                Ok(tail) => Ok::<Seq<u8>, EncodeError>(
                    buf_bytes(*wtr).skip(start as int) + tail,
                ),
                Err(e) => Err(e),
            },
        decreases len - i,
    {
        let ghost before = buf_bytes(*wtr);
        proof {
            assert(vals.skip(i as int)[0] == vals[i as int]);
            assert(vals.skip(i as int).skip(1) =~= vals.skip(i + 1));
        }
        let (name, tag) = match c.get_index(i) {
            Some(entry) => entry,
            None => {
                return Ok(());
            },
        };
        proof {
            assert(decreases_to!(vals => vals[i as int]));
            assert(decreases_to!(vals[i as int] => vals[i as int].1));
        }
        match encode_entry(name, tag, wtr) {
            Ok(()) => {
                proof {
                    let head = nbt_entry(vals[i as int].0, vals[i as int].1).unwrap();
                    assert(buf_bytes(*wtr).skip(start as int) =~= before.skip(start as int)
                        + head);
                    match nbt_entries(vals.skip(i + 1)) {
                        Ok(tail) => {
                            assert(before.skip(start as int) + (head + tail) =~= before.skip(
                                start as int,
                            ) + head + tail);
                        },
                        Err(_) => {},
                    }
                }
            },
            Err(e) => {
                buf_truncate(wtr, start);
                proof {
                    assert(before.take(start as int) =~= buf_bytes(*old(wtr)));
                }
                return Err(e);
            },
        }
        i += 1;
    }
    proof {
        assert(vals.skip(i as int) =~= Seq::<(Seq<char>, NbtValue)>::empty());
        assert(buf_bytes(*wtr) =~= buf_bytes(*old(wtr)) + buf_bytes(*wtr).skip(start as int));
    }
    Ok(())
}

impl NBT {
    /// The id byte of the tag's kind.
    pub fn id(&self) -> (r: u8)
        ensures
            r == tag_id(self.value()),
    {
        match self {
            NBT::End() => 0,
            NBT::Byte(_) => 1,
            NBT::Short(_) => 2,
            NBT::Int(_) => 3,
            NBT::Long(_) => 4,
            NBT::Float(_) => 5,
            NBT::Double(_) => 6,
            NBT::ByteArray(_) => 7,
            NBT::String(_) => 8,
            NBT::List(_) => 9,
            NBT::Compound(_) => 10,
            NBT::IntArray(_) => 11,
            NBT::LongArray(_) => 12,
        }
    }

    /// Appends what follows the id byte of the tag. Where the tag has no
    /// encoding the buffer is left as it was.
    pub fn encode_payload(&self, wtr: &mut BytesMut) -> (r: Result<(), EncodeError>)
        ensures
            match nbt_payload(self.value()) {
                Ok(bytes) => r is Ok && buf_bytes(*final(wtr)) == buf_bytes(*old(wtr)) + bytes,
                Err(e) => r == Err::<(), EncodeError>(e) && buf_bytes(*final(wtr)) == buf_bytes(
                    *old(wtr),
                ),
            },
        decreases self.value(), 0nat,
    {
        let start: usize = buf_len(wtr);
        match self {
            NBT::End() => {
                proof {
                    assert(buf_bytes(*wtr) + Seq::<u8>::empty() =~= buf_bytes(*wtr));
                }
                Ok(())
            },
            NBT::Byte(x) => x.encode(wtr),
            NBT::Short(x) => x.encode(wtr),
            NBT::Int(x) => x.encode(wtr),
            NBT::Long(x) => x.encode(wtr),
            NBT::Float(x) => x.encode(wtr),
            NBT::Double(x) => x.encode(wtr),
            NBT::ByteArray(data) => {
                let bytes: &[u8] = bytes_as_slice(data);
                if bytes.len() > 0x7FFF_FFFF {
                    return Err(EncodeError::SizeExceeded);
                }
                put_u32(wtr, bytes.len() as u32);
                put_slice(wtr, bytes);
                proof {
                    let prefix = be_bytes(bytes@.len(), 4);
                    assert(buf_bytes(*old(wtr)) + prefix + bytes@ =~= buf_bytes(*old(wtr)) + (
                    prefix + bytes@));
                }
                Ok(())
            },
            NBT::String(s) => encode_nbt_string(s.as_str(), wtr),
            NBT::List(list) => {
                proof {
                    lemma_values_of(list.0@);
                }
                if list.0.len() > 0x7FFF_FFFF {
                    return Err(EncodeError::SizeExceeded);
                }
                if !all_one_kind(&list.0) {
                    return Err(EncodeError::MixedList);
                }
                let kind: u8 = if list.0.len() == 0 {
                    0
                } else {
                    list.0[0].id()
                };
                put_u8(wtr, kind);
                put_u32(wtr, list.0.len() as u32);
                let ghost head = seq![kind] + be_bytes(list.0@.len(), 4);
                match encode_items(&list.0, wtr) {
                    Ok(()) => {
                        proof {
                            let bytes = nbt_items(values_of(list.0@)).unwrap();
                            assert(buf_bytes(*old(wtr)).push(kind) + be_bytes(list.0@.len(), 4)
                                + bytes =~= buf_bytes(*old(wtr)) + (head + bytes));
                        }
                        Ok(())
                    },
                    Err(e) => {
                        buf_truncate(wtr, start);
                        proof {
                            assert((buf_bytes(*old(wtr)).push(kind) + be_bytes(
                                list.0@.len(),
                                4,
                            )).take(start as int) =~= buf_bytes(*old(wtr)));
                        }
                        Err(e)
                    },
                }
            },
            NBT::Compound(c) => {
                proof {
                    use_type_invariant(c);
                }
                match encode_entries(c, wtr) {
                    Ok(()) => {
                        put_u8(wtr, 0);
                        proof {
                            let bytes = nbt_entries(c@).unwrap();
                            assert((buf_bytes(*old(wtr)) + bytes).push(0u8) =~= buf_bytes(
                                *old(wtr),
                            ) + (bytes + seq![0u8]));
                        }
                        Ok(())
                    },
                    Err(e) => Err(e),
                }
            },
            NBT::IntArray(ints) => {
                if ints.len() > 0x7FFF_FFFF {
                    return Err(EncodeError::SizeExceeded);
                }
                proof {
                    lemma_ints_total(ints@);
                    assert(seq_model(ints@) =~= ints@);
                }
                put_u32(wtr, ints.len() as u32);
                let _ = encode_slice(ints.as_slice(), wtr);
                proof {
                    let prefix = be_bytes(ints@.len(), 4);
                    let bytes = seq_encoding::<i32>(ints@).unwrap();
                    assert(buf_bytes(*old(wtr)) + prefix + bytes =~= buf_bytes(*old(wtr)) + (
                    prefix + bytes));
                }
                Ok(())
            },
            NBT::LongArray(longs) => {
                if longs.len() > 0x7FFF_FFFF {
                    return Err(EncodeError::SizeExceeded);
                }
                proof {
                    lemma_longs_total(longs@);
                    assert(seq_model(longs@) =~= longs@);
                }
                put_u32(wtr, longs.len() as u32);
                let _ = encode_slice(longs.as_slice(), wtr);
                proof {
                    let prefix = be_bytes(longs@.len(), 4);
                    let bytes = seq_encoding::<i64>(longs@).unwrap();
                    assert(buf_bytes(*old(wtr)) + prefix + bytes =~= buf_bytes(*old(wtr)) + (
                    prefix + bytes));
                }
                Ok(())
            },
        }
    }
}


/// The name or string at the front of `s`.
pub open spec fn nbt_parse_string(s: Seq<u8>) -> Result<(Seq<char>, nat), DecodeError> {
    if s.len() < 2 {
        Err(DecodeError::UnexpectedEof)
    } else if s.len() - 2 < be_value(s.take(2)) {
        Err(DecodeError::UnexpectedEof)
    } else if !valid_utf8(s.subrange(2, 2 + be_value(s.take(2)) as int)) {
        Err(DecodeError::InvalidUtf8)
    } else {
        Ok((decode_utf8(s.subrange(2, 2 + be_value(s.take(2)) as int)), 2 + be_value(s.take(2))))
    }
}

/// The byte array at the front of `s`: a length in 32 bits, then the bytes.
pub open spec fn nbt_parse_bytes(s: Seq<u8>) -> Result<(Seq<u8>, nat), DecodeError> {
    match i32::parse(s) {
        Err(e) => Err(e),
        Ok((len, _)) => if len < 0 {
            Err(DecodeError::NegativeLength)
        } else if s.len() - 4 < len {
            Err(DecodeError::UnexpectedEof)
        } else {
            Ok((s.subrange(4, 4 + len), (4 + len) as nat))
        },
    }
}

/// The payload of a tag of kind `id` at the front of `s`.
pub open spec fn nbt_parse_payload(s: Seq<u8>, id: u8) -> Result<(NbtValue, nat), DecodeError>
    decreases s.len(), 2nat, 0nat,
{
    if id == 0 {
        Ok((NbtValue::End, 0))
    } else if id == 1 {
        match i8::parse(s) {
            Ok((x, n)) => Ok((NbtValue::Byte(x), n)),
            Err(e) => Err(e),
        }
    } else if id == 2 {
        match i16::parse(s) {
            Ok((x, n)) => Ok((NbtValue::Short(x), n)),
            Err(e) => Err(e),
        }
    } else if id == 3 {
        match i32::parse(s) {
            Ok((x, n)) => Ok((NbtValue::Int(x), n)),
            Err(e) => Err(e),
        }
    } else if id == 4 {
        match i64::parse(s) {
            Ok((x, n)) => Ok((NbtValue::Long(x), n)),
            Err(e) => Err(e),
        }
    } else if id == 5 {
        match u32::parse(s) {
            Ok((x, n)) => Ok((NbtValue::Float(x), n)),
            Err(e) => Err(e),
        }
    } else if id == 6 {
        match u64::parse(s) {
            Ok((x, n)) => Ok((NbtValue::Double(x), n)),
            Err(e) => Err(e),
        }
    } else if id == 7 {
        match nbt_parse_bytes(s) {
            Ok((bytes, n)) => Ok((NbtValue::ByteArray(bytes), n)),
            Err(e) => Err(e),
        }
    } else if id == 8 {
        match nbt_parse_string(s) {
            Ok((chars, n)) => Ok((NbtValue::String(chars), n)),
            Err(e) => Err(e),
        }
    } else if id == 9 {
        if s.len() < 5 {
            Err(DecodeError::UnexpectedEof)
        } else {
            match i32::parse(s.skip(1)) {
                Err(e) => Err(e),
                Ok((count, _)) => if count <= 0 {
                    Ok((NbtValue::List(Seq::empty()), 5))
                } else {
                    match nbt_parse_items(s.skip(5), s[0], count as nat) {
                        Ok((items, n)) => Ok((NbtValue::List(items), 5 + n)),
                        Err(e) => Err(e),
                    }
                },
            }
        }
    } else if id == 10 {
        match nbt_parse_entries(s, Seq::empty()) {
            Ok((entries, n)) => Ok((NbtValue::Compound(entries), n)),
            Err(e) => Err(e),
        }
    } else if id == 11 {
        match i32::parse(s) {
            Err(e) => Err(e),
            Ok((len, _)) => if len < 0 {
                Err(DecodeError::NegativeLength)
            } else {
                match seq_parse::<i32>(s.skip(4), len as nat) {
                    Ok((ints, n)) => Ok((NbtValue::IntArray(ints), 4 + n)),
                    Err(e) => Err(e),
                }
            },
        }
    } else if id == 12 {
        match i32::parse(s) {
            Err(e) => Err(e),
            Ok((len, _)) => if len < 0 {
                Err(DecodeError::NegativeLength)
            } else {
                match seq_parse::<i64>(s.skip(4), len as nat) {
                    Ok((longs, n)) => Ok((NbtValue::LongArray(longs), 4 + n)),
                    Err(e) => Err(e),
                }
            },
        }
    } else {
        Err(DecodeError::UnknownTag)
    }
}

/// The payloads of `count` tags of kind `id` at the front of `s`.
pub open spec fn nbt_parse_items(s: Seq<u8>, id: u8, count: nat) -> Result<
    (Seq<NbtValue>, nat),
    DecodeError,
>
    decreases s.len(), 3nat, count,
{
    if count == 0 {
        Ok((Seq::empty(), 0))
    } else {
        match nbt_parse_payload(s, id) {
            Err(e) => Err(e),
            Ok((head, n)) => if n > s.len() {
                Err(DecodeError::UnexpectedEof)
            } else {
                match nbt_parse_items(s.skip(n as int), id, (count - 1) as nat) {
                    Ok((tail, k)) => Ok((seq![head] + tail, n + k)),
                    Err(e) => Err(e),
                }
            },
        }
    }
}

/// The entries at the front of `s`, inserted one by one into `acc`, up to
/// the End tag that closes the compound or to the end of the input.
pub open spec fn nbt_parse_entries(s: Seq<u8>, acc: Seq<(Seq<char>, NbtValue)>) -> Result<
    (Seq<(Seq<char>, NbtValue)>, nat),
    DecodeError,
>
    decreases s.len(), 1nat, 0nat,
{
    if s.len() == 0 {
        Ok((acc, 0))
    } else if s[0] == 0 {
        Ok((acc, 1))
    } else {
        match nbt_parse_string(s.skip(1)) {
            Err(e) => Err(e),
            Ok((name, k)) => if 1 + k > s.len() {
                Err(DecodeError::UnexpectedEof)
            } else {
                match nbt_parse_payload(s.skip((1 + k) as int), s[0]) {
                    Err(e) => Err(e),
                    Ok((v, n)) => if 1 + k + n > s.len() {
                        Err(DecodeError::UnexpectedEof)
                    } else {
                        match nbt_parse_entries(
                            s.skip((1 + k + n) as int),
                            entries_insert(acc, name, v),
                        ) {
                            Ok((all, m)) => Ok((all, 1 + k + n + m)),
                            Err(e) => Err(e),
                        }
                    },
                }
            },
        }
    }
}

/// The tag at the front of `s`: an id byte, then the payload of that kind.
pub open spec fn nbt_parse(s: Seq<u8>) -> Result<(NbtValue, nat), DecodeError> {
    if s.len() < 1 {
        Err(DecodeError::UnexpectedEof)
    } else {
        match nbt_parse_payload(s.skip(1), s[0]) {
            Ok((v, n)) => Ok((v, n + 1)),
            Err(e) => Err(e),
        }
    }
}


/// Reading a payload never takes more bytes than there are.
pub proof fn lemma_nbt_parse_payload_len(s: Seq<u8>, id: u8)
    ensures
        nbt_parse_payload(s, id) is Ok ==> nbt_parse_payload(s, id).unwrap().1 <= s.len(),
    decreases s.len(), 2nat, 0nat,
{
    if id == 9 {
        if s.len() >= 5 {
            let count = i32::parse(s.skip(1)).unwrap().0;
            if count > 0 {
                lemma_nbt_parse_items_len(s.skip(5), s[0], count as nat);
            }
        }
    } else if id == 10 {
        lemma_nbt_parse_entries_len(s, Seq::empty());
    } else if id == 11 {
        if i32::parse(s) is Ok && i32::parse(s).unwrap().0 >= 0 {
            lemma_seq_parse_len::<i32>(s.skip(4), i32::parse(s).unwrap().0 as nat);
        }
    } else if id == 12 {
        if i32::parse(s) is Ok && i32::parse(s).unwrap().0 >= 0 {
            lemma_seq_parse_len::<i64>(s.skip(4), i32::parse(s).unwrap().0 as nat);
        }
    }
}

/// Reading the items of a list never takes more bytes than there are, and
/// gives as many items as the list declares.
pub proof fn lemma_nbt_parse_items_len(s: Seq<u8>, id: u8, count: nat)
    ensures
        nbt_parse_items(s, id, count) is Ok ==> nbt_parse_items(s, id, count).unwrap().1
            <= s.len() && nbt_parse_items(s, id, count).unwrap().0.len() == count,
    decreases s.len(), 3nat, count,
{
    if count > 0 {
        lemma_nbt_parse_payload_len(s, id);
        if nbt_parse_payload(s, id) is Ok {
            let n = nbt_parse_payload(s, id).unwrap().1;
            lemma_nbt_parse_items_len(s.skip(n as int), id, (count - 1) as nat);
        }
    }
}

/// Reading the entries of a compound never takes more bytes than there
/// are.
pub proof fn lemma_nbt_parse_entries_len(s: Seq<u8>, acc: Seq<(Seq<char>, NbtValue)>)
    ensures
        nbt_parse_entries(s, acc) is Ok ==> nbt_parse_entries(s, acc).unwrap().1 <= s.len(),
    decreases s.len(), 1nat, 0nat,
{
    if s.len() > 0 && s[0] != 0 {
        if nbt_parse_string(s.skip(1)) is Ok {
            let (name, k) = nbt_parse_string(s.skip(1)).unwrap();
            if 1 + k <= s.len() {
                let t = s.skip((1 + k) as int);
                lemma_nbt_parse_payload_len(t, s[0]);
                if nbt_parse_payload(t, s[0]) is Ok {
                    let (v, n) = nbt_parse_payload(t, s[0]).unwrap();
                    lemma_nbt_parse_entries_len(
                        s.skip((1 + k + n) as int),
                        entries_insert(acc, name, v),
                    );
                }
            }
        }
    }
}

/// Reads a name or string. Where there is none, `rdr` is left as it was.
fn decode_nbt_string(rdr: &mut &[u8]) -> (r: Result<String, DecodeError>)
    ensures
        match nbt_parse_string(old(rdr)@) {
            Ok((chars, n)) => r is Ok && r->Ok_0@ == chars && final(rdr)@ == old(rdr)@.skip(
                n as int,
            ),
            Err(e) => r is Err && r->Err_0 == e && final(rdr)@ == old(rdr)@,
        },
{
    let start: &[u8] = *rdr;
    if start.len() < 2 {
        return Err(DecodeError::UnexpectedEof);
    }
    proof {
        lemma_fixed_parse_bound(start@, 2);
    }
    let len: usize = get_u16(rdr) as usize;
    let after: &[u8] = *rdr;
    if after.len() < len {
        *rdr = start;
        return Err(DecodeError::UnexpectedEof);
    }
    let body: &[u8] = slice_subrange(after, 0, len);
    proof {
        assert(body@ =~= start@.subrange(2, 2 + len));
    }
    let text: &str = match str_from_utf8(body) {
        Some(text) => text,
        None => {
            *rdr = start;
            return Err(DecodeError::InvalidUtf8);
        },
    };
    *rdr = slice_subrange(after, len, after.len());
    proof {
        assert(rdr@ =~= start@.skip(2 + len));
        vstd::utf8::encode_utf8_decode_utf8(text@);
    }
    Ok(text.to_owned())
}

/// Reads a byte array. Where there is none, `rdr` is left as it was.
fn decode_nbt_bytes(rdr: &mut &[u8]) -> (r: Result<Vec<u8>, DecodeError>)
    ensures
        match nbt_parse_bytes(old(rdr)@) {
            Ok((bytes, n)) => r is Ok && r->Ok_0@ == bytes && final(rdr)@ == old(rdr)@.skip(
                n as int,
            ),
            Err(e) => r is Err && r->Err_0 == e && final(rdr)@ == old(rdr)@,
        },
{
    let start: &[u8] = *rdr;
    let len: i32 = match i32::decode(rdr) {
        Ok(len) => len,
        Err(e) => {
            return Err(e);
        },
    };
    if len < 0 {
        *rdr = start;
        return Err(DecodeError::NegativeLength);
    }
    let after: &[u8] = *rdr;
    if after.len() < len as usize {
        *rdr = start;
        return Err(DecodeError::UnexpectedEof);
    }
    let bytes: Vec<u8> = slice_to_vec(slice_subrange(after, 0, len as usize));
    *rdr = slice_subrange(after, len as usize, after.len());
    proof {
        assert(bytes@ =~= start@.subrange(4, 4 + len));
        assert(rdr@ =~= start@.skip(4 + len));
    }
    Ok(bytes)
}

/// Reads the payloads of `count` tags of kind `id`. Where one cannot be
/// read, `rdr` is left as it was.
fn decode_items(rdr: &mut &[u8], id: u8, count: usize) -> (r: Result<Vec<NBT>, DecodeError>)
    ensures
        match nbt_parse_items(old(rdr)@, id, count as nat) {
            Ok((items, n)) => r is Ok && values_of(r->Ok_0@) == items && final(rdr)@ == old(
                rdr,
            )@.skip(n as int),
            Err(e) => r is Err && r->Err_0 == e && final(rdr)@ == old(rdr)@,
        },
    decreases old(rdr)@.len(), 5nat,
{
    let start: &[u8] = *rdr;
    let mut items: Vec<NBT> = Vec::new();
    let ghost mut used: nat = 0;
    let mut i: usize = 0;
    proof {
        assert(start@.skip(0) =~= start@);
        assert(values_of(items@) =~= Seq::<NbtValue>::empty());
        match nbt_parse_items(start@, id, count as nat) {
            Ok((all, n)) => {
                assert(values_of(items@) + all =~= all);
            },
            Err(_) => {},
        }
    }
    while i < count
        invariant
            i <= count,
            items@.len() == i,
            start@ == old(rdr)@,
            used <= start@.len(),
            rdr@ == start@.skip(used as int),
            nbt_parse_items(start@, id, count as nat) == match nbt_parse_items(
                rdr@,
                id,
                (count - i) as nat,
            ) {
                Ok((tail, k)) => Ok::<(Seq<NbtValue>, nat), DecodeError>(
                    (values_of(items@) + tail, used + k),
                ),
                Err(e) => Err(e),
            },
        decreases count - i,
    {
        let ghost before = rdr@;
        let ghost done = values_of(items@);
        proof {
            lemma_nbt_parse_payload_len(before, id);
        }
        match NBT::decode_payload(rdr, id) {
            Ok(item) => {
                proof {
                    let n = nbt_parse_payload(before, id).unwrap().1;
                    assert(rdr@ =~= start@.skip((used + n) as int));
                    match nbt_parse_items(rdr@, id, (count - i - 1) as nat) {
                        Ok((tail, k)) => {
                            assert(done.push(item.value()) + tail =~= done + (seq![item.value()]
                                + tail));
                        },
                        Err(_) => {},
                    }
                    used = used + n;
                }
                let ghost earlier = items@;
                items.push(item);
                proof {
                    assert(items@.drop_last() =~= earlier);
                    assert(values_of(items@) == done.push(item.value()));
                }
            },
            Err(e) => {
                *rdr = start;
                return Err(e);
            },
        }
        i += 1;
    }
    proof {
        assert(values_of(items@) + Seq::<NbtValue>::empty() =~= values_of(items@));
    }
    Ok(items)
}

/// Reads the items of a list. Where there is none, `rdr` is left as it was.
fn decode_list(rdr: &mut &[u8]) -> (r: Result<Vec<NBT>, DecodeError>)
    ensures
        match nbt_parse_payload(old(rdr)@, 9) {
            Ok((v, n)) => r is Ok && NbtValue::List(values_of(r->Ok_0@)) == v && final(rdr)@
                == old(rdr)@.skip(n as int),
            Err(e) => r is Err && r->Err_0 == e && final(rdr)@ == old(rdr)@,
        },
    decreases old(rdr)@.len(), 3nat,
{
    let start: &[u8] = *rdr;
    if start.len() < 5 {
        return Err(DecodeError::UnexpectedEof);
    }
    let kind: u8 = get_u8(rdr);
    let count: i32 = match i32::decode(rdr) {
        Ok(count) => count,
        Err(e) => {
            *rdr = start;
            return Err(e);
        },
    };
    proof {
        assert(rdr@ =~= start@.skip(5));
    }
    if count <= 0 {
        let items: Vec<NBT> = Vec::new();
        proof {
            assert(values_of(items@) =~= Seq::<NbtValue>::empty());
        }
        return Ok(items);
    }
    proof {
        lemma_nbt_parse_items_len(rdr@, kind, count as nat);
    }
    match decode_items(rdr, kind, count as usize) {
        Ok(items) => {
            proof {
                let n = nbt_parse_items(start@.skip(5), kind, count as nat).unwrap().1;
                assert(rdr@ =~= start@.skip((5 + n) as int));
            }
            Ok(items)
        },
        Err(e) => {
            *rdr = start;
            Err(e)
        },
    }
}

/// Reads an array of 32-bit integers: a count in 32 bits, then the
/// integers. Where there is none, `rdr` is left as it was.
fn decode_int_array(rdr: &mut &[u8]) -> (r: Result<Vec<i32>, DecodeError>)
    ensures
        match nbt_parse_payload(old(rdr)@, 11) {
            Ok((v, n)) => r is Ok && NbtValue::IntArray(r->Ok_0@) == v && final(rdr)@ == old(
                rdr,
            )@.skip(n as int),
            Err(e) => r is Err && r->Err_0 == e && final(rdr)@ == old(rdr)@,
        },
{
    let start: &[u8] = *rdr;
    let len: i32 = match i32::decode(rdr) {
        Ok(len) => len,
        Err(e) => {
            return Err(e);
        },
    };
    if len < 0 {
        *rdr = start;
        return Err(DecodeError::NegativeLength);
    }
    proof {
        lemma_seq_parse_len::<i32>(rdr@, len as nat);
    }
    match decode_seq::<i32>(rdr, len as usize) {
        Ok(ints) => {
            proof {
                let n = seq_parse::<i32>(start@.skip(4), len as nat).unwrap().1;
                assert(rdr@ =~= start@.skip((4 + n) as int));
                assert(seq_model(ints@) =~= ints@);
            }
            Ok(ints)
        },
        Err(e) => {
            *rdr = start;
            Err(e)
        },
    }
}

/// Reads an array of 64-bit integers: a count in 32 bits, then the
/// integers. Where there is none, `rdr` is left as it was.
fn decode_long_array(rdr: &mut &[u8]) -> (r: Result<Vec<i64>, DecodeError>)
    ensures
        match nbt_parse_payload(old(rdr)@, 12) {
            Ok((v, n)) => r is Ok && NbtValue::LongArray(r->Ok_0@) == v && final(rdr)@ == old(
                rdr,
            )@.skip(n as int),
            Err(e) => r is Err && r->Err_0 == e && final(rdr)@ == old(rdr)@,
        },
{
    let start: &[u8] = *rdr;
    let len: i32 = match i32::decode(rdr) {
        Ok(len) => len,
        Err(e) => {
            return Err(e);
        },
    };
    if len < 0 {
        *rdr = start;
        return Err(DecodeError::NegativeLength);
    }
    proof {
        lemma_seq_parse_len::<i64>(rdr@, len as nat);
    }
    match decode_seq::<i64>(rdr, len as usize) {
        Ok(longs) => {
            proof {
                let n = seq_parse::<i64>(start@.skip(4), len as nat).unwrap().1;
                assert(rdr@ =~= start@.skip((4 + n) as int));
                assert(seq_model(longs@) =~= longs@);
            }
            Ok(longs)
        },
        Err(e) => {
            *rdr = start;
            Err(e)
        },
    }
}

/// Reads the entries of a compound up to the End tag that closes it or to
/// the end of the input. Where an entry cannot be read, `rdr` is left as
/// it was.
fn decode_entries(rdr: &mut &[u8]) -> (r: Result<Compound, DecodeError>)
    ensures
        match nbt_parse_entries(old(rdr)@, Seq::empty()) {
            Ok((entries, n)) => r is Ok && r->Ok_0@ == entries && final(rdr)@ == old(rdr)@.skip(
                n as int,
            ),
            Err(e) => r is Err && r->Err_0 == e && final(rdr)@ == old(rdr)@,
        },
    decreases old(rdr)@.len(), 1nat,
{
    let start: &[u8] = *rdr;
    let mut map: Compound = Compound::new();
    let ghost mut used: nat = 0;
    proof {
        assert(start@.skip(0) =~= start@);
        assert(map@ =~= Seq::<(Seq<char>, NbtValue)>::empty());
    }
    loop
        invariant
            start@ == old(rdr)@,
            used <= start@.len(),
            rdr@ == start@.skip(used as int),
            nbt_parse_entries(start@, Seq::empty()) == match nbt_parse_entries(rdr@, map@) {
                Ok((all, m)) => Ok::<(Seq<(Seq<char>, NbtValue)>, nat), DecodeError>(
                    (all, used + m),
                ),
                Err(e) => Err(e),
            },
        decreases rdr@.len(),
    {
        let here: &[u8] = *rdr;
        if here.len() == 0 {
            proof {
                assert(rdr@ =~= start@.skip((used + 0) as int));
            }
            return Ok(map);
        }
        let id: u8 = get_u8(rdr);
        if id == 0 {
            proof {
                assert(rdr@ =~= start@.skip((used + 1) as int));
            }
            return Ok(map);
        }
        let name: String = match decode_nbt_string(rdr) {
            Ok(name) => name,
            Err(e) => {
                *rdr = start;
                return Err(e);
            },
        };
        let ghost k = nbt_parse_string(here@.skip(1)).unwrap().1;
        proof {
            assert(rdr@ =~= here@.skip((1 + k) as int));
            lemma_nbt_parse_payload_len(rdr@, id);
        }
        let tag: NBT = match NBT::decode_payload(rdr, id) {
            Ok(tag) => tag,
            Err(e) => {
                *rdr = start;
                return Err(e);
            },
        };
        proof {
            let n = nbt_parse_payload(here@.skip((1 + k) as int), id).unwrap().1;
            assert(rdr@ =~= here@.skip((1 + k + n) as int));
            assert(rdr@ =~= start@.skip((used + 1 + k + n) as int));
            used = used + 1 + k + n;
        }
        map.insert(name, tag);
    }
}

impl NBT {
    /// Reads what follows the id byte of a tag of kind `id`. Where there is
    /// no such payload, `rdr` is left as it was.
    #[verifier::rlimit(40)]
    pub fn decode_payload(rdr: &mut &[u8], id: u8) -> (r: Result<NBT, DecodeError>)
        ensures
            match nbt_parse_payload(old(rdr)@, id) {
                Ok((v, n)) => r is Ok && r->Ok_0.value() == v && final(rdr)@ == old(rdr)@.skip(
                    n as int,
                ),
                Err(e) => r is Err && r->Err_0 == e && final(rdr)@ == old(rdr)@,
            },
        decreases old(rdr)@.len(), 4nat,
    {
        let start: &[u8] = *rdr;
        match id {
            0 => {
                proof {
                    assert(rdr@.skip(0) =~= rdr@);
                }
                Ok(NBT::End())
            },
            1 => match i8::decode(rdr) {
                Ok(x) => Ok(NBT::Byte(x)),
                Err(e) => Err(e),
            },
            2 => match i16::decode(rdr) {
                Ok(x) => Ok(NBT::Short(x)),
                Err(e) => Err(e),
            },
            3 => match i32::decode(rdr) {
                Ok(x) => Ok(NBT::Int(x)),
                Err(e) => Err(e),
            },
            4 => match i64::decode(rdr) {
                Ok(x) => Ok(NBT::Long(x)),
                Err(e) => Err(e),
            },
            5 => match Float32::decode(rdr) {
                Ok(x) => Ok(NBT::Float(x)),
                Err(e) => Err(e),
            },
            6 => match Float64::decode(rdr) {
                Ok(x) => Ok(NBT::Double(x)),
                Err(e) => Err(e),
            },
            7 => match decode_nbt_bytes(rdr) {
                Ok(bytes) => Ok(NBT::ByteArray(bytes_from_vec(bytes))),
                Err(e) => Err(e),
            },
            8 => match decode_nbt_string(rdr) {
                Ok(s) => Ok(NBT::String(s)),
                Err(e) => Err(e),
            },
            9 => match decode_list(rdr) {
                Ok(items) => Ok(NBT::List(List(items))),
                Err(e) => Err(e),
            },
            10 => match decode_entries(rdr) {
                Ok(map) => Ok(NBT::Compound(map)),
                Err(e) => Err(e),
            },
            11 => match decode_int_array(rdr) {
                Ok(ints) => Ok(NBT::IntArray(ints)),
                Err(e) => Err(e),
            },
            12 => match decode_long_array(rdr) {
                Ok(longs) => Ok(NBT::LongArray(longs)),
                Err(e) => Err(e),
            },
            _ => Err(DecodeError::UnknownTag),
        }
    }
}


/// A name or string reads back as it was written, whatever follows it.
pub proof fn lemma_nbt_string_round_trip(chars: Seq<char>, rest: Seq<u8>)
    requires
        nbt_string(chars) is Ok,
    ensures
        nbt_parse_string(nbt_string(chars).unwrap() + rest) == Ok::<(Seq<char>, nat), DecodeError>(
            (chars, nbt_string(chars).unwrap().len()),
        ),
{
    let body = encode_utf8(chars);
    let prefix = be_bytes(body.len(), 2);
    let all = prefix + body + rest;
    lemma_fixed_round_trip(body.len(), 2, body + rest);
    assert(prefix + (body + rest) =~= all);
    assert(all.subrange(2, 2 + body.len() as int) =~= body);
    vstd::utf8::encode_utf8_valid_utf8(chars);
    vstd::utf8::encode_utf8_decode_utf8(chars);
}

/// A length that fits in 31 bits, written in 32, reads back as itself.
proof fn lemma_length_round_trip(len: nat, rest: Seq<u8>)
    requires
        len <= i32::MAX,
    ensures
        be_bytes(len, 4).len() == 4,
        i32::parse(be_bytes(len, 4) + rest) == Ok::<(i32, nat), DecodeError>((len as i32, 4)),
{
    lemma_fixed_round_trip(len, 4, rest);
    let bits = len as u32;
    assert(bits as i32 == bits) by (bit_vector)
        requires
            bits <= 0x7FFF_FFFF,
    ;
}

/// The payload of a tag reads back as the tag, whatever follows it.
pub proof fn lemma_nbt_payload_round_trip(v: NbtValue, rest: Seq<u8>)
    requires
        nbt_payload(v) is Ok,
    ensures
        nbt_parse_payload(nbt_payload(v).unwrap() + rest, tag_id(v)) == Ok::<
            (NbtValue, nat),
            DecodeError,
        >((v, nbt_payload(v).unwrap().len())),
    decreases v, 0nat,
{
    let bytes = nbt_payload(v).unwrap();
    let all = bytes + rest;
    match v {
        NbtValue::End => {},
        NbtValue::Byte(x) => {
            i8::lemma_round_trip(x, rest);
        },
        NbtValue::Short(x) => {
            i16::lemma_round_trip(x, rest);
        },
        NbtValue::Int(x) => {
            i32::lemma_round_trip(x, rest);
        },
        NbtValue::Long(x) => {
            i64::lemma_round_trip(x, rest);
        },
        NbtValue::Float(x) => {
            u32::lemma_round_trip(x, rest);
        },
        NbtValue::Double(x) => {
            u64::lemma_round_trip(x, rest);
        },
        NbtValue::ByteArray(data) => {
            let prefix = be_bytes(data.len(), 4);
            lemma_length_round_trip(data.len(), data + rest);
            assert(prefix + (data + rest) =~= all);
            assert(all.subrange(4, 4 + data.len() as int) =~= data);
        },
        NbtValue::String(chars) => {
            lemma_nbt_string_round_trip(chars, rest);
        },
        NbtValue::List(items) => {
            let kind = list_kind(items);
            let prefix = be_bytes(items.len(), 4);
            let body = nbt_items(items).unwrap();
            lemma_length_round_trip(items.len(), body + rest);
            assert(all =~= seq![kind] + (prefix + (body + rest)));
            assert(all.skip(1) =~= prefix + (body + rest));
            assert(all.skip(5) =~= body + rest);
            assert(all[0] == kind);
            if items.len() == 0 {
                assert(items =~= Seq::<NbtValue>::empty());
                assert(body.len() == 0);
            } else {
                lemma_nbt_items_round_trip(items, kind, rest);
            }
        },
        NbtValue::Compound(entries) => {
            let body = nbt_entries(entries).unwrap();
            assert(Seq::<(Seq<char>, NbtValue)>::empty() + entries =~= entries);
            lemma_nbt_entries_round_trip(entries, Seq::empty(), rest);
            assert(body + seq![0u8] + rest =~= all);
        },
        NbtValue::IntArray(ints) => {
            let prefix = be_bytes(ints.len(), 4);
            let body = seq_encoding::<i32>(ints).unwrap();
            lemma_ints_total(ints);
            lemma_length_round_trip(ints.len(), body + rest);
            assert(prefix + (body + rest) =~= all);
            assert(all.skip(4) =~= body + rest);
            lemma_seq_round_trip::<i32>(ints, rest);
        },
        NbtValue::LongArray(longs) => {
            let prefix = be_bytes(longs.len(), 4);
            let body = seq_encoding::<i64>(longs).unwrap();
            lemma_longs_total(longs);
            lemma_length_round_trip(longs.len(), body + rest);
            assert(prefix + (body + rest) =~= all);
            assert(all.skip(4) =~= body + rest);
            lemma_seq_round_trip::<i64>(longs, rest);
        },
    }
}

/// The payloads of tags of one kind read back as those tags.
pub proof fn lemma_nbt_items_round_trip(items: Seq<NbtValue>, kind: u8, rest: Seq<u8>)
    requires
        nbt_items(items) is Ok,
        forall|i: int| 0 <= i < items.len() ==> tag_id(#[trigger] items[i]) == kind,
    ensures
        nbt_parse_items(nbt_items(items).unwrap() + rest, kind, items.len()) == Ok::<
            (Seq<NbtValue>, nat),
            DecodeError,
        >((items, nbt_items(items).unwrap().len())),
    decreases items, items.len(),
{
    if items.len() > 0 {
        let head = nbt_payload(items[0]).unwrap();
        let tail = nbt_items(items.skip(1)).unwrap();
        let all = head + tail + rest;
        lemma_nbt_payload_round_trip(items[0], tail + rest);
        assert(head + (tail + rest) =~= all);
        assert(all.skip(head.len() as int) =~= tail + rest);
        assert forall|i: int| 0 <= i < items.skip(1).len() implies tag_id(
            #[trigger] items.skip(1)[i],
        ) == kind by {
            assert(items.skip(1)[i] == items[i + 1]);
        }
        lemma_nbt_items_round_trip(items.skip(1), kind, rest);
        assert(seq![items[0]] + items.skip(1) =~= items);
    } else {
        assert(items =~= Seq::<NbtValue>::empty());
    }
}

/// The first of the entries that follow `acc` has a name that `acc` lacks.
proof fn lemma_fresh_key(acc: Seq<(Seq<char>, NbtValue)>, entries: Seq<(Seq<char>, NbtValue)>)
    requires
        distinct_keys(acc + entries),
        entries.len() > 0,
    ensures
        key_index(acc, entries[0].0) is None,
        acc.push(entries[0]) + entries.skip(1) == acc + entries,
{
    let name = entries[0].0;
    lemma_key_index(acc, name);
    if key_index(acc, name) is Some {
        let i = key_index(acc, name).unwrap();
        assert((acc + entries)[i] == acc[i]);
        assert((acc + entries)[acc.len() as int] == entries[0]);
    }
    assert(acc.push(entries[0]) + entries.skip(1) =~= acc + entries);
}

/// One entry with a new name, read from the front of the input, joins the
/// entries read before it, and reading goes on behind it.
proof fn lemma_nbt_entry_step(
    name: Seq<char>,
    v: NbtValue,
    acc: Seq<(Seq<char>, NbtValue)>,
    after: Seq<u8>,
)
    requires
        nbt_entry(name, v) is Ok,
        key_index(acc, name) is None,
    ensures
        nbt_parse_entries(nbt_entry(name, v).unwrap() + after, acc) == match nbt_parse_entries(
            after,
            acc.push((name, v)),
        ) {
            Ok((all, m)) => Ok::<(Seq<(Seq<char>, NbtValue)>, nat), DecodeError>(
                (all, nbt_entry(name, v).unwrap().len() + m),
            ),
            Err(e) => Err(e),
        },
    decreases v, 1nat,
{
    let id = tag_id(v);
    let key = nbt_string(name).unwrap();
    let body = nbt_payload(v).unwrap();
    let s = nbt_entry(name, v).unwrap() + after;
    assert(s =~= seq![id] + (key + (body + after)));
    assert(s[0] == id);
    assert(s.skip(1) =~= key + (body + after));
    lemma_nbt_string_round_trip(name, body + after);
    assert(s.skip((1 + key.len()) as int) =~= body + after);
    lemma_nbt_payload_round_trip(v, after);
    assert(s.skip((1 + key.len() + body.len()) as int) =~= after);
    assert(entries_insert(acc, name, v) == acc.push((name, v)));
}

/// Entries whose names differ from each other and from those already read
/// are read back, after those, as they were written.
pub proof fn lemma_nbt_entries_round_trip(
    entries: Seq<(Seq<char>, NbtValue)>,
    acc: Seq<(Seq<char>, NbtValue)>,
    rest: Seq<u8>,
)
    requires
        nbt_entries(entries) is Ok,
        distinct_keys(acc + entries),
    ensures
        nbt_parse_entries(nbt_entries(entries).unwrap() + seq![0u8] + rest, acc) == Ok::<
            (Seq<(Seq<char>, NbtValue)>, nat),
            DecodeError,
        >((acc + entries, nbt_entries(entries).unwrap().len() + 1)),
    decreases entries, entries.len(),
{
    let closed = nbt_entries(entries).unwrap() + seq![0u8] + rest;
    if entries.len() == 0 {
        assert(acc + entries =~= acc);
        assert(closed[0] == 0);
    } else {
        let name = entries[0].0;
        let v = entries[0].1;
        let head = nbt_entry(name, v).unwrap();
        let tail = nbt_entries(entries.skip(1)).unwrap();
        let after = tail + seq![0u8] + rest;
        assert(closed =~= head + after);
        lemma_fresh_key(acc, entries);
        lemma_nbt_entry_step(name, v, acc, after);
        lemma_nbt_entries_round_trip(entries.skip(1), acc.push(entries[0]), rest);
    }
}

/// A list without items travels as the id of End and a count of zero.
pub proof fn lemma_nbt_empty_list()
    ensures
        nbt_payload(NbtValue::List(Seq::empty())) == Ok::<Seq<u8>, EncodeError>(
            seq![0u8, 0u8, 0u8, 0u8, 0u8],
        ),
{
    reveal_with_fuel(be_bytes, 5);
    let items = Seq::<NbtValue>::empty();
    assert(one_kind(items));
    assert(nbt_items(items) == Ok::<Seq<u8>, EncodeError>(Seq::empty()));
    assert(seq![list_kind(items)] + be_bytes(0, 4) + Seq::<u8>::empty() =~= seq![
        0u8,
        0u8,
        0u8,
        0u8,
        0u8,
    ]);
}

/// A list whose items are not all of one kind has no encoding.
pub proof fn lemma_nbt_mixed_list(items: Seq<NbtValue>, i: int)
    requires
        items.len() <= i32::MAX,
        0 <= i < items.len(),
        tag_id(items[i]) != tag_id(items[0]),
    ensures
        nbt_payload(NbtValue::List(items)) == Err::<Seq<u8>, EncodeError>(
            EncodeError::MixedList,
        ),
{
}

impl Wire for NBT {
    type Model = NbtValue;

    open spec fn model(&self) -> NbtValue {
        self.value()
    }

    open spec fn encoding(m: NbtValue) -> Result<Seq<u8>, EncodeError> {
        nbt_encoding(m)
    }

    open spec fn parse(s: Seq<u8>) -> Result<(NbtValue, nat), DecodeError> {
        nbt_parse(s)
    }

    open spec fn self_delimiting() -> bool {
        true
    }

    open spec fn well_formed() -> bool {
        true
    }

    proof fn lemma_parse_len(s: Seq<u8>) {
        if s.len() >= 1 {
            lemma_nbt_parse_payload_len(s.skip(1), s[0]);
        }
    }

    proof fn lemma_round_trip(m: NbtValue, rest: Seq<u8>) {
        let bytes = nbt_payload(m).unwrap();
        lemma_nbt_payload_round_trip(m, rest);
        assert((seq![tag_id(m)] + bytes + rest).skip(1) =~= bytes + rest);
    }
}

impl Encode for NBT {
    fn encode(&self, wtr: &mut BytesMut) -> (r: Result<(), EncodeError>) {
        let start: usize = buf_len(wtr);
        let id: u8 = self.id();
        put_u8(wtr, id);
        match self.encode_payload(wtr) {
            Ok(()) => {
                proof {
                    let bytes = nbt_payload(self.value()).unwrap();
                    assert(buf_bytes(*old(wtr)).push(id) + bytes =~= buf_bytes(*old(wtr)) + (
                    seq![id] + bytes));
                }
                Ok(())
            },
            Err(e) => {
                buf_truncate(wtr, start);
                proof {
                    assert(buf_bytes(*old(wtr)).push(id).take(start as int) =~= buf_bytes(
                        *old(wtr),
                    ));
                }
                Err(e)
            },
        }
    }
}

impl<'a> Decode<'a> for NBT {
    fn decode(rdr: &mut &'a [u8]) -> (r: Result<Self, DecodeError>) {
        let start: &'a [u8] = *rdr;
        let id: u8 = match u8::decode(rdr) {
            Ok(id) => id,
            Err(e) => {
                return Err(e);
            },
        };
        proof {
            lemma_nbt_parse_payload_len(rdr@, id);
        }
        match NBT::decode_payload(rdr, id) {
            Ok(tag) => {
                proof {
                    let n = nbt_parse_payload(start@.skip(1), id).unwrap().1;
                    assert(rdr@ =~= start@.skip((n + 1) as int));
                }
                Ok(tag)
            },
            Err(e) => {
                *rdr = start;
                Err(e)
            },
        }
    }
}

} // verus!
