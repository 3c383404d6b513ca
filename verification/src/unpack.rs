//! The reader for the packed argument stream: the data-parser half of the
//! beacon API (`BeaconDataParse`, `BeaconDataInt`, `BeaconDataShort`,
//! `BeaconDataExtract`, `BeaconDataLength`), and the proof that reading a
//! packed stream back, record by record, returns what was packed.

use crate::bytes::{i16_of_u16, i16_of_u16_spec, i32_of_u32, i32_of_u32_spec, read_u16_le,
    read_u32_le};
use crate::pack::{body_of, item_fits, lemma_record_len, record_of, utf16_le_bytes,
    utf16_units_of, PackItem};
use vstd::bytes::{
    lemma_auto_spec_u16_to_from_le_bytes, lemma_auto_spec_u32_to_from_le_bytes,
    spec_u16_from_le_bytes, spec_u32_from_le_bytes, spec_u32_to_le_bytes,
};
use vstd::prelude::*;
use vstd::slice::{slice_subrange, slice_to_vec};
use vstd::utf8::encode_utf8;

verus! {

/// The shape of a record as the reader sees it: scalars are typed, while
/// `str`, `wstr` and `bin` records all travel as length-prefixed blobs.
#[derive(PartialEq, Eq, Structural)]
pub enum PackKind {
    Short,
    Int,
    Blob,
}

/// What one read of the stream returns: a scalar, or a blob's raw bytes
/// (for `str` and `wstr` the terminating NUL travels inside the blob).
pub enum WireItem {
    Short(i16),
    Int(i32),
    Blob(Seq<u8>),
}

/// The record shape a packed item is read back as.
pub open spec fn kind_of(it: PackItem) -> PackKind {
    match it {
        PackItem::Short(_) => PackKind::Short,
        PackItem::Int(_) => PackKind::Int,
        PackItem::Str(_) => PackKind::Blob,
        PackItem::Wstr(_) => PackKind::Blob,
        PackItem::Bin(_) => PackKind::Blob,
    }
}

/// The bytes a blob record carries after its length prefix.
pub open spec fn payload_of(it: PackItem) -> Seq<u8> {
    match it {
        PackItem::Short(_) => Seq::empty(),
        PackItem::Int(_) => Seq::empty(),
        PackItem::Str(s) => encode_utf8(s) + seq![0u8],
        PackItem::Wstr(s) => utf16_le_bytes(utf16_units_of(s)) + seq![0u8, 0u8],
        PackItem::Bin(b) => b,
    }
}

/// What reading a packed item back returns.
pub open spec fn wire_of(it: PackItem) -> WireItem {
    match it {
        PackItem::Short(v) => WireItem::Short(v),
        PackItem::Int(v) => WireItem::Int(v),
        PackItem::Str(_) => WireItem::Blob(payload_of(it)),
        PackItem::Wstr(_) => WireItem::Blob(payload_of(it)),
        PackItem::Bin(_) => WireItem::Blob(payload_of(it)),
    }
}

/// Reading a body front to back with the given record shapes: scalars take
/// their fixed width, blobs their `u32` length prefix plus that many bytes.
/// `None` when the body is too short for a record.
pub open spec fn spec_read_items(bytes: Seq<u8>, kinds: Seq<PackKind>) -> Option<Seq<WireItem>>
    decreases kinds.len(),
{
    if kinds.len() == 0 {
        Some(Seq::empty())
    } else {
        match kinds[0] {
            PackKind::Short => if bytes.len() >= 2 {
                match spec_read_items(bytes.skip(2), kinds.drop_first()) {
                    Some(rest) => Some(
                        seq![
                            WireItem::Short(
                                i16_of_u16_spec(spec_u16_from_le_bytes(bytes.subrange(0, 2))),
                            ),
                        ] + rest,
                    ),
                    None => None,
                }
            } else {
                None
            },
            PackKind::Int => if bytes.len() >= 4 {
                match spec_read_items(bytes.skip(4), kinds.drop_first()) {
                    Some(rest) => Some(
                        seq![
                            WireItem::Int(
                                i32_of_u32_spec(spec_u32_from_le_bytes(bytes.subrange(0, 4))),
                            ),
                        ] + rest,
                    ),
                    None => None,
                }
            } else {
                None
            },
            PackKind::Blob => if bytes.len() >= 4 && bytes.len() - 4 >= spec_u32_from_le_bytes(
                bytes.subrange(0, 4),
            ) {
                match spec_read_items(
                    bytes.skip(4 + spec_u32_from_le_bytes(bytes.subrange(0, 4)) as int),
                    kinds.drop_first(),
                ) {
                    Some(rest) => Some(
                        seq![
                            WireItem::Blob(
                                bytes.subrange(
                                    4,
                                    4 + spec_u32_from_le_bytes(bytes.subrange(0, 4)) as int,
                                ),
                            ),
                        ] + rest,
                    ),
                    None => None,
                }
            } else {
                None
            },
        }
    }
}

/// A blob record is its payload's length as a `u32`, then the payload.
proof fn lemma_blob_record_shape(it: PackItem)
    requires
        item_fits(it),
        kind_of(it) == PackKind::Blob,
    ensures
        payload_of(it).len() <= u32::MAX,
        record_of(it) == spec_u32_to_le_bytes(payload_of(it).len() as u32) + payload_of(it),
{
    match it {
        PackItem::Str(s) => {
            assert(payload_of(it).len() == encode_utf8(s).len() + 1);
            assert(spec_u32_to_le_bytes((encode_utf8(s).len() + 1) as u32) + encode_utf8(s)
                + seq![0u8] =~= spec_u32_to_le_bytes(payload_of(it).len() as u32) + payload_of(
                it,
            ));
        },
        PackItem::Wstr(s) => {
            crate::pack::lemma_utf16_le_bytes_len(utf16_units_of(s));
            assert(payload_of(it).len() == utf16_units_of(s).len() * 2 + 2);
            assert(spec_u32_to_le_bytes((utf16_units_of(s).len() * 2 + 2) as u32)
                + utf16_le_bytes(utf16_units_of(s)) + seq![0u8, 0u8] =~= spec_u32_to_le_bytes(
                payload_of(it).len() as u32,
            ) + payload_of(it));
        },
        _ => {},
    }
}

/// Pack round-trip: reading the packed body back, record by record and in
/// packing order, yields every value that was packed — scalars exactly, and
/// each `str`/`wstr`/`bin` as its payload with the length prefix equal to
/// `len(utf8)+1`, `2*units+2`, or `len`, terminators present inside the
/// payload.
pub proof fn lemma_pack_round_trip(items: Seq<PackItem>)
    requires
        forall|i: int| 0 <= i < items.len() ==> item_fits(#[trigger] items[i]),
    ensures
        spec_read_items(
            body_of(items),
            items.map_values(|it: PackItem| kind_of(it)),
        ) == Some(items.map_values(|it: PackItem| wire_of(it))),
    decreases items.len(),
{
    lemma_auto_spec_u16_to_from_le_bytes();
    lemma_auto_spec_u32_to_from_le_bytes();
    let kinds = items.map_values(|it: PackItem| kind_of(it));
    let wires = items.map_values(|it: PackItem| wire_of(it));
    if items.len() == 0 {
        assert(kinds.len() == 0);
        assert(wires =~= Seq::<WireItem>::empty());
    } else {
        let it = items[0];
        let rest = items.drop_first();
        assert(forall|i: int| 0 <= i < rest.len() ==> item_fits(#[trigger] rest[i])) by {
            assert(forall|i: int| 0 <= i < rest.len() ==> rest[i] == items[i + 1]);
        }
        lemma_pack_round_trip(rest);
        lemma_record_len(it);
        let body = body_of(items);
        let rec = record_of(it);
        let tail = body_of(rest);
        assert(body == rec + tail);
        assert(kinds[0] == kind_of(it));
        assert(kinds.drop_first() =~= rest.map_values(|x: PackItem| kind_of(x)));
        assert(wires.drop_first() =~= rest.map_values(|x: PackItem| wire_of(x)));
        assert(wires[0] == wire_of(it));
        match it {
            PackItem::Short(v) => {
                assert(body.subrange(0, 2) =~= rec);
                assert(body.skip(2) =~= tail);
                crate::bytes::lemma_i16_u16_round_trip(v);
                assert(seq![wire_of(it)] + wires.drop_first() =~= wires);
            },
            PackItem::Int(v) => {
                assert(body.subrange(0, 4) =~= rec);
                assert(body.skip(4) =~= tail);
                crate::bytes::lemma_i32_u32_round_trip(v);
                assert(seq![wire_of(it)] + wires.drop_first() =~= wires);
            },
            _ => {
                assert(item_fits(it));
                lemma_blob_record_shape(it);
                let p = payload_of(it);
                let prefix = spec_u32_to_le_bytes(p.len() as u32);
                assert(body.subrange(0, 4) =~= prefix);
                assert(spec_u32_from_le_bytes(body.subrange(0, 4)) == p.len() as u32);
                assert(body.len() - 4 >= p.len());
                assert(body.subrange(4, 4 + p.len() as int) =~= p);
                assert(body.skip(4 + p.len() as int) =~= tail);
                assert(seq![wire_of(it)] + wires.drop_first() =~= wires);
            },
        }
    }
}

/// A cursor over a packed argument stream, as `BeaconDataParse` sets one up:
/// the leading `u32` size prefix is skipped, and every read is bounds-checked
/// against what remains — a short or absent stream yields zeros and `None`s,
/// never a fault.
pub struct BeaconData<'a> {
    pub data: &'a [u8],
    pub cursor: usize,
}

impl<'a> BeaconData<'a> {
    /// The cursor never points past the stream.
    pub open spec fn wf(self) -> bool {
        self.cursor <= self.data@.len()
    }

    /// Sets up a cursor over a packed blob, past its 4-byte size prefix; a
    /// blob shorter than the prefix itself reads as empty.
    pub fn new(data: &'a [u8]) -> (r: BeaconData<'a>)
        ensures
            r.wf(),
            r.data@ == data@,
            r.cursor as int == if data@.len() >= 4 { 4int } else { data@.len() as int },
    {
        let len = data.len();
        let cursor: usize = if len >= 4 { 4 } else { len };
        BeaconData { data, cursor }
    }

    /// How many unread bytes remain.
    pub fn length(&self) -> (r: usize)
        requires
            self.wf(),
        ensures
            r == self.data@.len() - self.cursor,
    {
        self.data.len() - self.cursor
    }

    /// Reads a 32-bit record: the next four bytes as a little-endian signed
    /// value; zero, with the cursor unmoved, when fewer than four remain.
    pub fn data_int(&mut self) -> (r: i32)
        requires
            old(self).wf(),
        ensures
            final(self).wf(),
            final(self).data@ == old(self).data@,
            old(self).data@.len() - old(self).cursor >= 4 ==> r == i32_of_u32_spec(
                spec_u32_from_le_bytes(
                    old(self).data@.subrange(old(self).cursor as int, old(self).cursor + 4),
                ),
            ) && final(self).cursor == old(self).cursor + 4,
            old(self).data@.len() - old(self).cursor < 4 ==> r == 0 && final(self).cursor
                == old(self).cursor,
    {
        let rem = self.data.len() - self.cursor;
        if rem < 4 {
            return 0;
        }
        let v = read_u32_le(self.data, self.cursor);
        self.cursor = self.cursor + 4;
        i32_of_u32(v)
    }

    /// Reads a 16-bit record: the next two bytes as a little-endian signed
    /// value; zero, with the cursor unmoved, when fewer than two remain.
    pub fn data_short(&mut self) -> (r: i16)
        requires
            old(self).wf(),
        ensures
            final(self).wf(),
            final(self).data@ == old(self).data@,
            old(self).data@.len() - old(self).cursor >= 2 ==> r == i16_of_u16_spec(
                spec_u16_from_le_bytes(
                    old(self).data@.subrange(old(self).cursor as int, old(self).cursor + 2),
                ),
            ) && final(self).cursor == old(self).cursor + 2,
            old(self).data@.len() - old(self).cursor < 2 ==> r == 0 && final(self).cursor
                == old(self).cursor,
    {
        let rem = self.data.len() - self.cursor;
        if rem < 2 {
            return 0;
        }
        let v = read_u16_le(self.data, self.cursor);
        self.cursor = self.cursor + 2;
        i16_of_u16(v)
    }

    /// Reads a blob record: a `u32` length, then that many bytes. `None`,
    /// with the cursor unmoved, when the remainder cannot hold the prefix
    /// and a payload of the announced length.
    pub fn data_extract(&mut self) -> (r: Option<Vec<u8>>)
        requires
            old(self).wf(),
        ensures
            final(self).wf(),
            final(self).data@ == old(self).data@,
            ({
                let d = old(self).data@;
                let c = old(self).cursor as int;
                if d.len() - c >= 4 && d.len() - c - 4 >= spec_u32_from_le_bytes(
                    d.subrange(c, c + 4),
                ) {
                    let n = spec_u32_from_le_bytes(d.subrange(c, c + 4)) as int;
                    r matches Some(v) && v@ == d.subrange(c + 4, c + 4 + n)
                        && final(self).cursor == c + 4 + n
                } else {
                    r is None && final(self).cursor == old(self).cursor
                }
            }),
    {
        let rem = self.data.len() - self.cursor;
        if rem < 4 {
            return None;
        }
        let n32 = read_u32_le(self.data, self.cursor);
        let n = n32 as usize;
        if rem - 4 < n {
            return None;
        }
        let out = slice_to_vec(slice_subrange(self.data, self.cursor + 4, self.cursor + 4 + n));
        self.cursor = self.cursor + 4 + n;
        Some(out)
    }
}

} // verus!
