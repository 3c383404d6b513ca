//! The argument packer: serialises a heterogeneous argument list into the
//! length-prefixed little-endian byte stream a BOF entrypoint consumes.
//!
//! The wire format is `[u32 total_size][body]`, where the body concatenates
//! typed records: `i16`/`i32` as raw little-endian scalars; `str` as
//! `[u32 len+1][utf-8 bytes][0x00]`; `wstr` as
//! `[u32 2*units+2][utf-16 LE units][0x00 0x00]`; `bin` as `[u32 len][bytes]`.
//! `total_size` counts every record byte, length prefixes included.

use crate::bytes::{u16_of_i16, u16_of_i16_spec, u32_of_i32, u32_of_i32_spec};
use crate::LoaderError;
use vstd::bytes::{
    lemma_auto_spec_u16_to_from_le_bytes, lemma_auto_spec_u32_to_from_le_bytes,
    spec_u16_to_le_bytes, spec_u32_to_le_bytes, u16_to_le_bytes, u32_to_le_bytes,
};
use vstd::prelude::*;
use vstd::utf8::encode_utf8;

verus! {

/// One packed argument, in the abstract: what a record of the wire stream
/// stands for.
pub enum PackItem {
    Short(i16),
    Int(i32),
    Str(Seq<char>),
    Wstr(Seq<char>),
    Bin(Seq<u8>),
}

/// The UTF-16 code units of a character sequence, as `str::encode_utf16`
/// yields them. The units are a function of the characters alone.
pub uninterp spec fn utf16_units_of(s: Seq<char>) -> Seq<u16>;

/// Relies on str::encode_utf16: the UTF-16 code units of the string's
/// characters, in order.
#[verifier::external_body]
fn encode_utf16_units(s: &str) -> (r: Vec<u16>)
    ensures
        r@ == utf16_units_of(s@),
{
    s.encode_utf16().collect()
}

/// The little-endian byte image of a sequence of 16-bit units.
pub open spec fn utf16_le_bytes(units: Seq<u16>) -> Seq<u8>
    decreases units.len(),
{
    if units.len() == 0 {
        Seq::empty()
    } else {
        utf16_le_bytes(units.drop_last()) + spec_u16_to_le_bytes(units.last())
    }
}

/// The bytes one record contributes to the body of the packed stream.
pub open spec fn record_of(it: PackItem) -> Seq<u8> {
    match it {
        PackItem::Short(v) => spec_u16_to_le_bytes(u16_of_i16_spec(v)),
        PackItem::Int(v) => spec_u32_to_le_bytes(u32_of_i32_spec(v)),
        PackItem::Str(s) => spec_u32_to_le_bytes((encode_utf8(s).len() + 1) as u32)
            + encode_utf8(s) + seq![0u8],
        PackItem::Wstr(s) => spec_u32_to_le_bytes(
            (utf16_units_of(s).len() * 2 + 2) as u32,
        ) + utf16_le_bytes(utf16_units_of(s)) + seq![0u8, 0u8],
        PackItem::Bin(b) => spec_u32_to_le_bytes(b.len() as u32) + b,
    }
}

/// How many bytes a record occupies, its own length prefix included.
pub open spec fn record_size(it: PackItem) -> int {
    match it {
        PackItem::Short(_) => 2,
        PackItem::Int(_) => 4,
        PackItem::Str(s) => 4 + encode_utf8(s).len() as int + 1,
        PackItem::Wstr(s) => 4 + utf16_units_of(s).len() as int * 2 + 2,
        PackItem::Bin(b) => 4 + b.len() as int,
    }
}

/// A record's length prefix fits its 32-bit field.
pub open spec fn item_fits(it: PackItem) -> bool {
    match it {
        PackItem::Short(_) => true,
        PackItem::Int(_) => true,
        PackItem::Str(s) => encode_utf8(s).len() + 1 <= u32::MAX,
        PackItem::Wstr(s) => utf16_units_of(s).len() * 2 + 2 <= u32::MAX,
        PackItem::Bin(b) => b.len() <= u32::MAX,
    }
}

/// The body of the packed stream: the records of all items, in order.
pub open spec fn body_of(items: Seq<PackItem>) -> Seq<u8>
    decreases items.len(),
{
    if items.len() == 0 {
        Seq::empty()
    } else {
        record_of(items[0]) + body_of(items.drop_first())
    }
}

/// The sum of all record sizes, length prefixes included.
pub open spec fn size_of_items(items: Seq<PackItem>) -> int
    decreases items.len(),
{
    if items.len() == 0 {
        0
    } else {
        record_size(items[0]) + size_of_items(items.drop_first())
    }
}

pub proof fn lemma_utf16_le_bytes_len(units: Seq<u16>)
    ensures
        utf16_le_bytes(units).len() == units.len() * 2,
    decreases units.len(),
{
    lemma_auto_spec_u16_to_from_le_bytes();
    if units.len() > 0 {
        lemma_utf16_le_bytes_len(units.drop_last());
    }
}

/// A record is exactly as long as its accounted size.
pub proof fn lemma_record_len(it: PackItem)
    ensures
        record_of(it).len() == record_size(it),
{
    lemma_auto_spec_u16_to_from_le_bytes();
    lemma_auto_spec_u32_to_from_le_bytes();
    match it {
        PackItem::Wstr(s) => {
            lemma_utf16_le_bytes_len(utf16_units_of(s));
        },
        _ => {},
    }
}

/// Appending one item appends exactly its record to the body.
pub proof fn lemma_body_of_push(items: Seq<PackItem>, it: PackItem)
    ensures
        body_of(items.push(it)) == body_of(items) + record_of(it),
    decreases items.len(),
{
    let p = items.push(it);
    if items.len() == 0 {
        assert(p.drop_first() =~= Seq::<PackItem>::empty());
        assert(p[0] == it);
        assert(body_of(p.drop_first()) == Seq::<u8>::empty());
        assert(body_of(p) == record_of(it) + Seq::<u8>::empty());
        assert(body_of(items) == Seq::<u8>::empty());
        assert(record_of(it) + Seq::<u8>::empty() =~= Seq::<u8>::empty() + record_of(it));
    } else {
        let rest = items.drop_first();
        lemma_body_of_push(rest, it);
        assert(p.drop_first() =~= rest.push(it));
        assert(p[0] == items[0]);
        assert(body_of(p) == record_of(items[0]) + body_of(rest.push(it)));
        assert(body_of(items) == record_of(items[0]) + body_of(rest));
        assert(record_of(items[0]) + (body_of(rest) + record_of(it)) =~= (record_of(items[0])
            + body_of(rest)) + record_of(it));
    }
}

/// Appending one item grows the accounted size by exactly its record size.
pub proof fn lemma_size_of_push(items: Seq<PackItem>, it: PackItem)
    ensures
        size_of_items(items.push(it)) == size_of_items(items) + record_size(it),
    decreases items.len(),
{
    let p = items.push(it);
    if items.len() == 0 {
        assert(p.drop_first() =~= Seq::<PackItem>::empty());
        assert(p[0] == it);
        assert(size_of_items(p.drop_first()) == 0);
        assert(size_of_items(p) == record_size(it));
        assert(size_of_items(items) == 0);
    } else {
        let rest = items.drop_first();
        lemma_size_of_push(rest, it);
        assert(p.drop_first() =~= rest.push(it));
        assert(p[0] == items[0]);
        assert(size_of_items(p) == record_size(items[0]) + size_of_items(rest.push(it)));
        assert(size_of_items(items) == record_size(items[0]) + size_of_items(rest));
    }
}

/// Total-size invariant: the body is exactly as long as the sum of the
/// record sizes, length prefixes included. The leading `u32` a packer emits
/// equals the body length, so it equals this sum.
pub proof fn lemma_total_size(items: Seq<PackItem>)
    ensures
        body_of(items).len() == size_of_items(items),
    decreases items.len(),
{
    if items.len() > 0 {
        lemma_record_len(items[0]);
        lemma_total_size(items.drop_first());
    }
}

/// Builds the packed argument stream record by record.
///
/// `buffer` holds the body built so far and `size` its running byte count;
/// `items` is the abstract list of arguments packed so far.
pub struct BeaconPack {
    pub buffer: Vec<u8>,
    pub size: u32,
    pub items: Ghost<Seq<PackItem>>,
}

impl BeaconPack {
    /// The buffer is exactly the body of the packed items, and `size` counts
    /// its bytes.
    pub open spec fn wf(self) -> bool {
        &&& self.buffer@ == body_of(self.items@)
        &&& self.size as int == body_of(self.items@).len()
    }

    /// An empty packer: no records, zero running size.
    pub fn new() -> (r: BeaconPack)
        ensures
            r.wf(),
            r.items@ == Seq::<PackItem>::empty(),
            r.size == 0,
            r.buffer@ == Seq::<u8>::empty(),
    {
        BeaconPack { buffer: Vec::new(), size: 0, items: Ghost(Seq::empty()) }
    }

    /// The packed stream: the running size as a little-endian `u32`, then the
    /// body. Packing never fails once the records are in the buffer.
    pub fn get_buffer(&self) -> (r: Result<Vec<u8>, LoaderError>)
        requires
            self.wf(),
        ensures
            r matches Ok(v) && v@ == spec_u32_to_le_bytes(self.size) + body_of(self.items@),
    {
        let mut out = u32_to_le_bytes(self.size);
        let mut body = Vec::new();
        body.extend_from_slice(self.buffer.as_slice());
        out.append(&mut body);
        Ok(out)
    }

    /// Appends a 16-bit record: the value's two's-complement image in
    /// little-endian order. Fails only when the running size would outgrow
    /// its 32-bit prefix.
    pub fn add_short(&mut self, short: i16) -> (r: Result<(), LoaderError>)
        requires
            old(self).wf(),
        ensures
            final(self).wf(),
            r is Ok <==> old(self).size + 2 <= u32::MAX,
            r is Ok ==> final(self).items@ == old(self).items@.push(PackItem::Short(short))
                && final(self).size == old(self).size + 2,
            r is Err ==> *final(self) == *old(self) && r == Err::<(), LoaderError>(
                LoaderError::CapacityExceeded,
            ),
    {
        if self.size > u32::MAX - 2 {
            return Err(LoaderError::CapacityExceeded);
        }
        let mut le = u16_to_le_bytes(u16_of_i16(short));
        self.buffer.append(&mut le);
        self.size = self.size + 2;
        proof {
            let it = PackItem::Short(short);
            lemma_body_of_push(old(self).items@, it);
            lemma_auto_spec_u16_to_from_le_bytes();
        }
        self.items = Ghost(self.items@.push(PackItem::Short(short)));
        Ok(())
    }

    /// Appends a 32-bit record: the value's two's-complement image in
    /// little-endian order. Fails only when the running size would outgrow
    /// its 32-bit prefix.
    pub fn add_int(&mut self, value: i32) -> (r: Result<(), LoaderError>)
        requires
            old(self).wf(),
        ensures
            final(self).wf(),
            r is Ok <==> old(self).size + 4 <= u32::MAX,
            r is Ok ==> final(self).items@ == old(self).items@.push(PackItem::Int(value))
                && final(self).size == old(self).size + 4,
            r is Err ==> *final(self) == *old(self) && r == Err::<(), LoaderError>(
                LoaderError::CapacityExceeded,
            ),
    {
        if self.size > u32::MAX - 4 {
            return Err(LoaderError::CapacityExceeded);
        }
        let mut le = u32_to_le_bytes(u32_of_i32(value));
        self.buffer.append(&mut le);
        self.size = self.size + 4;
        proof {
            let it = PackItem::Int(value);
            lemma_body_of_push(old(self).items@, it);
            lemma_auto_spec_u32_to_from_le_bytes();
        }
        self.items = Ghost(self.items@.push(PackItem::Int(value)));
        Ok(())
    }

    /// Appends a string record: a `u32` of `len(utf8)+1`, the UTF-8 bytes,
    /// then a terminating NUL. Fails only when the running size would
    /// outgrow its 32-bit prefix.
    pub fn add_str(&mut self, text: &str) -> (r: Result<(), LoaderError>)
        requires
            old(self).wf(),
        ensures
            final(self).wf(),
            r is Ok <==> old(self).size + encode_utf8(text@).len() + 5 <= u32::MAX,
            r is Ok ==> final(self).items@ == old(self).items@.push(PackItem::Str(text@))
                && final(self).size == old(self).size + encode_utf8(text@).len() + 5,
            r is Err ==> *final(self) == *old(self) && r == Err::<(), LoaderError>(
                LoaderError::CapacityExceeded,
            ),
    {
        let bytes = text.as_bytes();
        let blen = bytes.len();
        if blen > (u32::MAX as usize) - 5 {
            return Err(LoaderError::CapacityExceeded);
        }
        if self.size > u32::MAX - 5 - (blen as u32) {
            return Err(LoaderError::CapacityExceeded);
        }
        let ghost old_buffer = self.buffer@;
        let mut le = u32_to_le_bytes((blen as u32) + 1);
        self.buffer.append(&mut le);
        self.buffer.extend_from_slice(bytes);
        self.buffer.push(0u8);
        self.size = self.size + 5 + (blen as u32);
        proof {
            let it = PackItem::Str(text@);
            lemma_body_of_push(old(self).items@, it);
            lemma_auto_spec_u32_to_from_le_bytes();
            assert(self.buffer@ =~= old_buffer + record_of(it));
        }
        self.items = Ghost(self.items@.push(PackItem::Str(text@)));
        Ok(())
    }

    /// Appends a wide-string record: a `u32` of `2*units+2`, the UTF-16
    /// code units in little-endian order, then a 16-bit NUL. Fails only when
    /// the running size would outgrow its 32-bit prefix.
    pub fn add_wstr(&mut self, text: &str) -> (r: Result<(), LoaderError>)
        requires
            old(self).wf(),
        ensures
            final(self).wf(),
            r is Ok <==> old(self).size + utf16_units_of(text@).len() * 2 + 6 <= u32::MAX,
            r is Ok ==> final(self).items@ == old(self).items@.push(PackItem::Wstr(text@))
                && final(self).size == old(self).size + utf16_units_of(text@).len() * 2 + 6,
            r is Err ==> *final(self) == *old(self) && r == Err::<(), LoaderError>(
                LoaderError::CapacityExceeded,
            ),
    {
        let units = encode_utf16_units(text);
        let n = units.len();
        if n > ((u32::MAX as usize) - 6) / 2 {
            return Err(LoaderError::CapacityExceeded);
        }
        if self.size > u32::MAX - 6 - 2 * (n as u32) {
            return Err(LoaderError::CapacityExceeded);
        }
        let ghost old_buffer = self.buffer@;
        let mut le = u32_to_le_bytes(2 * (n as u32) + 2);
        self.buffer.append(&mut le);
        proof {
            lemma_auto_spec_u32_to_from_le_bytes();
        }
        let ghost prefix = self.buffer@;
        let mut i: usize = 0;
        while i < n
            invariant
                i <= n,
                n == units@.len(),
                self.buffer@ == prefix + utf16_le_bytes(units@.take(i as int)),
                self.size == old(self).size,
                self.items == old(self).items,
            decreases n - i,
        {
            let mut ule = u16_to_le_bytes(units[i]);
            self.buffer.append(&mut ule);
            proof {
                assert(units@.take(i + 1).drop_last() =~= units@.take(i as int));
                assert(units@.take(i + 1).last() == units@[i as int]);
                assert(prefix + utf16_le_bytes(units@.take(i as int)) + spec_u16_to_le_bytes(
                    units@[i as int],
                ) =~= prefix + utf16_le_bytes(units@.take(i + 1)));
            }
            i = i + 1;
        }
        self.buffer.push(0u8);
        self.buffer.push(0u8);
        self.size = self.size + 6 + 2 * (n as u32);
        proof {
            let it = PackItem::Wstr(text@);
            assert(units@.take(n as int) =~= units@);
            lemma_body_of_push(old(self).items@, it);
            lemma_utf16_le_bytes_len(utf16_units_of(text@));
            assert(self.buffer@ =~= old(self).buffer@ + record_of(it));
        }
        self.items = Ghost(self.items@.push(PackItem::Wstr(text@)));
        Ok(())
    }

    /// Appends a binary record: a `u32` of `len`, then the raw bytes. Fails
    /// only when the running size would outgrow its 32-bit prefix.
    pub fn add_bin(&mut self, bin: &[u8]) -> (r: Result<(), LoaderError>)
        requires
            old(self).wf(),
        ensures
            final(self).wf(),
            r is Ok <==> old(self).size + bin@.len() + 4 <= u32::MAX,
            r is Ok ==> final(self).items@ == old(self).items@.push(PackItem::Bin(bin@))
                && final(self).size == old(self).size + bin@.len() + 4,
            r is Err ==> *final(self) == *old(self) && r == Err::<(), LoaderError>(
                LoaderError::CapacityExceeded,
            ),
    {
        let blen = bin.len();
        if blen > (u32::MAX as usize) - 4 {
            return Err(LoaderError::CapacityExceeded);
        }
        if self.size > u32::MAX - 4 - (blen as u32) {
            return Err(LoaderError::CapacityExceeded);
        }
        let ghost old_buffer = self.buffer@;
        let mut le = u32_to_le_bytes(blen as u32);
        self.buffer.append(&mut le);
        self.buffer.extend_from_slice(bin);
        self.size = self.size + 4 + (blen as u32);
        proof {
            let it = PackItem::Bin(bin@);
            lemma_body_of_push(old(self).items@, it);
            lemma_auto_spec_u32_to_from_le_bytes();
            assert(self.buffer@ =~= old_buffer + record_of(it));
        }
        self.items = Ghost(self.items@.push(PackItem::Bin(bin@)));
        Ok(())
    }
}

impl Default for BeaconPack {
    /// The same empty packer `new` returns.
    fn default() -> (r: Self)
        ensures
            r.wf(),
            r.items@ == Seq::<PackItem>::empty(),
            r.size == 0,
            r.buffer@ == Seq::<u8>::empty(),
    {
        BeaconPack::new()
    }
}

} // verus!
