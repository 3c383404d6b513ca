//! The format-object pool of the beacon API runtime: named growable
//! buffers a BOF builds output in through the `BeaconFormat*` helpers,
//! keyed by an opaque handle. Created by `BeaconFormatAlloc`, appended to
//! and reset by the other helpers, owned by the BOF until
//! `BeaconFormatFree`. The printf-style formatting itself is C-variadic
//! native work; what reaches a buffer arrives here as plain bytes.

use crate::bytes::u32_of_i32;
use vstd::bytes::{spec_u32_to_le_bytes, u32_to_le_bytes};
use vstd::prelude::*;

verus! {

/// The pool of format objects; a handle is an index of a live slot.
pub struct BeaconFormats {
    pub slots: Vec<Option<Vec<u8>>>,
}

impl BeaconFormats {
    /// The handle names a live (allocated, not yet freed) buffer.
    pub open spec fn live(self, h: int) -> bool {
        0 <= h < self.slots@.len() && self.slots@[h] is Some
    }

    /// The bytes a live buffer holds.
    pub open spec fn buf(self, h: int) -> Seq<u8> {
        self.slots@[h].unwrap()@
    }

    /// An empty pool.
    pub fn new() -> (r: BeaconFormats)
        ensures
            r.slots@.len() == 0,
    {
        BeaconFormats { slots: Vec::new() }
    }

    /// Allocates a fresh, empty format buffer and hands back its handle.
    /// Every existing slot is left as it was.
    pub fn allocate(&mut self) -> (h: usize)
        ensures
            h == old(self).slots@.len(),
            final(self).slots@.len() == old(self).slots@.len() + 1,
            final(self).live(h as int),
            final(self).buf(h as int) == Seq::<u8>::empty(),
            forall|k: int|
                0 <= k < old(self).slots@.len() ==> final(self).slots@[k] == old(self).slots@[k],
    {
        let h = self.slots.len();
        self.slots.push(Some(Vec::new()));
        h
    }

    /// Appends bytes to a live buffer; reports whether the handle was
    /// live. A dead handle changes nothing.
    pub fn append(&mut self, h: usize, bytes: &[u8]) -> (r: bool)
        ensures
            r == old(self).live(h as int),
            r ==> final(self).slots@ == old(self).slots@.update(
                h as int,
                final(self).slots@[h as int],
            ) && final(self).live(h as int) && final(self).buf(h as int) == old(self).buf(
                h as int,
            ) + bytes@,
            !r ==> final(self).slots@ == old(self).slots@,
    {
        if h >= self.slots.len() {
            return false;
        }
        let r = match &mut self.slots[h] {
            Some(buf) => {
                buf.extend_from_slice(bytes);
                true
            },
            None => false,
        };
        proof {
            if !r {
                assert(self.slots@ =~= old(self).slots@);
            }
        }
        r
    }

    /// Appends a 32-bit value, little-endian, as `BeaconFormatInt` does;
    /// reports whether the handle was live.
    pub fn append_int(&mut self, h: usize, value: i32) -> (r: bool)
        ensures
            r == old(self).live(h as int),
            r ==> final(self).slots@ == old(self).slots@.update(
                h as int,
                final(self).slots@[h as int],
            ) && final(self).live(h as int) && final(self).buf(h as int) == old(self).buf(
                h as int,
            ) + spec_u32_to_le_bytes(crate::bytes::u32_of_i32_spec(value)),
            !r ==> final(self).slots@ == old(self).slots@,
    {
        if h >= self.slots.len() {
            return false;
        }
        let le = u32_to_le_bytes(u32_of_i32(value));
        let r = match &mut self.slots[h] {
            Some(buf) => {
                buf.extend_from_slice(le.as_slice());
                true
            },
            None => false,
        };
        proof {
            if !r {
                assert(self.slots@ =~= old(self).slots@);
            }
        }
        r
    }

    /// Truncates a live buffer to nothing, as `BeaconFormatReset` does;
    /// reports whether the handle was live.
    pub fn reset(&mut self, h: usize) -> (r: bool)
        ensures
            r == old(self).live(h as int),
            r ==> final(self).slots@ == old(self).slots@.update(
                h as int,
                final(self).slots@[h as int],
            ) && final(self).live(h as int) && final(self).buf(h as int) == Seq::<u8>::empty(),
            !r ==> final(self).slots@ == old(self).slots@,
    {
        if h >= self.slots.len() {
            return false;
        }
        let r = match &mut self.slots[h] {
            Some(buf) => {
                buf.clear();
                true
            },
            None => false,
        };
        proof {
            if !r {
                assert(self.slots@ =~= old(self).slots@);
            }
        }
        r
    }

    /// A copy of a live buffer's bytes, as `BeaconFormatToString` hands
    /// them out — the buffer keeps its contents; `None` on a dead handle.
    pub fn contents(&self, h: usize) -> (r: Option<Vec<u8>>)
        ensures
            (r is Some) == self.live(h as int),
            r matches Some(v) ==> v@ == self.buf(h as int),
    {
        if h >= self.slots.len() {
            return None;
        }
        match &self.slots[h] {
            Some(buf) => {
                let mut copy: Vec<u8> = Vec::new();
                copy.extend_from_slice(buf.as_slice());
                proof {
                    assert(copy@ =~= self.buf(h as int));
                }
                Some(copy)
            },
            None => None,
        }
    }

    /// Releases a buffer, as `BeaconFormatFree` does: the handle goes
    /// dead, every other slot is left as it was; reports whether it was
    /// live.
    pub fn free(&mut self, h: usize) -> (r: bool)
        ensures
            r == old(self).live(h as int),
            r ==> final(self).slots@ == old(self).slots@.update(h as int, None)
                && !final(self).live(h as int),
            !r ==> final(self).slots@ == old(self).slots@,
    {
        if h >= self.slots.len() {
            return false;
        }
        match &self.slots[h] {
            Some(_) => {
                self.slots[h] = None;
                true
            },
            None => false,
        }
    }
}

} // verus!
