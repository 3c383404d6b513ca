//! The output buffer of the beacon API runtime: everything a BOF prints
//! through `BeaconPrintf` and `BeaconOutput` is appended here, and the
//! executor drains it once the entrypoint returns. Reset at the start of
//! each execution; single-writer, as one BOF runs at a time.

use vstd::prelude::*;

verus! {

/// A process-scoped growable byte buffer of captured BOF output.
pub struct OutputBuffer {
    pub data: Vec<u8>,
}

impl OutputBuffer {
    /// An empty buffer.
    pub fn new() -> (r: OutputBuffer)
        ensures
            r.data@ == Seq::<u8>::empty(),
    {
        OutputBuffer { data: Vec::new() }
    }

    /// Truncates to nothing, as each execution begins.
    pub fn reset(&mut self)
        ensures
            final(self).data@ == Seq::<u8>::empty(),
    {
        self.data.clear();
    }

    /// Appends raw output bytes, as `BeaconOutput` hands them over. The
    /// routing type a BOF passes alongside is accepted and ignored.
    pub fn append(&mut self, bytes: &[u8])
        ensures
            final(self).data@ == old(self).data@ + bytes@,
    {
        self.data.extend_from_slice(bytes);
    }

    /// How many bytes have been captured.
    pub fn len(&self) -> (r: usize)
        ensures
            r == self.data@.len(),
    {
        self.data.len()
    }

    /// Drains the buffer: returns everything captured and leaves it empty.
    pub fn take(&mut self) -> (r: Vec<u8>)
        ensures
            r@ == old(self).data@,
            final(self).data@ == Seq::<u8>::empty(),
    {
        let mut out: Vec<u8> = Vec::new();
        out.extend_from_slice(self.data.as_slice());
        self.data.clear();
        proof {
            assert(out@ =~= old(self).data@);
        }
        out
    }
}

impl Default for OutputBuffer {
    /// The same empty buffer `new` returns.
    fn default() -> (r: Self)
        ensures
            r.data@ == Seq::<u8>::empty(),
    {
        OutputBuffer::new()
    }
}

} // verus!
