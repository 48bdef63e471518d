//! Building raw machine-code byte streams.
//!
//! A [`CodeBuilder`] accumulates instruction bytes for the executable-memory
//! loader to map and run.  Generating the bytes is ordinary, fully checked
//! code; mapping and running them is the loader's business, not this
//! module's.
use vstd::prelude::*;

verus! {

/// The little-endian byte rendering of a 32-bit value: least significant
/// byte first.
pub open spec fn le_bytes_of(val: u32) -> Seq<u8> {
    seq![
        (val % 256) as u8,
        ((val / 256) % 256) as u8,
        ((val / 65536) % 256) as u8,
        ((val / 16777216) % 256) as u8,
    ]
}

/// An instruction stream under construction.
pub struct CodeBuilder {
    /// The bytes emitted so far.
    pub bytes: Vec<u8>,
}

impl CodeBuilder {
    /// An empty instruction stream.
    pub fn new() -> (b: CodeBuilder)
        ensures
            b.bytes@ == Seq::<u8>::empty(),
    {
        CodeBuilder { bytes: Vec::new() }
    }

    /// Append the given bytes to the code stream.
    pub fn emit_bytes(&mut self, bytes: &[u8])
        ensures
            final(self).bytes@ == old(self).bytes@ + bytes@,
    {
        self.bytes.extend_from_slice(bytes);
    }

    /// Append a 32-bit value to the code stream as little-endian bytes.
    pub fn emit_u32(&mut self, val: u32)
        ensures
            final(self).bytes@ == old(self).bytes@ + le_bytes_of(val),
    {
        let b0 = (val % 256) as u8;
        let b1 = ((val / 256) % 256) as u8;
        let b2 = ((val / 65536) % 256) as u8;
        let b3 = ((val / 16777216) % 256) as u8;
        self.bytes.push(b0);
        self.bytes.push(b1);
        self.bytes.push(b2);
        self.bytes.push(b3);
        proof {
            assert(self.bytes@ =~= old(self).bytes@ + le_bytes_of(val));
        }
    }
}

} // verus!
