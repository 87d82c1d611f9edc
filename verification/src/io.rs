//! Byte-oriented input and output sinks for the execution engine.
//!
//! The engine reads input and writes output one byte at a time through these
//! two traits. Each carries a specification-level view of its stream, so that
//! what the engine does to a sink can be stated exactly. The in-memory
//! implementations here are verified against those contracts; callers may
//! implement the traits for real I/O outside the verified library.

use vstd::prelude::*;

verus! {

/// A source of bytes. `Ok(None)` means clean end of input — not an error;
/// `Err` carries a description of an input failure.
pub trait ByteReader {
    /// The bytes still to be read, as this reader models them. A reader
    /// outside the verified library (a terminal, a file) need not model its
    /// stream and can leave this default, an unspecified sequence.
    open spec fn remaining_bytes(&self) -> Seq<u8> {
        arbitrary()
    }

    /// Whether this reader promises that reading never fails. A reader that
    /// cannot keep that promise (a terminal, a file) leaves this default,
    /// `false`; the in-memory reader overrides it.
    open spec fn spec_infallible(&self) -> bool {
        false
    }

    /// Read exactly one byte. Yields the head of the remaining bytes, `None`
    /// once they are exhausted, and on failure leaves the stream as it was.
    /// An infallible reader succeeds and stays infallible.
    fn read_byte(&mut self) -> (r: Result<Option<u8>, String>)
        ensures
            match r {
                Ok(Some(b)) => old(self).remaining_bytes().len() > 0 && b == old(
                    self,
                ).remaining_bytes()[0] && final(self).remaining_bytes() == old(
                    self,
                ).remaining_bytes().drop_first(),
                Ok(None) => old(self).remaining_bytes().len() == 0 && final(self).remaining_bytes()
                    == old(self).remaining_bytes(),
                Err(_) => final(self).remaining_bytes() == old(self).remaining_bytes(),
            },
            old(self).spec_infallible() ==> r is Ok && final(self).spec_infallible(),
    ;
}

/// A sink for bytes; `Err` carries a description of an output failure.
pub trait ByteWriter {
    /// The bytes written so far, as this writer models them. A writer outside
    /// the verified library need not model its stream and can leave this
    /// default, an unspecified sequence.
    open spec fn written_bytes(&self) -> Seq<u8> {
        arbitrary()
    }

    /// Whether this writer promises that writing never fails. A writer that
    /// cannot keep that promise leaves this default, `false`; the in-memory
    /// writer overrides it.
    open spec fn spec_infallible(&self) -> bool {
        false
    }

    /// Write one byte: on success it is appended to the bytes written so far;
    /// on failure the sink is left as it was. An infallible writer succeeds
    /// and stays infallible.
    fn write_byte(&mut self, b: u8) -> (r: Result<(), String>)
        ensures
            match r {
                Ok(()) => final(self).written_bytes() == old(self).written_bytes().push(b),
                Err(_) => final(self).written_bytes() == old(self).written_bytes(),
            },
            old(self).spec_infallible() ==> r is Ok && final(self).spec_infallible(),
    ;
}

/// An in-memory byte source: a buffer read from front to back. Reading never
/// fails; once the buffer is exhausted every read reports end of input.
pub struct MemReader {
    data: Vec<u8>,
    pos: usize,
}

impl MemReader {
    /// A reader over the given bytes.
    pub fn new(data: Vec<u8>) -> (r: MemReader)
        ensures
            r.remaining_bytes() == data@,
    {
        MemReader { data, pos: 0 }
    }
}

impl ByteReader for MemReader {
    closed spec fn remaining_bytes(&self) -> Seq<u8> {
        if self.pos <= self.data@.len() {
            self.data@.skip(self.pos as int)
        } else {
            Seq::<u8>::empty()
        }
    }

    open spec fn spec_infallible(&self) -> bool {
        true
    }

    fn read_byte(&mut self) -> (r: Result<Option<u8>, String>)
        ensures
            r is Ok,
    {
        if self.pos < self.data.len() {
            let b = self.data[self.pos];
            self.pos = self.pos + 1;
            proof {
                assert(final(self).remaining_bytes() =~= old(self).remaining_bytes().drop_first());
            }
            Ok(Some(b))
        } else {
            Ok(None)
        }
    }
}

/// An in-memory byte sink: everything written lands in a growing buffer.
/// Writing never fails.
pub struct MemWriter {
    data: Vec<u8>,
}

impl MemWriter {
    /// An empty writer.
    pub fn new() -> (r: MemWriter)
        ensures
            r.written_bytes() == Seq::<u8>::empty(),
    {
        MemWriter { data: Vec::new() }
    }

    /// The bytes written so far.
    pub fn bytes(&self) -> (r: &Vec<u8>)
        ensures
            r@ == self.written_bytes(),
    {
        &self.data
    }

    /// Take the written bytes out of the writer.
    pub fn into_inner(self) -> (r: Vec<u8>)
        ensures
            r@ == self.written_bytes(),
    {
        self.data
    }
}

impl ByteWriter for MemWriter {
    closed spec fn written_bytes(&self) -> Seq<u8> {
        self.data@
    }

    open spec fn spec_infallible(&self) -> bool {
        true
    }

    fn write_byte(&mut self, b: u8) -> (r: Result<(), String>)
        ensures
            r is Ok,
    {
        self.data.push(b);
        Ok(())
    }
}

} // verus!
