//! The output sink: encoded bytes held in memory, and a cursor for reading
//! them back.

use vstd::prelude::*;
use vstd::slice::slice_subrange;
use vstd::slice::slice_to_vec;

verus! {

/// Mathematical model of an [`OutputSink`].
pub struct SinkView {
    /// Every byte written so far.
    pub data: Seq<u8>,
    /// How many of them have been read.
    pub position: nat,
}

/// A growable buffer of bytes. Writing appends and never moves the read
/// cursor; reading takes what lies behind the cursor and leaves the bytes in
/// place, so that they can be read again after a rewind. The cursor never
/// lies behind the end of the bytes.
pub struct OutputSink {
    data: Vec<u8>,
    position: usize,
}

impl View for OutputSink {
    type V = SinkView;

    closed spec fn view(&self) -> SinkView {
        SinkView {
            data: self.data@,
            position: if self.position <= self.data@.len() {
                self.position as nat
            } else {
                self.data@.len()
            },
        }
    }
}

impl OutputSink {
    /// The read cursor of every sink lies within its bytes.
    pub proof fn lemma_position_in_bounds(self)
        ensures
            self@.position <= self@.data.len(),
    {
    }

    /// An empty sink.
    pub fn new() -> (sink: OutputSink)
        ensures
            sink@.data == Seq::<u8>::empty(),
            sink@.position == 0,
    {
        OutputSink { data: Vec::new(), position: 0 }
    }

    /// How many bytes the sink holds.
    pub fn len(&self) -> (len: usize)
        ensures
            len == self@.data.len(),
    {
        self.data.len()
    }

    /// Appends `bytes`.
    pub fn write_all(&mut self, bytes: &[u8])
        ensures
            final(self)@.data == old(self)@.data + bytes@,
            final(self)@.position == old(self)@.position,
    {
        if self.position > self.data.len() {
            self.position = self.data.len();
        }
        self.data.extend_from_slice(bytes);
        assert(self.data@ =~= old(self).data@ + bytes@);
    }

    /// Moves the read cursor back to the first byte.
    pub fn rewind(&mut self)
        ensures
            final(self)@.data == old(self)@.data,
            final(self)@.position == 0,
    {
        self.position = 0;
    }

    /// Reads every byte behind the cursor and leaves the cursor at the end.
    /// The sink keeps its bytes.
    pub fn read_to_end(&mut self) -> (bytes: Vec<u8>)
        ensures
            old(self)@.position <= old(self)@.data.len(),
            bytes@ == old(self)@.data.subrange(
                old(self)@.position as int,
                old(self)@.data.len() as int,
            ),
            final(self)@.data == old(self)@.data,
            final(self)@.position == old(self)@.data.len(),
    {
        let end: usize = self.data.len();
        let start: usize = if self.position <= end {
            self.position
        } else {
            end
        };
        let bytes = slice_to_vec(slice_subrange(self.data.as_slice(), start, end));
        self.position = end;
        bytes
    }

    /// Rewinds, then reads the whole content: the terminal read of an encode
    /// cycle.
    pub fn drain(&mut self) -> (bytes: Vec<u8>)
        ensures
            bytes@ == old(self)@.data,
            final(self)@.data == old(self)@.data,
            final(self)@.position == old(self)@.data.len(),
    {
        self.rewind();
        let bytes = self.read_to_end();
        assert(bytes@ =~= old(self)@.data);
        bytes
    }
}

} // verus!
