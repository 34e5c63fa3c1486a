//! The output buffer of a render pass.

use vstd::prelude::*;
use vstd::string::StringSliceAdditionalSpecFns;

verus! {

/// Whether a byte stream is empty or ends in a line feed.
pub open spec fn ends_with_lf(bytes: Seq<u8>) -> bool {
    bytes.len() == 0 || bytes.last() == 10u8
}

/// An output buffer that remembers whether the byte written last was a line
/// feed. A fresh buffer counts as ending in one.
pub struct WriteWithLast {
    output: Vec<u8>,
    last_was_lf: bool,
}

impl View for WriteWithLast {
    type V = Seq<u8>;

    /// The bytes written so far.
    closed spec fn view(&self) -> Seq<u8> {
        self.output@
    }
}

impl WriteWithLast {
    /// The flag agrees with the bytes written.
    pub closed spec fn wf(&self) -> bool {
        self.last_was_lf == ends_with_lf(self.output@)
    }

    /// An empty buffer.
    pub fn new() -> (w: Self)
        ensures
            w.wf(),
            w@ == Seq::<u8>::empty(),
    {
        WriteWithLast { output: Vec::new(), last_was_lf: true }
    }

    /// Whether the byte written last was a line feed (true before any write).
    pub fn last_was_lf(&self) -> (b: bool)
        requires
            self.wf(),
        ensures
            b == ends_with_lf(self@),
    {
        self.last_was_lf
    }

    /// Appends `buf` and returns the number of bytes taken, which is all of
    /// them.
    pub fn write(&mut self, buf: &[u8]) -> (n: usize)
        requires
            old(self).wf(),
        ensures
            final(self).wf(),
            final(self)@ == old(self)@ + buf@,
            n == buf@.len(),
    {
        let l: usize = buf.len();
        if l > 0 {
            self.last_was_lf = buf[l - 1] == 10;
        }
        self.output.extend_from_slice(buf);
        l
    }

    /// Appends the UTF-8 bytes of `s`.
    pub fn write_str(&mut self, s: &str)
        requires
            old(self).wf(),
        ensures
            final(self).wf(),
            final(self)@ == old(self)@ + s.spec_bytes(),
    {
        self.write(s.as_bytes());
    }

    /// Appends one byte.
    pub fn write_byte(&mut self, b: u8)
        requires
            old(self).wf(),
        ensures
            final(self).wf(),
            final(self)@ == old(self)@.push(b),
    {
        self.last_was_lf = b == 10;
        self.output.push(b);
    }

    /// The bytes written so far.
    pub fn as_bytes(&self) -> (bytes: &Vec<u8>)
        ensures
            bytes@ == self@,
    {
        &self.output
    }

    /// Gives up the buffer for the bytes written.
    pub fn into_bytes(self) -> (bytes: Vec<u8>)
        ensures
            bytes@ == self@,
    {
        self.output
    }
}

} // verus!
