//! Output that is kept in memory until the dump is complete.

use vstd::prelude::*;
use vstd::utf8::{decode_utf8, valid_utf8};

verus! {

/// The text that `String::from_utf8_lossy` makes of `bytes`.
pub uninterp spec fn utf8_lossy(bytes: Seq<u8>) -> Seq<char>;

/// `String::from_utf8_lossy`: valid UTF-8 becomes the text that it encodes; in other input,
/// replacement characters stand where bytes are not valid, and only the name [`utf8_lossy`] is
/// given to what comes out.
#[verifier::external_body]
fn string_from_utf8_lossy(bytes: &Vec<u8>) -> (text: String)
    ensures
        text@ == utf8_lossy(bytes@),
        valid_utf8(bytes@) ==> text@ == decode_utf8(bytes@),
{
    String::from_utf8_lossy(bytes).to_string()
}

/// A sink for output that keeps everything written to it.
pub struct BufferWriter {
    data: Vec<u8>,
}

impl View for BufferWriter {
    type V = Seq<u8>;

    /// The bytes written so far.
    closed spec fn view(&self) -> Seq<u8> {
        self.data@
    }
}

impl BufferWriter {
    /// A sink that nothing has been written to.
    pub fn new() -> (writer: BufferWriter)
        ensures
            writer@ == Seq::<u8>::empty(),
    {
        BufferWriter { data: Vec::new() }
    }

    /// Everything written so far, as text.
    pub fn get_output_as_string(&self) -> (text: String)
        ensures
            text@ == utf8_lossy(self@),
            valid_utf8(self@) ==> text@ == decode_utf8(self@),
    {
        string_from_utf8_lossy(&self.data)
    }

    /// Takes all of `buf`, and returns how many bytes that are. Memory takes every write.
    pub fn write(&mut self, buf: &[u8]) -> (r: std::result::Result<usize, std::io::Error>)
        ensures
            r matches Ok(n) && n == buf@.len(),
            final(self)@ == old(self)@ + buf@,
    {
        self.data.extend_from_slice(buf);
        Ok(buf.len())
    }

    /// Does nothing: what was written is already where it stays.
    pub fn flush(&mut self) -> (r: std::result::Result<(), std::io::Error>)
        ensures
            r is Ok,
            final(self)@ == old(self)@,
    {
        Ok(())
    }
}

} // verus!
