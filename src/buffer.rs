use vstd::prelude::*;
use vstd::slice::slice_to_vec;

verus! {

/// Reusable scratch storage that a single field is rendered into before it
/// is copied out to an output record.
pub struct Buffer {
    bytes: Vec<u8>,
}

impl View for Buffer {
    type V = Seq<u8>;

    closed spec fn view(&self) -> Seq<u8> {
        self.bytes@
    }
}

impl Buffer {
    /// An empty buffer.
    pub fn new() -> (r: Buffer)
        ensures
            r@ == Seq::<u8>::empty(),
    {
        Buffer { bytes: Vec::new() }
    }

    /// Appends `data` to the buffer and reports how many bytes were written.
    pub fn write(&mut self, data: &[u8]) -> (r: usize)
        ensures
            final(self)@ == old(self)@ + data@,
            r == data@.len(),
    {
        let mut tail = slice_to_vec(data);
        self.bytes.append(&mut tail);
        data.len()
    }

    /// The bytes currently held.
    pub fn content(&self) -> (r: &[u8])
        ensures
            r@ == self@,
    {
        self.bytes.as_slice()
    }

    /// Number of bytes currently held.
    pub fn len(&self) -> (r: usize)
        ensures
            r == self@.len(),
    {
        self.bytes.len()
    }

    /// Empties the buffer so that it can be reused for the next field.
    pub fn clear(&mut self)
        ensures
            final(self)@ == Seq::<u8>::empty(),
    {
        self.bytes.clear();
    }
}

} // verus!
