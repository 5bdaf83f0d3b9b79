//! Storage for extracted field values that must outlive the call that
//! produced them: byte buffers, and the address and buffer tables that
//! point into them, cleared at the start of each extraction session.
use vstd::prelude::*;

verus! {

/// A byte buffer as handed across the plugin boundary: a length and the
/// address of its first byte.
#[derive(Clone, Copy, Debug, PartialEq, Eq, Structural)]
pub struct ByteBuffer {
    pub len: u32,
    pub addr: usize,
}

/// Buffers that live as long as the plugin instance; each session starts
/// by emptying them.
#[derive(Debug, Default)]
pub struct FieldStorage {
    pub byte_storage: Vec<Vec<u8>>,
    pub pointer_storage: Vec<Vec<usize>>,
    pub buffer_storage: Vec<Vec<ByteBuffer>>,
}

/// One extraction session: hands out fresh buffers that stay in the storage.
#[derive(Debug)]
pub struct FieldStorageSession<'a> {
    pub byte_storage: &'a mut Vec<Vec<u8>>,
    pub pointer_storage: &'a mut Vec<Vec<usize>>,
    pub buffer_storage: &'a mut Vec<Vec<ByteBuffer>>,
}

impl FieldStorage {
    /// Empties every buffer list and starts a session over them.
    pub fn start(&mut self) -> (s: FieldStorageSession<'_>)
        ensures
            s.byte_storage@.len() == 0,
            s.pointer_storage@.len() == 0,
            s.buffer_storage@.len() == 0,
            final(self).byte_storage == *final(s.byte_storage),
            final(self).pointer_storage == *final(s.pointer_storage),
            final(self).buffer_storage == *final(s.buffer_storage),
    {
        self.byte_storage.clear();
        self.pointer_storage.clear();
        self.buffer_storage.clear();
        FieldStorageSession {
            byte_storage: &mut self.byte_storage,
            pointer_storage: &mut self.pointer_storage,
            buffer_storage: &mut self.buffer_storage,
        }
    }
}

impl<'a> FieldStorageSession<'a> {
    /// A fresh, empty byte buffer, appended to the storage.
    pub fn get_byte_storage(&mut self) -> (r: &mut Vec<u8>)
        ensures
            r@.len() == 0,
            final(self).byte_storage@ == old(self).byte_storage@.push(*final(r)),
            *final(self).pointer_storage == *old(self).pointer_storage,
            *final(self).buffer_storage == *old(self).buffer_storage,
            *final(final(self).byte_storage) == *final(old(self).byte_storage),
            *final(final(self).pointer_storage) == *final(old(self).pointer_storage),
            *final(final(self).buffer_storage) == *final(old(self).buffer_storage),
    {
        self.byte_storage.push(Vec::new());
        let n = self.byte_storage.len();
        &mut self.byte_storage[n - 1]
    }

    /// A fresh byte buffer and a fresh address table, both appended.
    pub fn get_byte_and_pointer_storage(&mut self) -> (r: (&mut Vec<u8>, &mut Vec<usize>))
        ensures
            r.0@.len() == 0,
            r.1@.len() == 0,
            final(self).byte_storage@ == old(self).byte_storage@.push(*final(r.0)),
            final(self).pointer_storage@ == old(self).pointer_storage@.push(*final(r.1)),
            *final(self).buffer_storage == *old(self).buffer_storage,
            *final(final(self).byte_storage) == *final(old(self).byte_storage),
            *final(final(self).pointer_storage) == *final(old(self).pointer_storage),
            *final(final(self).buffer_storage) == *final(old(self).buffer_storage),
    {
        self.byte_storage.push(Vec::new());
        self.pointer_storage.push(Vec::new());
        let n = self.byte_storage.len();
        let m = self.pointer_storage.len();
        (&mut self.byte_storage[n - 1], &mut self.pointer_storage[m - 1])
    }

    /// A fresh byte buffer and a fresh buffer table, both appended.
    pub fn get_byte_and_buffer_storage(&mut self) -> (r: (&mut Vec<u8>, &mut Vec<ByteBuffer>))
        ensures
            r.0@.len() == 0,
            r.1@.len() == 0,
            final(self).byte_storage@ == old(self).byte_storage@.push(*final(r.0)),
            final(self).buffer_storage@ == old(self).buffer_storage@.push(*final(r.1)),
            *final(self).pointer_storage == *old(self).pointer_storage,
            *final(final(self).byte_storage) == *final(old(self).byte_storage),
            *final(final(self).pointer_storage) == *final(old(self).pointer_storage),
            *final(final(self).buffer_storage) == *final(old(self).buffer_storage),
    {
        self.byte_storage.push(Vec::new());
        self.buffer_storage.push(Vec::new());
        let n = self.byte_storage.len();
        let m = self.buffer_storage.len();
        (&mut self.byte_storage[n - 1], &mut self.buffer_storage[m - 1])
    }
}

} // verus!
