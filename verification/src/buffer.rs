//! The receive buffer: allocated once, reused for every datagram.

use vstd::prelude::*;
use vstd::slice::slice_subrange;

verus! {

/// Size of the receive buffer in bytes: room for the largest datagram.
pub const BUFFER_SIZE: usize = 65536;

/// The bytes that datagrams are received into.
#[derive(Debug)]
pub struct UdpBuffer(pub Vec<u8>);

impl Default for UdpBuffer {
    /// A zeroed buffer of [`BUFFER_SIZE`] bytes.
    fn default() -> (buffer: Self)
        ensures
            buffer.0@ == Seq::new(BUFFER_SIZE as nat, |i: int| 0u8),
    {
        let bytes: Vec<u8> = vec![0u8; BUFFER_SIZE];
        assert(bytes@ =~= Seq::new(BUFFER_SIZE as nat, |i: int| 0u8));
        UdpBuffer(bytes)
    }
}

impl UdpBuffer {
    /// The payload of a datagram of `size` bytes that was received into the
    /// buffer: its first `size` bytes. What lies beyond is left over from
    /// earlier datagrams and is not handed out. `None` where the buffer
    /// cannot hold `size` bytes.
    pub fn payload(&self, size: usize) -> (payload: Option<&[u8]>)
        ensures
            match payload {
                Some(bytes) => size <= self.0@.len() && bytes@ == self.0@.take(size as int),
                None => size > self.0@.len(),
            },
    {
        if size <= self.0.len() {
            Some(slice_subrange(self.0.as_slice(), 0, size))
        } else {
            None
        }
    }
}

} // verus!
