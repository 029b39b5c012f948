//! A connection endpoint with its read and write buffers.
use vstd::prelude::*;

verus! {

/// An IPv4 socket address: the four octets `a.b.c.d` and a port.
#[derive(Clone, Copy, Debug, PartialEq, Eq, Structural)]
pub struct SocketAddress {
    pub a: u8,
    pub b: u8,
    pub c: u8,
    pub d: u8,
    pub port: u16,
}

/// A connection: the socket address and its read and write buffers.
pub struct Connection {
    socket: SocketAddress,
    reader: Vec<u32>,
    writer: Vec<u32>,
}

/// The buffer `0, 1, ..., 1023`.
pub open spec fn initial_buffer() -> Seq<u32> {
    Seq::new(1024, |i: int| i as u32)
}

impl Connection {
    /// The socket address.
    pub closed spec fn socket_spec(&self) -> SocketAddress {
        self.socket
    }

    /// The read buffer.
    pub closed spec fn reader_spec(&self) -> Seq<u32> {
        self.reader@
    }

    /// The write buffer.
    pub closed spec fn writer_spec(&self) -> Seq<u32> {
        self.writer@
    }

    /// The connection to 127.0.0.1:8000 whose buffers both hold `0..1024`.
    pub fn new() -> (c: Connection)
        ensures
            c.socket_spec() == (SocketAddress { a: 127u8, b: 0u8, c: 0u8, d: 1u8, port: 8000u16 }),
            c.reader_spec() == initial_buffer(),
            c.writer_spec() == initial_buffer(),
    {
        let socket = SocketAddress { a: 127, b: 0, c: 0, d: 1, port: 8000 };
        let mut v: Vec<u32> = Vec::new();
        let mut i: u32 = 0;
        while i < 1024
            invariant
                i <= 1024,
                v@ == initial_buffer().take(i as int),
            decreases 1024 - i,
        {
            v.push(i);
            i = i + 1;
            assert(v@ =~= initial_buffer().take(i as int));
        }
        assert(v@ =~= initial_buffer());
        let mut w: Vec<u32> = Vec::new();
        let mut k: usize = 0;
        while k < v.len()
            invariant
                k <= v@.len(),
                w@ == v@.take(k as int),
            decreases v@.len() - k,
        {
            w.push(v[k]);
            k = k + 1;
            assert(w@ =~= v@.take(k as int));
        }
        assert(w@ =~= v@);
        Connection { socket, reader: w, writer: v }
    }

    /// The socket address.
    pub fn socket(&self) -> (s: SocketAddress)
        ensures
            s == self.socket_spec(),
    {
        self.socket
    }

    /// The read buffer.
    pub fn reader(&self) -> (r: &Vec<u32>)
        ensures
            r@ == self.reader_spec(),
    {
        &self.reader
    }

    /// The write buffer.
    pub fn writer(&self) -> (w: &Vec<u32>)
        ensures
            w@ == self.writer_spec(),
    {
        &self.writer
    }
}

} // verus!
