//! The buffers and the descriptor that belong to one accepted connection.

use vstd::prelude::*;
use vstd::string::StrSliceExecFns;
use vstd::string::StringSliceAdditionalSpecFns;

verus! {

/// A raw file descriptor, as the operating system numbers it.
pub type RawFd = i32;

/// Number of bytes that one read may deliver.
pub const READ_BUFFER_SIZE: usize = 4096;

/// The reply that every request receives, headers and body.
pub const RESPONSE: &'static str =
    "HTTP/1.1 200 OK\nContent-Type: text/html\nConnection: keep-alive\nContent-Length: 6\n\nhello\n";

/// The bytes of [`RESPONSE`] as they go out on the wire.
pub open spec fn response_bytes() -> Seq<u8> {
    RESPONSE.spec_bytes()
}

/// The reply is 88 bytes long, one byte for each of its characters, and
/// ends in the six bytes of its body, `hello` and a line feed.
pub proof fn lemma_response_bytes()
    ensures
        response_bytes().len() == 88,
        forall|i: int| 0 <= i < 88 ==> response_bytes()[i] == RESPONSE@[i] as u8,
        response_bytes().subrange(82, 88) == seq![104u8, 101u8, 108u8, 108u8, 111u8, 10u8],
{
    reveal_strlit(
        "HTTP/1.1 200 OK\nContent-Type: text/html\nConnection: keep-alive\nContent-Length: 6\n\nhello\n",
    );
    vstd::string::is_ascii_spec_bytes(RESPONSE);
    assert(vstd::string::is_ascii(RESPONSE));
    assert(response_bytes().subrange(82, 88) =~= seq![104u8, 101u8, 108u8, 108u8, 111u8, 10u8]);
}

/// What a [`ConnectionData`] holds, as mathematical values.
#[verifier::ext_equal]
pub struct ConnectionView {
    pub fd: RawFd,
    pub read_buf: Seq<u8>,
    pub write_buf: Seq<u8>,
}

impl ConnectionView {
    /// The state of a connection that has just been accepted on `fd`: a
    /// zeroed read buffer and the canned reply.
    pub open spec fn fresh(fd: RawFd) -> ConnectionView {
        ConnectionView {
            fd,
            read_buf: Seq::new(READ_BUFFER_SIZE as nat, |i: int| 0u8),
            write_buf: response_bytes(),
        }
    }

    /// The buffers have their fixed shape: the read buffer its full size,
    /// the write buffer the canned reply.
    pub open spec fn wf(self) -> bool {
        &&& self.read_buf.len() == READ_BUFFER_SIZE
        &&& self.write_buf == response_bytes()
    }

    /// The same connection with `bytes` in its read buffer.
    pub open spec fn with_read_buf(self, bytes: Seq<u8>) -> ConnectionView {
        ConnectionView { read_buf: bytes, ..self }
    }
}

/// Owns the descriptor of one accepted connection together with the buffer
/// that reads fill and the buffer that writes send.
///
/// Dropping a value frees the buffers and leaves the descriptor open:
/// [`into_raw_fd`](ConnectionData::into_raw_fd) is the way to end a
/// connection, and whoever calls it closes what it returns.
#[derive(Debug)]
pub struct ConnectionData {
    fd: RawFd,
    read_buf: Box<[u8; READ_BUFFER_SIZE]>,
    write_buf: Vec<u8>,
}

impl View for ConnectionData {
    type V = ConnectionView;

    closed spec fn view(&self) -> ConnectionView {
        ConnectionView { fd: self.fd, read_buf: self.read_buf@, write_buf: self.write_buf@ }
    }
}

impl ConnectionData {
    /// Allocates the buffers for a connection accepted on `fd`.
    pub fn new(fd: RawFd) -> (data: Self)
        ensures
            data@ == ConnectionView::fresh(fd),
            data@.wf(),
    {
        let read_buf = Box::new([0u8; READ_BUFFER_SIZE]);
        let write_buf = RESPONSE.as_bytes_vec();
        assert(read_buf@ =~= Seq::new(READ_BUFFER_SIZE as nat, |i: int| 0u8));
        ConnectionData { fd, read_buf, write_buf }
    }

    /// The connection's descriptor.
    pub fn fd(&self) -> (fd: RawFd)
        ensures
            fd == self@.fd,
    {
        self.fd
    }

    /// The bytes that the last read left behind.
    pub fn read_buf(&self) -> (buf: &[u8; READ_BUFFER_SIZE])
        ensures
            buf@ == self@.read_buf,
    {
        &*self.read_buf
    }

    /// The buffer for the next read to fill. Its length is fixed; whatever
    /// the borrower writes is what the connection then holds.
    pub fn read_buf_mut(&mut self) -> (buf: &mut [u8; READ_BUFFER_SIZE])
        ensures
            buf@ == old(self)@.read_buf,
            final(self)@ == old(self)@.with_read_buf(final(buf)@),
            old(self)@.wf() ==> final(self)@.wf(),
    {
        &mut *self.read_buf
    }

    /// The bytes that a write sends.
    pub fn write_buf(&self) -> (buf: &[u8])
        ensures
            buf@ == self@.write_buf,
    {
        self.write_buf.as_slice()
    }

    /// Gives up the buffers and hands back the descriptor, which is now the
    /// caller's to close.
    pub fn into_raw_fd(self) -> (fd: RawFd)
        ensures
            fd == self@.fd,
    {
        self.fd
    }
}

} // verus!
