use vstd::prelude::*;

use crate::wire::{spec_parse_header, MessageHeader, RawFd, RawMessage};

verus! {

/// Most bytes that may sit buffered in either direction.
pub const DATA_BUFFER_SIZE: usize = 16384;

/// Most file descriptors that may sit buffered in either direction.
pub const FD_BUFFER_SIZE: usize = 16;

/// Most file descriptors one receive may carry.
pub const MAX_FDS: usize = 8;

/// How often reading is retried after a header before giving up.
pub const RECV_TRIES: u32 = 2;

/// How often a flush is retried before giving up.
pub const FLUSH_TRIES: u32 = 2;

/// Why the transport refused or failed.
#[derive(Debug, Clone, Copy, PartialEq, Eq, Structural)]
pub enum NetError {
    SocketBind,
    AcceptError,
    PollError,
    RecvError,
    WriteError,
    SendError,
    InsufficientData,
    BufferFull,
    InvalidMessage,
}

/// Bounded byte and file-descriptor buffering for one direction of a
/// connection.
pub struct MessageBuffer {
    pub data: Vec<u8>,
    pub fds: Vec<RawFd>,
}

/// The buffers never hold more than their bounds.
pub open spec fn buffer_wf(b: MessageBuffer) -> bool {
    b.data@.len() <= DATA_BUFFER_SIZE && b.fds@.len() <= FD_BUFFER_SIZE
}

impl MessageBuffer {
    pub fn new() -> (r: Self)
        ensures
            r.data@.len() == 0,
            r.fds@.len() == 0,
            buffer_wf(r),
    {
        MessageBuffer { data: Vec::new(), fds: Vec::new() }
    }

    pub fn is_empty(&self) -> (r: bool)
        ensures
            r == (self.data@.len() == 0 && self.fds@.len() == 0),
    {
        self.data.len() == 0 && self.fds.len() == 0
    }

    /// Take in more bytes and descriptors; overflowing either bound is
    /// refused whole, with the buffer unchanged.
    pub fn append(&mut self, data: &[u8], fds: &[RawFd]) -> (r: Result<(), NetError>)
        ensures
            match r {
                Ok(_) => {
                    &&& old(self).data@.len() + data@.len() <= DATA_BUFFER_SIZE
                    &&& old(self).fds@.len() + fds@.len() <= FD_BUFFER_SIZE
                    &&& final(self).data@ == old(self).data@ + data@
                    &&& final(self).fds@ == old(self).fds@ + fds@
                },
                Err(e) => {
                    &&& e == NetError::BufferFull
                    &&& old(self).data@.len() + data@.len() > DATA_BUFFER_SIZE || old(
                        self,
                    ).fds@.len() + fds@.len() > FD_BUFFER_SIZE
                    &&& final(self).data@ == old(self).data@
                    &&& final(self).fds@ == old(self).fds@
                },
            },
    {
        if self.data.len() > DATA_BUFFER_SIZE || data.len() > DATA_BUFFER_SIZE
            - self.data.len() {
            return Err(NetError::BufferFull);
        }
        if self.fds.len() > FD_BUFFER_SIZE || fds.len() > FD_BUFFER_SIZE - self.fds.len() {
            return Err(NetError::BufferFull);
        }
        push_all(&mut self.data, data);
        push_all_fds(&mut self.fds, fds);
        Ok(())
    }

    /// Hand out the first `data_len` bytes and `fd_count` descriptors,
    /// keeping the rest buffered.
    pub fn advance(&mut self, data_len: usize, fd_count: usize) -> (r: (Vec<u8>, Vec<RawFd>))
        requires
            data_len <= old(self).data@.len(),
            fd_count <= old(self).fds@.len(),
        ensures
            r.0@ == old(self).data@.take(data_len as int),
            r.1@ == old(self).fds@.take(fd_count as int),
            final(self).data@ == old(self).data@.skip(data_len as int),
            final(self).fds@ == old(self).fds@.skip(fd_count as int),
    {
        let head_data = vstd::slice::slice_to_vec(
            vstd::slice::slice_subrange(self.data.as_slice(), 0, data_len),
        );
        let rest_data = self.data.split_off(data_len);
        self.data = rest_data;
        let head_fds = vstd::slice::slice_to_vec(
            vstd::slice::slice_subrange(self.fds.as_slice(), 0, fd_count),
        );
        let rest_fds = self.fds.split_off(fd_count);
        self.fds = rest_fds;
        proof {
            assert(head_data@ =~= old(self).data@.take(data_len as int));
            assert(self.data@ =~= old(self).data@.skip(data_len as int));
            assert(head_fds@ =~= old(self).fds@.take(fd_count as int));
            assert(self.fds@ =~= old(self).fds@.skip(fd_count as int));
        }
        (head_data, head_fds)
    }

    /// Hand out everything buffered.
    pub fn advance_all(&mut self) -> (r: (Vec<u8>, Vec<RawFd>))
        ensures
            r.0@ == old(self).data@,
            r.1@ == old(self).fds@,
            final(self).data@.len() == 0,
            final(self).fds@.len() == 0,
    {
        let dl = self.data.len();
        let fl = self.fds.len();
        let r = self.advance(dl, fl);
        proof {
            assert(r.0@ =~= old(self).data@);
            assert(r.1@ =~= old(self).fds@);
        }
        r
    }
}

/// Append a byte slice onto a vector.
fn push_all(v: &mut Vec<u8>, s: &[u8])
    ensures
        final(v)@ == old(v)@ + s@,
{
    let n = s.len();
    let mut i: usize = 0;
    proof {
        assert(v@ =~= old(v)@ + s@.take(0));
    }
    while i < n
        invariant
            i <= n,
            n == s@.len(),
            v@ == old(v)@ + s@.take(i as int),
        decreases n - i,
    {
        v.push(*vstd::slice::slice_index_get(s, i));
        proof {
            assert(v@ =~= old(v)@ + s@.take(i + 1 as int));
        }
        i = i + 1;
    }
    proof {
        assert(s@.take(n as int) =~= s@);
    }
}

/// Append a descriptor slice onto a vector.
fn push_all_fds(v: &mut Vec<RawFd>, s: &[RawFd])
    ensures
        final(v)@ == old(v)@ + s@,
{
    let n = s.len();
    let mut i: usize = 0;
    proof {
        assert(v@ =~= old(v)@ + s@.take(0));
    }
    while i < n
        invariant
            i <= n,
            n == s@.len(),
            v@ == old(v)@ + s@.take(i as int),
        decreases n - i,
    {
        v.push(*vstd::slice::slice_index_get(s, i));
        proof {
            assert(v@ =~= old(v)@ + s@.take(i + 1 as int));
        }
        i = i + 1;
    }
    proof {
        assert(s@.take(n as int) =~= s@);
    }
}

/// The connection state the library keeps for one client: what has arrived
/// and not yet been framed, and the frames waiting to go out. The socket
/// itself stays outside the library.
pub struct NetClient {
    pub in_buffer: MessageBuffer,
    pub out_queue: Vec<RawMessage>,
    pub out_bytes: usize,
    pub out_fds: usize,
    pub pending: MessageBuffer,
}

/// Bytes a frame occupies on the wire.
pub open spec fn frame_len(m: RawMessage) -> int {
    8 + m.data@.len() as int
}

/// Total wire bytes of the queued outbound frames.
pub open spec fn queue_bytes(q: Seq<RawMessage>) -> int
    decreases q.len(),
{
    if q.len() == 0 {
        0
    } else {
        queue_bytes(q.drop_last()) + frame_len(q.last())
    }
}

/// Total file descriptors of the queued outbound frames.
pub open spec fn queue_fds(q: Seq<RawMessage>) -> int
    decreases q.len(),
{
    if q.len() == 0 {
        0
    } else {
        queue_fds(q.drop_last()) + q.last().fds@.len() as int
    }
}

/// The outbound counters track the queue, and both directions stay within
/// their byte and descriptor bounds.
pub open spec fn net_client_wf(c: NetClient) -> bool {
    &&& buffer_wf(c.in_buffer)
    &&& buffer_wf(c.pending)
    &&& c.out_bytes == queue_bytes(c.out_queue@)
    &&& c.out_fds == queue_fds(c.out_queue@)
    &&& c.out_bytes <= DATA_BUFFER_SIZE
    &&& c.out_fds <= FD_BUFFER_SIZE
}

impl NetClient {
    pub fn new() -> (r: Self)
        ensures
            net_client_wf(r),
            r.in_buffer.data@.len() == 0,
            r.in_buffer.fds@.len() == 0,
            r.out_queue@.len() == 0,
            r.pending.data@.len() == 0,
            r.pending.fds@.len() == 0,
    {
        let r = NetClient {
            in_buffer: MessageBuffer::new(),
            out_queue: Vec::new(),
            out_bytes: 0,
            out_fds: 0,
            pending: MessageBuffer::new(),
        };
        proof {
            assert(queue_bytes(r.out_queue@) == 0);
            assert(queue_fds(r.out_queue@) == 0);
        }
        r
    }

    /// Take in bytes and descriptors that arrived from the socket. An
    /// arrival that would overflow either inbound bound is refused whole.
    pub fn receive(&mut self, data: &[u8], fds: &[RawFd]) -> (r: Result<(), NetError>)
        requires
            net_client_wf(*old(self)),
        ensures
            net_client_wf(*final(self)),
            final(self).out_queue@ == old(self).out_queue@,
            match r {
                Ok(_) => {
                    &&& final(self).in_buffer.data@ == old(self).in_buffer.data@ + data@
                    &&& final(self).in_buffer.fds@ == old(self).in_buffer.fds@ + fds@
                },
                Err(e) => {
                    &&& e == NetError::BufferFull
                    &&& old(self).in_buffer.data@.len() + data@.len() > DATA_BUFFER_SIZE || old(
                        self,
                    ).in_buffer.fds@.len() + fds@.len() > FD_BUFFER_SIZE
                    &&& final(self).in_buffer.data@ == old(self).in_buffer.data@
                    &&& final(self).in_buffer.fds@ == old(self).in_buffer.fds@
                },
            },
    {
        self.in_buffer.append(data, fds)
    }

    /// The header at the front of the inbound buffer, once eight bytes are
    /// there.
    pub fn peek_header(&self) -> (r: Option<MessageHeader>)
        ensures
            match r {
                Some(h) => {
                    &&& self.in_buffer.data@.len() >= 8
                    &&& h == spec_parse_header(self.in_buffer.data@)
                },
                None => self.in_buffer.data@.len() < 8,
            },
    {
        if self.in_buffer.data.len() < 8 {
            return None;
        }
        let head = vstd::slice::slice_subrange(self.in_buffer.data.as_slice(), 0, 8);
        match MessageHeader::from_bytes(head) {
            Ok(h) => {
                proof {
                    assert(self.in_buffer.data@.subrange(0, 8).subrange(0, 4)
                        =~= self.in_buffer.data@.subrange(0, 4));
                    assert(self.in_buffer.data@.subrange(0, 8).subrange(4, 6)
                        =~= self.in_buffer.data@.subrange(4, 6));
                    assert(self.in_buffer.data@.subrange(0, 8).subrange(6, 8)
                        =~= self.in_buffer.data@.subrange(6, 8));
                }
                Some(h)
            },
            Err(_) => None,
        }
    }

    /// Take one complete frame off the inbound buffer. A frame whose size
    /// field undercuts its own header is refused as invalid; a frame whose
    /// bytes or descriptors have not all arrived yet is left buffered. A
    /// frame handed out always satisfies the framing rule: its size covers
    /// the header, and the payload is exactly the size minus the header.
    pub fn try_extract(&mut self, expected_fds: usize) -> (r: Result<
        Option<RawMessage>,
        NetError,
    >)
        requires
            net_client_wf(*old(self)),
        ensures
            net_client_wf(*final(self)),
            final(self).out_queue@ == old(self).out_queue@,
            match r {
                Ok(Some(m)) => {
                    &&& old(self).in_buffer.data@.len() >= 8
                    &&& m.header == spec_parse_header(old(self).in_buffer.data@)
                    &&& m.header.msg_size >= 8
                    &&& m.data@.len() == m.header.msg_size - 8
                    &&& m.data@ == old(self).in_buffer.data@.subrange(
                        8,
                        m.header.msg_size as int,
                    )
                    &&& m.fds@ == old(self).in_buffer.fds@.take(expected_fds as int)
                    &&& final(self).in_buffer.data@ == old(self).in_buffer.data@.skip(
                        m.header.msg_size as int,
                    )
                    &&& final(self).in_buffer.fds@ == old(self).in_buffer.fds@.skip(
                        expected_fds as int,
                    )
                },
                Ok(None) => {
                    &&& final(self).in_buffer.data@ == old(self).in_buffer.data@
                    &&& final(self).in_buffer.fds@ == old(self).in_buffer.fds@
                    &&& (old(self).in_buffer.data@.len() < 8 || spec_parse_header(
                        old(self).in_buffer.data@,
                    ).msg_size > old(self).in_buffer.data@.len() || expected_fds > old(
                        self,
                    ).in_buffer.fds@.len())
                },
                Err(e) => {
                    &&& e == NetError::InvalidMessage
                    &&& old(self).in_buffer.data@.len() >= 8
                    &&& spec_parse_header(old(self).in_buffer.data@).msg_size < 8
                    &&& final(self).in_buffer.data@ == old(self).in_buffer.data@
                    &&& final(self).in_buffer.fds@ == old(self).in_buffer.fds@
                },
            },
    {
        let header = match self.peek_header() {
            Some(h) => h,
            None => {
                return Ok(None);
            },
        };
        if header.msg_size < 8 {
            return Err(NetError::InvalidMessage);
        }
        let size = header.msg_size as usize;
        if size > self.in_buffer.data.len() || expected_fds > self.in_buffer.fds.len() {
            return Ok(None);
        }
        let (data, fds) = self.in_buffer.advance(size, expected_fds);
        let payload = vstd::slice::slice_to_vec(
            vstd::slice::slice_subrange(data.as_slice(), 8, data.len()),
        );
        proof {
            assert(payload@ =~= old(self).in_buffer.data@.subrange(8, size as int));
        }
        Ok(Some(RawMessage { header, data: payload, fds }))
    }

    /// Queue one frame to go out. A frame that would push the outbound
    /// queue past its byte bound or its descriptor bound is refused, and
    /// nothing is dropped.
    pub fn queue_message(&mut self, raw: RawMessage) -> (r: Result<(), NetError>)
        requires
            net_client_wf(*old(self)),
        ensures
            net_client_wf(*final(self)),
            final(self).in_buffer.data@ == old(self).in_buffer.data@,
            final(self).in_buffer.fds@ == old(self).in_buffer.fds@,
            final(self).pending == old(self).pending,
            match r {
                Ok(_) => {
                    &&& queue_bytes(old(self).out_queue@) + frame_len(raw) <= DATA_BUFFER_SIZE
                    &&& queue_fds(old(self).out_queue@) + raw.fds@.len() <= FD_BUFFER_SIZE
                    &&& final(self).out_queue@ == old(self).out_queue@.push(raw)
                },
                Err(e) => {
                    &&& e == NetError::BufferFull
                    &&& queue_bytes(old(self).out_queue@) + frame_len(raw) > DATA_BUFFER_SIZE
                        || queue_fds(old(self).out_queue@) + raw.fds@.len() > FD_BUFFER_SIZE
                    &&& final(self).out_queue@ == old(self).out_queue@
                },
            },
    {
        if raw.data.len() > DATA_BUFFER_SIZE - 8 || self.out_bytes > DATA_BUFFER_SIZE - 8
            - raw.data.len() {
            return Err(NetError::BufferFull);
        }
        if raw.fds.len() > FD_BUFFER_SIZE || self.out_fds > FD_BUFFER_SIZE - raw.fds.len() {
            return Err(NetError::BufferFull);
        }
        let ghost prevq = self.out_queue@;
        self.out_bytes = self.out_bytes + 8 + raw.data.len();
        self.out_fds = self.out_fds + raw.fds.len();
        self.out_queue.push(raw);
        proof {
            assert(self.out_queue@.drop_last() =~= prevq);
        }
        Ok(())
    }

    /// Take the next outbound frame, oldest first, for the caller to put on
    /// the wire.
    pub fn take_outgoing(&mut self) -> (r: Option<RawMessage>)
        requires
            net_client_wf(*old(self)),
        ensures
            net_client_wf(*final(self)),
            final(self).in_buffer.data@ == old(self).in_buffer.data@,
            final(self).in_buffer.fds@ == old(self).in_buffer.fds@,
            final(self).pending == old(self).pending,
            match r {
                Some(m) => {
                    &&& old(self).out_queue@.len() > 0
                    &&& m == old(self).out_queue@[0]
                    &&& final(self).out_queue@ == old(self).out_queue@.drop_first()
                },
                None => {
                    &&& old(self).out_queue@.len() == 0
                    &&& final(self).out_queue@ == old(self).out_queue@
                },
            },
    {
        if self.out_queue.len() == 0 {
            return None;
        }
        let ghost prevq = self.out_queue@;
        let m = self.out_queue.remove(0);
        proof {
            assert(self.out_queue@ =~= prevq.drop_first());
            lemma_queue_bytes_drop_first(prevq);
            lemma_queue_fds_drop_first(prevq);
        }
        self.out_bytes = self.out_bytes - 8 - m.data.len();
        self.out_fds = self.out_fds - m.fds.len();
        Some(m)
    }

    /// Move the oldest queued frame into the wire staging buffer, once it is
    /// empty: the frame's eight header bytes, its payload, and its
    /// descriptors, ready to be sent (perhaps partially). Returns whether
    /// anything is staged afterwards.
    pub fn stage_outgoing(&mut self) -> (r: bool)
        requires
            net_client_wf(*old(self)),
        ensures
            net_client_wf(*final(self)),
            final(self).in_buffer.data@ == old(self).in_buffer.data@,
            final(self).in_buffer.fds@ == old(self).in_buffer.fds@,
            r == (final(self).pending.data@.len() > 0 || final(self).pending.fds@.len() > 0),
            old(self).pending.data@.len() > 0 || old(self).pending.fds@.len() > 0
                ==> *final(self) == *old(self),
            (old(self).pending.data@.len() == 0 && old(self).pending.fds@.len() == 0 && old(
                self,
            ).out_queue@.len() > 0) ==> {
                &&& final(self).out_queue@ == old(self).out_queue@.drop_first()
                &&& final(self).pending.data@ == crate::wire::spec_header_bytes(
                    old(self).out_queue@[0].header,
                ) + old(self).out_queue@[0].data@
                &&& final(self).pending.fds@ == old(self).out_queue@[0].fds@
            },
            (old(self).pending.data@.len() == 0 && old(self).pending.fds@.len() == 0 && old(
                self,
            ).out_queue@.len() == 0) ==> final(self).out_queue@ == old(self).out_queue@
                && final(self).pending == old(self).pending,
    {
        if !self.pending.is_empty() {
            return true;
        }
        let ghost prevq = self.out_queue@;
        let m = match self.take_outgoing() {
            Some(m) => m,
            None => {
                return false;
            },
        };
        proof {
            lemma_queue_bytes_drop_first(prevq);
            lemma_queue_fds_drop_first(prevq);
            assert(frame_len(prevq[0]) <= DATA_BUFFER_SIZE);
            assert(prevq[0].fds@.len() <= FD_BUFFER_SIZE);
        }
        let mut wire = m.header.to_bytes();
        push_all(&mut wire, m.data.as_slice());
        let appended = self.pending.append(wire.as_slice(), m.fds.as_slice());
        proof {
            assert(appended is Ok);
            assert(self.pending.data@ =~= crate::wire::spec_header_bytes(m.header) + m.data@);
        }
        true
    }

    /// Drop the first `n` staged bytes and `fd_count` staged descriptors,
    /// after the caller put them on the wire; the unsent tail stays staged,
    /// so nothing is lost or reordered.
    pub fn consume_sent(&mut self, n: usize, fd_count: usize)
        requires
            net_client_wf(*old(self)),
            n <= old(self).pending.data@.len(),
            fd_count <= old(self).pending.fds@.len(),
        ensures
            net_client_wf(*final(self)),
            final(self).in_buffer == old(self).in_buffer,
            final(self).out_queue@ == old(self).out_queue@,
            final(self).pending.data@ == old(self).pending.data@.skip(n as int),
            final(self).pending.fds@ == old(self).pending.fds@.skip(fd_count as int),
    {
        let taken = self.pending.advance(n, fd_count);
    }
}

/// Taking the first frame off a queue drops exactly its wire bytes.
proof fn lemma_queue_bytes_drop_first(q: Seq<RawMessage>)
    requires
        q.len() > 0,
    ensures
        queue_bytes(q.drop_first()) == queue_bytes(q) - frame_len(q[0]),
        queue_bytes(q.drop_first()) >= 0,
        frame_len(q[0]) >= 0,
    decreases q.len(),
{
    lemma_queue_bytes_nonneg(q);
    if q.len() == 1 {
        assert(q.drop_first() =~= Seq::<RawMessage>::empty());
        assert(q.drop_last() =~= Seq::<RawMessage>::empty());
        assert(q.last() == q[0]);
    } else {
        let d = q.drop_last();
        lemma_queue_bytes_drop_first(d);
        assert(q.drop_first().drop_last() =~= d.drop_first());
        assert(q.drop_first().last() == q.last());
        assert(queue_bytes(q.drop_first()) == queue_bytes(d.drop_first()) + frame_len(q.last()));
        assert(d[0] == q[0]);
        lemma_queue_bytes_nonneg(q.drop_first());
    }
}

/// Taking the first frame off a queue drops exactly its descriptors.
proof fn lemma_queue_fds_drop_first(q: Seq<RawMessage>)
    requires
        q.len() > 0,
    ensures
        queue_fds(q.drop_first()) == queue_fds(q) - q[0].fds@.len(),
        queue_fds(q.drop_first()) >= 0,
    decreases q.len(),
{
    lemma_queue_fds_nonneg(q);
    if q.len() == 1 {
        assert(q.drop_first() =~= Seq::<RawMessage>::empty());
        assert(q.drop_last() =~= Seq::<RawMessage>::empty());
        assert(q.last() == q[0]);
    } else {
        let d = q.drop_last();
        lemma_queue_fds_drop_first(d);
        assert(q.drop_first().drop_last() =~= d.drop_first());
        assert(q.drop_first().last() == q.last());
        assert(queue_fds(q.drop_first()) == queue_fds(d.drop_first()) + q.last().fds@.len());
        assert(d[0] == q[0]);
        lemma_queue_fds_nonneg(q.drop_first());
    }
}

proof fn lemma_queue_fds_nonneg(q: Seq<RawMessage>)
    ensures
        queue_fds(q) >= 0,
    decreases q.len(),
{
    if q.len() > 0 {
        lemma_queue_fds_nonneg(q.drop_last());
    }
}

proof fn lemma_queue_bytes_nonneg(q: Seq<RawMessage>)
    ensures
        queue_bytes(q) >= 0,
    decreases q.len(),
{
    if q.len() > 0 {
        lemma_queue_bytes_nonneg(q.drop_last());
    }
}

} // verus!
