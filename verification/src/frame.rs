//! The framing engine: a growable byte region that accumulates raw stream
//! bytes and takes complete length-prefixed frames off its front.
//!
//! On the wire every frame is an 8-byte big-endian total length `L` (header
//! and payload together, so always at least 9) followed by `L - 8` payload
//! bytes. The buffer knows nothing of the transport: bytes are handed in as
//! chunks, and one receive step classifies what the transport produced, so a
//! closed stream is told apart from a frame still on its way.

use vstd::prelude::*;

verus! {

/// Byte `i` of the eight-byte big-endian form of `n`.
pub open spec fn be_byte(n: u64, i: int) -> u8
    recommends
        0 <= i < 8,
{
    ((n >> (((7 - i) * 8) as u64)) & 0xff) as u8
}

/// The eight-byte big-endian form of `n`.
pub open spec fn be_bytes(n: u64) -> Seq<u8> {
    Seq::new(8, |i: int| be_byte(n, i))
}

/// The value eight big-endian bytes stand for.
pub open spec fn from_be(s: Seq<u8>) -> u64
    recommends
        s.len() == 8,
{
    (((s[0] as u64) << 56) | ((s[1] as u64) << 48) | ((s[2] as u64) << 40) | ((s[3] as u64) << 32)
        | ((s[4] as u64) << 24) | ((s[5] as u64) << 16) | ((s[6] as u64) << 8) | (s[7] as u64))
}

/// Law: the big-endian form of a value reads back as that value.
pub proof fn lemma_be_round_trip(n: u64)
    ensures
        from_be(be_bytes(n)) == n,
{
    let s = be_bytes(n);
    let b0 = s[0];
    let b1 = s[1];
    let b2 = s[2];
    let b3 = s[3];
    let b4 = s[4];
    let b5 = s[5];
    let b6 = s[6];
    let b7 = s[7];
    assert((((b0 as u64) << 56) | ((b1 as u64) << 48) | ((b2 as u64) << 40) | ((b3 as u64) << 32)
        | ((b4 as u64) << 24) | ((b5 as u64) << 16) | ((b6 as u64) << 8) | (b7 as u64)) == n)
        by (bit_vector)
        requires
            b0 == ((n >> 56) & 0xff) as u8,
            b1 == ((n >> 48) & 0xff) as u8,
            b2 == ((n >> 40) & 0xff) as u8,
            b3 == ((n >> 32) & 0xff) as u8,
            b4 == ((n >> 24) & 0xff) as u8,
            b5 == ((n >> 16) & 0xff) as u8,
            b6 == ((n >> 8) & 0xff) as u8,
            b7 == ((n >> 0) & 0xff) as u8,
    ;
}

/// Writes `n` as eight big-endian bytes.
pub fn encode_be(n: u64) -> (r: Vec<u8>)
    ensures
        r@ == be_bytes(n),
{
    proof {
        assert((n >> 56) & 0xff < 256 && (n >> 48) & 0xff < 256 && (n >> 40) & 0xff < 256 && (n
            >> 32) & 0xff < 256 && (n >> 24) & 0xff < 256 && (n >> 16) & 0xff < 256 && (n >> 8)
            & 0xff < 256 && (n >> 0) & 0xff < 256) by (bit_vector);
    }
    let mut r: Vec<u8> = Vec::new();
    r.push(((n >> 56) & 0xff) as u8);
    r.push(((n >> 48) & 0xff) as u8);
    r.push(((n >> 40) & 0xff) as u8);
    r.push(((n >> 32) & 0xff) as u8);
    r.push(((n >> 24) & 0xff) as u8);
    r.push(((n >> 16) & 0xff) as u8);
    r.push(((n >> 8) & 0xff) as u8);
    r.push(((n >> 0) & 0xff) as u8);
    proof {
        assert(r@ =~= be_bytes(n));
    }
    r
}

/// The total length the first frame in `s` claims for itself.
pub open spec fn frame_len(s: Seq<u8>) -> int
    recommends
        s.len() >= 8,
{
    from_be(s.take(8)) as int
}

/// A wire-format violation: enough bytes for a prefix, but the prefix is
/// below the minimum of 9 that any frame has.
pub open spec fn prefix_malformed(s: Seq<u8>) -> bool {
    s.len() >= 8 && frame_len(s) < 9
}

/// Whether `s` opens with a complete frame.
pub open spec fn has_complete_frame(s: Seq<u8>) -> bool {
    s.len() >= 8 && 9 <= frame_len(s) <= s.len()
}

/// The payload of the complete frame `s` opens with.
pub open spec fn frame_payload(s: Seq<u8>) -> Seq<u8>
    recommends
        has_complete_frame(s),
{
    s.subrange(8, frame_len(s))
}

/// What stays buffered once the complete frame at the front of `s` is gone.
pub open spec fn frame_rest(s: Seq<u8>) -> Seq<u8>
    recommends
        has_complete_frame(s),
{
    s.skip(frame_len(s))
}

/// The bytes of one whole frame around `payload`.
pub open spec fn frame_for(payload: Seq<u8>) -> Seq<u8>
    recommends
        payload.len() + 8 <= u64::MAX,
{
    be_bytes((payload.len() + 8) as u64) + payload
}

/// A growable byte region plus the count of valid bytes at its front.
///
/// The region only ever grows, by doubling, so a burst of arriving bytes is
/// absorbed without reallocating for each one; the view is the valid prefix.
pub struct FrameBuffer {
    data: Vec<u8>,
    len: usize,
}

impl View for FrameBuffer {
    type V = Seq<u8>;

    closed spec fn view(&self) -> Seq<u8> {
        self.data@.take(self.len as int)
    }
}

impl FrameBuffer {
    /// The valid bytes never outrun the region, and the region is never empty,
    /// so doubling always makes progress.
    pub closed spec fn wf(&self) -> bool {
        self.len <= self.data@.len() && 1 <= self.data@.len()
    }

    /// How many bytes the region holds before it next grows.
    pub closed spec fn capacity(&self) -> int {
        self.data@.len() as int
    }

    /// A fresh, empty buffer over a region of `capacity` bytes.
    pub fn new(capacity: usize) -> (r: FrameBuffer)
        requires
            1 <= capacity,
        ensures
            r.wf(),
            r@ == Seq::<u8>::empty(),
            r.capacity() == capacity,
    {
        let mut data: Vec<u8> = Vec::new();
        let mut i: usize = 0;
        while i < capacity
            invariant
                i <= capacity,
                data@.len() == i,
            decreases capacity - i,
        {
            data.push(0);
            i = i + 1;
        }
        let r = FrameBuffer { data, len: 0 };
        proof {
            assert(r@ =~= Seq::<u8>::empty());
        }
        r
    }

    /// Doubles the region until at least `needed` bytes fit, leaving the
    /// buffered bytes as they were.
    fn grow_to(&mut self, needed: usize)
        requires
            old(self).wf(),
            needed <= usize::MAX / 2,
        ensures
            final(self).wf(),
            final(self)@ == old(self)@,
            final(self).capacity() >= needed,
            final(self).capacity() >= old(self).capacity(),
    {
        let mut target: usize = self.data.len();
        while target < needed
            invariant
                1 <= target,
                needed <= usize::MAX / 2,
            decreases (if target <= needed { needed - target } else { 0int }),
        {
            target = target * 2;
        }
        while self.data.len() < target
            invariant
                self.len == old(self).len,
                self.len <= self.data@.len(),
                1 <= self.data@.len(),
                self.data@.len() >= old(self).data@.len(),
                self.data@.take(self.len as int) == old(self)@,
            decreases target - self.data.len(),
        {
            self.data.push(0);
            proof {
                assert(self.data@.take(self.len as int) =~= old(self)@);
            }
        }
    }

    /// Appends `chunk` after the bytes already buffered, growing the region
    /// by doubling when the chunk would not fit.
    pub fn append(&mut self, chunk: &[u8])
        requires
            old(self).wf(),
            old(self)@.len() + chunk@.len() <= usize::MAX / 2,
        ensures
            final(self).wf(),
            final(self)@ == old(self)@ + chunk@,
            final(self).capacity() >= old(self).capacity(),
    {
        let n = chunk.len();
        let needed = self.len + n;
        if needed > self.data.len() {
            self.grow_to(needed);
        }
        let base = self.len;
        let mut i: usize = 0;
        while i < n
            invariant
                i <= n,
                n == chunk@.len(),
                base == self.len,
                self.len + n <= usize::MAX / 2,
                self.len + n <= self.data@.len(),
                self.data@.take(self.len as int) == old(self)@,
                self.data@.len() >= old(self).data@.len(),
                forall|j: int| 0 <= j < i ==> self.data@[base + j] == chunk@[j],
            decreases n - i,
        {
            let b = chunk[i];
            self.data.set(base + i, b);
            proof {
                assert(self.data@.take(self.len as int) =~= old(self)@);
            }
            i = i + 1;
        }
        self.len = base + n;
        proof {
            assert(self@ =~= old(self)@ + chunk@);
        }
    }

    /// How many bytes are currently buffered.
    pub fn buffered_len(&self) -> (r: usize)
        requires
            self.wf(),
        ensures
            r == self@.len(),
    {
        self.len
    }

    /// Reads the first eight buffered bytes as the big-endian frame length.
    fn peek_len(&self) -> (r: u64)
        requires
            self.wf(),
            self@.len() >= 8,
        ensures
            r == from_be(self@.take(8)),
    {
        let r = (((self.data[0] as u64) << 56) | ((self.data[1] as u64) << 48) | ((
        self.data[2] as u64) << 40) | ((self.data[3] as u64) << 32) | ((self.data[4] as u64) << 24)
            | ((self.data[5] as u64) << 16) | ((self.data[6] as u64) << 8) | (self.data[7] as u64));
        proof {
            let s = self@.take(8);
            assert forall|i: int| 0 <= i < 8 implies s[i] == self.data@[i] by {}
        }
        r
    }

    /// If the buffered bytes open with a complete frame, removes it and hands
    /// back its payload; reports nothing yet while the frame is still short,
    /// and a wire-format violation when the length prefix is below 9. Bytes
    /// of a following frame stay buffered, moved to the front.
    pub fn try_extract_frame(&mut self) -> (r: Result<Option<Vec<u8>>, FrameError>)
        requires
            old(self).wf(),
        ensures
            final(self).wf(),
            final(self).capacity() == old(self).capacity(),
            match r {
                Result::Ok(Option::Some(p)) => has_complete_frame(old(self)@) && p@
                    == frame_payload(old(self)@) && final(self)@ == frame_rest(old(self)@),
                Result::Ok(Option::None) => final(self)@ == old(self)@ && !has_complete_frame(
                    old(self)@,
                ) && !prefix_malformed(old(self)@),
                Result::Err(e) => final(self)@ == old(self)@ && e == FrameError::BadLength
                    && prefix_malformed(old(self)@),
            },
    {
        if self.len < 8 {
            return Ok(None);
        }
        let claimed = self.peek_len();
        if claimed < 9 {
            return Err(FrameError::BadLength);
        }
        if (self.len as u64) < claimed {
            return Ok(None);
        }
        let size: usize = claimed as usize;
        let ghost orig = self.data@;
        let ghost pre = self@;
        let mut payload: Vec<u8> = Vec::new();
        let mut i: usize = 8;
        while i < size
            invariant
                8 <= i <= size,
                size <= self.len,
                self.len <= self.data@.len(),
                self.data@ == orig,
                payload@.len() == i - 8,
                forall|j: int| 0 <= j < i - 8 ==> payload@[j] == orig[8 + j],
            decreases size - i,
        {
            let b = self.data[i];
            payload.push(b);
            i = i + 1;
        }
        let remaining = self.len - size;
        let mut j: usize = 0;
        while j < remaining
            invariant
                j <= remaining,
                remaining == self.len - size,
                9 <= size <= self.len,
                self.len <= self.data@.len(),
                self.data@.len() == orig.len(),
                forall|k: int| 0 <= k < j ==> self.data@[k] == orig[size + k],
                forall|k: int| j <= k < remaining ==> #[trigger] self.data@[size + k] == orig[size
                    + k],
            decreases remaining - j,
        {
            let b = self.data[size + j];
            self.data.set(j, b);
            j = j + 1;
        }
        self.len = remaining;
        proof {
            assert(size as u64 == claimed);
            assert(frame_len(pre) == size);
            assert(payload@ =~= frame_payload(pre));
            assert(self@ =~= frame_rest(pre));
        }
        Ok(Some(payload))
    }
}

/// A violation of the wire format: a length prefix below the minimum of 9.
#[derive(Debug, Clone, Copy, PartialEq, Eq, Structural)]
pub enum FrameError {
    BadLength,
}

/// Builds the frame for one encoded message: the total length — payload
/// bytes plus the eight header bytes — written big-endian, then the payload.
pub fn encode_frame(payload: &[u8]) -> (r: Vec<u8>)
    requires
        payload@.len() + 8 <= u64::MAX,
    ensures
        r@ == frame_for(payload@),
        r@.len() == payload@.len() + 8,
{
    let n = payload.len();
    let total: u64 = (n as u64) + 8;
    let mut r = encode_be(total);
    let mut i: usize = 0;
    while i < n
        invariant
            i <= n,
            n == payload@.len(),
            total == n + 8,
            r@.len() == 8 + i,
            r@.take(8) == be_bytes(total),
            forall|j: int| 0 <= j < i ==> r@[8 + j] == payload@[j],
        decreases n - i,
    {
        let b = payload[i];
        r.push(b);
        proof {
            assert(r@.take(8) =~= be_bytes(total));
        }
        i = i + 1;
    }
    proof {
        assert(r@ =~= frame_for(payload@));
    }
    r
}

/// One read handed to the receive logic: the bytes the transport produced,
/// a read that would have blocked, or an orderly end of stream.
pub enum ReadInput {
    Chunk(Vec<u8>),
    WouldBlock,
    Closed,
}

impl ReadInput {
    /// How many bytes this input carries.
    pub open spec fn byte_count(&self) -> int {
        match self {
            ReadInput::Chunk(c) => c@.len() as int,
            _ => 0,
        }
    }

    /// The buffered bytes once this input has been absorbed into `pre`.
    pub open spec fn absorbed_into(&self, pre: Seq<u8>) -> Seq<u8> {
        match self {
            ReadInput::Chunk(c) => pre + c@,
            _ => pre,
        }
    }
}

/// What one receive step produced.
#[derive(Debug, PartialEq, Eq)]
pub enum RecvOutcome {
    /// A complete frame arrived; this is its payload.
    Frame(Vec<u8>),
    /// No complete frame yet; try again once the transport has more.
    Pending,
    /// The peer closed the connection in an orderly way.
    PeerClosed,
    /// The bytes on the stream violate the wire format.
    Malformed,
}

/// One receive attempt over the frame buffer: absorbs what the transport
/// produced, then tries to take one complete frame off the front. An orderly
/// end of stream still delivers every complete frame already buffered —
/// successive calls drain them — and is reported as `PeerClosed`, never as
/// `Pending`, only once no complete frame is left, so a caller can tell the
/// peer hanging up from a frame still on its way.
pub fn recv_step(fb: &mut FrameBuffer, input: ReadInput) -> (r: RecvOutcome)
    requires
        old(fb).wf(),
        old(fb)@.len() + input.byte_count() <= usize::MAX / 2,
    ensures
        final(fb).wf(),
        match r {
            RecvOutcome::PeerClosed => input matches ReadInput::Closed && !has_complete_frame(
                old(fb)@,
            ) && !prefix_malformed(old(fb)@) && final(fb)@ == old(fb)@,
            RecvOutcome::Frame(p) => has_complete_frame(input.absorbed_into(old(fb)@)) && p@
                == frame_payload(input.absorbed_into(old(fb)@)) && final(fb)@ == frame_rest(
                input.absorbed_into(old(fb)@),
            ),
            RecvOutcome::Pending => !(input matches ReadInput::Closed) && !has_complete_frame(
                input.absorbed_into(old(fb)@),
            ) && !prefix_malformed(input.absorbed_into(old(fb)@)) && final(fb)@
                == input.absorbed_into(old(fb)@),
            RecvOutcome::Malformed => prefix_malformed(input.absorbed_into(old(fb)@))
                && final(fb)@ == input.absorbed_into(old(fb)@),
        },
{
    match input {
        ReadInput::Closed => match fb.try_extract_frame() {
            Ok(Some(p)) => RecvOutcome::Frame(p),
            Ok(None) => RecvOutcome::PeerClosed,
            Err(_) => RecvOutcome::Malformed,
        },
        ReadInput::WouldBlock => match fb.try_extract_frame() {
            Ok(Some(p)) => RecvOutcome::Frame(p),
            Ok(None) => RecvOutcome::Pending,
            Err(_) => RecvOutcome::Malformed,
        },
        ReadInput::Chunk(c) => {
            fb.append(c.as_slice());
            match fb.try_extract_frame() {
                Ok(Some(p)) => RecvOutcome::Frame(p),
                Ok(None) => RecvOutcome::Pending,
                Err(_) => RecvOutcome::Malformed,
            }
        },
    }
}

/// Law: a frame built around `payload`, followed by any later bytes, is read
/// back as exactly that frame — extraction recognizes it as complete, yields
/// `payload`, and leaves exactly the later bytes buffered.
pub proof fn lemma_frame_round_trip(payload: Seq<u8>, rest: Seq<u8>)
    requires
        1 <= payload.len(),
        payload.len() + 8 <= u64::MAX,
    ensures
        has_complete_frame(frame_for(payload) + rest),
        !prefix_malformed(frame_for(payload) + rest),
        frame_payload(frame_for(payload) + rest) == payload,
        frame_rest(frame_for(payload) + rest) == rest,
{
    let n = (payload.len() + 8) as u64;
    let b = frame_for(payload) + rest;
    lemma_be_round_trip(n);
    assert(b.take(8) =~= be_bytes(n));
    assert(frame_len(b) == payload.len() + 8);
    assert(frame_payload(b) =~= payload);
    assert(frame_rest(b) =~= rest);
}

/// Law: no strict prefix of a frame is mistaken for a complete frame or for
/// a wire-format violation — a receiver fed the frame a byte at a time stays
/// pending until the last byte arrives, and yields the message exactly once.
pub proof fn lemma_partial_frame_pending(payload: Seq<u8>, k: int)
    requires
        1 <= payload.len(),
        payload.len() + 8 <= u64::MAX,
        0 <= k < payload.len() + 8,
    ensures
        !has_complete_frame(frame_for(payload).take(k)),
        !prefix_malformed(frame_for(payload).take(k)),
{
    let b = frame_for(payload);
    let p = b.take(k);
    if k >= 8 {
        let n = (payload.len() + 8) as u64;
        lemma_be_round_trip(n);
        assert(p.take(8) =~= be_bytes(n));
        assert(frame_len(p) == payload.len() + 8);
    }
}

/// Law: an empty buffer holds neither a complete frame nor a violation, so
/// once everything delivered has been consumed, a receiver reports pending
/// rather than repeating a message.
pub proof fn lemma_empty_buffer_pending()
    ensures
        !has_complete_frame(Seq::<u8>::empty()),
        !prefix_malformed(Seq::<u8>::empty()),
{
}

/// Law: two frames arriving back to back are taken off in order — the first
/// extraction yields the first payload and leaves exactly the second frame,
/// whose own extraction yields the second payload and empties the buffer.
pub proof fn lemma_two_frames_in_order(p1: Seq<u8>, p2: Seq<u8>)
    requires
        1 <= p1.len(),
        p1.len() + 8 <= u64::MAX,
        1 <= p2.len(),
        p2.len() + 8 <= u64::MAX,
    ensures
        has_complete_frame(frame_for(p1) + frame_for(p2)),
        frame_payload(frame_for(p1) + frame_for(p2)) == p1,
        frame_rest(frame_for(p1) + frame_for(p2)) == frame_for(p2),
        has_complete_frame(frame_for(p2)),
        frame_payload(frame_for(p2)) == p2,
        frame_rest(frame_for(p2)) == Seq::<u8>::empty(),
{
    lemma_frame_round_trip(p1, frame_for(p2));
    lemma_frame_round_trip(p2, Seq::<u8>::empty());
    assert(frame_for(p2) + Seq::<u8>::empty() =~= frame_for(p2));
}

} // verus!
