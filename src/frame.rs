//! Wire framing: each message travels as one frame, a four-byte big-endian
//! payload length followed by the payload. The reader keeps what it has
//! received and takes whole frames off its front, so a message split across
//! reads, or several messages in one read, come out as sent.

use vstd::prelude::*;

verus! {

/// The largest payload a frame may carry, in bytes.
pub const CAP: usize = 10 * 1024;

/// Why bytes on the wire could not be framed or unframed.
#[derive(Clone, Copy, PartialEq, Eq, Structural, Debug)]
pub enum FrameError {
    /// A payload (or a received header) longer than [`CAP`].
    TooLarge,
}

/// The four big-endian bytes of `n`.
pub open spec fn be_bytes(n: nat) -> Seq<u8> {
    seq![
        (n / 0x100_0000 % 0x100) as u8,
        (n / 0x1_0000 % 0x100) as u8,
        (n / 0x100 % 0x100) as u8,
        (n % 0x100) as u8,
    ]
}

/// The number that the first four bytes of `s` spell, big-endian.
pub open spec fn header_value(s: Seq<u8>) -> nat {
    (s[0] as nat) * 0x100_0000 + (s[1] as nat) * 0x1_0000 + (s[2] as nat) * 0x100 + (s[3] as nat)
}

/// The frame that carries `payload`.
pub open spec fn frame_of(payload: Seq<u8>) -> Seq<u8> {
    be_bytes(payload.len()) + payload
}

/// The header of a frame gives back the payload's length.
pub proof fn lemma_header_of_frame(payload: Seq<u8>, rest: Seq<u8>)
    requires
        payload.len() < 0x1_0000_0000,
    ensures
        header_value(frame_of(payload) + rest) == payload.len(),
        (frame_of(payload) + rest).subrange(4, 4 + payload.len() as int) == payload,
        (frame_of(payload) + rest).subrange(4 + payload.len() as int, (frame_of(payload) + rest).len() as int)
            == rest,
{
    let n = payload.len();
    let s = frame_of(payload) + rest;
    assert(s[0] == (n / 0x100_0000 % 0x100) as u8);
    assert(s[1] == (n / 0x1_0000 % 0x100) as u8);
    assert(s[2] == (n / 0x100 % 0x100) as u8);
    assert(s[3] == (n % 0x100) as u8);
    assert(header_value(s) == n);
    assert(s.subrange(4, 4 + n as int) =~= payload);
    assert(s.subrange(4 + n as int, s.len() as int) =~= rest);
}

/// The frame that carries `payload`; a payload over [`CAP`] bytes is refused.
pub fn encode_frame(payload: &Vec<u8>) -> (r: Result<Vec<u8>, FrameError>)
    ensures
        payload@.len() <= CAP ==> (r matches Ok(f) && f@ == frame_of(payload@)),
        payload@.len() > CAP ==> r == Err::<Vec<u8>, FrameError>(FrameError::TooLarge),
{
    let n = payload.len();
    if n > CAP {
        return Err(FrameError::TooLarge);
    }
    let mut out: Vec<u8> = Vec::new();
    out.push((n / 0x100_0000 % 0x100) as u8);
    out.push((n / 0x1_0000 % 0x100) as u8);
    out.push((n / 0x100 % 0x100) as u8);
    out.push((n % 0x100) as u8);
    let mut i: usize = 0;
    while i < n
        invariant
            n == payload@.len(),
            0 <= i <= n,
            out@ == be_bytes(n as nat) + payload@.subrange(0, i as int),
        decreases n - i,
    {
        out.push(payload[i]);
        i += 1;
        assert(out@ =~= be_bytes(n as nat) + payload@.subrange(0, i as int));
    }
    assert(payload@.subrange(0, n as int) =~= payload@);
    Ok(out)
}

/// Bytes received and not yet taken off as frames.
#[derive(Debug)]
pub struct FrameBuffer {
    buf: Vec<u8>,
}

impl View for FrameBuffer {
    type V = Seq<u8>;

    closed spec fn view(&self) -> Seq<u8> {
        self.buf@
    }
}

impl FrameBuffer {
    /// Nothing received yet.
    pub fn new() -> (r: Self)
        ensures
            r@ == Seq::<u8>::empty(),
    {
        FrameBuffer { buf: Vec::new() }
    }

    /// Appends bytes just read.
    pub fn extend(&mut self, bytes: &[u8])
        ensures
            final(self)@ == old(self)@ + bytes@,
    {
        let mut i: usize = 0;
        while i < bytes.len()
            invariant
                0 <= i <= bytes@.len(),
                self@ == old(self)@ + bytes@.subrange(0, i as int),
            decreases bytes@.len() - i,
        {
            self.buf.push(bytes[i]);
            i += 1;
            assert(self@ =~= old(self)@ + bytes@.subrange(0, i as int));
        }
        assert(bytes@.subrange(0, bytes@.len() as int) =~= bytes@);
    }

    /// Takes the first whole frame off the front and returns its payload;
    /// `None` while the bytes so far hold no whole frame, and an error
    /// (with nothing taken) where the header announces more than [`CAP`].
    pub fn next_frame(&mut self) -> (r: Result<Option<Vec<u8>>, FrameError>)
        ensures
            ({
                let s = old(self)@;
                let t = final(self)@;
                let h = header_value(s);
                if s.len() < 4 {
                    r == Ok::<Option<Vec<u8>>, FrameError>(None) && t == s
                } else if h > CAP {
                    r == Err::<Option<Vec<u8>>, FrameError>(FrameError::TooLarge) && t == s
                } else if s.len() < 4 + h {
                    r == Ok::<Option<Vec<u8>>, FrameError>(None) && t == s
                } else {
                    &&& r matches Ok(Some(p))
                    &&& p@ == s.subrange(4, 4 + h as int)
                    &&& t == s.subrange(4 + h as int, s.len() as int)
                }
            }),
    {
        let len = self.buf.len();
        if len < 4 {
            return Ok(None);
        }
        let n: u64 = (self.buf[0] as u64) * 0x100_0000 + (self.buf[1] as u64) * 0x1_0000
            + (self.buf[2] as u64) * 0x100 + (self.buf[3] as u64);
        assert(n == header_value(self@));
        if n > CAP as u64 {
            return Err(FrameError::TooLarge);
        }
        let n = n as usize;
        if len - 4 < n {
            return Ok(None);
        }
        let mut payload: Vec<u8> = Vec::new();
        let mut i: usize = 0;
        while i < n
            invariant
                n + 4 <= len == self.buf@.len(),
                0 <= i <= n,
                payload@ == self.buf@.subrange(4, 4 + i),
            decreases n - i,
        {
            payload.push(self.buf[4 + i]);
            i += 1;
            assert(payload@ =~= self.buf@.subrange(4, 4 + i));
        }
        let mut rest: Vec<u8> = Vec::new();
        let mut j: usize = 4 + n;
        while j < len
            invariant
                n + 4 <= j <= len == self.buf@.len(),
                rest@ == self.buf@.subrange(4 + n, j as int),
            decreases len - j,
        {
            rest.push(self.buf[j]);
            j += 1;
            assert(rest@ =~= self.buf@.subrange(4 + n, j as int));
        }
        self.buf = rest;
        Ok(Some(payload))
    }
}

/// A frame put in an empty buffer comes out whole, and the bytes after it
/// stay for the next frame.
pub proof fn law_frame_round_trip(payload: Seq<u8>, rest: Seq<u8>)
    requires
        payload.len() <= CAP,
    ensures
        ({
            let s = frame_of(payload) + rest;
            &&& s.len() >= 4
            &&& header_value(s) == payload.len()
            &&& s.len() >= 4 + header_value(s)
            &&& s.subrange(4, 4 + header_value(s) as int) == payload
            &&& s.subrange(4 + header_value(s) as int, s.len() as int) == rest
        }),
{
    lemma_header_of_frame(payload, rest);
}

} // verus!
