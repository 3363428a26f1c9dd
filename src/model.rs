use vstd::prelude::*;

use crate::config::INVALID_BYTE;
use crate::config::SKIP_THRESHOLD;

verus! {

/// What a frame decoder has taken in since it was last cleared.
pub struct DecoderView {
    /// Bytes taken into the current frame, in order: two address bytes
    /// (padding left out), the length byte, the payload and the end marker.
    pub accepted: Seq<u8>,
    /// Padding bytes seen in a row while an address byte is awaited.
    pub filler_run: nat,
}

/// Payload length declared by a frame's third byte.
pub open spec fn declared_len(s: Seq<u8>) -> nat {
    s[2] as nat
}

/// Number of bytes a complete frame with the header of `s` spans.
pub open spec fn frame_span(s: Seq<u8>) -> nat {
    4 + declared_len(s)
}

/// `s` is a prefix of a frame: it does not run past the end marker.
pub open spec fn is_frame_prefix(s: Seq<u8>) -> bool {
    s.len() >= 3 ==> s.len() <= frame_span(s)
}

/// `s` holds a whole frame, end marker included.
pub open spec fn is_complete(s: Seq<u8>) -> bool {
    s.len() >= 3 && s.len() == frame_span(s)
}

/// The next byte after `s` ends the frame.
pub open spec fn awaits_end_marker(s: Seq<u8>) -> bool {
    s.len() >= 3 && s.len() + 1 == frame_span(s)
}

/// Little-endian address made of the address bytes taken so far (zero where missing).
pub open spec fn line_address(s: Seq<u8>) -> int {
    (if s.len() > 0 { s[0] as int } else { 0 }) + 256 * (if s.len() > 1 { s[1] as int } else { 0 })
}

/// Payload bytes taken so far.
pub open spec fn line_payload(s: Seq<u8>) -> Seq<u8> {
    if s.len() < 3 {
        Seq::empty()
    } else if is_complete(s) {
        s.subrange(3, s.len() - 1)
    } else {
        s.subrange(3, s.len() as int)
    }
}

/// End marker of a complete frame, zero before it has come.
pub open spec fn line_end(s: Seq<u8>) -> u8 {
    if is_complete(s) {
        s.last()
    } else {
        0
    }
}

/// The state of a decoder that has taken nothing in.
pub open spec fn initial_view() -> DecoderView {
    DecoderView { accepted: Seq::empty(), filler_run: 0 }
}

/// The states a decoder can be in.
pub open spec fn view_ok(v: DecoderView) -> bool {
    &&& is_frame_prefix(v.accepted)
    &&& v.filler_run < SKIP_THRESHOLD
    &&& v.accepted.len() >= 2 ==> v.filler_run == 0
}

/// What `write(b)` answers in state `v`.
pub open spec fn step_result(v: DecoderView, b: u8) -> BuildReaderRes {
    if v.accepted.len() < 2 {
        if b == INVALID_BYTE {
            if v.filler_run + 1 >= SKIP_THRESHOLD {
                BuildReaderRes::IgnoreAndSkipData
            } else {
                BuildReaderRes::Ignore
            }
        } else {
            BuildReaderRes::Continue
        }
    } else if is_complete(v.accepted) {
        BuildReaderRes::Ignore
    } else if awaits_end_marker(v.accepted) {
        BuildReaderRes::EndLine
    } else {
        BuildReaderRes::Continue
    }
}

/// The state `write(b)` leaves behind from state `v`.
pub open spec fn step_view(v: DecoderView, b: u8) -> DecoderView {
    if v.accepted.len() < 2 {
        if b == INVALID_BYTE {
            DecoderView {
                accepted: v.accepted,
                filler_run: if v.filler_run + 1 >= SKIP_THRESHOLD { 0 } else { v.filler_run + 1 },
            }
        } else {
            DecoderView { accepted: v.accepted.push(b), filler_run: 0 }
        }
    } else if is_complete(v.accepted) {
        v
    } else {
        DecoderView { accepted: v.accepted.push(b), filler_run: v.filler_run }
    }
}

/// Streaming decoder of frames: two address bytes, a length byte, that many
/// payload bytes and an end marker. Padding bytes before an address byte are
/// skipped.
pub struct BuildReader {
    address_lo: u8,
    address_hi: u8,
    is_write_address: u8,
    buff: Vec<u8>,
    is_write_wlen: bool,
    wlen: u8,
    end_byte: u8,
    dwarn: bool,
    c_unk_bytes: u8,
}

impl View for BuildReader {
    type V = DecoderView;

    closed spec fn view(&self) -> DecoderView {
        let addr = if self.is_write_address == 0 {
            Seq::<u8>::empty()
        } else if self.is_write_address == 1 {
            seq![self.address_lo]
        } else {
            seq![self.address_lo, self.address_hi]
        };
        let accepted = if self.is_write_wlen {
            addr
        } else {
            let body = addr.push((self.buff@.len() + self.wlen) as u8) + self.buff@;
            if self.dwarn {
                body.push(self.end_byte)
            } else {
                body
            }
        };
        DecoderView { accepted, filler_run: self.c_unk_bytes as nat }
    }
}

impl BuildReader {
    /// Relation between the fields and the view.
    pub closed spec fn inv(&self) -> bool {
        &&& self.is_write_address <= 2
        &&& self.is_write_address < 2 ==> self.is_write_wlen
        &&& self.is_write_address == 0 ==> self.address_lo == 0
        &&& self.is_write_address < 2 ==> self.address_hi == 0
        &&& self.is_write_wlen ==> self.buff@.len() == 0 && self.wlen == 0 && !self.dwarn
        &&& self.buff@.len() + self.wlen <= 255
        &&& self.dwarn ==> self.wlen == 0
        &&& !self.dwarn ==> self.end_byte == 0
        &&& self.c_unk_bytes < SKIP_THRESHOLD
        &&& self.is_write_address == 2 ==> self.c_unk_bytes == 0
    }

    proof fn lemma_view(&self)
        requires
            self.inv(),
        ensures
            view_ok(self@),
            self@.accepted.len() < 2 <==> self.is_write_address < 2,
            self@.accepted.len() == 2 <==> (self.is_write_address == 2 && self.is_write_wlen),
            !self.is_write_wlen ==> self@.accepted.len() >= 3 && declared_len(self@.accepted) == self.buff@.len() + self.wlen,
            is_complete(self@.accepted) <==> self.dwarn,
            awaits_end_marker(self@.accepted) <==> (!self.is_write_wlen && !self.dwarn && self.wlen == 0),
            line_address(self@.accepted) == self.address_lo as int + 256 * self.address_hi as int,
            line_payload(self@.accepted) == self.buff@,
            line_end(self@.accepted) == self.end_byte,
    {
        let s = self@.accepted;
        if !self.is_write_wlen {
            assert(s[2] == (self.buff@.len() + self.wlen) as u8);
            assert(line_payload(s) =~= self.buff@);
        } else {
            assert(line_payload(s) =~= self.buff@);
        }
    }

    #[inline]
    pub fn empty() -> (r: Self)
        ensures
            r.inv(),
            r@ == initial_view(),
    {
        Self::with_capacity(125)
    }

    pub fn with_capacity(size: usize) -> (r: Self)
        ensures
            r.inv(),
            r@ == initial_view(),
    {
        let r = Self {
            address_lo: 0,
            address_hi: 0,
            is_write_address: 0,
            buff: Vec::with_capacity(size),
            is_write_wlen: true,
            wlen: 0,
            end_byte: 0,
            dwarn: false,
            c_unk_bytes: 0,
        };
        assert(r@.accepted =~= Seq::<u8>::empty());
        r
    }

    /// Forgets the frame taken in so far, ready for the next one.
    pub fn clear(&mut self)
        ensures
            final(self).inv(),
            final(self)@ == initial_view(),
    {
        self.address_lo = 0;
        self.address_hi = 0;
        self.is_write_address = 0;
        self.buff.clear();
        self.is_write_wlen = true;
        self.wlen = 0;
        self.end_byte = 0;
        self.dwarn = false;
        self.c_unk_bytes = 0;
        assert(self@.accepted =~= Seq::<u8>::empty());
    }

    /// The current frame is not yet complete.
    #[inline]
    pub fn is_maybe_write(&self) -> (r: bool)
        requires
            self.inv(),
        ensures
            r == !is_complete(self@.accepted),
    {
        proof {
            self.lemma_view();
        }
        !self.dwarn
    }

    /// Address, payload and end marker of the frame taken in so far.
    #[inline]
    pub fn get_line(&self) -> (r: (u16, &[u8], u8))
        requires
            self.inv(),
        ensures
            r.0 as int == line_address(self@.accepted),
            r.1@ == line_payload(self@.accepted),
            r.2 == line_end(self@.accepted),
    {
        proof {
            self.lemma_view();
        }
        (self.address_lo as u16 + self.address_hi as u16 * 256, self.buff.as_slice(), self.end_byte)
    }

    /// Takes in one byte of the stream.
    pub fn write(&mut self, abyte: u8) -> (r: BuildReaderRes)
        requires
            old(self).inv(),
        ensures
            final(self).inv(),
            r == step_result(old(self)@, abyte),
            final(self)@ == step_view(old(self)@, abyte),
    {
        proof {
            self.lemma_view();
        }
        let ghost v0 = self@;
        if self.is_write_address < 2 {
            if abyte == INVALID_BYTE {
                self.c_unk_bytes = self.c_unk_bytes + 1;
                if self.c_unk_bytes >= SKIP_THRESHOLD {
                    self.c_unk_bytes = 0;
                    assert(self@.accepted =~= v0.accepted);
                    return BuildReaderRes::IgnoreAndSkipData;
                }
                assert(self@.accepted =~= v0.accepted);
                return BuildReaderRes::Ignore;
            }
            if self.is_write_address == 0 {
                self.address_lo = abyte;
            } else {
                self.address_hi = abyte;
            }
            self.is_write_address = self.is_write_address + 1;
            self.c_unk_bytes = 0;
            assert(self@.accepted =~= v0.accepted.push(abyte));
            return BuildReaderRes::Continue;
        }
        if self.is_write_wlen {
            self.wlen = abyte;
            self.is_write_wlen = false;
            assert(self@.accepted =~= v0.accepted.push(abyte));
            return BuildReaderRes::Continue;
        }
        if self.wlen > 0 {
            self.buff.push(abyte);
            self.wlen = self.wlen - 1;
            assert(self@.accepted =~= v0.accepted.push(abyte));
            return BuildReaderRes::Continue;
        }
        if self.dwarn {
            return BuildReaderRes::Ignore;
        }
        self.end_byte = abyte;
        self.dwarn = true;
        assert(self@.accepted =~= v0.accepted.push(abyte));
        BuildReaderRes::EndLine
    }
}

/// Answer of the frame decoder to one byte.
#[derive(Debug, Clone, Copy, PartialEq, Eq, Structural)]
pub enum BuildReaderRes {
    /// The byte was an end marker: a whole frame is ready.
    EndLine,
    /// The byte was padding, or came after the end marker.
    Ignore,
    /// The byte completed a long run of padding: the rest of the read can go.
    IgnoreAndSkipData,
    /// The byte was taken into the frame.
    Continue,
}

impl BuildReaderRes {
    #[inline]
    pub fn is_end_line(&self) -> (r: bool)
        ensures
            r == (*self == BuildReaderRes::EndLine),
    {
        match self {
            BuildReaderRes::EndLine => true,
            _ => false,
        }
    }

    #[inline]
    pub fn is_continue(&self) -> (r: bool)
        ensures
            r == (*self == BuildReaderRes::Continue),
    {
        match self {
            BuildReaderRes::Continue => true,
            _ => false,
        }
    }

    #[inline]
    pub fn is_ignore(&self) -> (r: bool)
        ensures
            r == (*self == BuildReaderRes::Ignore),
    {
        match self {
            BuildReaderRes::Ignore => true,
            _ => false,
        }
    }

    #[inline]
    pub fn is_ignore_and_skipdata(&self) -> (r: bool)
        ensures
            r == (*self == BuildReaderRes::IgnoreAndSkipData),
    {
        match self {
            BuildReaderRes::IgnoreAndSkipData => true,
            _ => false,
        }
    }
}

/// One touch record as the controller sends it.
pub type TouchChunk = [u8; 7];

/// Size of a touch record in bytes.
pub const CHUNK_LEN: usize = 7;

/// Number of whole records a payload carries: none unless it starts with
/// the sentinel `0`, then one per full seven bytes after it.
pub open spec fn record_count(p: Seq<u8>) -> nat {
    if p.len() == 0 || p[0] != 0 {
        0
    } else {
        ((p.len() - 1) as nat) / 7
    }
}

/// The `i`-th record of a payload that starts with the sentinel.
pub open spec fn record_at(p: Seq<u8>, i: int) -> Seq<u8> {
    p.subrange(1 + 7 * i, 8 + 7 * i)
}

/// Record windows: a payload made of the sentinel `0` and `7·k + r` more
/// bytes (`r < 7`) carries exactly `k` records, the consecutive seven-byte
/// windows after the sentinel, and its last `r` bytes are dropped; a
/// payload that does not start with `0` carries none.
pub proof fn lemma_record_windows(p: Seq<u8>, k: nat, r: nat)
    requires
        p.len() == 1 + 7 * k + r,
        r < 7,
    ensures
        p[0] != 0 ==> record_count(p) == 0,
        p[0] == 0 ==> record_count(p) == k,
        forall|i: int| 0 <= i < k ==> 8 + 7 * i <= p.len() && (#[trigger] record_at(p, i)).len() == 7,
{
    assert((7 * k + r) / 7 == k) by (nonlinear_arith)
        requires r < 7;
    assert forall|i: int| 0 <= i < k implies 8 + 7 * i <= p.len() && (#[trigger] record_at(p, i)).len() == 7 by {
        assert(8 + 7 * i <= 1 + 7 * k) by (nonlinear_arith)
            requires 0 <= i < k;
    }
}

/// Extraction of touch records from a frame's payload.
pub struct Reader {}

impl Reader {
    /// The whole records of `payload`, in order; a trailing partial record
    /// is dropped.
    pub fn search(payload: &[u8]) -> (r: Vec<TouchChunk>)
        ensures
            r@.len() == record_count(payload@),
            forall|i: int| 0 <= i < r@.len() ==> (#[trigger] r@[i])@ == record_at(payload@, i),
    {
        let mut out: Vec<TouchChunk> = Vec::new();
        if payload.len() == 0 || payload[0] != 0 {
            return out;
        }
        let mut at: usize = 1;
        while payload.len() - at >= CHUNK_LEN
            invariant
                1 <= at <= payload@.len(),
                payload@.len() > 0 && payload@[0] == 0,
                (at - 1) % 7 == 0,
                out@.len() == (at - 1) / 7,
                forall|i: int| 0 <= i < out@.len() ==> (#[trigger] out@[i])@ == record_at(payload@, i),
            decreases payload@.len() - at,
        {
            let chunk: TouchChunk = [
                payload[at],
                payload[at + 1],
                payload[at + 2],
                payload[at + 3],
                payload[at + 4],
                payload[at + 5],
                payload[at + 6],
            ];
            assert(chunk@ =~= record_at(payload@, out@.len() as int));
            out.push(chunk);
            at = at + CHUNK_LEN;
        }
        out
    }
}

} // verus!
