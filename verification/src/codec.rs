//! CRLF line framing over a raw byte stream: a growable receive buffer that
//! yields the bytes strictly before each two-byte CRLF terminator as one
//! frame, and a growable send buffer that hands bytes out as the socket
//! accepts them.
use vstd::prelude::*;

use crate::bytebuf::{buf_bytes, buf_extend, buf_len, buf_new, buf_slice, buf_split_to};

verus! {

/// The two-byte frame terminator.
pub open spec fn crlf() -> Seq<u8> {
    seq![13u8, 10u8]
}

/// A CRLF terminator starts at index `i` of `b`.
pub open spec fn has_crlf_at(b: Seq<u8>, i: int) -> bool {
    0 <= i && i + 2 <= b.len() && b[i] == 13u8 && b[i + 1] == 10u8
}

/// Index of the first CRLF terminator in `b`, or -1 when there is none.
pub open spec fn first_crlf(b: Seq<u8>) -> int
    decreases b.len(),
{
    if b.len() < 2 {
        -1
    } else if b[0] == 13u8 && b[1] == 10u8 {
        0
    } else {
        let r = first_crlf(b.skip(1));
        if r < 0 {
            -1
        } else {
            r + 1
        }
    }
}

/// `first_crlf` finds exactly the least index carrying a terminator.
pub proof fn lemma_first_crlf(b: Seq<u8>)
    ensures
        first_crlf(b) == -1 <==> forall|i: int| !has_crlf_at(b, i),
        first_crlf(b) >= 0 ==> has_crlf_at(b, first_crlf(b)),
        first_crlf(b) >= 0 ==> forall|i: int| 0 <= i < first_crlf(b) ==> !has_crlf_at(b, i),
    decreases b.len(),
{
    if b.len() < 2 {
        assert(forall|i: int| !has_crlf_at(b, i));
    } else if b[0] == 13u8 && b[1] == 10u8 {
        assert(has_crlf_at(b, 0));
    } else {
        lemma_first_crlf(b.skip(1));
        assert forall|i: int| 1 <= i implies has_crlf_at(b, i) == has_crlf_at(b.skip(1), i - 1) by {
            if 1 <= i && i + 2 <= b.len() {
                assert(b.skip(1)[i - 1] == b[i]);
                assert(b.skip(1)[i] == b[i + 1]);
            }
        }
        assert(!has_crlf_at(b, 0));
        let r = first_crlf(b.skip(1));
        if r < 0 {
            assert forall|i: int| !has_crlf_at(b, i) by {
                if i >= 1 {
                    assert(!has_crlf_at(b.skip(1), i - 1));
                }
            }
        } else {
            assert(has_crlf_at(b.skip(1), r));
            assert(has_crlf_at(b, r + 1));
            assert forall|i: int| 0 <= i < r + 1 implies !has_crlf_at(b, i) by {
                if i >= 1 {
                    assert(!has_crlf_at(b.skip(1), i - 1));
                }
            }
        }
    }
}

/// The least terminator index leaves room for the two terminator bytes.
pub proof fn lemma_first_crlf_bounds(b: Seq<u8>)
    ensures
        first_crlf(b) == -1 || (0 <= first_crlf(b) && first_crlf(b) + 2 <= b.len()),
{
    lemma_first_crlf(b);
    if first_crlf(b) >= 0 {
        assert(has_crlf_at(b, first_crlf(b)));
    }
}

/// A position that carries a terminator, with none before it, is the first.
pub proof fn lemma_first_crlf_unique(b: Seq<u8>, p: int)
    requires
        has_crlf_at(b, p),
        forall|i: int| 0 <= i < p ==> !has_crlf_at(b, i),
    ensures
        first_crlf(b) == p,
{
    lemma_first_crlf(b);
    let f = first_crlf(b);
    if f == -1 {
        assert(!has_crlf_at(b, p));
    } else if f < p {
        assert(!has_crlf_at(b, f));
    } else if f > p {
        assert(!has_crlf_at(b, p));
    }
}

/// Scan a slice for the first CRLF terminator.
fn find_crlf(s: &[u8]) -> (r: Option<usize>)
    ensures
        match r {
            Some(p) => p == first_crlf(s@),
            None => first_crlf(s@) == -1,
        },
{
    let n = s.len();
    if n < 2 {
        proof {
            assert(forall|j: int| !has_crlf_at(s@, j));
            lemma_first_crlf(s@);
        }
        return None;
    }
    let mut i: usize = 0;
    while i < n - 1
        invariant
            n == s@.len(),
            2 <= n,
            i <= n - 1,
            forall|j: int| 0 <= j < i ==> !has_crlf_at(s@, j),
        decreases n - i,
    {
        if s[i] == 13u8 && s[i + 1] == 10u8 {
            proof {
                lemma_first_crlf_unique(s@, i as int);
            }
            return Some(i);
        }
        i += 1;
    }
    proof {
        assert(forall|j: int| !has_crlf_at(s@, j));
        lemma_first_crlf(s@);
    }
    None
}

/// `b` holds no terminator at all.
pub open spec fn crlf_free(b: Seq<u8>) -> bool {
    first_crlf(b) == -1
}

/// The frames a byte stream cuts into: repeatedly, the bytes strictly before
/// the first CRLF, consuming the terminator as well.
pub open spec fn frames_of(b: Seq<u8>) -> Seq<Seq<u8>>
    decreases b.len(),
{
    let p = first_crlf(b);
    if p < 0 || p + 2 > b.len() {
        Seq::empty()
    } else {
        seq![b.take(p)] + frames_of(b.skip(p + 2))
    }
}

/// What remains of a byte stream after every complete frame is cut off: the
/// bytes after the last terminator.
pub open spec fn rest_of(b: Seq<u8>) -> Seq<u8>
    decreases b.len(),
{
    let p = first_crlf(b);
    if p < 0 || p + 2 > b.len() {
        b
    } else {
        rest_of(b.skip(p + 2))
    }
}

/// How many CRLF terminators a byte stream holds, scanned left to right
/// without overlap.
pub open spec fn crlf_count(b: Seq<u8>) -> nat
    decreases b.len(),
{
    let p = first_crlf(b);
    if p < 0 || p + 2 > b.len() {
        0
    } else {
        1 + crlf_count(b.skip(p + 2))
    }
}

/// One unfolding step of the three stream functions, with the guard on the
/// terminator's position discharged.
pub proof fn lemma_stream_unfold(b: Seq<u8>)
    ensures
        first_crlf(b) < 0 ==> frames_of(b) == Seq::<Seq<u8>>::empty() && rest_of(b) == b
            && crlf_count(b) == 0,
        first_crlf(b) >= 0 ==> {
            let p = first_crlf(b);
            &&& p + 2 <= b.len()
            &&& frames_of(b) == seq![b.take(p)] + frames_of(b.skip(p + 2))
            &&& rest_of(b) == rest_of(b.skip(p + 2))
            &&& crlf_count(b) == 1 + crlf_count(b.skip(p + 2))
        },
{
    lemma_first_crlf_bounds(b);
}

/// A stream yields one frame per terminator.
pub proof fn lemma_frames_count(b: Seq<u8>)
    ensures
        frames_of(b).len() == crlf_count(b),
    decreases b.len(),
{
    lemma_stream_unfold(b);
    let p = first_crlf(b);
    if p >= 0 {
        lemma_frames_count(b.skip(p + 2));
    }
}

/// Glue a sequence of frames back together, a CRLF after each.
pub open spec fn rejoin(frames: Seq<Seq<u8>>) -> Seq<u8>
    decreases frames.len(),
{
    if frames.len() == 0 {
        Seq::empty()
    } else {
        frames[0] + crlf() + rejoin(frames.skip(1))
    }
}

/// Decomposition: the frames, each followed by its terminator, and the
/// residue reassemble the stream exactly; no frame and not the residue holds
/// a terminator. So every yielded frame lies strictly between two markers and
/// carries no marker itself.
pub proof fn lemma_stream_decomposition(b: Seq<u8>)
    ensures
        rejoin(frames_of(b)) + rest_of(b) == b,
        forall|i: int| 0 <= i < frames_of(b).len() ==> crlf_free(#[trigger] frames_of(b)[i]),
        crlf_free(rest_of(b)),
    decreases b.len(),
{
    lemma_first_crlf(b);
    lemma_stream_unfold(b);
    let p = first_crlf(b);
    if p < 0 {
        assert(rejoin(frames_of(b)) + rest_of(b) =~= b);
    } else {
        let head = b.take(p);
        let tail = b.skip(p + 2);
        lemma_stream_decomposition(tail);
        // the front frame holds no terminator: one inside it would sit before p
        assert forall|i: int| !has_crlf_at(head, i) by {
            if 0 <= i && i + 2 <= head.len() {
                assert(head[i] == b[i] && head[i + 1] == b[i + 1]);
                assert(!has_crlf_at(b, i));
            }
        }
        lemma_first_crlf(head);
        let fs = frames_of(b);
        let ft = frames_of(tail);
        assert(fs[0] == head);
        assert(fs.skip(1) =~= ft);
        assert(rejoin(fs) == head + crlf() + rejoin(ft));
        assert(has_crlf_at(b, p));
        assert(rejoin(ft) + rest_of(tail) == tail);
        assert(rejoin(fs) + rest_of(b) =~= b) by {
            assert forall|i: int| 0 <= i < b.len() implies (rejoin(fs) + rest_of(b))[i] == b[i] by {
                if i < p {
                    assert((head + crlf() + rejoin(ft))[i] == head[i]);
                    assert(head[i] == b[i]);
                } else if i < p + 2 {
                    assert((head + crlf() + rejoin(ft))[i] == crlf()[i - p]);
                } else {
                    let j = i - (p + 2);
                    assert((rejoin(ft) + rest_of(tail))[j] == tail[j]);
                    assert(tail[j] == b[i]);
                    if j < rejoin(ft).len() {
                        assert((head + crlf() + rejoin(ft))[i] == rejoin(ft)[j]);
                    } else {
                        assert((rejoin(fs) + rest_of(b))[i] == rest_of(tail)[j - rejoin(ft).len()]);
                    }
                }
            }
            assert((rejoin(fs) + rest_of(b)).len() == b.len());
        }
        assert forall|i: int| 0 <= i < fs.len() implies crlf_free(#[trigger] fs[i]) by {
            if i >= 1 {
                assert(fs[i] == frames_of(tail)[i - 1]);
            }
        }
    }
}

/// Uniqueness: any split of the stream into terminator-free frames, each
/// closed by a CRLF, and a terminator-free residue is the split the codec
/// finds. Together with the decomposition this pins the codec's output: a
/// stream with M markers yields exactly M frames, each the bytes strictly
/// between consecutive markers.
pub proof fn lemma_stream_decomposition_unique(fs: Seq<Seq<u8>>, r: Seq<u8>, b: Seq<u8>)
    requires
        b == rejoin(fs) + r,
        forall|i: int| 0 <= i < fs.len() ==> crlf_free(#[trigger] fs[i]),
        crlf_free(r),
    ensures
        frames_of(b) == fs,
        rest_of(b) == r,
    decreases fs.len(),
{
    lemma_stream_unfold(b);
    if fs.len() == 0 {
        assert(b =~= r);
        lemma_first_crlf(r);
        lemma_first_crlf(b);
    } else {
        let f0 = fs[0];
        let n = f0.len() as int;
        let tail = rejoin(fs.skip(1)) + r;
        assert(b =~= f0 + crlf() + tail);
        lemma_first_crlf(f0);
        // the first terminator of `b` closes the first frame
        assert(has_crlf_at(b, n));
        assert forall|i: int| 0 <= i < n implies !has_crlf_at(b, i) by {
            if i + 2 <= n {
                assert(f0[i] == b[i] && f0[i + 1] == b[i + 1]);
                if has_crlf_at(b, i) {
                    assert(has_crlf_at(f0, i));
                }
            } else {
                // the pair would straddle the terminator: b[i + 1] is CR
                assert(i + 1 == n);
                assert(b[i + 1] == 13u8);
            }
        }
        lemma_first_crlf_unique(b, n);
        lemma_stream_unfold(b);
        assert(b.take(n) =~= f0);
        assert(b.skip(n + 2) =~= tail);
        lemma_stream_decomposition_unique(fs.skip(1), r, tail);
        assert(frames_of(b) =~= fs);
    }
}

/// Feeding a stream in two parts is the same as feeding it whole: the frames
/// of the whole are the frames of the first part followed by the frames of
/// its residue joined with the second part. So a frame split across two read
/// events is yielded once, reassembled.
pub proof fn lemma_frames_incremental(s1: Seq<u8>, s2: Seq<u8>)
    ensures
        frames_of(s1 + s2) == frames_of(s1) + frames_of(rest_of(s1) + s2),
        rest_of(s1 + s2) == rest_of(rest_of(s1) + s2),
    decreases s1.len(),
{
    lemma_first_crlf(s1);
    lemma_stream_unfold(s1);
    let p = first_crlf(s1);
    if p < 0 {
        assert(rest_of(s1) + s2 =~= s1 + s2);
        assert(frames_of(s1) + frames_of(s1 + s2) =~= frames_of(s1 + s2));
    } else {
        let b = s1 + s2;
        assert(has_crlf_at(s1, p));
        assert(has_crlf_at(b, p));
        assert forall|i: int| 0 <= i < p implies !has_crlf_at(b, i) by {
            if i + 2 <= s1.len() {
                assert(b[i] == s1[i] && b[i + 1] == s1[i + 1]);
                if has_crlf_at(b, i) {
                    assert(has_crlf_at(s1, i));
                }
            }
        }
        lemma_first_crlf_unique(b, p);
        lemma_stream_unfold(b);
        assert(b.take(p) =~= s1.take(p));
        assert(b.skip(p + 2) =~= s1.skip(p + 2) + s2);
        lemma_frames_incremental(s1.skip(p + 2), s2);
        assert(frames_of(b) =~= frames_of(s1) + frames_of(rest_of(s1) + s2));
    }
}

/// Line framing state of one connection: the bytes received but not yet cut
/// into frames, and the bytes queued for the socket but not yet accepted.
pub struct LinesTcp {
    rd: bytes::BytesMut,
    wr: bytes::BytesMut,
}

impl LinesTcp {
    /// Bytes received and not yet consumed as frames.
    pub closed spec fn rd_bytes(self) -> Seq<u8> {
        buf_bytes(self.rd)
    }

    /// Bytes buffered for the socket and not yet accepted by it.
    pub closed spec fn wr_bytes(self) -> Seq<u8> {
        buf_bytes(self.wr)
    }

    pub fn new() -> (c: Self)
        ensures
            c.rd_bytes() == Seq::<u8>::empty(),
            c.wr_bytes() == Seq::<u8>::empty(),
    {
        LinesTcp { rd: buf_new(), wr: buf_new() }
    }

    /// Append bytes read from the socket to the receive buffer.
    pub fn feed(&mut self, data: &[u8])
        ensures
            final(self).rd_bytes() == old(self).rd_bytes() + data@,
            final(self).wr_bytes() == old(self).wr_bytes(),
    {
        buf_extend(&mut self.rd, data);
    }

    /// Append raw bytes to the send buffer.
    pub fn buffer(&mut self, line: &[u8])
        ensures
            final(self).wr_bytes() == old(self).wr_bytes() + line@,
            final(self).rd_bytes() == old(self).rd_bytes(),
    {
        buf_extend(&mut self.wr, line);
    }

    /// Cut the next complete frame out of the receive buffer: the bytes
    /// strictly before the first CRLF. The frame and its terminator are
    /// consumed; without a terminator nothing changes and the caller awaits
    /// more data.
    pub fn next_frame(&mut self) -> (r: Option<Vec<u8>>)
        ensures
            match r {
                Some(frame) => {
                    let p = first_crlf(old(self).rd_bytes());
                    &&& p >= 0
                    &&& frame@ == old(self).rd_bytes().take(p)
                    &&& final(self).rd_bytes() == old(self).rd_bytes().skip(p + 2)
                },
                None => {
                    &&& first_crlf(old(self).rd_bytes()) == -1
                    &&& final(self).rd_bytes() == old(self).rd_bytes()
                },
            },
            final(self).wr_bytes() == old(self).wr_bytes(),
    {
        let pos = {
            let s = buf_slice(&self.rd);
            find_crlf(s)
        };
        match pos {
            Some(p) => {
                let _len = buf_len(&self.rd);
                proof {
                    lemma_first_crlf_bounds(buf_bytes(self.rd));
                }
                let mut frame = buf_split_to(&mut self.rd, p + 2);
                frame.truncate(p);
                proof {
                    assert(frame@ =~= old(self).rd_bytes().take(p as int));
                }
                Some(frame)
            },
            None => None,
        }
    }

    /// Cut every complete frame out of the receive buffer, in order: one
    /// frame per terminator, the residue staying buffered.
    pub fn drain_frames(&mut self) -> (frames: Vec<Vec<u8>>)
        ensures
            frames.deep_view() == frames_of(old(self).rd_bytes()),
            final(self).rd_bytes() == rest_of(old(self).rd_bytes()),
            final(self).wr_bytes() == old(self).wr_bytes(),
    {
        let ghost rd0 = self.rd_bytes();
        let mut frames: Vec<Vec<u8>> = Vec::new();
        loop
            invariant
                frames.deep_view() + frames_of(self.rd_bytes()) == frames_of(rd0),
                rest_of(self.rd_bytes()) == rest_of(rd0),
                self.wr_bytes() == old(self).wr_bytes(),
            ensures
                first_crlf(self.rd_bytes()) == -1,
            decreases self.rd_bytes().len(),
        {
            let ghost rd_pre = self.rd_bytes();
            let ghost sofar = frames.deep_view();
            match self.next_frame() {
                Some(frame) => {
                    proof {
                        lemma_stream_unfold(rd_pre);
                    }
                    frames.push(frame);
                    proof {
                        assert(frames.deep_view() =~~= sofar.push(frames@.last()@));
                        assert(frames.deep_view() + frames_of(self.rd_bytes()) =~~= sofar
                            + frames_of(rd_pre));
                    }
                },
                None => {
                    break;
                },
            }
        }
        proof {
            lemma_stream_unfold(self.rd_bytes());
            assert(frames.deep_view() =~~= frames_of(rd0));
        }
        frames
    }

    /// How many bytes wait in the send buffer.
    pub fn pending_write_len(&self) -> (n: usize)
        ensures
            n == self.wr_bytes().len(),
    {
        buf_len(&self.wr)
    }

    /// The bytes waiting in the send buffer, for the caller to offer to the
    /// socket.
    pub fn pending_write(&self) -> (s: &[u8])
        ensures
            s@ == self.wr_bytes(),
    {
        buf_slice(&self.wr)
    }

    /// Record that the socket accepted the first `n` buffered bytes. Returns
    /// false (and changes nothing) when `n` exceeds what was buffered.
    pub fn advance_write(&mut self, n: usize) -> (ok: bool)
        ensures
            final(self).rd_bytes() == old(self).rd_bytes(),
            ok == (n <= old(self).wr_bytes().len()),
            ok ==> final(self).wr_bytes() == old(self).wr_bytes().skip(n as int),
            !ok ==> final(self).wr_bytes() == old(self).wr_bytes(),
    {
        let len = buf_len(&self.wr);
        if n <= len {
            let _ = buf_split_to(&mut self.wr, n);
            true
        } else {
            false
        }
    }
}

} // verus!
