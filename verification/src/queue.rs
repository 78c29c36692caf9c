//! Bounded per-connection FIFO of pending outbound frames. Enqueue is
//! non-blocking: on overflow it fails at once and the frame is dropped, so a
//! slow peer degrades only its own delivery and never stalls the broadcaster.
use vstd::prelude::*;

use std::collections::VecDeque;

use crate::codec::crlf;
use crate::CHANNEL_BUFF_SIZE;
use vstd::utf8::encode_utf8;

verus! {

/// The bytes of one wire frame carrying `line`: its UTF-8 encoding closed by
/// the two-byte terminator.
pub open spec fn frame_of(line: Seq<char>) -> Seq<u8> {
    encode_utf8(line) + crlf()
}

/// Effect of a non-blocking enqueue: appended when there is room, dropped
/// when the queue is full.
pub open spec fn enq(q: Seq<Seq<u8>>, f: Seq<u8>) -> Seq<Seq<u8>> {
    if q.len() < CHANNEL_BUFF_SIZE {
        q.push(f)
    } else {
        q
    }
}

/// The outbound queue was full, so the frame was dropped for this peer.
#[derive(Clone, Copy, Debug, PartialEq, Eq, Structural)]
pub struct QueueFullError;

/// Bounded FIFO of frames awaiting one connection's write path.
pub struct OutboundQueue {
    items: VecDeque<Vec<u8>>,
}

impl View for OutboundQueue {
    type V = Seq<Seq<u8>>;

    closed spec fn view(&self) -> Seq<Seq<u8>> {
        Seq::new(self.items@.len(), |i: int| self.items@[i]@)
    }
}

impl OutboundQueue {
    /// The queue never holds more than its capacity.
    pub open spec fn wf(&self) -> bool {
        self@.len() <= CHANNEL_BUFF_SIZE
    }

    pub fn new() -> (q: Self)
        ensures
            q@ == Seq::<Seq<u8>>::empty(),
            q.wf(),
    {
        let q = OutboundQueue { items: VecDeque::new() };
        proof {
            assert(q@ =~= Seq::<Seq<u8>>::empty());
        }
        q
    }

    pub fn len(&self) -> (n: usize)
        ensures
            n == self@.len(),
    {
        self.items.len()
    }

    /// Non-blocking enqueue: fails at once when the queue is at capacity,
    /// without changing it.
    pub fn try_enqueue(&mut self, frame: Vec<u8>) -> (r: Result<(), QueueFullError>)
        requires
            old(self).wf(),
        ensures
            final(self).wf(),
            final(self)@ == enq(old(self)@, frame@),
            r is Ok <==> old(self)@.len() < CHANNEL_BUFF_SIZE,
    {
        if self.items.len() < CHANNEL_BUFF_SIZE {
            self.items.push_back(frame);
            proof {
                assert(self@ =~= old(self)@.push(frame@));
            }
            Ok(())
        } else {
            Err(QueueFullError)
        }
    }

    /// Take the oldest pending frame, if any.
    pub fn dequeue(&mut self) -> (r: Option<Vec<u8>>)
        ensures
            old(self).wf() ==> final(self).wf(),
            match r {
                Some(f) => {
                    &&& old(self)@.len() > 0
                    &&& f@ == old(self)@[0]
                    &&& final(self)@ == old(self)@.skip(1)
                },
                None => {
                    &&& old(self)@.len() == 0
                    &&& final(self)@ == old(self)@
                },
            },
    {
        let r = self.items.pop_front();
        match r {
            Some(f) => {
                proof {
                    assert(self@ =~= old(self)@.skip(1));
                }
                Some(f)
            },
            None => {
                proof {
                    assert(self@ =~= old(self)@);
                }
                None
            },
        }
    }
}

/// Frame a line for the wire: its UTF-8 bytes closed by the terminator.
pub fn make_frame(line: &str) -> (frame: Vec<u8>)
    ensures
        frame@ == frame_of(line@),
{
    let mut frame: Vec<u8> = Vec::new();
    frame.extend_from_slice(line.as_bytes());
    frame.push(13);
    frame.push(10);
    proof {
        assert(frame@ =~= frame_of(line@));
    }
    frame
}

/// Frame a line for the wire — its UTF-8 bytes closed by CRLF — and offer it
/// to the peer's outbound queue without blocking.
pub fn pass_line(queue: &mut OutboundQueue, line: &str) -> (r: Result<(), QueueFullError>)
    requires
        old(queue).wf(),
    ensures
        final(queue).wf(),
        final(queue)@ == enq(old(queue)@, frame_of(line@)),
        r is Ok <==> old(queue)@.len() < CHANNEL_BUFF_SIZE,
{
    let frame = make_frame(line);
    queue.try_enqueue(frame)
}

} // verus!
