//! Per-connection scheduling tick, split at its suspension points: move a
//! bounded batch of queued outbound frames into the write buffer (bounding
//! the batch keeps inbound reads from starving), then — after the embedding
//! process flushed and read — cut and dispatch every complete inbound frame
//! to the router, synchronously and in order.
use vstd::prelude::*;

use crate::codec::{first_crlf, frames_of, lemma_stream_unfold, rest_of, LinesTcp};
use crate::registry::{find_peer, has_peer, lemma_find_peer, with_outbox};
use crate::router::{receive_log, step_receive, ServerState, ServerView};
use crate::text::{bytes_to_str, utf8_lossy};
use crate::LINES_PER_TICK;

verus! {

/// The frames of a batch laid head to tail, as the write buffer takes them.
pub open spec fn concat_frames(fs: Seq<Seq<u8>>) -> Seq<u8>
    decreases fs.len(),
{
    if fs.len() == 0 {
        Seq::empty()
    } else {
        concat_frames(fs.drop_last()) + fs.last()
    }
}

/// The text of every complete frame in a received byte stream, in order.
pub open spec fn lines_of(b: Seq<u8>) -> Seq<Seq<char>> {
    frames_of(b).map_values(|f: Seq<u8>| utf8_lossy(f))
}

/// Effect of dispatching one inbound line: the router's step when the peer
/// is registered, nothing otherwise.
pub open spec fn step_line(s: ServerView, id: u64, line: Seq<char>) -> ServerView {
    if has_peer(s.peers, id) {
        step_receive(s, id, line)
    } else {
        s
    }
}

/// Effect of dispatching a sequence of inbound lines, in order.
pub open spec fn step_lines(s: ServerView, id: u64, lines: Seq<Seq<char>>) -> ServerView
    decreases lines.len(),
{
    if lines.len() == 0 {
        s
    } else {
        step_lines(step_line(s, id, lines[0]), id, lines.skip(1))
    }
}

/// The log lines the dispatches produce, one per line of a registered peer.
pub open spec fn logs_of(s: ServerView, id: u64, lines: Seq<Seq<char>>) -> Seq<Seq<char>>
    decreases lines.len(),
{
    if lines.len() == 0 {
        Seq::empty()
    } else {
        let head: Seq<Seq<char>> = if has_peer(s.peers, id) {
            seq![receive_log(s, id, lines[0])]
        } else {
            Seq::empty()
        };
        head + logs_of(step_line(s, id, lines[0]), id, lines.skip(1))
    }
}

impl ServerState {
    /// Move up to `LINES_PER_TICK` of the peer's pending outbound frames
    /// into its connection's write buffer. Returns whether the whole batch
    /// was used, so the caller reschedules the connection instead of
    /// blocking on the rest.
    pub fn drain_outbound(&mut self, id: u64, conn: &mut LinesTcp) -> (more: bool)
        requires
            old(self).wf(),
        ensures
            final(self).wf(),
            final(conn).rd_bytes() == old(conn).rd_bytes(),
            final(self)@.history == old(self)@.history,
            !has_peer(old(self)@.peers, id) ==> {
                &&& final(self)@ == old(self)@
                &&& final(conn).wr_bytes() == old(conn).wr_bytes()
                &&& more == false
            },
            has_peer(old(self)@.peers, id) ==> {
                let k = find_peer(old(self)@.peers, id);
                let q0 = old(self)@.peers[k].outbox;
                let n = if q0.len() <= LINES_PER_TICK {
                    q0.len() as int
                } else {
                    LINES_PER_TICK as int
                };
                &&& final(self)@.peers == old(self)@.peers.update(
                    k,
                    with_outbox(old(self)@.peers[k], q0.skip(n)),
                )
                &&& final(conn).wr_bytes() == old(conn).wr_bytes() + concat_frames(q0.take(n))
                &&& more == (q0.len() >= LINES_PER_TICK)
            },
    {
        let k = match self.registry.find_index(id) {
            Some(k) => k,
            None => {
                return false;
            },
        };
        proof {
            lemma_find_peer(self.registry@, id);
        }
        let ghost p0 = self.registry@;
        let ghost q0 = p0[k as int].outbox;
        let ghost wr0 = conn.wr_bytes();
        let ghost rd0 = conn.rd_bytes();
        let ghost h0 = self.history@;
        let mut i: usize = 0;
        proof {
            assert(q0.skip(0) =~= q0);
            assert(self.registry@ =~~= p0.update(
                k as int,
                with_outbox(p0[k as int], q0.skip(0)),
            ));
            assert(conn.wr_bytes() =~= wr0 + concat_frames(q0.take(0)));
        }
        while i < LINES_PER_TICK
            invariant
                i <= LINES_PER_TICK,
                k < p0.len(),
                p0.len() == self.registry@.len(),
                self.registry.wf(),
                self.history@ == h0,
                i <= q0.len(),
                q0 == p0[k as int].outbox,
                self.registry@ == p0.update(
                    k as int,
                    with_outbox(p0[k as int], q0.skip(i as int)),
                ),
                conn.wr_bytes() == wr0 + concat_frames(q0.take(i as int)),
                conn.rd_bytes() == rd0,
            ensures
                i <= LINES_PER_TICK,
                i <= q0.len(),
                i < LINES_PER_TICK ==> q0.len() == i,
                self.registry.wf(),
                self.history@ == h0,
                self.registry@ == p0.update(
                    k as int,
                    with_outbox(p0[k as int], q0.skip(i as int)),
                ),
                conn.wr_bytes() == wr0 + concat_frames(q0.take(i as int)),
                conn.rd_bytes() == rd0,
            decreases LINES_PER_TICK - i,
        {
            match self.registry.dequeue_at(k) {
                Some(f) => {
                    conn.buffer(f.as_slice());
                    proof {
                        assert(q0.skip(i as int)[0] == q0[i as int]);
                        assert(q0.skip(i as int).skip(1) =~= q0.skip(i + 1));
                        assert(self.registry@ =~~= p0.update(
                            k as int,
                            with_outbox(p0[k as int], q0.skip(i + 1)),
                        ));
                        assert(q0.take(i + 1).drop_last() =~= q0.take(i as int));
                        assert(q0.take(i + 1).last() == q0[i as int]);
                        assert(conn.wr_bytes() =~= wr0 + concat_frames(q0.take(i + 1)));
                    }
                    i += 1;
                },
                None => {
                    proof {
                        assert(q0.skip(i as int).len() == 0);
                    }
                    break;
                },
            }
        }
        let more = i == LINES_PER_TICK;
        proof {
            let n = if q0.len() <= LINES_PER_TICK {
                q0.len() as int
            } else {
                LINES_PER_TICK as int
            };
            assert(i == n);
        }
        more
    }
}

/// Cut every complete inbound frame out of the receive buffer and dispatch
/// each, lossily decoded, to the router in order, before returning control.
/// Residual bytes short of a terminator stay buffered for the next read.
/// Returns the log lines the dispatches produced.
pub fn process_inbound(server: &mut ServerState, id: u64, conn: &mut LinesTcp) -> (logs: Vec<
    String,
>)
    requires
        old(server).wf(),
    ensures
        final(server).wf(),
        final(server)@ == step_lines(old(server)@, id, lines_of(old(conn).rd_bytes())),
        logs.deep_view() == logs_of(old(server)@, id, lines_of(old(conn).rd_bytes())),
        final(conn).rd_bytes() == rest_of(old(conn).rd_bytes()),
        final(conn).wr_bytes() == old(conn).wr_bytes(),
{
    let ghost s0 = server@;
    let ghost rd0 = conn.rd_bytes();
    let ghost wr0 = conn.wr_bytes();
    let mut logs: Vec<String> = Vec::new();
    loop
        invariant
            server.wf(),
            step_lines(server@, id, lines_of(conn.rd_bytes())) == step_lines(
                s0,
                id,
                lines_of(rd0),
            ),
            logs.deep_view() + logs_of(server@, id, lines_of(conn.rd_bytes())) == logs_of(
                s0,
                id,
                lines_of(rd0),
            ),
            rest_of(conn.rd_bytes()) == rest_of(rd0),
            conn.wr_bytes() == wr0,
        ensures
            first_crlf(conn.rd_bytes()) == -1,
        decreases conn.rd_bytes().len(),
    {
        let ghost rd_pre = conn.rd_bytes();
        let ghost s_pre = server@;
        let ghost logs_pre = logs.deep_view();
        match conn.next_frame() {
            Some(frame) => {
                proof {
                    lemma_stream_unfold(rd_pre);
                }
                let msg = bytes_to_str(&frame);
                proof {
                    let p = first_crlf(rd_pre);
                    assert(lines_of(rd_pre) =~= seq![utf8_lossy(frame@)] + lines_of(
                        rd_pre.skip(p + 2),
                    ));
                    assert(lines_of(rd_pre)[0] == msg@);
                    assert(lines_of(rd_pre).skip(1) =~= lines_of(conn.rd_bytes()));
                }
                match server.handle_receive_msg(id, msg) {
                    Ok(out) => {
                        logs.push(out);
                        proof {
                            assert(logs.deep_view() =~= logs_pre.push(out@));
                            assert(logs.deep_view() + logs_of(server@, id, lines_of(
                                conn.rd_bytes(),
                            )) =~= logs_pre + logs_of(s_pre, id, lines_of(rd_pre)));
                        }
                    },
                    Err(_) => {
                        proof {
                            assert(logs.deep_view() + logs_of(server@, id, lines_of(
                                conn.rd_bytes(),
                            )) =~= logs_pre + logs_of(s_pre, id, lines_of(rd_pre)));
                        }
                    },
                }
            },
            None => {
                break;
            },
        }
    }
    proof {
        lemma_stream_unfold(conn.rd_bytes());
        assert(lines_of(conn.rd_bytes()) =~= Seq::<Seq<char>>::empty());
        assert(logs.deep_view() =~= logs_of(s0, id, lines_of(rd0)));
    }
    logs
}

} // verus!
