//! The broadcast router and the shared server context it drives: handshake
//! handling, history replay, roster reply, join/leave announcements and
//! chat fan-out, exactly one dispatch per inbound line.
use vstd::prelude::*;

use crate::history::{push16, HistoryBuffer};
use crate::queue::{enq, frame_of};
use crate::registry::{
    broadcast_to, find_peer, has_peer, lemma_find_peer, roster_of, with_name, with_outbox,
    PeerRegistry, PeerView,
};
use vstd::string::StringExecFns;

verus! {

/// Ghost image of the whole shared server state.
#[verifier::ext_equal]
pub ghost struct ServerView {
    pub peers: Seq<PeerView>,
    pub history: Seq<Seq<char>>,
}

/// A relayed chat line as every other peer sees it.
pub open spec fn chat_line(name: Seq<char>, msg: Seq<char>) -> Seq<char> {
    name + ": "@ + msg
}

/// The join announcement for a newly named peer.
pub open spec fn join_line(name: Seq<char>) -> Seq<char> {
    ">>> New user: "@ + name
}

/// The roster line sent to a newly named peer.
pub open spec fn connected_line(roster: Seq<char>) -> Seq<char> {
    ">>> Connected! Other user(s): "@ + roster
}

/// The leave announcement for a named peer that disconnected.
pub open spec fn leave_line(name: Seq<char>, roster: Seq<char>) -> Seq<char> {
    ">>> "@ + name + " left. User(s):"@ + roster
}

/// The announcement for a file landed on the sideband.
pub open spec fn file_line(filename: Seq<char>) -> Seq<char> {
    ">>> Server received file: "@ + filename
}

/// Frames of `lines` offered to `q` in order, oldest first, each dropped
/// where the queue is full at its turn.
pub open spec fn replay_all(q: Seq<Seq<u8>>, lines: Seq<Seq<char>>) -> Seq<Seq<u8>>
    decreases lines.len(),
{
    if lines.len() == 0 {
        q
    } else {
        enq(replay_all(q, lines.drop_last()), frame_of(lines.last()))
    }
}

/// Everything queued for a peer right after its handshake: the whole history,
/// oldest first, then the roster line.
pub open spec fn handshake_reply(
    q: Seq<Seq<u8>>,
    history: Seq<Seq<char>>,
    roster: Seq<char>,
) -> Seq<Seq<u8>> {
    enq(replay_all(q, history), frame_of(connected_line(roster)))
}

/// State after the first line of the peer at `id`: the line is consumed as
/// its display name, never as chat; the peer alone receives history and
/// roster; every other named peer receives the join announcement.
pub open spec fn step_handshake(s: ServerView, id: u64, msg: Seq<char>) -> ServerView {
    let k = find_peer(s.peers, id);
    let roster = roster_of(s.peers, id);
    let named = s.peers.update(k, with_name(s.peers[k], msg));
    let replied = named.update(
        k,
        with_outbox(named[k], handshake_reply(named[k].outbox, s.history, roster)),
    );
    ServerView {
        peers: broadcast_to(replied, Some(id), frame_of(join_line(msg))),
        history: s.history,
    }
}

/// State after a chat line from the already-named peer at `id`: the line is
/// formatted, recorded in history and fanned out to every other named peer.
pub open spec fn step_chat(s: ServerView, id: u64, name: Seq<char>, msg: Seq<char>) -> ServerView {
    let out = chat_line(name, msg);
    ServerView {
        peers: broadcast_to(s.peers, Some(id), frame_of(out)),
        history: push16(s.history, out),
    }
}

/// State after one inbound line from the registered peer at `id`.
pub open spec fn step_receive(s: ServerView, id: u64, msg: Seq<char>) -> ServerView {
    let k = find_peer(s.peers, id);
    match s.peers[k].name {
        Option::Some(n) => step_chat(s, id, n, msg),
        Option::None => step_handshake(s, id, msg),
    }
}

/// The line logged (and, for chat, relayed) for one inbound line.
pub open spec fn receive_log(s: ServerView, id: u64, msg: Seq<char>) -> Seq<char> {
    let k = find_peer(s.peers, id);
    match s.peers[k].name {
        Option::Some(n) => chat_line(n, msg),
        Option::None => join_line(msg),
    }
}

/// State after the peer at `id` disconnects: its entry leaves the registry;
/// a leave announcement reaches the remaining named peers only if the peer
/// had completed the handshake.
pub open spec fn step_disconnect(s: ServerView, id: u64) -> ServerView {
    let k = find_peer(s.peers, id);
    if k < 0 {
        s
    } else {
        let removed = s.peers.remove(k);
        match s.peers[k].name {
            Option::Some(n) => ServerView {
                peers: broadcast_to(removed, None, frame_of(leave_line(n, roster_of(removed, id)))),
                history: s.history,
            },
            Option::None => ServerView { peers: removed, history: s.history },
        }
    }
}

/// The leave announcement, present only for a peer that had a name.
pub open spec fn leave_log(s: ServerView, id: u64) -> Option<Seq<char>> {
    let k = find_peer(s.peers, id);
    if k < 0 {
        None
    } else {
        match s.peers[k].name {
            Option::Some(n) => Some(leave_line(n, roster_of(s.peers.remove(k), id))),
            Option::None => None,
        }
    }
}

/// State after a file lands on the sideband: the announcement reaches every
/// named peer and enters the history.
pub open spec fn step_file(s: ServerView, filename: Seq<char>) -> ServerView {
    let out = file_line(filename);
    ServerView {
        peers: broadcast_to(s.peers, None, frame_of(out)),
        history: push16(s.history, out),
    }
}

/// A peer that disconnects before sending a name produces zero broadcast
/// traffic: its entry leaves the registry, there is no announcement, and
/// every remaining peer's queue is exactly what it was.
pub proof fn lemma_silent_disconnect(s: ServerView, id: u64)
    requires
        has_peer(s.peers, id),
        s.peers[find_peer(s.peers, id)].name is None,
    ensures
        step_disconnect(s, id).peers == s.peers.remove(find_peer(s.peers, id)),
        step_disconnect(s, id).history == s.history,
        leave_log(s, id) is None,
        forall|i: int|
            0 <= i < step_disconnect(s, id).peers.len() ==> (#[trigger] step_disconnect(
                s,
                id,
            ).peers[i]).outbox == (
            if i < find_peer(s.peers, id) {
                s.peers[i]
            } else {
                s.peers[i + 1]
            }).outbox,
{
    lemma_find_peer(s.peers, id);
}

/// A peer whose queue has room to spare receives every line of a handshake
/// reply it is offered: replaying `lines` onto `q` appends exactly their
/// frames, oldest first. With the history bound far under the queue bound,
/// a newly named peer always receives the full replay.
pub proof fn lemma_replay_exact(q: Seq<Seq<u8>>, lines: Seq<Seq<char>>)
    requires
        q.len() + lines.len() <= crate::CHANNEL_BUFF_SIZE,
    ensures
        replay_all(q, lines) == q + lines.map_values(|l: Seq<char>| frame_of(l)),
    decreases lines.len(),
{
    if lines.len() == 0 {
        assert(replay_all(q, lines) =~= q + lines.map_values(|l: Seq<char>| frame_of(l)));
    } else {
        lemma_replay_exact(q, lines.drop_last());
        assert(replay_all(q, lines) =~= q + lines.map_values(|l: Seq<char>| frame_of(l))) by {
            assert(lines.drop_last().map_values(|l: Seq<char>| frame_of(l)) =~= lines.map_values(
                |l: Seq<char>| frame_of(l),
            ).drop_last());
        }
    }
}

/// An operation named a connection-id with no registry entry: a lifecycle
/// bug; only that handler invocation is abandoned.
#[derive(Clone, Copy, Debug, PartialEq, Eq, Structural)]
pub struct UnknownPeerError;

/// The shared context one chat server instance owns: the peer registry and
/// the broadcast history. The embedding process guards it with its lock and
/// never holds that lock across an I/O suspension.
pub struct ServerState {
    pub registry: PeerRegistry,
    pub history: HistoryBuffer,
}

impl View for ServerState {
    type V = ServerView;

    open spec fn view(&self) -> ServerView {
        ServerView { peers: self.registry@, history: self.history@ }
    }
}

impl ServerState {
    pub open spec fn wf(&self) -> bool {
        self.registry.wf() && self.history.wf()
    }

    pub fn new() -> (s: Self)
        ensures
            s@.peers == Seq::<PeerView>::empty(),
            s@.history == Seq::<Seq<char>>::empty(),
            s.wf(),
    {
        ServerState { registry: PeerRegistry::new(), history: HistoryBuffer::new() }
    }

    /// Register a connection at accept: name unset, queue empty. Refused
    /// without effect when the id is already registered.
    pub fn handle_add_user(&mut self, id: u64) -> (r: bool)
        requires
            old(self).wf(),
        ensures
            final(self).wf(),
            r == !has_peer(old(self)@.peers, id),
            r ==> final(self)@.peers == old(self)@.peers.push(
                (PeerView { id: id, name: None, outbox: Seq::empty() }),
            ),
            !r ==> final(self)@.peers == old(self)@.peers,
            final(self)@.history == old(self)@.history,
    {
        self.registry.insert(id)
    }

    /// Dispatch one inbound line from the peer at `id`: its name when it had
    /// none yet, a chat line otherwise. Returns the line to log, or an error
    /// when no such peer is registered (in which case nothing changes).
    pub fn handle_receive_msg(&mut self, id: u64, msg: String) -> (r: Result<
        String,
        UnknownPeerError,
    >)
        requires
            old(self).wf(),
        ensures
            final(self).wf(),
            match r {
                Ok(out) => {
                    &&& has_peer(old(self)@.peers, id)
                    &&& final(self)@ == step_receive(old(self)@, id, msg@)
                    &&& out@ == receive_log(old(self)@, id, msg@)
                },
                Err(_) => {
                    &&& !has_peer(old(self)@.peers, id)
                    &&& final(self)@ == old(self)@
                },
            },
    {
        let k = match self.registry.find_index(id) {
            Some(k) => k,
            None => {
                return Err(UnknownPeerError);
            },
        };
        proof {
            lemma_find_peer(self.registry@, id);
        }
        match self.registry.name_at(k) {
            Some(name) => {
                let mut out = name;
                out.append(": ");
                out.append(msg.as_str());
                self.history.push(out.clone());
                self.registry.broadcast_line(Some(id), out.as_str());
                Ok(out)
            },
            None => {
                let ghost s0 = old(self)@;
                let roster = self.registry.list_clients(id);
                self.registry.set_name_at(k, msg.clone());
                let ghost named = self.registry@;
                let ghost q0 = named[k as int].outbox;
                let ghost h0 = self.history@;
                let hn = self.history.len();
                let mut i: usize = 0;
                while i < hn
                    invariant
                        i <= hn,
                        hn == self.history@.len(),
                        self.history@ == h0,
                        k < named.len(),
                        named.len() == self.registry@.len(),
                        q0 == named[k as int].outbox,
                        self.registry@ == named.update(
                            k as int,
                            with_outbox(named[k as int], replay_all(q0, h0.take(i as int))),
                        ),
                        self.registry.wf(),
                    decreases hn - i,
                {
                    let line = self.history.get(i);
                    let _ = self.registry.send_line_at(k, line.as_str());
                    proof {
                        let t1 = h0.take(i + 1);
                        assert(t1.drop_last() =~= h0.take(i as int));
                        assert(t1.last() == h0[i as int]);
                        assert(self.registry@ =~= named.update(
                            k as int,
                            with_outbox(named[k as int], replay_all(q0, t1)),
                        ));
                    }
                    i += 1;
                }
                proof {
                    assert(h0.take(hn as int) =~= h0);
                }
                let mut connected = String::new();
                connected.append(">>> Connected! Other user(s): ");
                connected.append(roster.as_str());
                proof {
                    assert(connected@ =~= connected_line(roster@));
                }
                let _ = self.registry.send_line_at(k, connected.as_str());
                proof {
                    assert(self.registry@ =~= named.update(
                        k as int,
                        with_outbox(
                            named[k as int],
                            handshake_reply(named[k as int].outbox, h0, roster@),
                        ),
                    ));
                }
                let mut out = String::new();
                out.append(">>> New user: ");
                out.append(msg.as_str());
                proof {
                    assert(out@ =~= join_line(msg@));
                }
                self.registry.broadcast_line(Some(id), out.as_str());
                proof {
                    assert(self@ =~~= step_handshake(s0, id, msg@));
                }
                Ok(out)
            },
        }
    }

    /// Unregister the peer at `id` after its connection closed or failed. A
    /// peer that had completed the handshake leaves with an announcement to
    /// the remaining named peers, returned for the log; a never-named peer
    /// leaves silently, with no broadcast traffic at all.
    pub fn handle_removed_user(&mut self, id: u64) -> (r: Option<String>)
        requires
            old(self).wf(),
        ensures
            final(self).wf(),
            final(self)@ == step_disconnect(old(self)@, id),
            match r {
                Some(line) => leave_log(old(self)@, id) == Some(line@),
                None => leave_log(old(self)@, id) is None,
            },
    {
        match self.registry.remove(id) {
            Some(name_state) => {
                match name_state {
                    Some(name) => {
                        let roster = self.registry.list_clients(id);
                        let mut out = String::new();
                        out.append(">>> ");
                        out.append(name.as_str());
                        out.append(" left. User(s):");
                        out.append(roster.as_str());
                        proof {
                            assert(out@ =~= leave_line(name@, roster@));
                        }
                        self.registry.broadcast_line(None, out.as_str());
                        proof {
                            assert(self@ =~~= step_disconnect(old(self)@, id));
                        }
                        Some(out)
                    },
                    None => {
                        proof {
                            assert(self@ =~~= step_disconnect(old(self)@, id));
                        }
                        None
                    },
                }
            },
            None => None,
        }
    }

    /// Announce a file landed on the sideband: tell every named peer and
    /// record the announcement in the history. Returns the line to log.
    pub fn handle_received_file(&mut self, filename: &str) -> (out: String)
        requires
            old(self).wf(),
        ensures
            final(self).wf(),
            final(self)@ == step_file(old(self)@, filename@),
            out@ == file_line(filename@),
    {
        let mut out = String::new();
        out.append(">>> Server received file: ");
        out.append(filename);
        proof {
            assert(out@ =~= file_line(filename@));
        }
        self.registry.broadcast_line(None, out.as_str());
        self.history.push(out.clone());
        out
    }
}

} // verus!
