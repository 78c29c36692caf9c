//! Registry of live connections: connection-id to outbound queue and optional
//! display name. An entry appears at accept with the name unset, the name is
//! set once by the handshake, and the entry leaves at disconnect. Fan-out to
//! the registered peers is a fire-and-forget non-blocking enqueue per target.
use vstd::prelude::*;

use crate::queue::{enq, frame_of, make_frame, pass_line, OutboundQueue, QueueFullError};
use crate::CHANNEL_BUFF_SIZE;
use vstd::string::StringExecFns;

verus! {

/// Ghost image of one registered connection.
#[verifier::ext_equal]
pub ghost struct PeerView {
    pub id: u64,
    pub name: Option<Seq<char>>,
    pub outbox: Seq<Seq<u8>>,
}

/// `p` with its display name set.
pub open spec fn with_name(p: PeerView, n: Seq<char>) -> PeerView {
    PeerView { id: p.id, name: Some(n), outbox: p.outbox }
}

/// `p` with its outbound queue replaced.
pub open spec fn with_outbox(p: PeerView, q: Seq<Seq<u8>>) -> PeerView {
    PeerView { id: p.id, name: p.name, outbox: q }
}

/// No two entries share a connection-id.
pub open spec fn ids_unique(ps: Seq<PeerView>) -> bool {
    forall|i: int, j: int| 0 <= i < j < ps.len() ==> ps[i].id != ps[j].id
}

/// Index of the entry registered under `id`, or -1 when there is none.
pub open spec fn find_peer(ps: Seq<PeerView>, id: u64) -> int
    decreases ps.len(),
{
    if ps.len() == 0 {
        -1
    } else if ps[0].id == id {
        0
    } else {
        let r = find_peer(ps.skip(1), id);
        if r < 0 {
            -1
        } else {
            r + 1
        }
    }
}

/// Some entry is registered under `id`.
pub open spec fn has_peer(ps: Seq<PeerView>, id: u64) -> bool {
    find_peer(ps, id) >= 0
}

/// `find_peer` finds exactly the first entry carrying `id`.
pub proof fn lemma_find_peer(ps: Seq<PeerView>, id: u64)
    ensures
        find_peer(ps, id) == -1 <==> (forall|i: int|
            0 <= i < ps.len() ==> (#[trigger] ps[i]).id != id),
        find_peer(ps, id) >= 0 ==> find_peer(ps, id) < ps.len() && ps[find_peer(ps, id)].id == id
            && (forall|j: int| 0 <= j < find_peer(ps, id) ==> (#[trigger] ps[j]).id != id),
    decreases ps.len(),
{
    if ps.len() == 0 {
    } else if ps[0].id == id {
    } else {
        lemma_find_peer(ps.skip(1), id);
        assert(forall|i: int| 1 <= i < ps.len() ==> ps[i] == #[trigger] ps.skip(1)[i - 1]);
        let r = find_peer(ps.skip(1), id);
        if r < 0 {
            assert forall|i: int| 0 <= i < ps.len() implies (#[trigger] ps[i]).id != id by {
                if i >= 1 {
                    assert(ps.skip(1)[i - 1].id != id);
                }
            }
        } else {
            assert forall|j: int| 0 <= j < r + 1 implies (#[trigger] ps[j]).id != id by {
                if j >= 1 {
                    assert(ps.skip(1)[j - 1].id != id);
                }
            }
        }
    }
}

/// An entry carrying `id` with none before it is the one `find_peer` finds.
pub proof fn lemma_find_peer_unique(ps: Seq<PeerView>, id: u64, k: int)
    requires
        0 <= k < ps.len(),
        ps[k].id == id,
        forall|j: int| 0 <= j < k ==> (#[trigger] ps[j]).id != id,
    ensures
        find_peer(ps, id) == k,
{
    lemma_find_peer(ps, id);
    let f = find_peer(ps, id);
    if f == -1 {
        assert(ps[k].id != id);
    } else if f < k {
        assert(ps[f].id != id);
    } else if f > k {
        assert(ps[k].id != id);
    }
}

/// Does a fan-out aimed past `exclude` reach `p`? Only named peers receive
/// broadcasts; unnamed peers neither receive nor count toward the roster.
pub open spec fn fanout_target(p: PeerView, exclude: Option<u64>) -> bool {
    p.name is Some && match exclude {
        Option::Some(e) => p.id != e,
        Option::None => true,
    }
}

/// Effect of one broadcast: every named peer except the excluded originator
/// gets the frame offered to its queue, dropped where the queue is full; each
/// target's queue changes independently of every other.
pub open spec fn broadcast_to(ps: Seq<PeerView>, exclude: Option<u64>, f: Seq<u8>) -> Seq<
    PeerView,
> {
    Seq::new(
        ps.len(),
        |i: int|
            if fanout_target(ps[i], exclude) {
                with_outbox(ps[i], enq(ps[i].outbox, f))
            } else {
                ps[i]
            },
    )
}

/// The roster contribution of one entry: a space and the name, for named
/// peers other than the excluded one; nothing otherwise.
pub open spec fn roster_entry(p: PeerView, excl: u64) -> Seq<char> {
    match p.name {
        Option::Some(n) => if p.id != excl {
            seq![' '] + n
        } else {
            Seq::empty()
        },
        Option::None => Seq::empty(),
    }
}

/// The roster string: the names of all named peers, in registry order, each
/// preceded by a space, skipping the excluded connection.
pub open spec fn roster_of(ps: Seq<PeerView>, excl: u64) -> Seq<char>
    decreases ps.len(),
{
    if ps.len() == 0 {
        Seq::empty()
    } else {
        roster_of(ps.drop_last(), excl) + roster_entry(ps.last(), excl)
    }
}

/// The roster never draws on the excluded peer or on an unnamed peer:
/// removing such an entry leaves the roster string unchanged, so nothing of
/// it can appear there.
pub proof fn lemma_roster_skips(ps: Seq<PeerView>, excl: u64, j: int)
    requires
        0 <= j < ps.len(),
        ps[j].id == excl || ps[j].name is None,
    ensures
        roster_of(ps, excl) == roster_of(ps.remove(j), excl),
    decreases ps.len(),
{
    if j == ps.len() - 1 {
        assert(roster_entry(ps.last(), excl) =~= Seq::<char>::empty());
        assert(ps.remove(j) =~= ps.drop_last());
        assert(roster_of(ps, excl) =~= roster_of(ps.drop_last(), excl));
    } else {
        lemma_roster_skips(ps.drop_last(), excl, j);
        assert(ps.remove(j).drop_last() =~= ps.drop_last().remove(j));
        assert(ps.remove(j).last() == ps.last());
    }
}

/// Each fan-out target's queue changes independently of every other entry:
/// however one peer's entry differs (say, its queue full), every other
/// peer's delivery is the same.
pub proof fn lemma_broadcast_independent(
    ps1: Seq<PeerView>,
    ps2: Seq<PeerView>,
    exclude: Option<u64>,
    f: Seq<u8>,
    j: int,
)
    requires
        ps1.len() == ps2.len(),
        forall|i: int| 0 <= i < ps1.len() && i != j ==> ps1[i] == ps2[i],
    ensures
        forall|i: int|
            0 <= i < ps1.len() && i != j ==> broadcast_to(ps1, exclude, f)[i] == broadcast_to(
                ps2,
                exclude,
                f,
            )[i],
{
}

/// What one broadcast leaves in each peer's queue: the frame lands at the
/// back of every named, non-excluded peer's queue that had room; a full
/// target drops its copy; everyone else keeps their queue untouched.
pub proof fn lemma_broadcast_effect(ps: Seq<PeerView>, exclude: Option<u64>, f: Seq<u8>, i: int)
    requires
        0 <= i < ps.len(),
    ensures
        fanout_target(ps[i], exclude) && ps[i].outbox.len() < CHANNEL_BUFF_SIZE ==> broadcast_to(
            ps,
            exclude,
            f,
        )[i].outbox == ps[i].outbox.push(f),
        fanout_target(ps[i], exclude) && ps[i].outbox.len() >= CHANNEL_BUFF_SIZE ==> broadcast_to(
            ps,
            exclude,
            f,
        )[i].outbox == ps[i].outbox,
        !fanout_target(ps[i], exclude) ==> broadcast_to(ps, exclude, f)[i] == ps[i],
{
}

/// One registered connection.
pub struct Peer {
    pub(crate) id: u64,
    pub(crate) name: Option<String>,
    pub(crate) outbox: OutboundQueue,
}

impl View for Peer {
    type V = PeerView;

    closed spec fn view(&self) -> PeerView {
        PeerView {
            id: self.id,
            name: match self.name {
                Option::Some(s) => Some(s@),
                Option::None => None,
            },
            outbox: self.outbox@,
        }
    }
}

/// The shared map of live connections, in accept order.
pub struct PeerRegistry {
    peers: Vec<Peer>,
}

impl View for PeerRegistry {
    type V = Seq<PeerView>;

    closed spec fn view(&self) -> Seq<PeerView> {
        Seq::new(self.peers@.len(), |i: int| self.peers@[i]@)
    }
}

impl PeerRegistry {
    /// Ids are unique and no queue is over capacity.
    pub open spec fn wf(&self) -> bool {
        &&& ids_unique(self@)
        &&& forall|i: int|
            0 <= i < self@.len() ==> (#[trigger] self@[i]).outbox.len() <= CHANNEL_BUFF_SIZE
    }

    pub fn new() -> (r: Self)
        ensures
            r@ == Seq::<PeerView>::empty(),
            r.wf(),
    {
        let r = PeerRegistry { peers: Vec::new() };
        proof {
            assert(r@ =~= Seq::<PeerView>::empty());
        }
        r
    }

    pub fn len(&self) -> (n: usize)
        ensures
            n == self@.len(),
    {
        self.peers.len()
    }

    /// Index of the entry registered under `id`, if any.
    pub fn find_index(&self, id: u64) -> (r: Option<usize>)
        ensures
            match r {
                Some(k) => k == find_peer(self@, id),
                None => find_peer(self@, id) == -1,
            },
    {
        let n = self.peers.len();
        let mut i: usize = 0;
        while i < n
            invariant
                n == self@.len(),
                i <= n,
                forall|j: int| 0 <= j < i ==> (#[trigger] self@[j]).id != id,
            decreases n - i,
        {
            if self.peers[i].id == id {
                proof {
                    lemma_find_peer_unique(self@, id, i as int);
                }
                return Some(i);
            }
            i += 1;
        }
        proof {
            lemma_find_peer(self@, id);
        }
        None
    }

    /// Register a fresh connection, name unset, queue empty. Refused without
    /// effect when the id is already present.
    pub fn insert(&mut self, id: u64) -> (r: bool)
        requires
            old(self).wf(),
        ensures
            final(self).wf(),
            r == !has_peer(old(self)@, id),
            r ==> final(self)@ == old(self)@.push(
                (PeerView { id: id, name: None, outbox: Seq::empty() }),
            ),
            !r ==> final(self)@ == old(self)@,
    {
        match self.find_index(id) {
            Some(_) => false,
            None => {
                proof {
                    lemma_find_peer(self@, id);
                }
                self.peers.push(Peer { id: id, name: None, outbox: OutboundQueue::new() });
                proof {
                    let pv = PeerView { id: id, name: None, outbox: Seq::empty() };
                    assert(self@ =~= old(self)@.push(pv));
                    assert forall|i: int, j: int| 0 <= i < j < self@.len() implies self@[i].id
                        != self@[j].id by {
                        if j == self@.len() - 1 {
                            assert(old(self)@[i].id != id);
                        }
                    }
                }
                true
            },
        }
    }

    /// The display name of the entry at `k`, if set.
    pub fn name_at(&self, k: usize) -> (r: Option<String>)
        requires
            k < self@.len(),
        ensures
            match r {
                Some(s) => self@[k as int].name == Some(s@),
                None => self@[k as int].name is None,
            },
    {
        match &self.peers[k].name {
            Some(s) => Some(s.clone()),
            None => None,
        }
    }

    /// Set the display name of the entry at `k`.
    pub fn set_name_at(&mut self, k: usize, name: String)
        requires
            old(self).wf(),
            k < old(self)@.len(),
        ensures
            final(self).wf(),
            final(self)@ == old(self)@.update(k as int, with_name(old(self)@[k as int], name@)),
    {
        let p = &mut self.peers[k];
        p.name = Some(name);
        proof {
            assert(self@ =~= old(self)@.update(k as int, with_name(old(self)@[k as int], name@)));
        }
    }

    /// Frame `line` and offer it to the queue of the entry at `k` alone.
    pub fn send_line_at(&mut self, k: usize, line: &str) -> (r: Result<(), QueueFullError>)
        requires
            old(self).wf(),
            k < old(self)@.len(),
        ensures
            final(self).wf(),
            final(self)@ == old(self)@.update(
                k as int,
                with_outbox(
                    old(self)@[k as int],
                    enq(old(self)@[k as int].outbox, frame_of(line@)),
                ),
            ),
            r is Ok <==> old(self)@[k as int].outbox.len() < CHANNEL_BUFF_SIZE,
    {
        let p = &mut self.peers[k];
        let r = pass_line(&mut p.outbox, line);
        proof {
            assert(self@ =~= old(self)@.update(
                k as int,
                with_outbox(
                    old(self)@[k as int],
                    enq(old(self)@[k as int].outbox, frame_of(line@)),
                ),
            ));
        }
        r
    }

    /// Take the oldest pending outbound frame of the entry at `k`, if any.
    pub fn dequeue_at(&mut self, k: usize) -> (r: Option<Vec<u8>>)
        requires
            old(self).wf(),
            k < old(self)@.len(),
        ensures
            final(self).wf(),
            match r {
                Some(f) => {
                    &&& old(self)@[k as int].outbox.len() > 0
                    &&& f@ == old(self)@[k as int].outbox[0]
                    &&& final(self)@ == old(self)@.update(
                        k as int,
                        with_outbox(old(self)@[k as int], old(self)@[k as int].outbox.skip(1)),
                    )
                },
                None => {
                    &&& old(self)@[k as int].outbox.len() == 0
                    &&& final(self)@ == old(self)@
                },
            },
    {
        let p = &mut self.peers[k];
        let r = p.outbox.dequeue();
        proof {
            match r {
                Some(_) => {
                    assert(self@ =~= old(self)@.update(
                        k as int,
                        with_outbox(old(self)@[k as int], old(self)@[k as int].outbox.skip(1)),
                    ));
                },
                None => {
                    assert(self@ =~= old(self)@);
                },
            }
        }
        r
    }

    /// Remove the entry registered under `id` and hand back its name state:
    /// `None` when no entry carried the id.
    pub fn remove(&mut self, id: u64) -> (r: Option<Option<String>>)
        requires
            old(self).wf(),
        ensures
            final(self).wf(),
            match r {
                Some(name) => {
                    let k = find_peer(old(self)@, id);
                    &&& has_peer(old(self)@, id)
                    &&& final(self)@ == old(self)@.remove(k)
                    &&& (match name {
                        Some(s) => old(self)@[k].name == Some(s@),
                        None => old(self)@[k].name is None,
                    })
                    &&& !has_peer(final(self)@, id)
                },
                None => {
                    &&& !has_peer(old(self)@, id)
                    &&& final(self)@ == old(self)@
                },
            },
    {
        match self.find_index(id) {
            Some(k) => {
                proof {
                    lemma_find_peer(self@, id);
                }
                let p = self.peers.remove(k);
                let name = p.name;
                proof {
                    assert(self@ =~= old(self)@.remove(k as int));
                    assert forall|i: int|
                        0 <= i < self@.len() implies (#[trigger] self@[i]).id != id by {
                        if i < k {
                            assert(self@[i] == old(self)@[i]);
                            assert(old(self)@[i].id != id);
                        } else {
                            assert(self@[i] == old(self)@[i + 1]);
                            assert(old(self)@[k as int].id == id);
                        }
                    }
                    lemma_find_peer(self@, id);
                }
                Some(name)
            },
            None => None,
        }
    }

    /// Offer one framed line to every named peer except the excluded
    /// originator; a full queue drops its copy without aborting delivery to
    /// the remaining targets.
    pub fn broadcast_line(&mut self, exclude: Option<u64>, line: &str)
        requires
            old(self).wf(),
        ensures
            final(self).wf(),
            final(self)@ == broadcast_to(old(self)@, exclude, frame_of(line@)),
    {
        let ghost target = broadcast_to(old(self)@, exclude, frame_of(line@));
        let n = self.peers.len();
        let mut i: usize = 0;
        while i < n
            invariant
                n == self@.len(),
                self@.len() == old(self)@.len(),
                i <= n,
                target == broadcast_to(old(self)@, exclude, frame_of(line@)),
                forall|j: int| i <= j < n ==> self@[j] == old(self)@[j],
                forall|j: int| 0 <= j < i ==> self@[j] == target[j],
                old(self).wf(),
            decreases n - i,
        {
            let is_named = self.peers[i].name.is_some();
            let is_excluded = match exclude {
                Some(e) => self.peers[i].id == e,
                None => false,
            };
            if is_named && !is_excluded {
                let frame = make_frame(line);
                proof {
                    assert(self@[i as int] == old(self)@[i as int]);
                    assert(old(self)@[i as int].outbox.len() <= CHANNEL_BUFF_SIZE);
                }
                let p = &mut self.peers[i];
                let _ = p.outbox.try_enqueue(frame);
            }
            proof {
                assert forall|j: int| 0 <= j < i + 1 implies self@[j] == target[j] by {
                    if j < i {
                        assert(self@[j] == target[j]);
                    }
                }
            }
            i += 1;
        }
        proof {
            assert(self@ =~= target);
        }
    }

    /// The roster string of named peers other than `excluded`: each name
    /// preceded by one space, in registry order.
    pub fn list_clients(&self, excluded: u64) -> (r: String)
        ensures
            r@ == roster_of(self@, excluded),
    {
        let mut result = String::new();
        let n = self.peers.len();
        let mut i: usize = 0;
        while i < n
            invariant
                n == self@.len(),
                i <= n,
                result@ == roster_of(self@.take(i as int), excluded),
            decreases n - i,
        {
            match &self.peers[i].name {
                Some(name) => {
                    if self.peers[i].id != excluded {
                        result.append(" ");
                        result.append(name.as_str());
                        proof {
                            reveal_strlit(" ");
                            assert(result@ =~= roster_of(self@.take(i as int), excluded)
                                + roster_entry(self@[i as int], excluded));
                        }
                    }
                },
                None => {},
            }
            proof {
                let t1 = self@.take(i + 1);
                assert(t1.drop_last() =~= self@.take(i as int));
                assert(t1.last() == self@[i as int]);
                assert(result@ == roster_of(self@.take(i + 1), excluded));
            }
            i += 1;
        }
        proof {
            assert(self@.take(n as int) =~= self@);
        }
        result
    }
}

} // verus!
