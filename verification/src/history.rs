//! Fixed-capacity ring of the most recent post-handshake broadcast lines,
//! replayed oldest-first to each newly named peer. Overflow evicts the oldest.
use vstd::prelude::*;

use std::collections::VecDeque;

use crate::HISTORY_SIZE;

verus! {

/// Effect of recording one line: append, evicting the oldest at capacity.
pub open spec fn push16(h: Seq<Seq<char>>, m: Seq<char>) -> Seq<Seq<char>> {
    if h.len() < HISTORY_SIZE {
        h.push(m)
    } else {
        h.skip(1).push(m)
    }
}

/// Effect of recording a whole sequence of lines, oldest first.
pub open spec fn push_all(h: Seq<Seq<char>>, msgs: Seq<Seq<char>>) -> Seq<Seq<char>>
    decreases msgs.len(),
{
    if msgs.len() == 0 {
        h
    } else {
        push_all(push16(h, msgs[0]), msgs.skip(1))
    }
}

/// Whatever is recorded, the buffer holds exactly the most recent
/// `HISTORY_SIZE` lines of everything recorded so far, oldest first.
pub proof fn lemma_history_window(h: Seq<Seq<char>>, msgs: Seq<Seq<char>>)
    requires
        h.len() <= HISTORY_SIZE,
    ensures
        push_all(h, msgs) == (h + msgs).skip(
            if h.len() + msgs.len() <= HISTORY_SIZE {
                0
            } else {
                h.len() + msgs.len() - HISTORY_SIZE
            },
        ),
    decreases msgs.len(),
{
    let total = h.len() + msgs.len();
    let k: int = if total <= HISTORY_SIZE {
        0
    } else {
        total - HISTORY_SIZE
    };
    if msgs.len() == 0 {
        assert(push_all(h, msgs) =~= (h + msgs).skip(k));
    } else {
        let h2 = push16(h, msgs[0]);
        lemma_history_window(h2, msgs.skip(1));
        let k2: int = if h2.len() + msgs.len() - 1 <= HISTORY_SIZE {
            0
        } else {
            h2.len() + msgs.len() - 1 - HISTORY_SIZE
        };
        if h.len() < HISTORY_SIZE {
            assert(h2 + msgs.skip(1) =~= h + msgs);
            assert(push_all(h, msgs) =~= (h + msgs).skip(k));
        } else {
            assert(h2 + msgs.skip(1) =~= (h + msgs).skip(1)) by {
                assert forall|i: int| 0 <= i < h2.len() + msgs.len() - 1 implies (h2 + msgs.skip(
                    1,
                ))[i] == (h + msgs).skip(1)[i] by {
                    if i < h.len() - 1 {
                        assert(h2[i] == h.skip(1)[i]);
                        assert(h.skip(1)[i] == h[i + 1]);
                    } else if i == h.len() - 1 {
                        assert(h2[i] == msgs[0]);
                    } else {
                        assert((h2 + msgs.skip(1))[i] == msgs.skip(1)[i - h.len()]);
                    }
                }
            }
            assert((h2 + msgs.skip(1)).skip(k2) =~= (h + msgs).skip(k));
            assert(push_all(h, msgs) =~= (h + msgs).skip(k));
        }
    }
}

/// Bounded ring of the last `HISTORY_SIZE` broadcast chat lines.
pub struct HistoryBuffer {
    items: VecDeque<String>,
}

impl View for HistoryBuffer {
    type V = Seq<Seq<char>>;

    closed spec fn view(&self) -> Seq<Seq<char>> {
        Seq::new(self.items@.len(), |i: int| self.items@[i]@)
    }
}

impl HistoryBuffer {
    /// The buffer never exceeds its capacity.
    pub open spec fn wf(&self) -> bool {
        self@.len() <= HISTORY_SIZE
    }

    pub fn new() -> (h: Self)
        ensures
            h@ == Seq::<Seq<char>>::empty(),
            h.wf(),
    {
        let h = HistoryBuffer { items: VecDeque::new() };
        proof {
            assert(h@ =~= Seq::<Seq<char>>::empty());
        }
        h
    }

    pub fn len(&self) -> (n: usize)
        ensures
            n == self@.len(),
    {
        self.items.len()
    }

    /// The `i`-th recorded line, oldest first.
    pub fn get(&self, i: usize) -> (line: String)
        requires
            i < self@.len(),
        ensures
            line@ == self@[i as int],
    {
        self.items[i].clone()
    }

    /// Record one broadcast line, evicting the oldest at capacity.
    pub fn push(&mut self, msg: String)
        requires
            old(self).wf(),
        ensures
            final(self).wf(),
            final(self)@ == push16(old(self)@, msg@),
    {
        if self.items.len() == HISTORY_SIZE {
            let _ = self.items.pop_front();
        }
        self.items.push_back(msg);
        proof {
            assert(self@ =~= push16(old(self)@, msg@));
        }
    }
}

} // verus!
