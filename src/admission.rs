//! Admission of connections: a table of player slots, one per id in
//! `1..=max_players`.

use vstd::prelude::*;

verus! {

/// Number of live slots in `s`.
pub open spec fn count_live(s: Seq<bool>) -> nat
    decreases s.len(),
{
    if s.len() == 0 {
        0
    } else {
        count_live(s.drop_last()) + if s.last() {
            1nat
        } else {
            0nat
        }
    }
}

proof fn lemma_count_live_bound(s: Seq<bool>)
    ensures
        count_live(s) <= s.len(),
        count_live(s) == s.len() ==> forall|k: int| 0 <= k < s.len() ==> #[trigger] s[k],
    decreases s.len(),
{
    if s.len() > 0 {
        lemma_count_live_bound(s.drop_last());
        if count_live(s) == s.len() {
            assert forall|k: int| 0 <= k < s.len() implies #[trigger] s[k] by {
                if k < s.len() - 1 {
                    assert(s[k] == s.drop_last()[k]);
                }
            }
        }
    }
}

proof fn lemma_count_live_update(s: Seq<bool>, k: int, v: bool)
    requires
        0 <= k < s.len(),
    ensures
        count_live(s.update(k, v)) + (if s[k] {
            1int
        } else {
            0int
        }) == count_live(s) + (if v {
            1int
        } else {
            0int
        }),
    decreases s.len(),
{
    let t = s.update(k, v);
    if k < s.len() - 1 {
        assert(t.drop_last() =~= s.drop_last().update(k, v));
        lemma_count_live_update(s.drop_last(), k, v);
    } else {
        assert(t.drop_last() =~= s.drop_last());
    }
}

proof fn lemma_none_live(n: nat)
    ensures
        count_live(Seq::new(n, |k: int| false)) == 0,
    decreases n,
{
    if n > 0 {
        assert(Seq::new(n, |k: int| false).drop_last() =~= Seq::new((n - 1) as nat, |k: int| false));
        lemma_none_live((n - 1) as nat);
    }
}

/// Which player ids are taken: slot `k` stands for id `k + 1`.
pub struct PlayerSlots {
    live: Vec<bool>,
}

impl View for PlayerSlots {
    type V = Seq<bool>;

    closed spec fn view(&self) -> Seq<bool> {
        self.live@
    }
}

impl PlayerSlots {
    pub open spec fn wf(&self) -> bool {
        self@.len() <= 255
    }

    /// A table for `max_players` players, all slots free.
    pub fn new(max_players: u8) -> (r: PlayerSlots)
        ensures
            r.wf(),
            r@ == Seq::new(max_players as nat, |k: int| false),
            count_live(r@) == 0,
    {
        let mut live: Vec<bool> = Vec::new();
        let mut k: u8 = 0;
        while k < max_players
            invariant
                k <= max_players,
                live@ == Seq::new(k as nat, |i: int| false),
            decreases max_players - k,
        {
            live.push(false);
            k += 1;
            assert(live@ =~= Seq::new(k as nat, |i: int| false));
        }
        proof {
            lemma_none_live(max_players as nat);
        }
        PlayerSlots { live }
    }

    /// The player cap.
    pub fn capacity(&self) -> (r: u8)
        requires
            self.wf(),
        ensures
            r == self@.len(),
    {
        self.live.len() as u8
    }

    /// Number of live connections.
    pub fn live_count(&self) -> (r: usize)
        ensures
            r == count_live(self@),
    {
        let mut c: usize = 0;
        let mut k: usize = 0;
        while k < self.live.len()
            invariant
                k <= self.live@.len(),
                c == count_live(self.live@.take(k as int)),
                c <= k,
            decreases self.live@.len() - k,
        {
            assert(self.live@.take(k + 1).drop_last() =~= self.live@.take(k as int));
            if self.live[k] {
                c += 1;
            }
            k += 1;
        }
        assert(self.live@.take(k as int) =~= self.live@);
        c
    }

    /// Whether `id` is taken.
    pub fn is_live(&self, id: u8) -> (r: bool)
        ensures
            r == (1 <= id <= self@.len() && self@[id - 1]),
    {
        id >= 1 && (id as usize) <= self.live.len() && self.live[(id - 1) as usize]
    }

    /// Takes a connection under the lowest free id; refuses it, changing
    /// nothing, when as many connections as the cap are live.
    pub fn claim_id(&mut self) -> (r: Option<u8>)
        requires
            old(self).wf(),
        ensures
            final(self).wf(),
            r is None <==> count_live(old(self)@) >= old(self)@.len(),
            r is None ==> final(self)@ == old(self)@,
            r matches Some(id) ==> 1 <= id <= old(self)@.len() && !old(self)@[id - 1] && (forall|
                k: int,
            | 0 <= k < id - 1 ==> #[trigger] old(self)@[k]) && final(self)@ == old(self)@.update(
                id - 1,
                true,
            ),
            r is Some ==> count_live(final(self)@) == count_live(old(self)@) + 1,
    {
        let n = self.live.len();
        if self.live_count() >= n {
            return None;
        }
        let mut k: usize = 0;
        while k < n
            invariant
                n == self.live@.len(),
                self.live@ == old(self).live@,
                n <= 255,
                k <= n,
                count_live(self.live@) < n,
                forall|i: int| 0 <= i < k ==> #[trigger] self.live@[i],
            decreases n - k,
        {
            if !self.live[k] {
                proof {
                    lemma_count_live_update(self.live@, k as int, true);
                }
                self.live.set(k, true);
                return Some((k + 1) as u8);
            }
            k += 1;
        }
        proof {
            lemma_count_live_bound(self.live@);
            assert forall|i: int| 0 <= i < self.live@.len() implies #[trigger] self.live@[i] by {}
            lemma_all_live(self.live@);
        }
        None
    }

    /// Frees `id`; `false`, and nothing changes, if it was not taken.
    pub fn release(&mut self, id: u8) -> (r: bool)
        requires
            old(self).wf(),
        ensures
            final(self).wf(),
            r == (1 <= id <= old(self)@.len() && old(self)@[id - 1]),
            r ==> final(self)@ == old(self)@.update(id - 1, false) && count_live(final(self)@) + 1
                == count_live(old(self)@),
            !r ==> final(self)@ == old(self)@,
    {
        if self.is_live(id) {
            proof {
                lemma_count_live_update(self.live@, id - 1, false);
            }
            self.live.set((id - 1) as usize, false);
            true
        } else {
            false
        }
    }
}

proof fn lemma_all_live(s: Seq<bool>)
    requires
        forall|i: int| 0 <= i < s.len() ==> #[trigger] s[i],
    ensures
        count_live(s) == s.len(),
    decreases s.len(),
{
    if s.len() > 0 {
        assert forall|i: int| 0 <= i < s.drop_last().len() implies #[trigger] s.drop_last()[i] by {
            assert(s.drop_last()[i] == s[i]);
        }
        lemma_all_live(s.drop_last());
    }
}

} // verus!
