//! Latest-value fan-out of world snapshots. Each subscriber (a player id)
//! holds at most one unread snapshot: publishing replaces what is unread, so
//! a slow reader skips stale snapshots and the publisher never waits.

use vstd::prelude::*;

verus! {

/// Number of subscriptions: one per `u8` player id.
pub const SUBSCRIBERS: usize = 256;

/// Every subscriber has the latest snapshot unread.
pub open spec fn all_unread() -> Seq<bool> {
    Seq::new(SUBSCRIBERS as nat, |k: int| true)
}

/// The board after publishing each of `snaps` in turn, from `latest` and
/// `unread`: each publication leaves its snapshot as the latest, unread by all.
pub open spec fn published_all(latest: Seq<u8>, unread: Seq<bool>, snaps: Seq<Seq<u8>>) -> (
    Seq<u8>,
    Seq<bool>,
)
    decreases snaps.len(),
{
    if snaps.len() == 0 {
        (latest, unread)
    } else {
        published_all(snaps[0], all_unread(), snaps.drop_first())
    }
}

/// What subscriber `id` reads from a board holding `latest` and `unread`.
pub open spec fn read_of(latest: Seq<u8>, unread: Seq<bool>, id: u8) -> Option<Seq<u8>> {
    if unread[id as int] {
        Some(latest)
    } else {
        None
    }
}

/// The newest snapshot and, per subscriber, whether it is still unread.
pub struct SnapshotBoard {
    latest: Vec<u8>,
    unread: Vec<bool>,
}

impl SnapshotBoard {
    pub closed spec fn latest(&self) -> Seq<u8> {
        self.latest@
    }

    pub closed spec fn unread(&self) -> Seq<bool> {
        self.unread@
    }

    pub open spec fn wf(&self) -> bool {
        self.unread().len() == SUBSCRIBERS
    }

    /// A board with nothing published.
    pub fn new() -> (r: SnapshotBoard)
        ensures
            r.wf(),
            r.latest() == Seq::<u8>::empty(),
            r.unread() == Seq::new(SUBSCRIBERS as nat, |k: int| false),
    {
        let mut unread: Vec<bool> = Vec::new();
        let mut k: usize = 0;
        while k < SUBSCRIBERS
            invariant
                k <= SUBSCRIBERS,
                unread@ == Seq::new(k as nat, |i: int| false),
            decreases SUBSCRIBERS - k,
        {
            unread.push(false);
            k += 1;
            assert(unread@ =~= Seq::new(k as nat, |i: int| false));
        }
        SnapshotBoard { latest: Vec::new(), unread }
    }

    /// Starts the subscription of `id`: it reads only what is published from
    /// now on.
    pub fn subscribe(&mut self, id: u8)
        requires
            old(self).wf(),
        ensures
            final(self).wf(),
            final(self).latest() == old(self).latest(),
            final(self).unread() == old(self).unread().update(id as int, false),
    {
        self.unread.set(id as usize, false);
    }

    /// Publishes `snapshot` to every subscriber, replacing what was unread.
    pub fn publish(&mut self, snapshot: Vec<u8>)
        requires
            old(self).wf(),
        ensures
            final(self).wf(),
            final(self).latest() == snapshot@,
            final(self).unread() == all_unread(),
    {
        let ghost s = snapshot@;
        self.latest = snapshot;
        let mut k: usize = 0;
        while k < SUBSCRIBERS
            invariant
                k <= SUBSCRIBERS,
                self.latest@ == s,
                self.unread@.len() == SUBSCRIBERS,
                forall|i: int| 0 <= i < k ==> #[trigger] self.unread@[i],
            decreases SUBSCRIBERS - k,
        {
            self.unread.set(k, true);
            k += 1;
        }
        assert(self.unread@ =~= all_unread());
    }

    /// Takes the newest snapshot for `id` if it has not read it yet.
    pub fn take(&mut self, id: u8) -> (r: Option<Vec<u8>>)
        requires
            old(self).wf(),
        ensures
            final(self).wf(),
            final(self).latest() == old(self).latest(),
            final(self).unread() == old(self).unread().update(id as int, false),
            match r {
                Some(v) => read_of(old(self).latest(), old(self).unread(), id) == Some(v@),
                None => read_of(old(self).latest(), old(self).unread(), id) is None,
            },
    {
        if self.unread[id as usize] {
            self.unread.set(id as usize, false);
            let mut copy: Vec<u8> = Vec::new();
            let mut k: usize = 0;
            while k < self.latest.len()
                invariant
                    k <= self.latest@.len(),
                    copy@ == self.latest@.take(k as int),
                decreases self.latest@.len() - k,
            {
                copy.push(self.latest[k]);
                k += 1;
                assert(copy@ =~= self.latest@.take(k as int));
            }
            assert(copy@ =~= self.latest@);
            Some(copy)
        } else {
            assert(self.unread@ =~= old(self).unread@.update(id as int, false));
            None
        }
    }
}

/// A subscriber that reads after any number of publications, at whatever
/// pace, gets the last snapshot published, never an earlier one.
pub proof fn lemma_reader_gets_latest(
    latest: Seq<u8>,
    unread: Seq<bool>,
    snaps: Seq<Seq<u8>>,
    id: u8,
)
    requires
        snaps.len() > 0,
    ensures
        read_of(published_all(latest, unread, snaps).0, published_all(latest, unread, snaps).1, id)
            == Some(snaps.last()),
    decreases snaps.len(),
{
    if snaps.len() > 1 {
        lemma_reader_gets_latest(snaps[0], all_unread(), snaps.drop_first(), id);
        assert(snaps.drop_first().last() == snaps.last());
    } else {
        assert(snaps.drop_first() =~= Seq::<Seq<u8>>::empty());
        assert(published_all(snaps[0], all_unread(), snaps.drop_first()) == (snaps[0], all_unread()));
        assert(all_unread()[id as int]);
    }
}

} // verus!
