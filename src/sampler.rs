//! The per-core history store owned by the sampler, and the snapshot it
//! builds on every tick.

use crate::history::{appended, last_n, History, HISTORY_SIZE};
use vstd::prelude::*;

verus! {

/// The period of the sampling tick, in milliseconds.
pub const TICK_PERIOD_MS: u64 = 250;

/// One core's entry in a snapshot.
#[derive(Clone, Debug, PartialEq)]
pub struct CoreRecord<T> {
    pub core_id: usize,
    pub usage: T,
    /// The core's history after `usage` was recorded, oldest first.
    pub history: Vec<T>,
}

/// The histories `h` resized to `n` cores: kept as they are when the core
/// count is unchanged, all emptied otherwise.
pub open spec fn reset_if_resized<T>(h: Seq<Seq<T>>, n: nat) -> Seq<Seq<T>> {
    if h.len() == n {
        h
    } else {
        Seq::new(n, |i: int| Seq::<T>::empty())
    }
}

/// The histories after one tick that sampled `usages`, one value per core in
/// core-index order.
pub open spec fn step<T>(h: Seq<Seq<T>>, usages: Seq<T>) -> Seq<Seq<T>> {
    let base = reset_if_resized(h, usages.len());
    Seq::new(usages.len(), |i: int| appended(base[i], usages[i]))
}

/// The histories after the ticks `ticks`, oldest first, starting from none.
pub open spec fn run<T>(ticks: Seq<Seq<T>>) -> Seq<Seq<T>>
    decreases ticks.len(),
{
    if ticks.len() == 0 {
        Seq::empty()
    } else {
        step(run(ticks.drop_last()), ticks.last())
    }
}

/// The values sampled for core `c` over `ticks`, oldest first.
pub open spec fn column<T>(ticks: Seq<Seq<T>>, c: int) -> Seq<T> {
    Seq::new(ticks.len(), |k: int| ticks[k][c])
}

/// `snapshot` lists, for each core `i` in order, its index, the usage sampled
/// for it and its history `histories[i]`.
pub open spec fn describes<T>(
    snapshot: Seq<CoreRecord<T>>,
    usages: Seq<T>,
    histories: Seq<Seq<T>>,
) -> bool {
    &&& snapshot.len() == usages.len()
    &&& histories.len() == usages.len()
    &&& forall|i: int|
        0 <= i < snapshot.len() ==> {
            let r = #[trigger] snapshot[i];
            &&& r.core_id == i
            &&& r.usage == usages[i]
            &&& r.history@ == histories[i]
        }
}

/// The bounded histories of every detected core, indexed by core.
pub struct HistoryStore<T> {
    histories: Vec<History<T>>,
}

impl<T: Copy> HistoryStore<T> {
    pub closed spec fn view(&self) -> Seq<Seq<T>> {
        Seq::new(self.histories@.len(), |i: int| self.histories@[i]@)
    }

    pub closed spec fn wf(&self) -> bool {
        forall|i: int| 0 <= i < self.histories@.len() ==> #[trigger] self.histories@[i].wf()
    }

    /// A store that has seen no core yet.
    pub fn new() -> (s: Self)
        ensures
            s.wf(),
            s@ == Seq::<Seq<T>>::empty(),
    {
        let s = HistoryStore { histories: Vec::new() };
        assert(s@ =~= Seq::<Seq<T>>::empty());
        s
    }

    /// The number of cores the histories are sized for.
    pub fn core_count(&self) -> (n: usize)
        ensures
            n == self@.len(),
    {
        self.histories.len()
    }

    /// Empties every history and sizes the store for `n` cores.
    fn reset(&mut self, n: usize)
        ensures
            final(self).wf(),
            final(self)@ == Seq::new(n as nat, |i: int| Seq::<T>::empty()),
    {
        let mut fresh: Vec<History<T>> = Vec::with_capacity(n);
        let mut i: usize = 0;
        while i < n
            invariant
                i <= n,
                fresh@.len() == i,
                forall|j: int| 0 <= j < i ==> (#[trigger] fresh@[j]).wf() && fresh@[j]@ == Seq::<T>::empty(),
            decreases n - i,
        {
            fresh.push(History::new());
            i = i + 1;
        }
        self.histories = fresh;
        assert(self@ =~= Seq::new(n as nat, |i: int| Seq::<T>::empty()));
    }

    /// One sampling tick: `usages` holds the usage of each detected core in
    /// core-index order. When the core count differs from the store's, every
    /// history is emptied first. Each core's value is then recorded, and the
    /// snapshot of the tick is returned.
    pub fn tick(&mut self, usages: &Vec<T>) -> (snapshot: Vec<CoreRecord<T>>)
        requires
            old(self).wf(),
        ensures
            final(self).wf(),
            final(self)@ == step(old(self)@, usages@),
            describes(snapshot@, usages@, final(self)@),
    {
        let n = usages.len();
        if self.histories.len() != n {
            self.reset(n);
        }
        let ghost base = self@;
        assert(base == reset_if_resized(old(self)@, usages@.len()));
        let mut snapshot: Vec<CoreRecord<T>> = Vec::with_capacity(n);
        let mut i: usize = 0;
        while i < n
            invariant
                i <= n,
                n == usages@.len(),
                self.histories@.len() == n,
                base.len() == n,
                self.wf(),
                forall|j: int| 0 <= j < i ==> #[trigger] self.histories@[j]@ == appended(base[j], usages@[j]),
                forall|j: int| i <= j < n ==> #[trigger] self.histories@[j]@ == base[j],
                snapshot@.len() == i,
                forall|j: int|
                    0 <= j < i ==> {
                        &&& #[trigger] snapshot@[j].core_id == j
                        &&& snapshot@[j].usage == usages@[j]
                        &&& snapshot@[j].history@ == self.histories@[j]@
                    },
            decreases n - i,
        {
            let usage = usages[i];
            assert(self.histories@[i as int].wf());
            let ghost prev = self.histories@;
            let ghost prev_snapshot = snapshot@;
            self.histories[i].push(usage);
            assert(forall|j: int| 0 <= j < n && j != i ==> self.histories@[j] == prev[j]);
            let history = self.histories[i].to_vec();
            snapshot.push(CoreRecord { core_id: i, usage, history });
            assert forall|j: int| 0 <= j <= i implies #[trigger] snapshot@[j].core_id == j
                && snapshot@[j].usage == usages@[j]
                && snapshot@[j].history@ == self.histories@[j]@ by {
                if j < i {
                    assert(snapshot@[j] == prev_snapshot[j]);
                    assert(self.histories@[j] == prev[j]);
                } else {
                    assert(snapshot@[j] == CoreRecord { core_id: i, usage, history });
                    assert(history@ == self.histories@[j]@);
                }
            }
            i = i + 1;
        }
        assert(self@ =~= step(old(self)@, usages@));
        snapshot
    }
}

/// Recording `x` into a window of the last `HISTORY_SIZE` values of `s`
/// gives the window of the last `HISTORY_SIZE` values of `s` followed by `x`.
proof fn lemma_appended_window<T>(s: Seq<T>, x: T)
    ensures
        appended(last_n(s, HISTORY_SIZE as nat), x) == last_n(s.push(x), HISTORY_SIZE as nat),
{
    let c = HISTORY_SIZE as nat;
    if s.len() > c {
        assert(last_n(s, c).push(x).subrange(1, c + 1 as int) =~= s.push(x).subrange(
            s.len() + 1 - c,
            s.len() + 1 as int,
        ));
    }
}

/// After `k` ticks that each sample the same number of cores `n`, every
/// core's history holds exactly the last `min(k, HISTORY_SIZE)` values sampled
/// for it, oldest first; so its length is `min(k, HISTORY_SIZE)` and its newest
/// entry is the value of the latest tick.
pub proof fn lemma_history_window<T>(ticks: Seq<Seq<T>>, n: nat)
    requires
        forall|k: int| 0 <= k < ticks.len() ==> (#[trigger] ticks[k]).len() == n,
    ensures
        ticks.len() > 0 ==> run(ticks).len() == n,
        forall|c: int|
            0 <= c < run(ticks).len() ==> {
                &&& #[trigger] run(ticks)[c] == last_n(column(ticks, c), HISTORY_SIZE as nat)
                &&& run(ticks)[c].len() == if ticks.len() < HISTORY_SIZE {
                    ticks.len()
                } else {
                    HISTORY_SIZE as nat
                }
                &&& run(ticks)[c].last() == ticks.last()[c]
            },
    decreases ticks.len(),
{
    if ticks.len() > 0 {
        let prev = ticks.drop_last();
        let u = ticks.last();
        lemma_history_window(prev, n);
        let base = reset_if_resized(run(prev), n);
        assert forall|c: int| 0 <= c < n implies #[trigger] base[c] == last_n(
            column(prev, c),
            HISTORY_SIZE as nat,
        ) by {
            if prev.len() == 0 {
                assert(column(prev, c) =~= Seq::<T>::empty());
            }
        }
        assert forall|c: int| 0 <= c < run(ticks).len() implies {
            &&& #[trigger] run(ticks)[c] == last_n(column(ticks, c), HISTORY_SIZE as nat)
            &&& run(ticks)[c].len() == if ticks.len() < HISTORY_SIZE {
                ticks.len()
            } else {
                HISTORY_SIZE as nat
            }
            &&& run(ticks)[c].last() == ticks.last()[c]
        } by {
            assert(column(ticks, c) =~= column(prev, c).push(u[c]));
            lemma_appended_window(column(prev, c), u[c]);
        }
    }
}

/// A tick that samples a core count other than the store's empties every
/// history, of surviving and new cores alike, before recording: each core is
/// left with its newest value alone.
pub proof fn lemma_topology_change_resets<T>(h: Seq<Seq<T>>, usages: Seq<T>)
    requires
        h.len() != usages.len(),
    ensures
        step(h, usages).len() == usages.len(),
        forall|i: int| 0 <= i < usages.len() ==> #[trigger] step(h, usages)[i] == seq![usages[i]],
{
    assert forall|i: int| 0 <= i < usages.len() implies #[trigger] step(h, usages)[i] == seq![
        usages[i],
    ] by {
        assert(Seq::<T>::empty().push(usages[i]) =~= seq![usages[i]]);
    }
}

} // verus!
