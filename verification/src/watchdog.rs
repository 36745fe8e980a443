//! The capability watchdog's decisions: consecutive failed health checks per
//! capability, and when a capability is restarted.
use vstd::prelude::*;

use crate::strings::text_eq;

verus! {

/// Consecutive failed health checks after which a capability is restarted.
pub const RESTART_THRESHOLD: u32 = 2;

/// The failure count of `name` in a list of counts: that of its last entry,
/// 0 without one.
pub open spec fn count_in(entries: Seq<(Seq<char>, u32)>, name: Seq<char>) -> u32
    decreases entries.len(),
{
    if entries.len() == 0 {
        0
    } else if entries.last().0 == name {
        entries.last().1
    } else {
        count_in(entries.drop_last(), name)
    }
}

/// A list of counts without the entries of `name`.
pub open spec fn without_entries(entries: Seq<(Seq<char>, u32)>, name: Seq<char>) -> Seq<(Seq<char>, u32)>
    decreases entries.len(),
{
    if entries.len() == 0 {
        Seq::empty()
    } else if entries.last().0 == name {
        without_entries(entries.drop_last(), name)
    } else {
        without_entries(entries.drop_last(), name).push(entries.last())
    }
}

proof fn lemma_count_without(entries: Seq<(Seq<char>, u32)>, name: Seq<char>, n: Seq<char>)
    ensures
        count_in(without_entries(entries, name), n) == (if n == name {
            0
        } else {
            count_in(entries, n)
        }),
    decreases entries.len(),
{
    if entries.len() > 0 {
        lemma_count_without(entries.drop_last(), name, n);
        if entries.last().0 != name {
            assert(without_entries(entries, name).drop_last() =~= without_entries(entries.drop_last(), name));
        }
    }
}

/// What the watchdog does after one health check of a capability.
#[derive(Debug, Clone, Copy, PartialEq, Eq, Structural)]
pub enum WatchdogAction {
    /// The check passed; the failure count is cleared.
    Healthy,
    /// The check failed; this many consecutive failures, below the threshold.
    Failing(u32),
    /// The threshold was reached: mark the capability crashed and restart it.
    Restart,
}

/// Consecutive failed health checks per capability name.
#[derive(Debug)]
pub struct FailureCounts {
    entries: Vec<(String, u32)>,
}

/// The models of the entries.
pub open spec fn entry_models(v: Seq<(String, u32)>) -> Seq<(Seq<char>, u32)> {
    v.map_values(|e: (String, u32)| (e.0@, e.1))
}

impl FailureCounts {
    /// The consecutive failures recorded for a capability.
    pub closed spec fn count(&self, name: Seq<char>) -> u32 {
        count_in(entry_models(self.entries@), name)
    }

    /// No count reaches the threshold.
    pub closed spec fn wf(&self) -> bool {
        forall|n: Seq<char>| #[trigger] self.count(n) < RESTART_THRESHOLD
    }

    /// No failures recorded.
    pub fn new() -> (r: Self)
        ensures
            r.wf(),
            forall|n: Seq<char>| #[trigger] r.count(n) == 0,
    {
        let r = FailureCounts { entries: Vec::new() };
        assert(entry_models(r.entries@) =~= Seq::<(Seq<char>, u32)>::empty());
        r
    }

    /// Forget the failures of a capability.
    fn clear(&mut self, name: &str)
        ensures
            forall|n: Seq<char>|
                #[trigger] final(self).count(n) == (if n == name@ {
                    0
                } else {
                    old(self).count(n)
                }),
    {
        let ghost orig = entry_models(self.entries@);
        assert(orig.len() == self.entries.len());
        let mut i: usize = 0;
        let mut j: usize = 0;
        assert(orig.take(0) =~= Seq::<(Seq<char>, u32)>::empty());
        assert(entry_models(self.entries@) =~= without_entries(orig.take(0), name@) + orig.skip(0));
        while i < self.entries.len()
            invariant
                i <= self.entries.len(),
                j <= orig.len(),
                orig.len() <= usize::MAX,
                without_entries(orig.take(j as int), name@).len() == i,
                entry_models(self.entries@) == without_entries(orig.take(j as int), name@) + orig.skip(j as int),
            decreases self.entries.len() - i,
        {
            let ghost before = entry_models(self.entries@);
            let ghost done = without_entries(orig.take(j as int), name@);
            assert(before.len() == i + orig.skip(j as int).len());
            assert(j < orig.len());
            assert(before[i as int] == orig[j as int]);
            assert(orig.take(j + 1).drop_last() =~= orig.take(j as int));
            assert(orig.take(j + 1).last() == orig[j as int]);
            if text_eq(self.entries[i].0.as_str(), name) {
                let ghost vb = self.entries@;
                self.entries.remove(i);
                assert(self.entries@ == vb.remove(i as int));
                assert(entry_models(self.entries@) =~= before.remove(i as int));
                assert(without_entries(orig.take(j + 1), name@) == done);
                assert(before.remove(i as int) =~= done + orig.skip(j + 1));
            } else {
                assert(without_entries(orig.take(j + 1), name@) == done.push(orig[j as int]));
                assert(entry_models(self.entries@) =~= without_entries(orig.take(j + 1), name@) + orig.skip(j + 1));
                i = i + 1;
            }
            j = j + 1;
        }
        assert(j == orig.len()) by {
            assert(entry_models(self.entries@).len() == i + orig.skip(j as int).len());
        }
        assert(orig.take(j as int) =~= orig);
        assert(entry_models(self.entries@) =~= without_entries(orig, name@));
        proof {
            assert forall|n: Seq<char>| #[trigger] count_in(entry_models(self.entries@), n) == (if n == name@ {
                0
            } else {
                count_in(orig, n)
            }) by {
                lemma_count_without(orig, name@, n);
            }
        }
    }

    /// The consecutive failures recorded for a capability.
    pub fn get(&self, name: &str) -> (r: u32)
        ensures
            r == self.count(name@),
    {
        let ghost all = entry_models(self.entries@);
        let mut i: usize = self.entries.len();
        assert(all.take(i as int) =~= all);
        while i > 0
            invariant
                i <= self.entries.len(),
                all == entry_models(self.entries@),
                count_in(all, name@) == count_in(all.take(i as int), name@),
            decreases i,
        {
            assert(all.take(i as int).drop_last() =~= all.take(i - 1));
            assert(all.take(i as int).last() == (self.entries@[i - 1].0@, self.entries@[i - 1].1));
            if text_eq(self.entries[i - 1].0.as_str(), name) {
                return self.entries[i - 1].1;
            }
            i = i - 1;
        }
        0
    }

    /// Record one health check of a capability: a pass clears its count; a
    /// failure adds one, and on reaching the threshold the count is cleared
    /// and the capability restarted. No other capability's count changes.
    pub fn observe(&mut self, name: &str, healthy: bool) -> (r: WatchdogAction)
        requires
            old(self).wf(),
        ensures
            final(self).wf(),
            healthy ==> r == WatchdogAction::Healthy && final(self).count(name@) == 0,
            !healthy && old(self).count(name@) + 1 < RESTART_THRESHOLD ==> r == WatchdogAction::Failing(
                (old(self).count(name@) + 1) as u32,
            ) && final(self).count(name@) == old(self).count(name@) + 1,
            !healthy && old(self).count(name@) + 1 >= RESTART_THRESHOLD ==> r == WatchdogAction::Restart
                && final(self).count(name@) == 0,
            forall|n: Seq<char>| n != name@ ==> #[trigger] final(self).count(n) == old(self).count(n),
    {
        let ghost s0 = *self;
        let before = self.get(name);
        assert(before < RESTART_THRESHOLD);
        self.clear(name);
        let ghost s1 = *self;
        if healthy {
            return WatchdogAction::Healthy;
        }
        let count = before + 1;
        if count >= RESTART_THRESHOLD {
            return WatchdogAction::Restart;
        }
        let ghost mid = entry_models(self.entries@);
        self.entries.push((name.to_owned(), count));
        assert(entry_models(self.entries@) =~= mid.push((name@, count)));
        assert forall|n: Seq<char>| #[trigger] count_in(mid.push((name@, count)), n) == (if n == name@ {
            count
        } else {
            count_in(mid, n)
        }) by {
            assert(mid.push((name@, count)).drop_last() =~= mid);
        }
        assert forall|n: Seq<char>| #[trigger] self.count(n) == (if n == name@ {
            count
        } else {
            s0.count(n)
        }) by {
            assert(self.count(n) == count_in(mid.push((name@, count)), n));
            assert(s1.count(n) == count_in(mid, n));
        }
        assert(forall|n: Seq<char>| #[trigger] self.count(n) < RESTART_THRESHOLD) by {
            assert forall|n: Seq<char>| #[trigger] self.count(n) < RESTART_THRESHOLD by {
                if n != name@ {
                    assert(s0.count(n) < RESTART_THRESHOLD);
                }
            }
        }
        WatchdogAction::Failing(count)
    }
}

} // verus!
