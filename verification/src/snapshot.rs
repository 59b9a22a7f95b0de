//! Aggregation: merging all bins of the window into one mapping from address
//! to summed count, produced fresh on each report.

use vstd::prelude::*;

use crate::tally::{
    Entry, lemma_tally_absent, lemma_tally_bound, lemma_tally_found, lemma_tally_push,
    lemma_tally_update, lemma_total_upto_bound, lemma_wf_entries_take, pairs_view, tally,
    total_upto, wf_entries,
};
use crate::window::WindowBuffer;

verus! {

/// A point-in-time aggregation of all bins: address to summed count. Derived
/// and ephemeral; never written back into the window.
pub struct Snapshot {
    entries: Vec<(String, u128)>,
}

impl View for Snapshot {
    type V = Seq<Entry>;

    /// A snapshot is modelled by its entries, addresses as character sequences.
    closed spec fn view(&self) -> Seq<Entry> {
        pairs_view(self.entries@)
    }
}

impl Snapshot {
    /// Distinct addresses, each with a positive total that fits its counter.
    pub open spec fn wf(&self) -> bool {
        wf_entries(self@, u128::MAX as nat)
    }

    /// An empty aggregation.
    fn new() -> (r: Snapshot)
        ensures
            r.wf(),
            r@ == Seq::<Entry>::empty(),
    {
        let r = Snapshot { entries: Vec::new() };
        proof {
            assert(r@ =~= Seq::<Entry>::empty());
        }
        r
    }

    /// Adds `c` to `addr`'s total and leaves every other address untouched.
    fn add(&mut self, addr: String, c: u64)
        requires
            old(self).wf(),
            c >= 1,
            tally(old(self)@, addr@) + c <= u128::MAX,
        ensures
            final(self).wf(),
            tally(final(self)@, addr@) == tally(old(self)@, addr@) + c,
            forall|b: Seq<char>| b != addr@ ==> tally(final(self)@, b) == tally(old(self)@, b),
    {
        let ghost pre = self@;
        let n = self.entries.len();
        let mut i: usize = 0;
        while i < n
            invariant
                n == self.entries.len(),
                i <= n,
                *self == *old(self),
                pre == self@,
                self.wf(),
                tally(self@, addr@) + c <= u128::MAX,
                forall|j: int| 0 <= j < i ==> pre[j].0 != addr@,
            decreases n - i,
        {
            if self.entries[i].0 == addr {
                proof {
                    assert(pre[i as int].0 == addr@);
                    lemma_tally_found(pre, i as int, addr@);
                }
                let t = self.entries[i].1;
                let e = &mut self.entries[i];
                e.1 = t + (c as u128);
                proof {
                    let x = (addr@, (t + c) as nat);
                    assert(self@ =~= pre.update(i as int, x));
                    assert forall|b: Seq<char>| b != addr@ implies tally(self@, b) == tally(
                        pre,
                        b,
                    ) by {
                        lemma_tally_update(pre, i as int, x, b);
                    }
                    lemma_tally_update(pre, i as int, x, addr@);
                }
                return ;
            }
            i = i + 1;
        }
        self.entries.push((addr, c as u128));
        proof {
            let x = (addr@, c as nat);
            assert(self@ =~= pre.push(x));
            lemma_tally_absent(pre, addr@);
            assert forall|b: Seq<char>| b != addr@ implies tally(self@, b) == tally(pre, b) by {
                lemma_tally_push(pre, x, b);
            }
            lemma_tally_push(pre, x, addr@);
        }
    }

    /// The aggregated total for `addr`.
    pub fn count_of(&self, addr: &String) -> (c: u128)
        requires
            self.wf(),
        ensures
            c as nat == tally(self@, addr@),
    {
        let n = self.entries.len();
        let mut i: usize = 0;
        while i < n
            invariant
                self.wf(),
                n == self.entries.len(),
                i <= n,
                forall|j: int| 0 <= j < i ==> self@[j].0 != addr@,
            decreases n - i,
        {
            if self.entries[i].0 == *addr {
                proof {
                    lemma_tally_found(self@, i as int, addr@);
                }
                return self.entries[i].1;
            }
            i = i + 1;
        }
        proof {
            lemma_tally_absent(self@, addr@);
        }
        0
    }

    /// The number of addresses with a positive total.
    pub fn len(&self) -> (n: usize)
        ensures
            n == self@.len(),
    {
        self.entries.len()
    }

    /// Surrenders the entries, for ranking.
    pub fn into_entries(self) -> (v: Vec<(String, u128)>)
        ensures
            pairs_view(v@) == self@,
    {
        self.entries
    }
}

impl WindowBuffer {
    /// Merges all bins into one snapshot: for every address, the snapshot's
    /// total is the sum of that address's counts over all `window_size` bins.
    /// The buffer itself is not changed.
    pub fn snapshot(&self) -> (snap: Snapshot)
        requires
            self.wf(),
        ensures
            snap.wf(),
            forall|a: Seq<char>| tally(snap@, a) == self.total(a),
    {
        let mut snap = Snapshot::new();
        let w = self.size();
        let mut k: usize = 0;
        proof {
            assert(forall|a: Seq<char>| tally(snap@, a) == 0);
        }
        while k < w
            invariant
                self.wf(),
                w as nat == self.window_size(),
                k <= w,
                snap.wf(),
                forall|a: Seq<char>|
                    tally(snap@, a) == total_upto(self.bins_view(), k as int, a),
            decreases w - k,
        {
            let bin = self.bin_at(k);
            let m = bin.len();
            let mut j: usize = 0;
            proof {
                assert(bin@.take(0) =~= Seq::<Entry>::empty());
            }
            while j < m
                invariant
                    self.wf(),
                    w as nat == self.window_size(),
                    k < w,
                    bin@ == self.bins_view()[k as int],
                    wf_entries(bin@, u64::MAX as nat),
                    m == bin@.len(),
                    j <= m,
                    snap.wf(),
                    forall|a: Seq<char>|
                        tally(snap@, a) == total_upto(self.bins_view(), k as int, a) + tally(
                            bin@.take(j as int),
                            a,
                        ),
                decreases m - j,
            {
                let (addr, c) = bin.entry_at(j);
                proof {
                    let big: nat = 0x10000000000000000nat;
                    let cap: nat = u64::MAX as nat;
                    lemma_total_upto_bound(self.bins_view(), k as int, addr@, cap);
                    lemma_wf_entries_take(bin@, cap, j as int);
                    lemma_tally_bound(bin@.take(j as int), addr@, cap);
                    assert(tally(snap@, addr@) + c <= (k as nat) * cap + cap + cap);
                    assert((k as nat) * cap + cap + cap <= big * cap) by (nonlinear_arith)
                        requires
                            (k as nat) + 2 <= big,
                            cap >= 0,
                    ;
                    assert(big * cap <= u128::MAX as nat);
                }
                let ghost before = snap@;
                snap.add(addr, c);
                proof {
                    assert(bin@.take(j as int + 1).drop_last() =~= bin@.take(j as int));
                    assert(bin@.take(j as int + 1).last() == bin@[j as int]);
                    assert forall|a: Seq<char>|
                        tally(snap@, a) == total_upto(self.bins_view(), k as int, a) + tally(
                            bin@.take(j as int + 1),
                            a,
                        ) by {
                        if a == addr@ {
                            assert(tally(snap@, a) == tally(before, a) + c);
                        } else {
                            assert(tally(snap@, a) == tally(before, a));
                        }
                    }
                }
                j = j + 1;
            }
            proof {
                assert(bin@.take(m as int) =~= bin@);
            }
            k = k + 1;
        }
        snap
    }
}

} // verus!
