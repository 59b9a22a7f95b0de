//! The rotating window: per-slot bins of per-address counts. A slot's bin is
//! cleared lazily, when an observation first lands in it at a wall-clock
//! second other than the one last written; slots not written stay stale
//! until they are visited again.

use vstd::prelude::*;

use crate::config::ConfigError;
use crate::tally::{
    Entry, lemma_tally_absent, lemma_tally_found, lemma_tally_push,
    lemma_tally_update, tally, wf_entries,
};

verus! {

/// One time slot's mapping from address to count.
pub struct Bin {
    entries: Vec<(String, u64)>,
}

impl View for Bin {
    type V = Seq<Entry>;

    /// A bin is modelled by its entries, addresses as character sequences.
    closed spec fn view(&self) -> Seq<Entry> {
        Seq::new(self.entries@.len(), |i: int| (self.entries@[i].0@, self.entries@[i].1 as nat))
    }
}

impl Bin {
    /// Distinct addresses, each with a positive count that fits its counter.
    pub open spec fn wf(&self) -> bool {
        wf_entries(self@, u64::MAX as nat)
    }

    /// An empty bin.
    pub fn new() -> (r: Bin)
        ensures
            r.wf(),
            r@ == Seq::<Entry>::empty(),
    {
        let r = Bin { entries: Vec::new() };
        proof {
            assert(r@ =~= Seq::<Entry>::empty());
        }
        r
    }

    /// Adds one observation of `addr` to this bin: its count grows by one and
    /// every other address keeps its count.
    pub fn increment(&mut self, addr: String)
        requires
            old(self).wf(),
            tally(old(self)@, addr@) < u64::MAX,
        ensures
            final(self).wf(),
            tally(final(self)@, addr@) == tally(old(self)@, addr@) + 1,
            forall|b: Seq<char>| b != addr@ ==> tally(final(self)@, b) == tally(old(self)@, b),
    {
        let ghost pre = self@;
        let n = self.entries.len();
        let mut i: usize = 0;
        while i < n
            invariant
                n == self.entries.len(),
                i <= n,
                *self == *old(self),
                pre == self@,
                self.wf(),
                tally(self@, addr@) < u64::MAX,
                forall|j: int| 0 <= j < i ==> pre[j].0 != addr@,
            decreases n - i,
        {
            if self.entries[i].0 == addr {
                proof {
                    assert(pre[i as int].0 == addr@);
                    lemma_tally_found(pre, i as int, addr@);
                }
                let c = self.entries[i].1;
                let e = &mut self.entries[i];
                e.1 = c + 1;
                proof {
                    let x = (addr@, (c + 1) as nat);
                    assert(self@ =~= pre.update(i as int, x));
                    assert forall|b: Seq<char>| b != addr@ implies tally(self@, b) == tally(
                        pre,
                        b,
                    ) by {
                        lemma_tally_update(pre, i as int, x, b);
                    }
                    lemma_tally_update(pre, i as int, x, addr@);
                }
                return ;
            }
            i = i + 1;
        }
        self.entries.push((addr, 1));
        proof {
            let x = (addr@, 1nat);
            assert(self@ =~= pre.push(x));
            lemma_tally_absent(pre, addr@);
            assert forall|b: Seq<char>| b != addr@ implies tally(self@, b) == tally(pre, b) by {
                lemma_tally_push(pre, x, b);
            }
            lemma_tally_push(pre, x, addr@);
        }
    }

    /// Number of distinct addresses recorded in this bin.
    pub fn len(&self) -> (n: usize)
        ensures
            n == self@.len(),
    {
        self.entries.len()
    }

    /// The entry at position `i`, address copied out.
    pub fn entry_at(&self, i: usize) -> (e: (String, u64))
        requires
            i < self@.len(),
        ensures
            e.0@ == self@[i as int].0,
            e.1 as nat == self@[i as int].1,
    {
        let p = &self.entries[i];
        (p.0.clone(), p.1)
    }

    /// The count this bin holds for `addr`.
    pub fn count_of(&self, addr: &String) -> (c: u64)
        requires
            self.wf(),
        ensures
            c as nat == tally(self@, addr@),
    {
        let n = self.entries.len();
        let mut i: usize = 0;
        while i < n
            invariant
                self.wf(),
                n == self.entries.len(),
                i <= n,
                forall|j: int| 0 <= j < i ==> self@[j].0 != addr@,
            decreases n - i,
        {
            if self.entries[i].0 == *addr {
                proof {
                    lemma_tally_found(self@, i as int, addr@);
                }
                return self.entries[i].1;
            }
            i = i + 1;
        }
        proof {
            lemma_tally_absent(self@, addr@);
        }
        0
    }
}

/// The rotating buffer of `window_size` bins and the second last written.
pub struct WindowBuffer {
    bins: Vec<Bin>,
    last: Option<u64>,
}

impl WindowBuffer {
    /// The bins' contents, slot by slot.
    pub closed spec fn bins_view(&self) -> Seq<Seq<Entry>> {
        Seq::new(self.bins@.len(), |i: int| self.bins@[i]@)
    }

    /// The epoch second most recently written, unset before the first
    /// observation.
    pub closed spec fn last_time(&self) -> Option<u64> {
        self.last
    }

    /// The configured number of one-second slots.
    pub open spec fn window_size(&self) -> nat {
        self.bins_view().len()
    }

    /// A positive window of well-formed bins.
    pub open spec fn wf(&self) -> bool {
        &&& self.window_size() > 0
        &&& forall|s: int|
            0 <= s < self.window_size() ==> wf_entries(
                #[trigger] self.bins_view()[s],
                u64::MAX as nat,
            )
    }

    /// The grand total the buffer holds for `a`, summed over all slots.
    pub open spec fn total(&self, a: Seq<char>) -> nat {
        crate::tally::total_of(self.bins_view(), a)
    }

    /// A buffer of `window` empty bins; a zero window is rejected as a
    /// configuration error before any observation is processed.
    pub fn new(window: usize) -> (r: Result<WindowBuffer, ConfigError>)
        ensures
            window > 0 <==> r is Ok,
            window == 0 ==> r is Err && r->Err_0 == ConfigError::ZeroWindow,
            r is Ok ==> {
                let b = r->Ok_0;
                &&& b.wf()
                &&& b.window_size() == window
                &&& b.last_time() is None
                &&& forall|s: int|
                    0 <= s < window ==> #[trigger] b.bins_view()[s] == Seq::<Entry>::empty()
            },
    {
        if window == 0 {
            return Err(ConfigError::ZeroWindow);
        }
        let mut bins: Vec<Bin> = Vec::new();
        let mut i: usize = 0;
        while i < window
            invariant
                i <= window,
                bins@.len() == i,
                forall|s: int| 0 <= s < i ==> (#[trigger] bins@[s])@ == Seq::<Entry>::empty(),
                forall|s: int| 0 <= s < i ==> (#[trigger] bins@[s]).wf(),
            decreases window - i,
        {
            bins.push(Bin::new());
            i = i + 1;
        }
        let r = WindowBuffer { bins, last: None };
        Ok(r)
    }

    /// Number of slots, as configured.
    pub fn size(&self) -> (n: usize)
        ensures
            n as nat == self.window_size(),
    {
        self.bins.len()
    }

    /// Whether the window was last written at the second `now`.
    pub fn is_current(&self, now: u64) -> (r: bool)
        ensures
            r == (self.last_time() == Some(now)),
    {
        match self.last {
            Some(t) => t == now,
            None => false,
        }
    }

    /// The count slot `slot` currently holds for `addr`.
    pub fn count_at(&self, slot: usize, addr: &String) -> (c: u64)
        requires
            self.wf(),
            (slot as int) < self.window_size(),
        ensures
            c as nat == tally(self.bins_view()[slot as int], addr@),
    {
        proof {
            assert(wf_entries(self.bins_view()[slot as int], u64::MAX as nat));
            assert(self.bins_view()[slot as int] == self.bins@[slot as int]@);
        }
        self.bins[slot].count_of(addr)
    }

    /// Makes `slot` current for the second `now`: clears its bin when time
    /// has moved on since the last write, and leaves everything as it is
    /// within one second. Repeated calls in the same second are idempotent;
    /// a slot reached again a window of seconds later is reset before reuse.
    pub fn advance(&mut self, slot: usize, now: u64)
        requires
            old(self).wf(),
            (slot as int) < old(self).window_size(),
        ensures
            final(self).wf(),
            final(self).window_size() == old(self).window_size(),
            final(self).last_time() == Some(now),
            old(self).last_time() == Some(now) ==> final(self).bins_view() == old(
                self,
            ).bins_view(),
            old(self).last_time() != Some(now) ==> final(self).bins_view() == old(
                self,
            ).bins_view().update(slot as int, Seq::<Entry>::empty()),
    {
        let same = self.is_current(now);
        if !same {
            let b = &mut self.bins[slot];
            *b = Bin::new();
            proof {
                assert(self.bins_view() =~= old(self).bins_view().update(
                    slot as int,
                    Seq::<Entry>::empty(),
                ));
            }
        } else {
            proof {
                assert(self.bins_view() =~= old(self).bins_view());
            }
        }
        self.last = Some(now);
    }

    /// Records one observation of `addr` in `slot`'s bin: that address's count
    /// in that bin grows by one; every other count and slot is untouched.
    /// The driver calls `advance` for the current second first.
    pub fn record(&mut self, slot: usize, addr: String)
        requires
            old(self).wf(),
            (slot as int) < old(self).window_size(),
            old(self).last_time() is Some,
            tally(old(self).bins_view()[slot as int], addr@) < u64::MAX,
        ensures
            final(self).wf(),
            final(self).window_size() == old(self).window_size(),
            final(self).last_time() == old(self).last_time(),
            tally(final(self).bins_view()[slot as int], addr@) == tally(
                old(self).bins_view()[slot as int],
                addr@,
            ) + 1,
            forall|b: Seq<char>|
                b != addr@ ==> tally(final(self).bins_view()[slot as int], b) == tally(
                    old(self).bins_view()[slot as int],
                    b,
                ),
            forall|s: int|
                0 <= s < final(self).window_size() && s != slot as int
                    ==> final(self).bins_view()[s] == old(self).bins_view()[s],
    {
        proof {
            assert(wf_entries(old(self).bins_view()[slot as int], u64::MAX as nat));
            assert(old(self).bins_view()[slot as int] == old(self).bins@[slot as int]@);
        }
        let b = &mut self.bins[slot];
        b.increment(addr);
        proof {
            let pre = old(self).bins_view();
            let post = self.bins_view();
            assert(post[slot as int] == self.bins@[slot as int]@);
            assert forall|s: int| 0 <= s < post.len() && s != slot as int implies post[s]
                == pre[s] by {
                assert(self.bins@[s] == old(self).bins@[s]);
            }
        }
    }

    /// A read of slot `slot`'s bin.
    pub fn bin_at(&self, slot: usize) -> (b: &Bin)
        requires
            (slot as int) < self.window_size(),
        ensures
            b@ == self.bins_view()[slot as int],
    {
        &self.bins[slot]
    }
}

} // verus!
