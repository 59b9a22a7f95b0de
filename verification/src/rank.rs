//! Ranking: ordering a snapshot's entries descending by count, with ties
//! broken deterministically by ascending lexical order of address.

use vstd::prelude::*;

use crate::order::{
    lemma_lex_le_antisymmetric, lemma_lex_le_total, lemma_lex_le_transitive, lex_le, str_lex_le,
};
use crate::snapshot::Snapshot;
use crate::tally::{
    Entry, distinct_keys, lemma_tally_drop_first, lemma_tally_found, lemma_tally_insert,
    lemma_tally_positive, pairs_view, positive_counts, tally,
};
use crate::window::WindowBuffer;

verus! {

/// `x` may stand at or before `y` in a report: strictly more traffic, or an
/// equal count with an address no later in lexical order.
pub open spec fn entry_le(x: Entry, y: Entry) -> bool {
    x.1 > y.1 || (x.1 == y.1 && lex_le(x.0, y.0))
}

/// Every pair of positions of `s` stands in report order.
pub open spec fn sorted(s: Seq<Entry>) -> bool {
    forall|i: int, j: int| 0 <= i <= j < s.len() ==> entry_le(s[i], s[j])
}

/// Any two entries are comparable.
pub proof fn lemma_entry_le_total(x: Entry, y: Entry)
    ensures
        entry_le(x, y) || entry_le(y, x),
{
    lemma_lex_le_total(x.0, y.0);
}

/// Entries ordered both ways are equal.
pub proof fn lemma_entry_le_antisymmetric(x: Entry, y: Entry)
    requires
        entry_le(x, y),
        entry_le(y, x),
    ensures
        x == y,
{
    lemma_lex_le_antisymmetric(x.0, y.0);
}

/// Report order is transitive.
pub proof fn lemma_entry_le_transitive(x: Entry, y: Entry, z: Entry)
    requires
        entry_le(x, y),
        entry_le(y, z),
    ensures
        entry_le(x, z),
{
    if x.1 == y.1 && y.1 == z.1 {
        lemma_lex_le_transitive(x.0, y.0, z.0);
    }
}

/// Decides the report order between two concrete entries.
fn entry_le_exec(x: &(String, u128), y: &(String, u128)) -> (r: bool)
    ensures
        r == entry_le((x.0@, x.1 as nat), (y.0@, y.1 as nat)),
{
    if x.1 > y.1 {
        true
    } else if x.1 == y.1 {
        str_lex_le(x.0.as_str(), y.0.as_str())
    } else {
        false
    }
}

/// The first position of the sorted `out` whose entry must come after `e`.
fn find_pos(out: &Vec<(String, u128)>, e: &(String, u128)) -> (p: usize)
    requires
        sorted(pairs_view(out@)),
    ensures
        p <= out@.len(),
        forall|i: int| 0 <= i < p ==> entry_le(#[trigger] pairs_view(out@)[i], (e.0@, e.1 as nat)),
        forall|i: int|
            p <= i < out@.len() ==> entry_le((e.0@, e.1 as nat), #[trigger] pairs_view(out@)[i]),
{
    let ghost ov = pairs_view(out@);
    let ghost ev: Entry = (e.0@, e.1 as nat);
    let n = out.len();
    let mut p: usize = 0;
    while p < n
        invariant
            sorted(ov),
            ov == pairs_view(out@),
            ev == (e.0@, e.1 as nat),
            n == out@.len(),
            p <= n,
            forall|i: int| 0 <= i < p ==> entry_le(#[trigger] ov[i], ev),
        decreases n - p,
    {
        if !entry_le_exec(&out[p], e) {
            proof {
                lemma_entry_le_total(ov[p as int], ev);
                assert forall|i: int| p <= i < n implies entry_le(ev, #[trigger] ov[i]) by {
                    lemma_entry_le_transitive(ev, ov[p as int], ov[i]);
                }
            }
            return p;
        }
        p = p + 1;
    }
    p
}

/// Orders a snapshot's entries descending by count, equal counts by ascending
/// lexical order of address; the result carries exactly the snapshot's totals.
pub fn rank(snap: Snapshot) -> (r: Vec<(String, u128)>)
    requires
        snap.wf(),
    ensures
        sorted(pairs_view(r@)),
        distinct_keys(pairs_view(r@)),
        positive_counts(pairs_view(r@)),
        forall|a: Seq<char>| tally(pairs_view(r@), a) == tally(snap@, a),
{
    let ghost orig = snap@;
    let mut rest = snap.into_entries();
    let mut out: Vec<(String, u128)> = Vec::new();
    proof {
        assert(pairs_view(out@) =~= Seq::<Entry>::empty());
    }
    while rest.len() > 0
        invariant
            sorted(pairs_view(out@)),
            distinct_keys(pairs_view(out@)),
            distinct_keys(pairs_view(rest@)),
            positive_counts(pairs_view(out@)),
            positive_counts(pairs_view(rest@)),
            forall|i: int, j: int|
                0 <= i < rest@.len() && 0 <= j < out@.len() ==> (#[trigger] pairs_view(
                    rest@,
                )[i]).0 != (#[trigger] pairs_view(out@)[j]).0,
            forall|a: Seq<char>|
                tally(pairs_view(out@), a) + tally(pairs_view(rest@), a) == tally(orig, a),
        decreases rest.len(),
    {
        let ghost rv = pairs_view(rest@);
        let ghost ov = pairs_view(out@);
        let e = match rest.pop() {
            Some(e) => e,
            None => {
                proof {
                    assert(false);
                }
                unreached()
            },
        };
        let ghost ev: Entry = (e.0@, e.1 as nat);
        proof {
            assert(pairs_view(rest@) =~= rv.drop_last());
            assert(ev == rv.last());
        }
        let ghost obase = out@;
        let p = find_pos(&out, &e);
        out.insert(p, e);
        proof {
            let nv = pairs_view(out@);
            obase.insert_ensures(p as int, e);
            ov.insert_ensures(p as int, ev);
            assert forall|i: int| 0 <= i < nv.len() implies nv[i] == ov.insert(p as int, ev)[i] by {
                if i < p {
                    assert(out@[i] == obase[i]);
                } else if i == p {
                    assert(out@[i] == e);
                } else {
                    assert(out@[i] == obase[i - 1]);
                }
            }
            assert(nv =~= ov.insert(p as int, ev));
            // the new sequence keeps report order
            assert forall|i: int, j: int| 0 <= i <= j < nv.len() implies entry_le(
                nv[i],
                nv[j],
            ) by {
                if i == j {
                    lemma_entry_le_total(nv[i], nv[i]);
                }
            }
            // distinct addresses and positive counts carry over
            assert(rv.last() == rv[rv.len() - 1]);
            assert(forall|i: int, j: int| 0 <= i < j < nv.len() ==> nv[i].0 != nv[j].0);
            // totals move one entry from the rest to the report
            assert forall|a: Seq<char>|
                tally(nv, a) + tally(pairs_view(rest@), a) == tally(orig, a) by {
                lemma_tally_insert(ov, p as int, ev, a);
            }
        }
    }
    proof {
        assert(pairs_view(rest@).len() == 0);
    }
    out
}

/// Two sorted, duplicate-free, positive reports with the same total for every
/// address are the same sequence: a snapshot has exactly one ranking, however
/// its entries were ordered before ranking.
pub proof fn lemma_report_unique(r1: Seq<Entry>, r2: Seq<Entry>)
    requires
        sorted(r1),
        sorted(r2),
        distinct_keys(r1),
        distinct_keys(r2),
        positive_counts(r1),
        positive_counts(r2),
        forall|a: Seq<char>| tally(r1, a) == tally(r2, a),
    ensures
        r1 == r2,
    decreases r1.len(),
{
    if r1.len() == 0 && r2.len() == 0 {
        assert(r1 =~= r2);
    } else if r1.len() == 0 {
        lemma_tally_found(r2, 0, r2[0].0);
        assert(tally(r1, r2[0].0) == 0);
        assert(false);
    } else if r2.len() == 0 {
        lemma_tally_found(r1, 0, r1[0].0);
        assert(tally(r2, r1[0].0) == 0);
        assert(false);
    } else {
        let x = r1[0];
        let y = r2[0];
        lemma_tally_found(r1, 0, x.0);
        lemma_tally_positive(r2, x.0);
        let k = choose|k: int| 0 <= k < r2.len() && r2[k].0 == x.0;
        lemma_tally_found(r2, k, x.0);
        assert(entry_le(y, r2[k]));
        assert(entry_le(y, x));
        lemma_tally_found(r2, 0, y.0);
        lemma_tally_positive(r1, y.0);
        let l = choose|l: int| 0 <= l < r1.len() && r1[l].0 == y.0;
        lemma_tally_found(r1, l, y.0);
        assert(entry_le(x, r1[l]));
        assert(entry_le(x, y));
        lemma_entry_le_antisymmetric(x, y);
        let t1 = r1.drop_first();
        let t2 = r2.drop_first();
        assert forall|a: Seq<char>| tally(t1, a) == tally(t2, a) by {
            lemma_tally_drop_first(r1, a);
            lemma_tally_drop_first(r2, a);
        }
        assert forall|i: int, j: int| 0 <= i <= j < t1.len() implies entry_le(t1[i], t1[j]) by {
            assert(t1[i] == r1[i + 1]);
            assert(t1[j] == r1[j + 1]);
        }
        assert forall|i: int, j: int| 0 <= i <= j < t2.len() implies entry_le(t2[i], t2[j]) by {
            assert(t2[i] == r2[i + 1]);
            assert(t2[j] == r2[j + 1]);
        }
        assert forall|i: int, j: int| 0 <= i < j < t1.len() implies t1[i].0 != t1[j].0 by {
            assert(t1[i] == r1[i + 1]);
            assert(t1[j] == r1[j + 1]);
        }
        assert forall|i: int, j: int| 0 <= i < j < t2.len() implies t2[i].0 != t2[j].0 by {
            assert(t2[i] == r2[i + 1]);
            assert(t2[j] == r2[j + 1]);
        }
        assert forall|i: int| 0 <= i < t1.len() implies t1[i].1 >= 1 by {
            assert(t1[i] == r1[i + 1]);
        }
        assert forall|i: int| 0 <= i < t2.len() implies t2[i].1 >= 1 by {
            assert(t2[i] == r2[i + 1]);
        }
        lemma_report_unique(t1, t2);
        assert forall|i: int| 0 <= i < r1.len() implies r1[i] == r2[i] by {
            if i > 0 {
                assert(r1[i] == t1[i - 1]);
                assert(r2[i] == t2[i - 1]);
            }
        }
        assert(r1 =~= r2);
    }
}

/// Tie-break determinism: entries with equal counts always stand in ascending
/// lexical order of address.
pub proof fn lemma_rank_tiebreak(rep: Seq<Entry>, i: int, j: int)
    requires
        sorted(rep),
        0 <= i <= j < rep.len(),
        rep[i].1 == rep[j].1,
    ensures
        lex_le(rep[i].0, rep[j].0),
{
    assert(entry_le(rep[i], rep[j]));
}

/// Snapshot idempotence: with no observations in between, two snapshots of
/// the same buffer agree on every address, and their rankings are identical.
pub proof fn lemma_snapshot_idempotent(
    buf: WindowBuffer,
    s1: Seq<Entry>,
    s2: Seq<Entry>,
    r1: Seq<Entry>,
    r2: Seq<Entry>,
)
    requires
        forall|a: Seq<char>| tally(s1, a) == buf.total(a),
        forall|a: Seq<char>| tally(s2, a) == buf.total(a),
        sorted(r1),
        distinct_keys(r1),
        positive_counts(r1),
        forall|a: Seq<char>| tally(r1, a) == tally(s1, a),
        sorted(r2),
        distinct_keys(r2),
        positive_counts(r2),
        forall|a: Seq<char>| tally(r2, a) == tally(s2, a),
    ensures
        forall|a: Seq<char>| tally(s1, a) == tally(s2, a),
        r1 == r2,
{
    lemma_report_unique(r1, r2);
}

} // verus!
