//! The per-observation driver: classify the packet, compute the current
//! slot, advance the window, record the address, and rank a fresh snapshot.

use vstd::prelude::*;

use crate::rank::{rank, sorted};
use vstd::arithmetic::div_mod::lemma_mod_multiples_vanish;
use crate::tally::{Entry, distinct_keys, pairs_view, positive_counts, tally};
use crate::window::WindowBuffer;

verus! {

/// The slot that the wall-clock second `now` falls into, for `w` slots.
pub open spec fn slot_of_spec(now: u64, w: nat) -> int
    recommends
        w > 0,
{
    now as int % w as int
}

/// Maps a second to its slot in `[0, window)`.
pub fn slot_of(now: u64, window: usize) -> (r: usize)
    requires
        window > 0,
    ensures
        r as int == slot_of_spec(now, window as nat),
        r < window,
{
    (now % (window as u64)) as usize
}

/// Relies on std::time::SystemTime::now (with duration_since and as_secs):
/// the current wall-clock time as whole seconds since the Unix epoch, zero
/// should the clock read earlier than the epoch. Nothing is promised of the
/// reading itself.
#[verifier::external_body]
fn now_secs() -> (r: u64) {
    match std::time::SystemTime::now().duration_since(std::time::UNIX_EPOCH) {
        Ok(d) => d.as_secs(),
        Err(_) => 0,
    }
}

/// The slot of the current epoch second. The clock's reading is not
/// modelled, so only the range of the result is promised.
pub fn get_index(window: usize) -> (r: usize)
    requires
        window > 0,
    ensures
        r < window,
{
    let now = now_secs();
    slot_of(now, window)
}

/// The source address, as text, that decoding an Ethernet frame yields: the
/// IPv4 or IPv6 source of its IP header, absent when the frame carries none
/// or cannot be decoded. A function of the frame's bytes alone.
pub uninterp spec fn source_addr_of(data: Seq<u8>) -> Option<Seq<char>>;

/// Relies on etherparse::SlicedPacket::from_ethernet to decode the frame,
/// and on the Ipv4Slice/Ipv6Slice header's source_addr, rendered in the std
/// textual form, for the address. A frame that does not decode to an IP
/// packet yields None.
#[verifier::external_body]
fn decode_source_addr(data: &[u8]) -> (r: Option<String>)
    ensures
        r is Some <==> source_addr_of(data@) is Some,
        r matches Some(s) ==> source_addr_of(data@) == Some(s@),
{
    match etherparse::SlicedPacket::from_ethernet(data) {
        Ok(p) => match p.net {
            Some(etherparse::NetSlice::Ipv4(ip)) => Some(ip.header().source_addr().to_string()),
            Some(etherparse::NetSlice::Ipv6(ip)) => Some(ip.header().source_addr().to_string()),
            Some(etherparse::NetSlice::Arp(_)) => None,
            None => None,
        },
        Err(_) => None,
    }
}

/// The bins after `advance(slot, now)`: unchanged while the window was last
/// written in the same second `now`, reset at `slot` when time has moved on.
pub open spec fn bins_after_advance(pre: WindowBuffer, slot: usize, now: u64) -> Seq<
    Seq<Entry>,
> {
    if pre.last_time() == Some(now) {
        pre.bins_view()
    } else {
        pre.bins_view().update(slot as int, Seq::<Entry>::empty())
    }
}

/// One valid observation of `a` landed in `slot` at second `now`: the slot
/// was reset first unless the window was last written in the same second,
/// `a`'s count in it grew by one, every other count and slot kept its value,
/// and `now` became the second last written.
pub open spec fn observed(
    pre: WindowBuffer,
    post: WindowBuffer,
    slot: usize,
    now: u64,
    a: Seq<char>,
) -> bool {
    let base = bins_after_advance(pre, slot, now);
    &&& post.window_size() == pre.window_size()
    &&& post.last_time() == Some(now)
    &&& tally(post.bins_view()[slot as int], a) == tally(base[slot as int], a) + 1
    &&& forall|b: Seq<char>|
        b != a ==> tally(post.bins_view()[slot as int], b) == tally(base[slot as int], b)
    &&& forall|s: int|
        0 <= s < post.window_size() && s != slot as int ==> post.bins_view()[s] == base[s]
}

/// The bin of `slot` would keep its contents at second `now`, and its
/// counter for `a` is full: one more observation of `a` could not be
/// counted.
pub open spec fn saturated(pre: WindowBuffer, slot: usize, now: u64, a: Seq<char>) -> bool {
    pre.last_time() == Some(now) && tally(pre.bins_view()[slot as int], a) == u64::MAX
}

/// How one driver step at second `now` transforms the buffer for a valid
/// observation of `a`: either the full-counter case dropped it unchanged and
/// unreported, or it was recorded in `now`'s slot and reported.
pub open spec fn stepped(
    pre: WindowBuffer,
    post: WindowBuffer,
    a: Seq<char>,
    now: u64,
    reported: bool,
) -> bool {
    let slot = slot_of_spec(now, pre.window_size()) as usize;
    if saturated(pre, slot, now, a) {
        post == pre && !reported
    } else {
        observed(pre, post, slot, now, a) && reported
    }
}

/// What a ranked report of `buf` holds: report order, no duplicate address,
/// positive counts, and for every address exactly the buffer's grand total.
pub open spec fn is_report_of(rep: Seq<Entry>, buf: WindowBuffer) -> bool {
    &&& sorted(rep)
    &&& distinct_keys(rep)
    &&& positive_counts(rep)
    &&& forall|a: Seq<char>| tally(rep, a) == buf.total(a)
}

/// One driver step at wall-clock second `now`. An invalid observation
/// (`None`) changes nothing and reports nothing. A valid address is recorded
/// in the slot of `now`, that slot reset first whenever time has moved on
/// since the last write, and the ranked report of the new window is
/// returned — except that an observation landing on a full counter is
/// dropped, the buffer unchanged.
pub fn step(buf: &mut WindowBuffer, obs: Option<String>, now: u64) -> (r: Option<
    Vec<(String, u128)>,
>)
    requires
        old(buf).wf(),
    ensures
        final(buf).wf(),
        final(buf).window_size() == old(buf).window_size(),
        obs is None ==> *final(buf) == *old(buf) && r is None,
        obs matches Some(addr) ==> stepped(*old(buf), *final(buf), addr@, now, r is Some),
        r matches Some(rep) ==> is_report_of(pairs_view(rep@), *final(buf)),
{
    let w = buf.size();
    match obs {
        None => None,
        Some(addr) => {
            let slot = slot_of(now, w);
            if buf.is_current(now) {
                let c = buf.count_at(slot, &addr);
                if c == u64::MAX {
                    return None;
                }
            }
            buf.advance(slot, now);
            proof {
                let base = bins_after_advance(*old(buf), slot, now);
                assert(buf.bins_view() == base);
                if old(buf).last_time() != Some(now) {
                    assert(base[slot as int] == Seq::<Entry>::empty());
                }
            }
            buf.record(slot, addr);
            let snap = buf.snapshot();
            let report = rank(snap);
            Some(report)
        },
    }
}

/// One driver step on a raw Ethernet frame at second `now`: when the decoder
/// yields a source address it is recorded exactly as `step` records a valid
/// observation; a frame without one is skipped, changing nothing.
pub fn process_packet(buf: &mut WindowBuffer, data: &[u8], now: u64) -> (r: Option<
    Vec<(String, u128)>,
>)
    requires
        old(buf).wf(),
    ensures
        final(buf).wf(),
        final(buf).window_size() == old(buf).window_size(),
        source_addr_of(data@) is None ==> *final(buf) == *old(buf) && r is None,
        source_addr_of(data@) matches Some(a) ==> stepped(
            *old(buf),
            *final(buf),
            a,
            now,
            r is Some,
        ),
        r matches Some(rep) ==> is_report_of(pairs_view(rep@), *final(buf)),
{
    let obs = decode_source_addr(data);
    step(buf, obs, now)
}

/// One loop iteration on the live clock: `process_packet` at the current
/// epoch second. Which second the clock reads is not modelled, so the second
/// is bound existentially: for a decodable frame some second's step was
/// taken — recorded and reported, unless that second's counter for the
/// address was full. An undecodable frame changes nothing.
pub fn observe(buf: &mut WindowBuffer, data: &[u8]) -> (r: Option<Vec<(String, u128)>>)
    requires
        old(buf).wf(),
    ensures
        final(buf).wf(),
        final(buf).window_size() == old(buf).window_size(),
        source_addr_of(data@) is None ==> *final(buf) == *old(buf) && r is None,
        source_addr_of(data@) matches Some(a) ==> exists|now: u64|
            #[trigger] stepped(*old(buf), *final(buf), a, now, r is Some),
        r is None ==> *final(buf) == *old(buf),
        r matches Some(rep) ==> is_report_of(pairs_view(rep@), *final(buf)),
{
    let now = now_secs();
    let r = process_packet(buf, data, now);
    proof {
        if source_addr_of(data@) is Some {
            let a = source_addr_of(data@)->0;
            assert(stepped(*old(buf), *buf, a, now, r is Some));
        }
    }
    r
}

/// Slot reuse resets: when an observation lands at a second other than the
/// one last written, the slot it falls into is cleared before recording:
/// afterwards the bin holds the one new observation and nothing else; stale
/// counts do not accumulate across the boundary.
pub proof fn lemma_slot_reuse_resets(
    pre: WindowBuffer,
    post: WindowBuffer,
    slot: usize,
    now: u64,
    a: Seq<char>,
)
    requires
        pre.wf(),
        (slot as int) < pre.window_size(),
        pre.last_time() != Some(now),
        observed(pre, post, slot, now, a),
    ensures
        tally(post.bins_view()[slot as int], a) == 1,
        forall|b: Seq<char>| b != a ==> tally(post.bins_view()[slot as int], b) == 0,
{
    let base = bins_after_advance(pre, slot, now);
    assert(base[slot as int] == Seq::<Entry>::empty());
    assert(tally(Seq::<Entry>::empty(), a) == 0);
    assert forall|b: Seq<char>| b != a implies tally(post.bins_view()[slot as int], b) == 0 by {
        assert(tally(Seq::<Entry>::empty(), b) == 0);
    }
}

/// Two observations of one address a full window of seconds apart land on
/// the same slot, and the second one's advance clears the first one's count
/// before recording: the bin holds exactly the one new observation; it does
/// not accumulate across the window boundary.
pub proof fn lemma_window_apart_resets(
    pre: WindowBuffer,
    post: WindowBuffer,
    slot: usize,
    t: u64,
    now: u64,
    a: Seq<char>,
)
    requires
        pre.wf(),
        pre.last_time() == Some(t),
        now as int == t as int + pre.window_size(),
        slot as int == slot_of_spec(now, pre.window_size()),
        observed(pre, post, slot, now, a),
    ensures
        slot as int == slot_of_spec(t, pre.window_size()),
        tally(post.bins_view()[slot as int], a) == 1,
        forall|b: Seq<char>| b != a ==> tally(post.bins_view()[slot as int], b) == 0,
{
    let w = pre.window_size() as int;
    lemma_mod_multiples_vanish(1, t as int, w);
    assert(now as int % w == t as int % w);
    lemma_slot_reuse_resets(pre, post, slot, now, a);
}

} // verus!
