//! Replay / reconstruction engine.
//!
//! Walks the edit log in arrival order, rebuilding the text typed since the
//! last segment boundary in an accumulator. An inserted single space or the
//! end-of-typing sentinel closes the current segment exactly when the
//! accumulator equals that segment's target text; a mismatched boundary is
//! tolerated by appending the delimiter and accumulating further until a
//! whole word group matches (sticky resync). Closing a segment records its
//! elapsed time and the surplus of keystrokes entered over the target
//! length. Replay stops at the sentinel, when every segment is closed, or
//! when the log runs out — remaining segments then stay unmeasured.

use vstd::prelude::*;

use crate::SPACE_BYTE;
use crate::SENTINEL_BYTE;
use crate::events::EventView;
use crate::events::InputChange;
use crate::events::delete_kind;
use crate::events::insert_kind;
use crate::events::is_delete_kind;
use crate::events::is_insert_kind;
use crate::events::copy_bytes;
use crate::segment::SegView;
use crate::segment::Segment;

verus! {

/// The replay engine's state between two edit events.
pub struct RState {
    /// The segments, with measurements recorded so far.
    pub segs: Seq<SegView>,
    /// Index of the segment currently being typed.
    pub idx: int,
    /// Bytes typed since the last segment boundary.
    pub acc: Seq<u8>,
    /// Keystrokes entered since the last segment boundary.
    pub entered: int,
    /// Timestamp at which the current segment started.
    pub seg_start: int,
    /// Whether replay has stopped.
    pub done: bool,
}

/// The state replay starts from.
pub open spec fn init_state(segs: Seq<SegView>) -> RState {
    RState { segs, idx: 0, acc: Seq::empty(), entered: 0, seg_start: 0, done: false }
}

/// `x` forced into the `i64` range.
pub open spec fn clamp_i64(x: int) -> int {
    if x > i64::MAX as int {
        i64::MAX as int
    } else if x < i64::MIN as int {
        i64::MIN as int
    } else {
        x
    }
}

/// A segment with its measurements recorded.
pub open spec fn close_segment(sv: SegView, elapsed: int, mistakes: int) -> SegView {
    SegView {
        text: sv.text,
        nomistakes: clamp_i64(mistakes),
        time: clamp_i64(elapsed),
        wpm: sv.wpm,
        rel: sv.rel,
    }
}

/// The state after one edit event.
///
/// Malformed events — an insert without payload, or a delete with one — are
/// skipped without any state change, as is any unrecognized kind. A delete
/// on an empty accumulator leaves the accumulator empty (it never fails) but
/// still counts the keystroke.
pub open spec fn step_spec(st: RState, ev: EventView) -> RState {
    if st.done {
        st
    } else if ev.change == insert_kind() {
        match ev.data {
            Option::None => st,
            Option::Some(p) => {
                let entered2 = st.entered + p.len();
                if (p == seq![SPACE_BYTE] || p == seq![SENTINEL_BYTE]) && 0 <= st.idx
                    < st.segs.len() && st.segs[st.idx].text == st.acc {
                    let closed = st.segs.update(
                        st.idx,
                        close_segment(st.segs[st.idx], ev.ts - st.seg_start, entered2 - st.acc.len()),
                    );
                    if p == seq![SENTINEL_BYTE] {
                        RState {
                            segs: closed,
                            idx: st.idx,
                            acc: st.acc,
                            entered: entered2,
                            seg_start: st.seg_start,
                            done: true,
                        }
                    } else {
                        RState {
                            segs: closed,
                            idx: st.idx + 1,
                            acc: Seq::empty(),
                            entered: 0,
                            seg_start: ev.ts,
                            done: st.idx + 1 >= st.segs.len(),
                        }
                    }
                } else {
                    RState {
                        segs: st.segs,
                        idx: st.idx,
                        acc: st.acc + p,
                        entered: entered2,
                        seg_start: st.seg_start,
                        done: st.done,
                    }
                }
            },
        }
    } else if ev.change == delete_kind() {
        match ev.data {
            Option::Some(_) => st,
            Option::None => RState {
                segs: st.segs,
                idx: st.idx,
                acc: if st.acc.len() == 0 {
                    st.acc
                } else {
                    st.acc.drop_last()
                },
                entered: st.entered + 1,
                seg_start: st.seg_start,
                done: st.done,
            },
        }
    } else {
        st
    }
}

/// The state after replaying a whole log.
pub open spec fn replay_spec(log: Seq<EventView>, st: RState) -> RState
    decreases log.len(),
{
    if log.len() == 0 {
        st
    } else {
        replay_spec(log.drop_first(), step_spec(st, log[0]))
    }
}

/// The views of a log of edit events.
pub open spec fn log_view(l: Seq<InputChange>) -> Seq<EventView> {
    l.map_values(|e: InputChange| e@)
}

/// The views of a vector of segments.
pub open spec fn seg_views(ss: Seq<Segment>) -> Seq<SegView> {
    ss.map_values(|s: Segment| s@)
}

/// Replaying one more event steps the state once.
pub proof fn lemma_replay_snoc(log: Seq<EventView>, e: EventView, st: RState)
    ensures
        replay_spec(log.push(e), st) == step_spec(replay_spec(log, st), e),
    decreases log.len(),
{
    if log.len() == 0 {
        reveal_with_fuel(replay_spec, 2);
        assert(log.push(e).drop_first() =~= Seq::<EventView>::empty());
        assert(log.push(e)[0] == e);
    } else {
        assert(log.push(e).drop_first() =~= log.drop_first().push(e));
        assert(log.push(e)[0] == log[0]);
        lemma_replay_snoc(log.drop_first(), e, step_spec(st, log[0]));
    }
}

/// Law: a backward delete on an empty accumulator is harmless — the
/// accumulator stays empty, no segment measurement changes, and the
/// entered-keystroke count still goes up by one (per the keystroke
/// accounting, it never goes down).
pub proof fn lemma_delete_on_empty(st: RState, ev: EventView)
    requires
        !st.done,
        ev.change == delete_kind(),
        ev.data is None,
        st.acc.len() == 0,
    ensures
        step_spec(st, ev).acc == st.acc,
        step_spec(st, ev).segs == st.segs,
        step_spec(st, ev).idx == st.idx,
        step_spec(st, ev).entered == st.entered + 1,
{
}

/// Replay distributes over splitting the log in two.
pub proof fn lemma_replay_append(l1: Seq<EventView>, l2: Seq<EventView>, st: RState)
    ensures
        replay_spec(l1 + l2, st) == replay_spec(l2, replay_spec(l1, st)),
    decreases l1.len(),
{
    if l1.len() == 0 {
        assert(l1 + l2 =~= l2);
    } else {
        assert((l1 + l2).drop_first() =~= l1.drop_first() + l2);
        assert((l1 + l2)[0] == l1[0]);
        lemma_replay_append(l1.drop_first(), l2, step_spec(st, l1[0]));
    }
}

/// A single-character insert event.
pub open spec fn insert_ev(p: Seq<u8>, t: int) -> EventView {
    EventView { data: Option::Some(p), change: insert_kind(), ts: t }
}

/// The log of inserting the bytes of `b` one by one, the byte at `i`
/// carrying timestamp `ts[i]`.
pub open spec fn type_bytes(b: Seq<u8>, ts: Seq<int>) -> Seq<EventView> {
    Seq::new(b.len(), |i: int| insert_ev(seq![b[i]], ts[i]))
}

/// Typing bytes that keep the accumulator a strict prefix of the current
/// target only accumulates: nothing closes, every keystroke is appended
/// and counted.
proof fn lemma_type_within_segment(st: RState, w: Seq<u8>, ts: Seq<int>)
    requires
        !st.done,
        0 <= st.idx < st.segs.len(),
        ts.len() == w.len(),
        st.acc.len() + w.len() <= st.segs[st.idx].text.len(),
    ensures
        ({
            let st2 = replay_spec(type_bytes(w, ts), st);
            &&& st2.segs == st.segs
            &&& st2.idx == st.idx
            &&& st2.done == false
            &&& st2.acc == st.acc + w
            &&& st2.entered == st.entered + w.len()
            &&& st2.seg_start == st.seg_start
        }),
    decreases w.len(),
{
    let log = type_bytes(w, ts);
    if w.len() == 0 {
        assert(log.len() == 0);
        assert(st.acc + w =~= st.acc);
    } else {
        let ev = insert_ev(seq![w[0]], ts[0]);
        assert(log[0] == ev);
        let st1 = step_spec(st, ev);
        // the accumulator is strictly shorter than the target, so even a
        // delimiter byte cannot close the segment here
        assert(st.acc.len() < st.segs[st.idx].text.len());
        assert(st.segs[st.idx].text != st.acc);
        assert(st1.segs == st.segs);
        assert(st1.idx == st.idx);
        assert(st1.done == false);
        assert(st1.acc == st.acc + seq![w[0]]);
        assert(st1.entered == st.entered + 1);
        assert(st1.seg_start == st.seg_start);
        assert(log.drop_first() =~= type_bytes(w.drop_first(), ts.drop_first()));
        lemma_type_within_segment(st1, w.drop_first(), ts.drop_first());
        assert((st.acc + seq![w[0]]) + w.drop_first() =~= st.acc + w);
    }
}

/// The position, within the flat log that starts at segment `k`, of the
/// delimiter keystroke closing segment `j`: right after segment `k`'s bytes
/// for `j == k`, then one joining space and a segment's bytes further for
/// each following segment.
pub open spec fn boundary_pos(gs: Seq<Seq<u8>>, k: int, j: int) -> int
    decreases j - k,
{
    if j <= k {
        gs[k].len() as int
    } else {
        boundary_pos(gs, k, j - 1) + 1 + gs[j].len()
    }
}

proof fn lemma_boundary_shift(gs: Seq<Seq<u8>>, k: int, j: int)
    requires
        k < j,
    ensures
        boundary_pos(gs, k, j) == boundary_pos(gs, k + 1, j) + gs[k].len() + 1,
    decreases j - k,
{
    reveal_with_fuel(boundary_pos, 3);
    if j == k + 1 {
    } else {
        lemma_boundary_shift(gs, k, j - 1);
    }
}

/// Typing the rest of the reference text flawlessly — the remaining segment
/// texts joined by spaces, byte by byte, then the sentinel — closes every
/// remaining segment with its delimiter-to-delimiter timestamp delta and
/// `nomistakes == 1`.
proof fn lemma_flat_typing(st: RState, gs: Seq<Seq<u8>>, k: int, rem: Seq<u8>, ts: Seq<int>)
    requires
        !st.done,
        st.idx == k,
        0 <= k < st.segs.len(),
        st.segs.len() == gs.len(),
        forall|j: int| #![trigger st.segs[j]] k <= j < gs.len() ==> st.segs[j].text == gs[j],
        st.acc == Seq::<u8>::empty(),
        st.entered == 0,
        rem == crate::segment::join_words(gs.subrange(k, gs.len() as int)),
        ts.len() == rem.len() + 1,
        forall|i: int| 0 <= i < ts.len() ==> 0 <= #[trigger] ts[i] <= i64::MAX,
        forall|i: int, j: int| 0 <= i <= j < ts.len() ==> #[trigger] ts[i] <= #[trigger] ts[j],
        0 <= st.seg_start <= ts[0],
    ensures
        ({
            let fin = replay_spec(type_bytes(rem.push(SENTINEL_BYTE), ts), st);
            &&& fin.segs.len() == st.segs.len()
            &&& forall|j: int| #![trigger fin.segs[j]] 0 <= j < k ==> fin.segs[j] == st.segs[j]
            &&& forall|j: int|
                #![trigger fin.segs[j]]
                k <= j < gs.len() ==> fin.segs[j] == SegView {
                    text: st.segs[j].text,
                    nomistakes: 1,
                    time: ts[boundary_pos(gs, k, j)] - if j == k {
                        st.seg_start
                    } else {
                        ts[boundary_pos(gs, k, j - 1)]
                    },
                    wpm: st.segs[j].wpm,
                    rel: st.segs[j].rel,
                }
        }),
        forall|j: int|
            #![trigger boundary_pos(gs, k, j)]
            k <= j < gs.len() ==> 0 <= boundary_pos(gs, k, j) <= rem.len(),
    decreases gs.len() - k,
{
    let m = gs.len() as int;
    let g = gs[k];
    let glen = g.len() as int;
    let full = rem.push(SENTINEL_BYTE);
    let log = type_bytes(full, ts);
    let last = k == m - 1;

    if last {
        assert(gs.subrange(k, m) =~= seq![g]);
        assert(crate::segment::join_words(seq![g]) == g);
        assert(rem == g);
    } else {
        assert(gs.subrange(k, m) =~= seq![g] + gs.subrange(k + 1, m));
        crate::segment::lemma_join_cons(g, gs.subrange(k + 1, m));
        assert(rem == g + seq![SPACE_BYTE] + crate::segment::join_words(gs.subrange(k + 1, m)));
    }
    let rem2: Seq<u8> = if last {
        Seq::empty()
    } else {
        crate::segment::join_words(gs.subrange(k + 1, m))
    };
    assert(rem.len() == glen + if last {
        0int
    } else {
        1 + rem2.len() as int
    });

    // split the flat log at segment k's delimiter keystroke
    let typed = type_bytes(g, ts.subrange(0, glen));
    let delim: Seq<u8> = if last {
        seq![SENTINEL_BYTE]
    } else {
        seq![SPACE_BYTE]
    };
    let dev = insert_ev(delim, ts[glen]);
    let ts2 = ts.subrange(glen + 1, ts.len() as int);
    let tail: Seq<EventView> = if last {
        Seq::empty()
    } else {
        type_bytes(rem2.push(SENTINEL_BYTE), ts2)
    };
    assert(log =~= typed + seq![dev] + tail) by {
        assert forall|i: int| 0 <= i < log.len() implies log[i] == (typed + seq![dev] + tail)[i] by {
            if i < glen {
                assert(full[i] == g[i]);
            } else if i == glen {
                assert(full[i] == delim[0]);
                assert(seq![full[i]] =~= delim);
            } else {
                assert(full[i] == rem2.push(SENTINEL_BYTE)[i - glen - 1]);
                assert((typed + seq![dev] + tail)[i] == tail[i - glen - 1]);
            }
        }
    }

    lemma_type_within_segment(st, g, ts.subrange(0, glen));
    let st1 = replay_spec(typed, st);
    assert(st1.acc =~= g);

    let st2 = step_spec(st1, dev);
    let closed = SegView {
        text: g,
        nomistakes: 1,
        time: ts[glen] - st.seg_start,
        wpm: st.segs[k].wpm,
        rel: st.segs[k].rel,
    };
    assert(st.seg_start <= ts[glen]);
    assert(clamp_i64(ts[glen] - st.seg_start) == ts[glen] - st.seg_start);
    assert(st1.entered + 1 - st1.acc.len() == 1);
    assert(st2.segs =~= st.segs.update(k, closed));

    lemma_replay_append(typed + seq![dev], tail, st);
    assert((typed + seq![dev]) + tail =~= log);
    lemma_replay_append(typed, seq![dev], st);
    assert(typed + seq![dev] =~= typed.push(dev));
    lemma_replay_snoc(typed, dev, st);
    assert(replay_spec(typed + seq![dev], st) == st2);
    let fin = replay_spec(log, st);
    assert(fin == replay_spec(tail, st2));

    if last {
        assert(st2.done);
        assert(tail.len() == 0);
        assert(fin == st2);
        assert(boundary_pos(gs, k, k) == glen);
        assert forall|j: int| k <= j < m implies 0 <= #[trigger] boundary_pos(gs, k, j)
            <= rem.len() by {
            assert(j == k);
        }
    } else {
        assert(delim != seq![SENTINEL_BYTE]) by {
            assert(delim[0] == SPACE_BYTE);
            assert(seq![SENTINEL_BYTE][0] == SENTINEL_BYTE);
        }
        assert(st2.idx == k + 1);
        assert(!st2.done);
        assert(st2.acc =~= Seq::<u8>::empty());
        assert(st2.entered == 0);
        assert(st2.seg_start == ts[glen]);
        assert(ts2.len() == rem2.len() + 1);
        assert(st2.seg_start <= ts2[0]) by {
            assert(ts2[0] == ts[glen + 1]);
        }
        lemma_flat_typing(st2, gs, k + 1, rem2, ts2);
        assert forall|j: int| k <= j < m implies #[trigger] fin.segs[j] == SegView {
            text: st.segs[j].text,
            nomistakes: 1,
            time: ts[boundary_pos(gs, k, j)] - if j == k {
                st.seg_start
            } else {
                ts[boundary_pos(gs, k, j - 1)]
            },
            wpm: st.segs[j].wpm,
            rel: st.segs[j].rel,
        } by {
            if j == k {
                assert(fin.segs[j] == closed);
                assert(boundary_pos(gs, k, k) == glen);
            } else {
                lemma_boundary_shift(gs, k, j);
                assert(boundary_pos(gs, k + 1, j) <= rem2.len());
                assert(ts2[boundary_pos(gs, k + 1, j)] == ts[boundary_pos(gs, k, j)]);
                if j == k + 1 {
                    assert(fin.segs[j].time == ts2[boundary_pos(gs, k + 1, j)] - st2.seg_start);
                    assert(st2.seg_start == ts[boundary_pos(gs, k, k)]);
                } else {
                    lemma_boundary_shift(gs, k, j - 1);
                    assert(ts2[boundary_pos(gs, k + 1, j - 1)] == ts[boundary_pos(gs, k, j - 1)]);
                }
                assert(st2.segs[j].text == st.segs[j].text);
            }
        }
        assert forall|j: int| k <= j < m implies 0 <= #[trigger] boundary_pos(gs, k, j)
            <= rem.len() by {
            if j > k {
                lemma_boundary_shift(gs, k, j);
                assert(0 <= boundary_pos(gs, k + 1, j) <= rem2.len());
            }
        }
    }
}

/// Law: replaying an edit log that types the reference text exactly — one
/// single-byte insert per byte of the text, in order, then the sentinel —
/// measures every segment: each segment's `time` is exactly the timestamp
/// delta between the consecutive delimiter keystrokes that bound it (from
/// zero for the first segment), and its `nomistakes` is exactly 1: the
/// closing delimiter keystroke, which the keystroke count includes while
/// the target text does not, so it can never reach 0 on any flawless log.
pub proof fn lemma_perfect_typing(s: Seq<u8>, n: int, ts: Seq<int>)
    requires
        1 <= n <= crate::segment::split_words(s).len(),
        ts.len() == s.len() + 1,
        forall|i: int| 0 <= i < ts.len() ==> 0 <= #[trigger] ts[i] <= i64::MAX,
        forall|i: int, j: int| 0 <= i <= j < ts.len() ==> #[trigger] ts[i] <= #[trigger] ts[j],
    ensures
        ({
            let gs = crate::segment::segment_texts(s, n);
            let fresh = gs.map_values(|t: Seq<u8>| crate::segment::fresh_segment(t));
            let fin = replay_spec(type_bytes(s.push(SENTINEL_BYTE), ts), init_state(fresh));
            &&& fin.segs.len() == gs.len()
            &&& forall|j: int|
                #![trigger fin.segs[j]]
                0 <= j < gs.len() ==> fin.segs[j].nomistakes == 1
            &&& forall|j: int|
                #![trigger fin.segs[j]]
                0 <= j < gs.len() ==> fin.segs[j].time == ts[boundary_pos(gs, 0, j)] - if j == 0 {
                    0int
                } else {
                    ts[boundary_pos(gs, 0, j - 1)]
                }
        }),
{
    let gs = crate::segment::segment_texts(s, n);
    let fresh = gs.map_values(|t: Seq<u8>| crate::segment::fresh_segment(t));
    crate::segment::lemma_segment_texts_nonempty(s, n);
    crate::segment::lemma_segment_reconstructs(s, n);
    assert(gs.subrange(0, gs.len() as int) =~= gs);
    lemma_flat_typing(init_state(fresh), gs, 0, s, ts);
}

/// Compares two byte vectors.
fn bytes_eq(a: &Vec<u8>, b: &Vec<u8>) -> (r: bool)
    ensures
        r == (a@ == b@),
{
    if a.len() != b.len() {
        return false;
    }
    let mut i: usize = 0;
    while i < a.len()
        invariant
            i <= a.len(),
            a@.len() == b@.len(),
            forall|k: int| 0 <= k < i ==> a@[k] == b@[k],
        decreases a.len() - i,
    {
        if a[i] != b[i] {
            return false;
        }
        i = i + 1;
    }
    proof {
        assert(a@ =~= b@);
    }
    true
}

/// Subtracts timestamps, clamped into `i64`.
fn clamp_sub(a: i64, b: i64) -> (r: i64)
    ensures
        r as int == clamp_i64(a as int - b as int),
{
    let d: i128 = a as i128 - b as i128;
    if d > i64::MAX as i128 {
        i64::MAX
    } else if d < i64::MIN as i128 {
        i64::MIN
    } else {
        d as i64
    }
}

/// The surplus of keystrokes entered over the accumulator length, clamped
/// into `i64`.
fn surplus(entered: u128, acc_len: usize) -> (r: i64)
    requires
        acc_len as int <= entered as int,
    ensures
        r as int == clamp_i64(entered as int - acc_len as int),
{
    let d: u128 = entered - acc_len as u128;
    if d > i64::MAX as u128 {
        i64::MAX
    } else {
        d as i64
    }
}

/// Replays the edit log over the given segments, recording elapsed time and
/// keystroke surplus for every segment it closes.
pub fn replay(ics: &Vec<InputChange>, segments: &mut Vec<Segment>)
    ensures
        ({
            let fin = replay_spec(log_view(ics@), init_state(seg_views(old(segments)@)));
            &&& final(segments)@.len() == fin.segs.len()
            &&& fin.segs.len() == old(segments)@.len()
            &&& forall|k: int|
                #![trigger final(segments)@[k]]
                0 <= k < fin.segs.len() ==> final(segments)@[k]@ == fin.segs[k]
        }),
{
    let ghost evs = log_view(ics@);
    let ghost init = init_state(seg_views(old(segments)@));
    let mut cursor: usize = 0;
    let mut acc: Vec<u8> = Vec::new();
    let mut entered: u128 = 0;
    let mut seg_start: i64 = 0;
    let mut done: bool = false;
    let mut i: usize = 0;
    proof {
        assert(evs.subrange(0, 0) =~= Seq::<EventView>::empty());
    }
    while i < ics.len()
        invariant
            i <= ics.len(),
            evs == log_view(ics@),
            evs.len() == ics@.len(),
            ({
                let st = replay_spec(evs.subrange(0, i as int), init);
                &&& st.segs.len() == old(segments)@.len()
                &&& segments@.len() == st.segs.len()
                &&& forall|k: int|
                    #![trigger segments@[k]]
                    0 <= k < st.segs.len() ==> segments@[k]@ == st.segs[k]
                &&& cursor as int == st.idx
                &&& 0 <= st.idx <= st.segs.len()
                &&& acc@ == st.acc
                &&& entered as int == st.entered
                &&& st.acc.len() <= st.entered
                &&& st.entered <= i as int * 0xffff_ffff_ffff_ffff
                &&& seg_start as int == st.seg_start
                &&& done == st.done
                &&& !st.done ==> (st.idx < st.segs.len() || st.segs.len() == 0)
            }),
        decreases ics.len() - i,
    {
        let ghost pre = replay_spec(evs.subrange(0, i as int), init);
        let ghost ev_v = evs[i as int];
        proof {
            assert(evs.subrange(0, i + 1) =~= evs.subrange(0, i as int).push(evs[i as int]));
            lemma_replay_snoc(evs.subrange(0, i as int), evs[i as int], init);
            assert(replay_spec(evs.subrange(0, i + 1), init) == step_spec(pre, ev_v));
            assert(ev_v == ics@[i as int]@);
        }
        let ev = &ics[i];
        if !done {
            if is_insert_kind(&ev.change) {
                match &ev.data {
                    Option::Some(p) => {
                        let plen: usize = p.len();
                        proof {
                            assert(ev_v.data == Option::Some(p@));
                            assert(entered as int + plen as int <= (i as int + 1)
                                * 0xffff_ffff_ffff_ffff) by (nonlinear_arith)
                                requires
                                    entered as int <= i as int * 0xffff_ffff_ffff_ffff,
                                    plen as int <= 0xffff_ffff_ffff_ffff,
                                    0 <= i as int,
                            ;
                            assert((i as int + 1) * 0xffff_ffff_ffff_ffff < u128::MAX as int)
                                by (nonlinear_arith)
                                requires
                                    0 <= i as int <= 0xffff_ffff_ffff_ffff,
                            ;
                        }
                        entered = entered + plen as u128;
                        let is_space = p.len() == 1 && p[0] == SPACE_BYTE;
                        let is_sent = p.len() == 1 && p[0] == SENTINEL_BYTE;
                        proof {
                            assert(is_space == (p@ == seq![SPACE_BYTE])) by {
                                if p@.len() == 1 && p@[0] == SPACE_BYTE {
                                    assert(p@ =~= seq![SPACE_BYTE]);
                                }
                            }
                            assert(is_sent == (p@ == seq![SENTINEL_BYTE])) by {
                                if p@.len() == 1 && p@[0] == SENTINEL_BYTE {
                                    assert(p@ =~= seq![SENTINEL_BYTE]);
                                }
                            }
                        }
                        let boundary = (is_space || is_sent) && cursor < segments.len()
                            && bytes_eq(&segments[cursor].text, &acc);
                        if boundary {
                            let ts = ev.ts;
                            let elapsed = clamp_sub(ts, seg_start);
                            let mistakes = surplus(entered, acc.len());
                            let txt = copy_bytes(&segments[cursor].text);
                            let old_wpm = segments[cursor].wpm;
                            let old_rel = segments[cursor].rel;
                            let closed = Segment {
                                text: txt,
                                nomistakes: mistakes,
                                time: elapsed,
                                wpm: old_wpm,
                                rel: old_rel,
                            };
                            segments.set(cursor, closed);
                            if is_sent {
                                done = true;
                            } else {
                                cursor = cursor + 1;
                                acc = Vec::new();
                                entered = 0;
                                seg_start = ts;
                                if cursor >= segments.len() {
                                    done = true;
                                }
                            }
                        } else {
                            let ghost acc_before = acc@;
                            let mut m: usize = 0;
                            while m < p.len()
                                invariant
                                    m <= p.len(),
                                    acc@ == acc_before + p@.subrange(0, m as int),
                                decreases p.len() - m,
                            {
                                acc.push(p[m]);
                                proof {
                                    assert(acc@ =~= acc_before + p@.subrange(0, m + 1));
                                }
                                m = m + 1;
                            }
                            proof {
                                assert(p@.subrange(0, p@.len() as int) =~= p@);
                            }
                        }
                    },
                    Option::None => {
                        proof {
                            assert(ev_v.data is None);
                        }
                    },
                }
            } else if is_delete_kind(&ev.change) {
                match &ev.data {
                    Option::Some(_) => {},
                    Option::None => {
                        let _ = acc.pop();
                        entered = entered + 1;
                    },
                }
            }
        }
        proof {
            let post = step_spec(pre, ev_v);
            assert(segments@.len() == post.segs.len());
            assert(forall|k: int|
                #![trigger segments@[k]]
                0 <= k < post.segs.len() ==> segments@[k]@ == post.segs[k]);
            assert(acc@ == post.acc);
        }
        i = i + 1;
    }
    proof {
        assert(evs.subrange(0, ics@.len() as int) =~= evs);
    }
}

} // verus!
