//! Reference-text segmenter.
//!
//! A reference text is split on single spaces into words; the words are then
//! grouped into word-group segments of `divider = round(W / N)` words each
//! (ties rounding half away from zero), where `W` is the word count and `N`
//! the requested segment count. A trailing group of fewer than `divider`
//! leftover words becomes one additional final segment, so the result can
//! hold more than `N` segments. Each fresh segment starts unmeasured.

use vstd::prelude::*;

use crate::SPACE_BYTE;

verus! {

/// One word-group slice of the reference text, used as a timing unit.
///
/// `time` (elapsed milliseconds) and `nomistakes` are `-1` until the replay
/// engine measures the segment; `wpm` is `-1` and `rel` is `0` until the
/// metrics pass derives them.
#[derive(Debug, Clone)]
pub struct Segment {
    pub text: Vec<u8>,
    pub nomistakes: i64,
    pub time: i64,
    pub wpm: i64,
    pub rel: u64,
}

/// Mathematical image of a [`Segment`].
pub struct SegView {
    pub text: Seq<u8>,
    pub nomistakes: int,
    pub time: int,
    pub wpm: int,
    pub rel: int,
}

impl View for Segment {
    type V = SegView;

    open spec fn view(&self) -> SegView {
        SegView {
            text: self.text@,
            nomistakes: self.nomistakes as int,
            time: self.time as int,
            wpm: self.wpm as int,
            rel: self.rel as int,
        }
    }
}

/// Why segmentation can fail: fewer words than requested segments.
#[derive(Debug, PartialEq, Eq, Structural, Clone, Copy)]
pub enum SegmentError {
    InsufficientWords,
}

/// Splitting `s` on single spaces, scanned from position `i` with the bytes
/// of the currently open word in `cur`.
pub open spec fn split_from(s: Seq<u8>, i: int, cur: Seq<u8>) -> Seq<Seq<u8>>
    decreases s.len() - i,
{
    if i < 0 || i >= s.len() {
        seq![cur]
    } else if s[i] == SPACE_BYTE {
        seq![cur] + split_from(s, i + 1, Seq::empty())
    } else {
        split_from(s, i + 1, cur.push(s[i]))
    }
}

/// The words of `s`: maximal runs between single spaces (runs may be empty).
pub open spec fn split_words(s: Seq<u8>) -> Seq<Seq<u8>> {
    split_from(s, 0, Seq::empty())
}

/// The given word sequence joined back together with single spaces.
pub open spec fn join_words(ws: Seq<Seq<u8>>) -> Seq<u8>
    decreases ws.len(),
{
    if ws.len() == 0 {
        Seq::empty()
    } else if ws.len() == 1 {
        ws[0]
    } else {
        join_words(ws.drop_last()) + seq![SPACE_BYTE] + ws.last()
    }
}

/// Consecutive groups of `d` words each; a shorter leftover run at the end
/// forms one final group of its own.
pub open spec fn group_words(ws: Seq<Seq<u8>>, d: int) -> Seq<Seq<Seq<u8>>>
    decreases ws.len(),
{
    if d < 1 || ws.len() == 0 {
        Seq::empty()
    } else if ws.len() <= d {
        seq![ws]
    } else {
        seq![ws.subrange(0, d)] + group_words(ws.subrange(d, ws.len() as int), d)
    }
}

/// Nearest-integer rounding of `w / n`, ties away from zero (both positive).
pub open spec fn divider_spec(w: int, n: int) -> int {
    (2 * w + n) / (2 * n)
}

/// The segment texts produced for text `s` and target segment count `n`.
pub open spec fn segment_texts(s: Seq<u8>, n: int) -> Seq<Seq<u8>> {
    let ws = split_words(s);
    group_words(ws, divider_spec(ws.len() as int, n)).map_values(|g: Seq<Seq<u8>>| join_words(g))
}

/// A segment of the given text with every measurement still unmeasured.
pub open spec fn fresh_segment(text: Seq<u8>) -> SegView {
    SegView { text, nomistakes: -1, time: -1, wpm: -1, rel: 0 }
}

/// The rounded divider lies between 1 and the word count.
pub proof fn lemma_divider_bounds(w: int, n: int)
    requires
        1 <= n,
        n <= w,
    ensures
        1 <= divider_spec(w, n),
        divider_spec(w, n) <= w,
{
    assert(1 <= (2 * w + n) / (2 * n) && (2 * w + n) / (2 * n) <= w) by (nonlinear_arith)
        requires
            1 <= n,
            n <= w,
    ;
}

/// Joins `words[start .. end]` with single spaces.
fn join_range(words: &Vec<Vec<u8>>, start: usize, end: usize) -> (r: Vec<u8>)
    requires
        start < end,
        end <= words.len(),
    ensures
        r@ == join_words(words.deep_view().subrange(start as int, end as int)),
{
    let ghost dv = words.deep_view();
    let mut out: Vec<u8> = Vec::new();
    let mut k: usize = start;
    while k < end
        invariant
            start <= k <= end,
            end <= words.len(),
            dv == words.deep_view(),
            k == start ==> out@.len() == 0,
            k > start ==> out@ == join_words(dv.subrange(start as int, k as int)),
        decreases end - k,
    {
        if k > start {
            out.push(SPACE_BYTE);
        }
        let wk: &Vec<u8> = &words[k];
        let ghost base = out@;
        let mut m: usize = 0;
        while m < wk.len()
            invariant
                m <= wk.len(),
                out@ == base + wk@.subrange(0, m as int),
            decreases wk.len() - m,
        {
            out.push(wk[m]);
            proof {
                assert(out@ =~= base + wk@.subrange(0, m + 1));
            }
            m = m + 1;
        }
        proof {
            assert(wk@.subrange(0, wk@.len() as int) =~= wk@);
            assert(dv[k as int] =~= wk@);
            let sub = dv.subrange(start as int, k + 1);
            if k == start {
                assert(sub.len() == 1);
                assert(sub[0] == dv[k as int]);
                assert(out@ =~= join_words(sub));
            } else {
                assert(sub.len() >= 2);
                assert(sub.drop_last() =~= dv.subrange(start as int, k as int));
                assert(sub.last() == dv[k as int]);
                assert(out@ =~= join_words(sub));
            }
        }
        k = k + 1;
    }
    out
}

/// Splits `text` into `nosplits` word-group segments (possibly one more when
/// the word count does not divide evenly), every segment unmeasured.
///
/// Fails exactly when no `nosplits` non-empty groups can be formed: when
/// `nosplits` is zero or the text has fewer words than `nosplits`.
pub fn segment(text: &Vec<u8>, nosplits: usize) -> (r: Result<Vec<Segment>, SegmentError>)
    ensures
        r is Ok <==> 1 <= nosplits as int && nosplits as int <= split_words(text@).len(),
        r matches Ok(v) ==> ({
            let texts = segment_texts(text@, nosplits as int);
            &&& v@.len() == texts.len()
            &&& forall|i: int|
                #![trigger v@[i]]
                0 <= i < texts.len() ==> v@[i]@ == fresh_segment(texts[i])
        }),
{
    let ghost s = text@;
    let mut words: Vec<Vec<u8>> = Vec::new();
    let mut cur: Vec<u8> = Vec::new();
    let mut i: usize = 0;
    while i < text.len()
        invariant
            i <= text.len(),
            s == text@,
            split_words(s) == words.deep_view() + split_from(s, i as int, cur@),
        decreases text.len() - i,
    {
        let ghost old_words = words.deep_view();
        let ghost old_cur = cur@;
        let b = text[i];
        if b == SPACE_BYTE {
            proof {
                assert(split_from(s, i as int, old_cur) == seq![old_cur] + split_from(
                    s,
                    i + 1,
                    Seq::<u8>::empty(),
                ));
            }
            words.push(cur);
            cur = Vec::new();
            proof {
                assert(words.deep_view() =~~= old_words.push(old_cur));
                assert(words.deep_view() + split_from(s, i + 1, cur@) =~= old_words + (seq![old_cur]
                    + split_from(s, i + 1, cur@)));
            }
        } else {
            proof {
                assert(split_from(s, i as int, old_cur) == split_from(s, i + 1, old_cur.push(s[i as int])));
            }
            cur.push(b);
            proof {
                assert(cur@ =~= old_cur.push(s[i as int]));
            }
        }
        i = i + 1;
    }
    proof {
        assert(split_from(s, i as int, cur@) == seq![cur@]);
    }
    let ghost final_words = words.deep_view().push(cur@);
    words.push(cur);
    proof {
        assert(words.deep_view() =~~= final_words);
        assert(words.deep_view() =~= split_words(s));
    }

    let w: usize = words.len();
    proof {
        assert(words.deep_view().len() == w);
    }
    if nosplits < 1 || w < nosplits {
        return Err(SegmentError::InsufficientWords);
    }

    proof {
        lemma_divider_bounds(w as int, nosplits as int);
    }
    let d128: u128 = (2 * (w as u128) + (nosplits as u128)) / (2 * (nosplits as u128));
    proof {
        assert(d128 == divider_spec(w as int, nosplits as int));
    }
    let d: usize = d128 as usize;

    let ghost ws = split_words(s);
    let ghost dd = d as int;
    let mut segs: Vec<Segment> = Vec::new();
    let ghost mut gb: Seq<Seq<Seq<u8>>> = Seq::empty();
    let mut j: usize = 0;
    proof {
        assert(ws.subrange(0, w as int) =~= ws);
    }
    while j < w
        invariant
            1 <= d,
            j <= w,
            w == ws.len(),
            ws == split_words(s),
            w == words.len(),
            words.deep_view() == ws,
            dd == d as int,
            group_words(ws, dd) == gb + group_words(ws.subrange(j as int, w as int), dd),
            segs@.len() == gb.len(),
            forall|k: int|
                #![trigger segs@[k]]
                0 <= k < gb.len() ==> segs@[k]@ == fresh_segment(join_words(gb[k])),
        decreases w - j,
    {
        let end: usize = if w - j <= d {
            w
        } else {
            j + d
        };
        let t = join_range(&words, j, end);
        let seg = Segment { text: t, time: -1, nomistakes: -1, wpm: -1, rel: 0 };
        segs.push(seg);
        proof {
            let rem = ws.subrange(j as int, w as int);
            if w - j <= d {
                assert(group_words(rem, dd) == seq![rem]);
                assert(ws.subrange(j as int, end as int) =~= rem);
                assert(ws.subrange(end as int, w as int).len() == 0);
                assert(group_words(ws.subrange(end as int, w as int), dd) == Seq::<
                    Seq<Seq<u8>>,
                >::empty());
            } else {
                assert(group_words(rem, dd) == seq![rem.subrange(0, dd)] + group_words(
                    rem.subrange(dd, rem.len() as int),
                    dd,
                ));
                assert(rem.subrange(0, dd) =~= ws.subrange(j as int, end as int));
                assert(rem.subrange(dd, rem.len() as int) =~= ws.subrange(end as int, w as int));
            }
            gb = gb.push(ws.subrange(j as int, end as int));
            assert(group_words(ws, dd) =~= gb + group_words(ws.subrange(end as int, w as int), dd));
        }
        j = end;
    }
    proof {
        assert(ws.subrange(w as int, w as int).len() == 0);
        assert(group_words(ws.subrange(w as int, w as int), dd) == Seq::<Seq<Seq<u8>>>::empty());
        assert(group_words(ws, dd) =~= gb);
        let texts = segment_texts(s, nosplits as int);
        assert(texts.len() == gb.len());
        assert forall|i2: int| 0 <= i2 < texts.len() implies #[trigger] texts[i2] == join_words(
            gb[i2],
        ) by {
        }
    }
    Ok(segs)
}

proof fn lemma_split_from_len(s: Seq<u8>, i: int, cur: Seq<u8>)
    ensures
        split_from(s, i, cur).len() >= 1,
    decreases s.len() - i,
{
    if i < 0 || i >= s.len() {
    } else if s[i] == SPACE_BYTE {
        lemma_split_from_len(s, i + 1, Seq::empty());
    } else {
        lemma_split_from_len(s, i + 1, cur.push(s[i]));
    }
}

/// Joining a word sequence with one more word in front prepends that word
/// and a space.
pub proof fn lemma_join_cons(w: Seq<u8>, ws: Seq<Seq<u8>>)
    requires
        ws.len() >= 1,
    ensures
        join_words(seq![w] + ws) == w + seq![SPACE_BYTE] + join_words(ws),
    decreases ws.len(),
{
    let c = seq![w] + ws;
    if ws.len() == 1 {
        assert(c.drop_last() =~= seq![w]);
        assert(c.last() == ws[0]);
        assert(join_words(c) == join_words(c.drop_last()) + seq![SPACE_BYTE] + c.last());
        assert(join_words(seq![w]) == w);
        assert(join_words(ws) == ws[0]);
    } else {
        assert(c.drop_last() =~= seq![w] + ws.drop_last());
        lemma_join_cons(w, ws.drop_last());
        assert(c.last() == ws.last());
        assert(join_words(c) =~= w + seq![SPACE_BYTE] + join_words(ws));
    }
}

proof fn lemma_join_concat(a: Seq<Seq<u8>>, b: Seq<Seq<u8>>)
    requires
        a.len() >= 1,
        b.len() >= 1,
    ensures
        join_words(a + b) == join_words(a) + seq![SPACE_BYTE] + join_words(b),
    decreases a.len(),
{
    if a.len() == 1 {
        assert(a + b =~= seq![a[0]] + b);
        lemma_join_cons(a[0], b);
        assert(join_words(a + b) =~= join_words(a) + seq![SPACE_BYTE] + join_words(b));
    } else {
        assert(a + b =~= seq![a[0]] + (a.drop_first() + b));
        lemma_join_cons(a[0], a.drop_first() + b);
        lemma_join_concat(a.drop_first(), b);
        assert(a =~= seq![a[0]] + a.drop_first());
        lemma_join_cons(a[0], a.drop_first());
        assert(join_words(a + b) =~= join_words(a) + seq![SPACE_BYTE] + join_words(b));
    }
}

proof fn lemma_split_from_join(s: Seq<u8>, i: int, cur: Seq<u8>)
    requires
        0 <= i <= s.len(),
    ensures
        join_words(split_from(s, i, cur)) == cur + s.subrange(i, s.len() as int),
    decreases s.len() - i,
{
    if i >= s.len() {
        assert(cur + s.subrange(i, s.len() as int) =~= cur);
    } else if s[i] == SPACE_BYTE {
        let rest = split_from(s, i + 1, Seq::empty());
        lemma_split_from_len(s, i + 1, Seq::empty());
        lemma_join_cons(cur, rest);
        lemma_split_from_join(s, i + 1, Seq::empty());
        assert(Seq::<u8>::empty() + s.subrange(i + 1, s.len() as int) =~= s.subrange(
            i + 1,
            s.len() as int,
        ));
        assert(cur + seq![SPACE_BYTE] + s.subrange(i + 1, s.len() as int) =~= cur + s.subrange(
            i,
            s.len() as int,
        ));
    } else {
        lemma_split_from_join(s, i + 1, cur.push(s[i]));
        assert(cur.push(s[i]) + s.subrange(i + 1, s.len() as int) =~= cur + s.subrange(
            i,
            s.len() as int,
        ));
    }
}

proof fn lemma_group_words_nonempty(ws: Seq<Seq<u8>>, d: int)
    requires
        d >= 1,
        ws.len() >= 1,
    ensures
        group_words(ws, d).len() >= 1,
        forall|k: int|
            #![trigger group_words(ws, d)[k]]
            0 <= k < group_words(ws, d).len() ==> group_words(ws, d)[k].len() >= 1,
    decreases ws.len(),
{
    if ws.len() <= d {
    } else {
        lemma_group_words_nonempty(ws.subrange(d, ws.len() as int), d);
    }
}

proof fn lemma_group_join(ws: Seq<Seq<u8>>, d: int)
    requires
        d >= 1,
        ws.len() >= 1,
    ensures
        join_words(group_words(ws, d).map_values(|g: Seq<Seq<u8>>| join_words(g))) == join_words(
            ws,
        ),
    decreases ws.len(),
{
    let f = |g: Seq<Seq<u8>>| join_words(g);
    if ws.len() <= d {
        assert(group_words(ws, d).map_values(f) =~= seq![join_words(ws)]);
    } else {
        let h = ws.subrange(0, d);
        let tail = ws.subrange(d, ws.len() as int);
        let rest_groups = group_words(tail, d);
        lemma_group_words_nonempty(tail, d);
        assert(group_words(ws, d).map_values(f) =~= seq![join_words(h)]
            + rest_groups.map_values(f));
        lemma_join_cons(join_words(h), rest_groups.map_values(f));
        lemma_group_join(tail, d);
        lemma_join_concat(h, tail);
        assert(h + tail =~= ws);
    }
}

/// Law: for a text of at least `n >= 1` words, joining the produced segment
/// texts back together with single spaces yields the original text exactly.
pub proof fn lemma_segment_reconstructs(s: Seq<u8>, n: int)
    requires
        1 <= n <= split_words(s).len(),
    ensures
        join_words(segment_texts(s, n)) == s,
{
    let ws = split_words(s);
    let d = divider_spec(ws.len() as int, n);
    lemma_divider_bounds(ws.len() as int, n);
    lemma_group_join(ws, d);
    lemma_split_from_join(s, 0, Seq::empty());
    assert(Seq::<u8>::empty() + s.subrange(0, s.len() as int) =~= s);
}

/// A text of at least `n >= 1` words yields at least one segment.
pub proof fn lemma_segment_texts_nonempty(s: Seq<u8>, n: int)
    requires
        1 <= n <= split_words(s).len(),
    ensures
        segment_texts(s, n).len() >= 1,
{
    lemma_divider_bounds(split_words(s).len() as int, n);
    lemma_group_words_nonempty(split_words(s), divider_spec(split_words(s).len() as int, n));
}

/// Law: segmentation is deterministic — equal inputs give equal outputs.
pub proof fn lemma_segment_deterministic(t1: Seq<u8>, n1: int, t2: Seq<u8>, n2: int)
    requires
        t1 == t2,
        n1 == n2,
    ensures
        segment_texts(t1, n1) == segment_texts(t2, n2),
{
}

} // verus!
