//! The whole speed analysis: segment the reference text, replay the edit
//! log over the fresh segments, then derive the per-segment metrics.

use vstd::prelude::*;

use crate::events::EventView;
use crate::events::InputChange;
use crate::metrics::apply_metrics;
use crate::metrics::measure_segment;
use crate::replay::init_state;
use crate::replay::log_view;
use crate::replay::replay;
use crate::replay::replay_spec;
use crate::replay::seg_views;
use crate::segment::SegView;
use crate::segment::Segment;
use crate::segment::SegmentError;
use crate::segment::fresh_segment;
use crate::segment::segment;
use crate::segment::segment_texts;
use crate::segment::split_words;

verus! {

/// The measured segments produced for edit log `log` typed against `text`
/// with target segment count `n` and rendering constants `line_height`,
/// `line_wpm`.
pub open spec fn analysis_spec(
    log: Seq<EventView>,
    text: Seq<u8>,
    n: int,
    line_height: int,
    line_wpm: int,
) -> Seq<SegView> {
    let fresh = segment_texts(text, n).map_values(|t: Seq<u8>| fresh_segment(t));
    let replayed = replay_spec(log, init_state(fresh)).segs;
    replayed.map_values(|sv: SegView| measure_segment(sv, line_height, line_wpm))
}

/// Runs the full analysis of an edit log against a reference text.
///
/// Fails exactly when the text cannot be split into `nosplits` word groups;
/// otherwise the result holds every segment with whatever measurements the
/// replay could take from the log.
pub fn analyze_speed(
    ics: &Vec<InputChange>,
    txt: &Vec<u8>,
    nosplits: usize,
    line_height: u64,
    line_wpm: u64,
) -> (r: Result<Vec<Segment>, SegmentError>)
    requires
        line_wpm >= 1,
    ensures
        r is Ok <==> 1 <= nosplits as int && nosplits as int <= split_words(txt@).len(),
        r matches Ok(v) ==> ({
            let pts = analysis_spec(
                log_view(ics@),
                txt@,
                nosplits as int,
                line_height as int,
                line_wpm as int,
            );
            &&& v@.len() == pts.len()
            &&& forall|k: int| #![trigger v@[k]] 0 <= k < pts.len() ==> v@[k]@ == pts[k]
        }),
{
    let mut segs = match segment(txt, nosplits) {
        Ok(s) => s,
        Err(e) => {
            return Err(e);
        },
    };
    proof {
        let fresh = segment_texts(txt@, nosplits as int).map_values(
            |t: Seq<u8>| fresh_segment(t),
        );
        assert(seg_views(segs@) =~= fresh);
    }
    replay(ics, &mut segs);
    apply_metrics(&mut segs, line_height, line_wpm);
    Ok(segs)
}

} // verus!
