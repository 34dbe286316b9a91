//! Per-connection session state machine.
//!
//! A session waits for a text request, collects edit events while the client
//! types, and on the completion signal runs the full analysis and reports
//! the result together with the record to persist. The transport and the
//! stores are collaborators: the transport feeds messages in (with the
//! fetched reference text attached to a text request) and performs the
//! persistence and replies that the returned outcome asks for.
//!
//! Out-of-state messages are protocol violations: they are ignored and the
//! session is left untouched. Malformed edit events (a missing kind or
//! timestamp) are dropped the same way. Once closed, a session ignores
//! everything.

use vstd::prelude::*;

use crate::SENTINEL_BYTE;
use crate::analyze::analysis_spec;
use crate::events::EventView;
use crate::events::InputChange;
use crate::events::insert_kind;
use crate::events::insert_kind_bytes;
use crate::metrics::apply_metrics;
use crate::metrics::calculate_wpm;
use crate::metrics::clamp_i32;
use crate::metrics::round_div;
use crate::replay::log_view;
use crate::replay::replay;
use crate::replay::seg_views;
use crate::segment::Segment;
use crate::segment::fresh_segment;
use crate::segment::segment;
use crate::segment::segment_texts;
use crate::segment::split_words;

verus! {

/// Where a session stands in its lifecycle.
#[derive(Debug, Clone, Copy, PartialEq, Eq, Structural)]
pub enum SessionState {
    /// No reference text assigned yet.
    AwaitingText,
    /// A text is assigned and edit events are being collected.
    Active,
    /// The completion signal arrived and the analysis was run.
    Completed,
    /// The connection is gone; every further message is ignored.
    Closed,
}

/// Tunable constants of a session, passed to the constructor so tests can
/// substitute other scales.
#[derive(Debug, Clone, Copy)]
pub struct SessionConfig {
    /// Target number of word-group segments.
    pub nosplits: usize,
    /// Rendering line height, numerator of the relative-intensity scale.
    pub line_height: u64,
    /// Reference words-per-minute, denominator of the relative-intensity
    /// scale; must be positive.
    pub line_wpm: u64,
    /// Hard cap on the edit log length, bounding replay work.
    pub max_log_len: usize,
}

/// The constants the service runs with: 20 segments, a 75-pixel line
/// height scaled against a 100 words-per-minute reference, and room for a
/// generous human typing session in the log.
pub fn default_config() -> (c: SessionConfig)
    ensures
        c.nosplits == 20,
        c.line_height == 75,
        c.line_wpm == 100,
        c.max_log_len == 100000,
{
    SessionConfig { nosplits: 20, line_height: 75, line_wpm: 100, max_log_len: 100000 }
}

/// What the text store returned for a text request.
#[derive(Debug)]
pub enum FetchResult {
    /// A reference text, as its id and its body bytes.
    Found { id: i32, body: Vec<u8> },
    /// The store failed; the request fails visibly but harmlessly.
    Unavailable,
}

/// One inbound message, already decoded to plain values.
#[derive(Debug)]
pub enum SessionMsg {
    /// The client asked for a new text; carries what the text store gave.
    RequestText(FetchResult),
    /// One edit event, fields as (possibly absent from) the wire.
    Edit { change: Option<Vec<u8>>, ts: Option<i64>, data: Option<Vec<u8>> },
    /// The client reported that it finished typing.
    Complete,
    /// The transport went away.
    ConnectionClosed,
}

/// What the caller must do after a message was handled.
#[derive(Debug)]
pub enum SessionOutcome {
    /// Nothing: the session is closed.
    Ignored,
    /// Nothing: the message was illegal in the current state.
    Violation,
    /// Nothing further: the text store failed; the session is unchanged.
    StoreUnavailable,
    /// Send the newly assigned reference text to the client.
    TextAssigned,
    /// Nothing: the event was buffered silently.
    Appended,
    /// Nothing: the edit event lacked its kind and was dropped.
    DroppedMissingChange,
    /// Nothing: the edit event lacked its timestamp and was dropped.
    DroppedMissingTs,
    /// Nothing: the edit log is at its cap and the event was dropped.
    LogFull,
    /// Report a failed analysis: the text was too short to segment.
    InsufficientWords,
    /// Send the measured segments and persist the session record.
    Completed { points: Vec<Segment>, wpm: i32, parent: i32 },
}

/// A per-connection session.
#[derive(Debug)]
pub struct Session {
    pub state: SessionState,
    /// Id of the assigned reference text, `-1` before the first assignment.
    pub text_id: i32,
    /// Body of the assigned reference text.
    pub text: Vec<u8>,
    /// The edit log: append-only while active, cleared on a new text.
    pub input_buffer: Vec<InputChange>,
    pub config: SessionConfig,
}

/// The synthetic end-of-typing insert event, carrying the timestamp of the
/// last real event.
pub open spec fn sentinel_event(ts: int) -> EventView {
    EventView { data: Option::Some(seq![SENTINEL_BYTE]), change: insert_kind(), ts }
}

/// The timestamp the whole session ran for: that of its last edit event, or
/// zero for an empty log.
pub open spec fn last_ts(log: Seq<InputChange>) -> int {
    if log.len() == 0 {
        0
    } else {
        log.last()@.ts
    }
}

/// Whole-session words-per-minute: the reference text length (as far as it
/// fits `i32`) over the total elapsed time, or zero when no time elapsed.
pub open spec fn session_wpm_spec(text_len: int, total_ms: int) -> int {
    if total_ms > 0 {
        clamp_i32(round_div(clamp_i32(text_len) * 12000, total_ms))
    } else {
        0
    }
}

/// How a text request leaves the session.
pub open spec fn refresh_post(
    pre: Session,
    post: Session,
    fetched: FetchResult,
    r: SessionOutcome,
) -> bool {
    if pre.state == SessionState::Closed {
        post == pre && r is Ignored
    } else {
        match fetched {
            FetchResult::Unavailable => post == pre && r is StoreUnavailable,
            FetchResult::Found { id, body } => {
                &&& post.state == SessionState::Active
                &&& post.text_id == id
                &&& post.text@ == body@
                &&& post.input_buffer@ == Seq::<InputChange>::empty()
                &&& post.config == pre.config
                &&& r is TextAssigned
            },
        }
    }
}

/// How an edit event leaves the session.
pub open spec fn edit_post(
    pre: Session,
    post: Session,
    change: Option<Vec<u8>>,
    ts: Option<i64>,
    data: Option<Vec<u8>>,
    r: SessionOutcome,
) -> bool {
    if pre.state == SessionState::Closed {
        post == pre && r is Ignored
    } else if pre.state != SessionState::Active {
        post == pre && r is Violation
    } else if change is None {
        post == pre && r is DroppedMissingChange
    } else if ts is None {
        post == pre && r is DroppedMissingTs
    } else if pre.input_buffer@.len() >= pre.config.max_log_len {
        post == pre && r is LogFull
    } else {
        match (change, ts) {
            (Option::Some(c), Option::Some(t)) => {
                &&& r is Appended
                &&& post.state == pre.state
                &&& post.text_id == pre.text_id
                &&& post.text == pre.text
                &&& post.config == pre.config
                &&& post.input_buffer@.len() == pre.input_buffer@.len() + 1
                &&& forall|k: int|
                    #![trigger post.input_buffer@[k]]
                    0 <= k < pre.input_buffer@.len() ==> post.input_buffer@[k]
                        == pre.input_buffer@[k]
                &&& post.input_buffer@.last()@.change == c@
                &&& post.input_buffer@.last()@.ts == t as int
                &&& post.input_buffer@.last()@.data == (match data {
                    Option::Some(d) => Option::Some(d@),
                    Option::None => Option::None::<Seq<u8>>,
                })
            },
            _ => false,
        }
    }
}

/// How the completion signal leaves the session.
pub open spec fn complete_post(pre: Session, post: Session, r: SessionOutcome) -> bool {
    let n = pre.config.nosplits as int;
    let total = last_ts(pre.input_buffer@);
    if pre.state == SessionState::Closed {
        post == pre && r is Ignored
    } else if pre.state != SessionState::Active {
        post == pre && r is Violation
    } else if !(1 <= n <= split_words(pre.text@).len()) {
        post == pre && r is InsufficientWords
    } else {
        &&& post.state == SessionState::Completed
        &&& post.text_id == pre.text_id
        &&& post.text == pre.text
        &&& post.config == pre.config
        &&& post.input_buffer@.len() == pre.input_buffer@.len() + 1
        &&& forall|k: int|
            #![trigger post.input_buffer@[k]]
            0 <= k < pre.input_buffer@.len() ==> post.input_buffer@[k] == pre.input_buffer@[k]
        &&& post.input_buffer@.last()@ == sentinel_event(total)
        &&& (r matches SessionOutcome::Completed { points, wpm, parent } && ({
            let pts = analysis_spec(
                log_view(post.input_buffer@),
                pre.text@,
                n,
                pre.config.line_height as int,
                pre.config.line_wpm as int,
            );
            &&& points@.len() == pts.len()
            &&& forall|k: int| #![trigger points@[k]] 0 <= k < pts.len() ==> points@[k]@ == pts[k]
            &&& wpm as int == session_wpm_spec(pre.text@.len() as int, total)
            &&& parent == pre.text_id
        }))
    }
}

/// How tearing the connection down leaves the session.
pub open spec fn close_post(pre: Session, post: Session, r: SessionOutcome) -> bool {
    &&& post.state == SessionState::Closed
    &&& post.text_id == -1
    &&& post.text@ == Seq::<u8>::empty()
    &&& post.input_buffer@ == Seq::<InputChange>::empty()
    &&& post.config == pre.config
    &&& r is Ignored
}

impl Session {
    /// A session is well formed when its rendering scale cannot divide by
    /// zero.
    pub open spec fn wf(self) -> bool {
        self.config.line_wpm >= 1
    }

    /// A fresh session, awaiting its first text request.
    pub fn new(config: SessionConfig) -> (s: Session)
        requires
            config.line_wpm >= 1,
        ensures
            s.state == SessionState::AwaitingText,
            s.text_id == -1,
            s.text@ == Seq::<u8>::empty(),
            s.input_buffer@ == Seq::<InputChange>::empty(),
            s.config == config,
            s.wf(),
    {
        Session {
            state: SessionState::AwaitingText,
            text_id: -1,
            text: Vec::new(),
            input_buffer: Vec::new(),
            config,
        }
    }

    fn do_refresh(&mut self, fetched: FetchResult) -> (r: SessionOutcome)
        ensures
            refresh_post(*old(self), *final(self), fetched, r),
            final(self).config == old(self).config,
    {
        if self.state == SessionState::Closed {
            return SessionOutcome::Ignored;
        }
        match fetched {
            FetchResult::Unavailable => SessionOutcome::StoreUnavailable,
            FetchResult::Found { id, body } => {
                self.text_id = id;
                self.text = body;
                self.input_buffer.clear();
                self.state = SessionState::Active;
                SessionOutcome::TextAssigned
            },
        }
    }

    fn do_edit(&mut self, change: Option<Vec<u8>>, ts: Option<i64>, data: Option<Vec<u8>>) -> (r:
        SessionOutcome)
        ensures
            edit_post(*old(self), *final(self), change, ts, data, r),
            final(self).config == old(self).config,
    {
        if self.state == SessionState::Closed {
            return SessionOutcome::Ignored;
        }
        if self.state != SessionState::Active {
            return SessionOutcome::Violation;
        }
        let c = match change {
            Option::Some(c) => c,
            Option::None => {
                return SessionOutcome::DroppedMissingChange;
            },
        };
        let t = match ts {
            Option::Some(t) => t,
            Option::None => {
                return SessionOutcome::DroppedMissingTs;
            },
        };
        if self.input_buffer.len() >= self.config.max_log_len {
            return SessionOutcome::LogFull;
        }
        self.input_buffer.push(InputChange { data, change: c, ts: t });
        SessionOutcome::Appended
    }

    fn do_complete(&mut self) -> (r: SessionOutcome)
        requires
            old(self).wf(),
        ensures
            complete_post(*old(self), *final(self), r),
            final(self).config == old(self).config,
    {
        if self.state == SessionState::Closed {
            return SessionOutcome::Ignored;
        }
        if self.state != SessionState::Active {
            return SessionOutcome::Violation;
        }
        let buflen = self.input_buffer.len();
        let lastts: i64 = if buflen == 0 {
            0
        } else {
            self.input_buffer[buflen - 1].ts
        };
        proof {
            assert(lastts as int == last_ts(old(self).input_buffer@));
        }
        let mut segs = match segment(&self.text, self.config.nosplits) {
            Ok(s) => s,
            Err(_) => {
                return SessionOutcome::InsufficientWords;
            },
        };
        proof {
            let fresh = segment_texts(self.text@, self.config.nosplits as int).map_values(
                |t: Seq<u8>| fresh_segment(t),
            );
            assert(seg_views(segs@) =~= fresh);
        }
        let mut sdata: Vec<u8> = Vec::new();
        sdata.push(SENTINEL_BYTE);
        let sent = InputChange { data: Option::Some(sdata), change: insert_kind_bytes(), ts: lastts };
        proof {
            assert(sent@.data == Option::Some(seq![SENTINEL_BYTE])) by {
                assert(sent.data is Some);
                assert(sent.data->0@ =~= seq![SENTINEL_BYTE]);
            }
            assert(sent@ == sentinel_event(lastts as int));
        }
        self.input_buffer.push(sent);
        replay(&self.input_buffer, &mut segs);
        apply_metrics(&mut segs, self.config.line_height, self.config.line_wpm);
        let chars: i32 = if self.text.len() >= 0x7fff_ffff {
            i32::MAX
        } else {
            self.text.len() as i32
        };
        let wpm: i32 = if lastts > 0 {
            calculate_wpm(chars, lastts)
        } else {
            0
        };
        self.state = SessionState::Completed;
        SessionOutcome::Completed { points: segs, wpm, parent: self.text_id }
    }

    fn do_close(&mut self) -> (r: SessionOutcome)
        ensures
            close_post(*old(self), *final(self), r),
            final(self).config == old(self).config,
    {
        self.state = SessionState::Closed;
        self.text_id = -1;
        self.text = Vec::new();
        self.input_buffer.clear();
        SessionOutcome::Ignored
    }

    /// Dispatches one inbound message and reports what the caller must do.
    pub fn handle_message(&mut self, msg: SessionMsg) -> (r: SessionOutcome)
        requires
            old(self).wf(),
        ensures
            final(self).config == old(self).config,
            final(self).wf(),
            match msg {
                SessionMsg::RequestText(f) => refresh_post(*old(self), *final(self), f, r),
                SessionMsg::Edit { change, ts, data } => edit_post(
                    *old(self),
                    *final(self),
                    change,
                    ts,
                    data,
                    r,
                ),
                SessionMsg::Complete => complete_post(*old(self), *final(self), r),
                SessionMsg::ConnectionClosed => close_post(*old(self), *final(self), r),
            },
    {
        match msg {
            SessionMsg::RequestText(f) => self.do_refresh(f),
            SessionMsg::Edit { change, ts, data } => self.do_edit(change, ts, data),
            SessionMsg::Complete => self.do_complete(),
            SessionMsg::ConnectionClosed => self.do_close(),
        }
    }
}

} // verus!
