//! Records exchanged with the text store and the session store.
//!
//! The store itself (a database) is an external collaborator; the core only
//! produces and consumes these plain records.

use vstd::prelude::*;

verus! {

/// A stored typing session row: the serialized edit log together with the
/// whole-session words-per-minute figures and the id of the reference text.
#[derive(Clone, Debug)]
pub struct TypingSession {
    pub id: i32,
    pub inputs: String,
    pub wpm: i32,
    pub wpm80: i32,
    pub parent: i32,
}

/// A typing session record about to be persisted (no id yet).
#[derive(Debug)]
pub struct NewTypingSession {
    pub inputs: String,
    pub wpm: i32,
    pub wpm80: i32,
    pub parent: i32,
}

/// A stored reference text.
#[derive(Clone, Debug)]
pub struct TypingText {
    pub id: i32,
    pub text: String,
}

/// A reference text about to be persisted (no id yet).
#[derive(Debug)]
pub struct NewTypingText {
    pub text: String,
}

/// Builds the record persisted for a completed session.
///
/// The `wpm80` figure is computed by a downstream consumer, never by this
/// layer, so it is always zero here.
pub fn make_session_record(inputs: String, wpm: i32, parent: i32) -> (r: NewTypingSession)
    ensures
        r.inputs == inputs,
        r.wpm == wpm,
        r.wpm80 == 0,
        r.parent == parent,
{
    NewTypingSession { inputs, wpm, wpm80: 0, parent }
}

} // verus!
