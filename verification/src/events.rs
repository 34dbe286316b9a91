//! Edit events: the keystroke-level records a client reports while typing.
//!
//! An event carries its kind as the raw byte string from the wire (the two
//! kinds the engine interprets are `insertText` and `deleteContentBackward`;
//! anything else is kept in the log but ignored by the replay engine), an
//! optional payload, and a client-supplied timestamp in milliseconds since
//! the session started.

use vstd::prelude::*;

verus! {

/// One client-reported edit: payload bytes (present for inserts, absent for
/// deletes), the raw kind bytes, and the client timestamp in milliseconds.
#[derive(Debug, Clone)]
pub struct InputChange {
    pub data: Option<Vec<u8>>,
    pub change: Vec<u8>,
    pub ts: i64,
}

/// Mathematical image of an [`InputChange`].
pub struct EventView {
    pub data: Option<Seq<u8>>,
    pub change: Seq<u8>,
    pub ts: int,
}

impl View for InputChange {
    type V = EventView;

    open spec fn view(&self) -> EventView {
        EventView {
            data: match self.data {
                Option::Some(d) => Option::Some(d@),
                Option::None => Option::None,
            },
            change: self.change@,
            ts: self.ts as int,
        }
    }
}

/// The bytes of the insert kind, `insertText`.
pub open spec fn insert_kind() -> Seq<u8> {
    seq![105u8, 110u8, 115u8, 101u8, 114u8, 116u8, 84u8, 101u8, 120u8, 116u8]
}

/// The bytes of the backward-delete kind, `deleteContentBackward`.
pub open spec fn delete_kind() -> Seq<u8> {
    seq![
        100u8,
        101u8,
        108u8,
        101u8,
        116u8,
        101u8,
        67u8,
        111u8,
        110u8,
        116u8,
        101u8,
        110u8,
        116u8,
        66u8,
        97u8,
        99u8,
        107u8,
        119u8,
        97u8,
        114u8,
        100u8,
    ]
}

/// Tests whether `change` spells the insert kind.
pub fn is_insert_kind(change: &Vec<u8>) -> (r: bool)
    ensures
        r == (change@ == insert_kind()),
{
    let r = change.len() == 10 && change[0] == 105 && change[1] == 110 && change[2] == 115
        && change[3] == 101 && change[4] == 114 && change[5] == 116 && change[6] == 84 && change[7]
        == 101 && change[8] == 120 && change[9] == 116;
    proof {
        if r {
            assert(change@ =~= insert_kind());
        }
    }
    r
}

/// Tests whether `change` spells the backward-delete kind.
pub fn is_delete_kind(change: &Vec<u8>) -> (r: bool)
    ensures
        r == (change@ == delete_kind()),
{
    let r = change.len() == 21 && change[0] == 100 && change[1] == 101 && change[2] == 108
        && change[3] == 101 && change[4] == 116 && change[5] == 101 && change[6] == 67 && change[7]
        == 111 && change[8] == 110 && change[9] == 116 && change[10] == 101 && change[11] == 110
        && change[12] == 116 && change[13] == 66 && change[14] == 97 && change[15] == 99
        && change[16] == 107 && change[17] == 119 && change[18] == 97 && change[19] == 114
        && change[20] == 100;
    proof {
        if r {
            assert(change@ =~= delete_kind());
        }
    }
    r
}

/// Builds the insert kind bytes, `insertText`.
pub fn insert_kind_bytes() -> (r: Vec<u8>)
    ensures
        r@ == insert_kind(),
{
    let mut v: Vec<u8> = Vec::new();
    v.push(105);
    v.push(110);
    v.push(115);
    v.push(101);
    v.push(114);
    v.push(116);
    v.push(84);
    v.push(101);
    v.push(120);
    v.push(116);
    proof {
        assert(v@ =~= insert_kind());
    }
    v
}

/// Copies a byte vector element by element.
pub fn copy_bytes(v: &Vec<u8>) -> (r: Vec<u8>)
    ensures
        r@ == v@,
{
    let mut out: Vec<u8> = Vec::new();
    let mut i: usize = 0;
    while i < v.len()
        invariant
            i <= v.len(),
            out@ == v@.subrange(0, i as int),
        decreases v.len() - i,
    {
        out.push(v[i]);
        proof {
            assert(out@ =~= v@.subrange(0, i + 1));
        }
        i = i + 1;
    }
    proof {
        assert(v@.subrange(0, v@.len() as int) =~= v@);
    }
    out
}

} // verus!
