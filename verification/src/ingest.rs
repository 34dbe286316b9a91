//! Decisions of the command-line import tooling.
//!
//! The tooling itself reads files and prompts; the decisions — which action
//! a command line asks for, and which records of a quote file are worth
//! importing — are plain functions living here.

use vstd::prelude::*;

verus! {

/// What a command line asks the program to do.
#[derive(Debug, Clone, Copy, PartialEq, Eq, Structural)]
pub enum CmdPlan {
    /// No recognized subcommand: run the service.
    RunServer,
    /// `text <body>`: store one new reference text.
    AddText,
    /// `text` with the wrong number of arguments: print usage and fail.
    AddTextUsage,
    /// `csv <file>`: bulk-import reference texts from a quote file.
    ImportCsv,
    /// `csv` with the wrong number of arguments: print usage and fail.
    ImportCsvUsage,
}

/// The bytes of the `text` subcommand.
pub open spec fn text_cmd() -> Seq<u8> {
    seq![116u8, 101u8, 120u8, 116u8]
}

/// The bytes of the `csv` subcommand.
pub open spec fn csv_cmd() -> Seq<u8> {
    seq![99u8, 115u8, 118u8]
}

/// The action a command line (program name first) asks for.
pub open spec fn plan_spec(args: Seq<Seq<u8>>) -> CmdPlan {
    if args.len() <= 1 {
        CmdPlan::RunServer
    } else if args[1] == text_cmd() {
        if args.len() == 3 {
            CmdPlan::AddText
        } else {
            CmdPlan::AddTextUsage
        }
    } else if args[1] == csv_cmd() {
        if args.len() == 3 {
            CmdPlan::ImportCsv
        } else {
            CmdPlan::ImportCsvUsage
        }
    } else {
        CmdPlan::RunServer
    }
}

fn is_text_cmd(a: &Vec<u8>) -> (r: bool)
    ensures
        r == (a@ == text_cmd()),
{
    let r = a.len() == 4 && a[0] == 116 && a[1] == 101 && a[2] == 120 && a[3] == 116;
    proof {
        if r {
            assert(a@ =~= text_cmd());
        }
    }
    r
}

fn is_csv_cmd(a: &Vec<u8>) -> (r: bool)
    ensures
        r == (a@ == csv_cmd()),
{
    let r = a.len() == 3 && a[0] == 99 && a[1] == 115 && a[2] == 118;
    proof {
        if r {
            assert(a@ =~= csv_cmd());
        }
    }
    r
}

/// Decides what a command line asks for.
pub fn plan_command(args: &Vec<Vec<u8>>) -> (r: CmdPlan)
    ensures
        r == plan_spec(args.deep_view()),
{
    proof {
        if args@.len() > 1 {
            assert(args.deep_view()[1] =~= args@[1]@);
        }
    }
    if args.len() <= 1 {
        return CmdPlan::RunServer;
    }
    if is_text_cmd(&args[1]) {
        if args.len() == 3 {
            CmdPlan::AddText
        } else {
            CmdPlan::AddTextUsage
        }
    } else if is_csv_cmd(&args[1]) {
        if args.len() == 3 {
            CmdPlan::ImportCsv
        } else {
            CmdPlan::ImportCsvUsage
        }
    } else {
        CmdPlan::RunServer
    }
}

/// The quotes kept out of `qs`, in order: those strictly longer than
/// `min_len`, stopping once `room` of them have been taken.
pub open spec fn select_spec(qs: Seq<Seq<u8>>, min_len: int, room: int) -> Seq<Seq<u8>>
    decreases qs.len(),
{
    if qs.len() == 0 || room <= 0 {
        Seq::empty()
    } else if qs[0].len() > min_len {
        seq![qs[0]] + select_spec(qs.drop_first(), min_len, room - 1)
    } else {
        select_spec(qs.drop_first(), min_len, room)
    }
}

/// Picks the quotes worth importing: those strictly longer than `min_len`,
/// in order, until one more than `max_entries` of them have been taken
/// (the scan stops only after the entry that overflows the cap, so the cap
/// overshoots by one).
pub fn select_quotes(quotes: &Vec<Vec<u8>>, min_len: usize, max_entries: usize) -> (r: Vec<
    Vec<u8>,
>)
    requires
        max_entries < usize::MAX,
    ensures
        r.deep_view() == select_spec(quotes.deep_view(), min_len as int, max_entries as int + 1),
{
    let ghost dv = quotes.deep_view();
    let mut out: Vec<Vec<u8>> = Vec::new();
    let mut cnt: usize = 0;
    let mut i: usize = 0;
    proof {
        assert(dv.subrange(0, dv.len() as int) =~= dv);
    }
    while i < quotes.len() && cnt <= max_entries
        invariant
            i <= quotes.len(),
            dv == quotes.deep_view(),
            dv.len() == quotes@.len(),
            max_entries < usize::MAX,
            cnt == out@.len(),
            cnt <= max_entries + 1,
            select_spec(dv, min_len as int, max_entries as int + 1) == out.deep_view()
                + select_spec(
                dv.subrange(i as int, dv.len() as int),
                min_len as int,
                max_entries as int + 1 - cnt,
            ),
            cnt > max_entries ==> select_spec(dv, min_len as int, max_entries as int + 1)
                == out.deep_view(),
        decreases quotes.len() - i,
    {
        let ghost rem = dv.subrange(i as int, dv.len() as int);
        let ghost room = max_entries as int + 1 - cnt;
        proof {
            assert(rem[0] =~= dv[i as int]);
            assert(rem.drop_first() =~= dv.subrange(i + 1, dv.len() as int));
            assert(dv[i as int] =~= quotes@[i as int]@);
        }
        let q = &quotes[i];
        if q.len() > min_len {
            let ghost old_out = out.deep_view();
            let copied = crate::events::copy_bytes(q);
            out.push(copied);
            cnt = cnt + 1;
            proof {
                assert(out.deep_view() =~~= old_out.push(dv[i as int]));
                assert(select_spec(rem, min_len as int, room) == seq![rem[0]] + select_spec(
                    rem.drop_first(),
                    min_len as int,
                    room - 1,
                ));
                assert(out.deep_view() + select_spec(
                    dv.subrange(i + 1, dv.len() as int),
                    min_len as int,
                    room - 1,
                ) =~~= old_out + select_spec(rem, min_len as int, room));
                if cnt > max_entries {
                    assert(select_spec(
                        dv.subrange(i + 1, dv.len() as int),
                        min_len as int,
                        0,
                    ) == Seq::<Seq<u8>>::empty());
                    assert(out.deep_view() + Seq::<Seq<u8>>::empty() =~~= out.deep_view());
                }
            }
        } else {
            proof {
                assert(select_spec(rem, min_len as int, room) == select_spec(
                    rem.drop_first(),
                    min_len as int,
                    room,
                ));
            }
        }
        i = i + 1;
    }
    proof {
        if cnt <= max_entries {
            assert(i == quotes.len());
            assert(dv.subrange(i as int, dv.len() as int).len() == 0);
            assert(select_spec(
                dv.subrange(i as int, dv.len() as int),
                min_len as int,
                max_entries as int + 1 - cnt,
            ) == Seq::<Seq<u8>>::empty());
            assert(out.deep_view() + Seq::<Seq<u8>>::empty() =~~= out.deep_view());
        }
    }
    out
}

} // verus!
