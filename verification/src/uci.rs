//! Parsing of UCI command arguments: `go` parameters, move lists, and the
//! `position` command.  The I/O around them lives outside this crate.

use vstd::prelude::*;
use vstd::string::*;
use crate::engine::GoParams;
use crate::mov::{Move, spec_parse_move};
use crate::text;

verus! {

/// A line-oriented command protocol, driven one line at a time.
pub trait Protocol {
    fn send_command(&mut self, command_args: String);
}

/// The `go` parameters as a specification value.
pub struct GoSpec {
    pub search_moves: Seq<Move>,
    pub ponder: bool,
    pub wtime: i32,
    pub btime: i32,
    pub winc: i32,
    pub binc: i32,
    pub movestogo: i32,
    pub depth: i32,
    pub nodes: i32,
    pub mate: i32,
    pub movetime: i32,
    pub infinite: bool,
}

/// The specification view of a `GoParams` value.
pub open spec fn go_view(p: GoParams) -> GoSpec {
    GoSpec {
        search_moves: p.search_moves@,
        ponder: p.ponder,
        wtime: p.wtime,
        btime: p.btime,
        winc: p.winc,
        binc: p.binc,
        movestogo: p.movestogo,
        depth: p.depth,
        nodes: p.nodes,
        mate: p.mate,
        movetime: p.movetime,
        infinite: p.infinite,
    }
}

/// Default `go` parameters: no move restriction, everything zero.
pub open spec fn spec_go_defaults() -> GoSpec {
    GoSpec {
        search_moves: Seq::empty(),
        ponder: false,
        wtime: 0,
        btime: 0,
        winc: 0,
        binc: 0,
        movestogo: 0,
        depth: 0,
        nodes: 0,
        mate: 0,
        movetime: 0,
        infinite: false,
    }
}

/// The moves read from `args` starting at `i`: the longest run of tokens
/// that parse as moves, and the index just past it.
pub open spec fn spec_moves_from(args: Seq<Seq<char>>, i: int) -> (Seq<Move>, int)
    decreases args.len() - i,
{
    if i < 0 || i >= args.len() {
        (Seq::empty(), i)
    } else {
        match spec_parse_move(args[i]) {
            Some(m) => {
                let (rest, j) = spec_moves_from(args, i + 1);
                (seq![m] + rest, j)
            },
            None => (Seq::empty(), i),
        }
    }
}

pub proof fn lemma_moves_from_bounds(args: Seq<Seq<char>>, i: int)
    requires
        0 <= i <= args.len(),
    ensures
        i <= spec_moves_from(args, i).1 <= args.len(),
    decreases args.len() - i,
{
    if i < args.len() && spec_parse_move(args[i]) is Some {
        lemma_moves_from_bounds(args, i + 1);
    }
}

/// The value of the token after `i`, or zero when it is missing or does
/// not read as a number.
pub open spec fn spec_num_arg(args: Seq<Seq<char>>, i: int) -> i32 {
    if i + 1 < args.len() {
        match text::spec_parse_i32(args[i + 1]) {
            Some(v) => v,
            None => 0,
        }
    } else {
        0
    }
}

/// The `go` argument walk: each keyword fills its field, `searchmoves`
/// consumes the following run of moves, unknown tokens are skipped.
pub open spec fn spec_go_from(args: Seq<Seq<char>>, i: int, acc: GoSpec) -> GoSpec
    decreases args.len() - i,
    via spec_go_from_decreases
{
    if i < 0 || i >= args.len() {
        acc
    } else {
        let tok = args[i];
        if tok == "searchmoves"@ {
            let (moves, j) = spec_moves_from(args, i + 1);
            spec_go_from(args, j, GoSpec { search_moves: moves, ..acc })
        } else if tok == "ponder"@ {
            spec_go_from(args, i + 1, GoSpec { ponder: true, ..acc })
        } else if tok == "wtime"@ {
            spec_go_from(
                args,
                if i + 2 <= args.len() {
                    i + 2
                } else {
                    args.len() as int
                },
                GoSpec { wtime: spec_num_arg(args, i), ..acc },
            )
        } else if tok == "btime"@ {
            spec_go_from(
                args,
                if i + 2 <= args.len() {
                    i + 2
                } else {
                    args.len() as int
                },
                GoSpec { btime: spec_num_arg(args, i), ..acc },
            )
        } else if tok == "winc"@ {
            spec_go_from(
                args,
                if i + 2 <= args.len() {
                    i + 2
                } else {
                    args.len() as int
                },
                GoSpec { winc: spec_num_arg(args, i), ..acc },
            )
        } else if tok == "binc"@ {
            spec_go_from(
                args,
                if i + 2 <= args.len() {
                    i + 2
                } else {
                    args.len() as int
                },
                GoSpec { binc: spec_num_arg(args, i), ..acc },
            )
        } else if tok == "movestogo"@ {
            spec_go_from(
                args,
                if i + 2 <= args.len() {
                    i + 2
                } else {
                    args.len() as int
                },
                GoSpec { movestogo: spec_num_arg(args, i), ..acc },
            )
        } else if tok == "depth"@ {
            spec_go_from(
                args,
                if i + 2 <= args.len() {
                    i + 2
                } else {
                    args.len() as int
                },
                GoSpec { depth: spec_num_arg(args, i), ..acc },
            )
        } else if tok == "nodes"@ {
            spec_go_from(
                args,
                if i + 2 <= args.len() {
                    i + 2
                } else {
                    args.len() as int
                },
                GoSpec { nodes: spec_num_arg(args, i), ..acc },
            )
        } else if tok == "mate"@ {
            spec_go_from(
                args,
                if i + 2 <= args.len() {
                    i + 2
                } else {
                    args.len() as int
                },
                GoSpec { mate: spec_num_arg(args, i), ..acc },
            )
        } else if tok == "movetime"@ {
            spec_go_from(
                args,
                if i + 2 <= args.len() {
                    i + 2
                } else {
                    args.len() as int
                },
                GoSpec { movetime: spec_num_arg(args, i), ..acc },
            )
        } else if tok == "infinite"@ {
            spec_go_from(args, i + 1, GoSpec { infinite: true, ..acc })
        } else {
            spec_go_from(args, i + 1, acc)
        }
    }
}

#[via_fn]
proof fn spec_go_from_decreases(args: Seq<Seq<char>>, i: int, acc: GoSpec) {
    if 0 <= i < args.len() {
        lemma_moves_from_bounds(args, i + 1);
    }
}

/// What `parse_go` yields on an argument list.
pub open spec fn spec_parse_go(args: Seq<Seq<char>>) -> GoSpec {
    spec_go_from(args, 0, spec_go_defaults())
}

/// Reads the arguments of a `go` command.
pub fn parse_go(args: &Vec<String>) -> (r: GoParams)
    ensures
        go_view(r) == spec_parse_go(args.deep_view()),
{
    let ghost dv = args.deep_view();
    let mut acc = GoParams {
        search_moves: Vec::new(),
        ponder: false,
        wtime: 0,
        btime: 0,
        winc: 0,
        binc: 0,
        movestogo: 0,
        depth: 0,
        nodes: 0,
        mate: 0,
        movetime: 0,
        infinite: false,
    };
    let mut i: usize = 0;
    while i < args.len()
        invariant
            dv == args.deep_view(),
            dv.len() == args@.len(),
            0 <= i <= args@.len(),
            spec_go_from(dv, i as int, go_view(acc)) == spec_parse_go(dv),
        decreases args@.len() - i,
    {
        proof {
            assert(dv[i as int] == args@[i as int]@);
        }
        let tok = &args[i];
        if tok.eq(&String::from_str("searchmoves")) {
            let mut sm: Vec<Move> = Vec::new();
            let mut j: usize = i + 1;
            let mut done = false;
            while !done && j < args.len()
                invariant
                    dv == args.deep_view(),
                    dv.len() == args@.len(),
                    i + 1 <= j <= args@.len(),
                    sm@ + spec_moves_from(dv, j as int).0 == spec_moves_from(dv, i + 1).0,
                    spec_moves_from(dv, j as int).1 == spec_moves_from(dv, i + 1).1,
                    done ==> spec_moves_from(dv, j as int).0 == Seq::<Move>::empty()
                        && spec_moves_from(dv, j as int).1 == j,
                decreases args@.len() - j + (if done {
                    0int
                } else {
                    1int
                }),
            {
                proof {
                    assert(dv[j as int] == args@[j as int]@);
                }
                match Move::parse(args[j].as_str()) {
                    Some(m) => {
                        proof {
                            assert(sm@.push(m) + spec_moves_from(dv, j + 1).0 =~= sm@ + (seq![m]
                                + spec_moves_from(dv, j + 1).0));
                        }
                        sm.push(m);
                        j = j + 1;
                    },
                    None => {
                        done = true;
                    },
                }
            }
            proof {
                assert(spec_moves_from(dv, j as int).0 =~= Seq::<Move>::empty());
                assert(sm@ + Seq::<Move>::empty() =~= sm@);
                assert(sm@ == spec_moves_from(dv, i + 1).0);
                assert(j as int == spec_moves_from(dv, i + 1).1);
            }
            acc.search_moves = sm;
            i = j;
        } else if tok.eq(&String::from_str("ponder")) {
            acc.ponder = true;
            i = i + 1;
        } else if tok.eq(&String::from_str("wtime")) {
            acc.wtime = num_arg(args, i);
            i = i + 1;
            if i < args.len() {
                i = i + 1;
            }
        } else if tok.eq(&String::from_str("btime")) {
            acc.btime = num_arg(args, i);
            i = i + 1;
            if i < args.len() {
                i = i + 1;
            }
        } else if tok.eq(&String::from_str("winc")) {
            acc.winc = num_arg(args, i);
            i = i + 1;
            if i < args.len() {
                i = i + 1;
            }
        } else if tok.eq(&String::from_str("binc")) {
            acc.binc = num_arg(args, i);
            i = i + 1;
            if i < args.len() {
                i = i + 1;
            }
        } else if tok.eq(&String::from_str("movestogo")) {
            acc.movestogo = num_arg(args, i);
            i = i + 1;
            if i < args.len() {
                i = i + 1;
            }
        } else if tok.eq(&String::from_str("depth")) {
            acc.depth = num_arg(args, i);
            i = i + 1;
            if i < args.len() {
                i = i + 1;
            }
        } else if tok.eq(&String::from_str("nodes")) {
            acc.nodes = num_arg(args, i);
            i = i + 1;
            if i < args.len() {
                i = i + 1;
            }
        } else if tok.eq(&String::from_str("mate")) {
            acc.mate = num_arg(args, i);
            i = i + 1;
            if i < args.len() {
                i = i + 1;
            }
        } else if tok.eq(&String::from_str("movetime")) {
            acc.movetime = num_arg(args, i);
            i = i + 1;
            if i < args.len() {
                i = i + 1;
            }
        } else if tok.eq(&String::from_str("infinite")) {
            acc.infinite = true;
            i = i + 1;
        } else {
            i = i + 1;
        }
    }
    acc
}

/// The numeric argument following position `i`, or zero.
fn num_arg(args: &Vec<String>, i: usize) -> (r: i32)
    requires
        i < args@.len(),
    ensures
        r == spec_num_arg(args.deep_view(), i as int),
{
    if i < args.len() - 1 {
        proof {
            assert(args.deep_view()[i as int + 1] == args@[i as int + 1]@);
        }
        match text::parse_i32(args[i + 1].as_str()) {
            Some(v) => v,
            None => 0,
        }
    } else {
        0
    }
}

/// Reads the longest run of moves from `args` starting at `start`.
pub fn parse_moves(args: &Vec<String>, start: usize) -> (r: Vec<Move>)
    requires
        start <= args@.len(),
    ensures
        r@ == spec_moves_from(args.deep_view(), start as int).0,
{
    let ghost dv = args.deep_view();
    let mut moves: Vec<Move> = Vec::new();
    let mut j: usize = start;
    let mut done = false;
    while !done && j < args.len()
        invariant
            dv == args.deep_view(),
            dv.len() == args@.len(),
            start <= j <= args@.len(),
            moves@ + spec_moves_from(dv, j as int).0 == spec_moves_from(dv, start as int).0,
            done ==> spec_moves_from(dv, j as int).0 == Seq::<Move>::empty(),
        decreases args@.len() - j + (if done {
            0int
        } else {
            1int
        }),
    {
        proof {
            assert(dv[j as int] == args@[j as int]@);
        }
        match Move::parse(args[j].as_str()) {
            Some(m) => {
                proof {
                    assert(moves@.push(m) + spec_moves_from(dv, j + 1).0 =~= moves@ + (seq![m]
                        + spec_moves_from(dv, j + 1).0));
                }
                moves.push(m);
                j = j + 1;
            },
            None => {
                done = true;
            },
        }
    }
    proof {
        assert(spec_moves_from(dv, j as int).0 =~= Seq::<Move>::empty());
        assert(moves@ + Seq::<Move>::empty() =~= moves@);
    }
    moves
}

} // verus!
