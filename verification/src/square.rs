//! Board squares, indexed rank-major from a1 = 0 to h8 = 63.

use vstd::prelude::*;
use vstd::string::*;
use crate::bb;

verus! {

#[derive(Clone, Copy, PartialEq, Eq, Structural, Debug)]
pub struct Square {
    pub idx: u8,
}

/// The file letter of file number `f`.
pub open spec fn file_char(f: int) -> char {
    if f == 0 {
        'a'
    } else if f == 1 {
        'b'
    } else if f == 2 {
        'c'
    } else if f == 3 {
        'd'
    } else if f == 4 {
        'e'
    } else if f == 5 {
        'f'
    } else if f == 6 {
        'g'
    } else {
        'h'
    }
}

/// The rank digit of rank number `r`.
pub open spec fn rank_char(r: int) -> char {
    if r == 0 {
        '1'
    } else if r == 1 {
        '2'
    } else if r == 2 {
        '3'
    } else if r == 3 {
        '4'
    } else if r == 4 {
        '5'
    } else if r == 5 {
        '6'
    } else if r == 6 {
        '7'
    } else {
        '8'
    }
}

/// The two-character algebraic name of square `idx`.
pub open spec fn spec_square_symbol(idx: int) -> Seq<char> {
    seq![file_char(idx % 8), rank_char(idx / 8)]
}

/// What `Square::parse` yields on a character sequence.
pub open spec fn spec_parse_square(s: Seq<char>) -> Option<Square> {
    if s.len() == 2 && 'a' <= s[0] <= 'h' && '1' <= s[1] <= '8' {
        Some(Square { idx: ((s[1] as int - '1' as int) * 8 + (s[0] as int - 'a' as int)) as u8 })
    } else {
        None
    }
}

impl Square {
    pub open spec fn wf(self) -> bool {
        self.idx < 64
    }

    /// Reads an algebraic square name such as `e4`.
    pub fn parse(symbol: &str) -> (r: Option<Square>)
        ensures
            r == spec_parse_square(symbol@),
            r matches Some(s) ==> s.wf(),
    {
        if symbol.unicode_len() != 2 {
            return None;
        }
        let c0 = symbol.get_char(0);
        let c1 = symbol.get_char(1);
        let v0 = c0 as u32;
        let v1 = c1 as u32;
        if v0 < 97 || v0 > 104 || v1 < 49 || v1 > 56 {
            return None;
        }
        let idx = ((v1 - 49) * 8 + (v0 - 97)) as u8;
        Some(Square { idx })
    }

    /// The square at the given rank and file.
    pub fn at(rank: usize, file: usize) -> (r: Square)
        requires
            rank < 8,
            file < 8,
        ensures
            r.idx == rank * 8 + file,
            r.wf(),
    {
        Square { idx: (rank * 8 + file) as u8 }
    }

    /// The square on the same file of the opposite rank.
    pub fn mirror(&self) -> (r: Square)
        requires
            self.wf(),
        ensures
            r.idx as int == bb::mirror_sq(self.idx as int),
            r.wf(),
    {
        let rank = self.idx / 8;
        let file = self.idx % 8;
        Square { idx: (7 - rank) * 8 + file }
    }

    /// The algebraic name of this square.
    pub fn symbol(&self) -> (r: String)
        requires
            self.wf(),
        ensures
            r@ == spec_square_symbol(self.idx as int),
    {
        let f = (self.idx % 8) as i32;
        let rk = (self.idx / 8) as i32;
        let mut s = String::from_str(file_str(f));
        s.append(rank_str(rk));
        proof {
            assert(s@ =~= spec_square_symbol(self.idx as int));
        }
        s
    }
}

/// The file letter as a one-character string.
fn file_str(f: i32) -> (r: &'static str)
    requires
        0 <= f < 8,
    ensures
        r@ =~= seq![file_char(f as int)],
{
    if f == 0 {
        proof {
            reveal_strlit("a");
        }
        "a"
    } else if f == 1 {
        proof {
            reveal_strlit("b");
        }
        "b"
    } else if f == 2 {
        proof {
            reveal_strlit("c");
        }
        "c"
    } else if f == 3 {
        proof {
            reveal_strlit("d");
        }
        "d"
    } else if f == 4 {
        proof {
            reveal_strlit("e");
        }
        "e"
    } else if f == 5 {
        proof {
            reveal_strlit("f");
        }
        "f"
    } else if f == 6 {
        proof {
            reveal_strlit("g");
        }
        "g"
    } else {
        proof {
            reveal_strlit("h");
        }
        "h"
    }
}

/// The rank digit as a one-character string.
fn rank_str(r: i32) -> (s: &'static str)
    requires
        0 <= r < 8,
    ensures
        s@ =~= seq![rank_char(r as int)],
{
    if r == 0 {
        proof {
            reveal_strlit("1");
        }
        "1"
    } else if r == 1 {
        proof {
            reveal_strlit("2");
        }
        "2"
    } else if r == 2 {
        proof {
            reveal_strlit("3");
        }
        "3"
    } else if r == 3 {
        proof {
            reveal_strlit("4");
        }
        "4"
    } else if r == 4 {
        proof {
            reveal_strlit("5");
        }
        "5"
    } else if r == 5 {
        proof {
            reveal_strlit("6");
        }
        "6"
    } else if r == 6 {
        proof {
            reveal_strlit("7");
        }
        "7"
    } else {
        proof {
            reveal_strlit("8");
        }
        "8"
    }
}

} // verus!
