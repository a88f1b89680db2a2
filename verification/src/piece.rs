//! The six piece kinds and their FEN letters.

use vstd::prelude::*;
use vstd::string::*;

verus! {

#[derive(Clone, Copy, PartialEq, Eq, Structural, Debug)]
pub enum PieceType {
    Pawn,
    Knight,
    Bishop,
    Rook,
    Queen,
    King,
}

/// What `PieceType::parse` yields: either case of the piece letter.
pub open spec fn spec_parse_piece(s: Seq<char>) -> Option<PieceType> {
    if s.len() != 1 {
        None
    } else if s[0] == 'p' || s[0] == 'P' {
        Some(PieceType::Pawn)
    } else if s[0] == 'n' || s[0] == 'N' {
        Some(PieceType::Knight)
    } else if s[0] == 'b' || s[0] == 'B' {
        Some(PieceType::Bishop)
    } else if s[0] == 'r' || s[0] == 'R' {
        Some(PieceType::Rook)
    } else if s[0] == 'q' || s[0] == 'Q' {
        Some(PieceType::Queen)
    } else if s[0] == 'k' || s[0] == 'K' {
        Some(PieceType::King)
    } else {
        None
    }
}

/// The lowercase letter of a piece kind.
pub open spec fn spec_piece_char(p: PieceType) -> char {
    match p {
        PieceType::Pawn => 'p',
        PieceType::Knight => 'n',
        PieceType::Bishop => 'b',
        PieceType::Rook => 'r',
        PieceType::Queen => 'q',
        PieceType::King => 'k',
    }
}

impl PieceType {
    /// Reads a piece letter in either case.
    pub fn parse(symbol: &str) -> (r: Option<PieceType>)
        ensures
            r == spec_parse_piece(symbol@),
    {
        if symbol.unicode_len() != 1 {
            return None;
        }
        let c = symbol.get_char(0);
        match c {
            'p' | 'P' => Some(PieceType::Pawn),
            'n' | 'N' => Some(PieceType::Knight),
            'b' | 'B' => Some(PieceType::Bishop),
            'r' | 'R' => Some(PieceType::Rook),
            'q' | 'Q' => Some(PieceType::Queen),
            'k' | 'K' => Some(PieceType::King),
            _ => None,
        }
    }

    /// The lowercase letter of this piece kind.
    pub fn symbol(&self) -> (r: &'static str)
        ensures
            r@ =~= seq![spec_piece_char(*self)],
    {
        match self {
            PieceType::Pawn => {
                proof {
                    reveal_strlit("p");
                }
                "p"
            },
            PieceType::Knight => {
                proof {
                    reveal_strlit("n");
                }
                "n"
            },
            PieceType::Bishop => {
                proof {
                    reveal_strlit("b");
                }
                "b"
            },
            PieceType::Rook => {
                proof {
                    reveal_strlit("r");
                }
                "r"
            },
            PieceType::Queen => {
                proof {
                    reveal_strlit("q");
                }
                "q"
            },
            PieceType::King => {
                proof {
                    reveal_strlit("k");
                }
                "k"
            },
        }
    }
}

} // verus!
