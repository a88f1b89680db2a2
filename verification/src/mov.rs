//! Moves in from/to/promotion form and their UCI text.

use vstd::prelude::*;
use vstd::string::*;
use crate::piece::{PieceType, spec_piece_char};
use crate::square::{Square, spec_parse_square, spec_square_symbol};

verus! {

#[derive(Clone, Copy, PartialEq, Eq, Structural, Debug)]
pub struct Move {
    pub from: Square,
    pub to: Square,
    pub promotion: Option<PieceType>,
}

/// A promotion letter of UCI move text.
pub open spec fn spec_promo_piece(c: char) -> Option<PieceType> {
    if c == 'n' {
        Some(PieceType::Knight)
    } else if c == 'b' {
        Some(PieceType::Bishop)
    } else if c == 'r' {
        Some(PieceType::Rook)
    } else if c == 'q' {
        Some(PieceType::Queen)
    } else {
        None
    }
}

/// What `Move::parse` yields: two squares and an optional promotion letter.
pub open spec fn spec_parse_move(s: Seq<char>) -> Option<Move> {
    if s.len() != 4 && s.len() != 5 {
        None
    } else {
        let from = spec_parse_square(s.subrange(0, 2));
        let to = spec_parse_square(s.subrange(2, 4));
        if from is None || to is None {
            None
        } else if s.len() == 4 {
            Some(Move { from: from->0, to: to->0, promotion: None })
        } else if spec_promo_piece(s[4]) is Some {
            Some(Move { from: from->0, to: to->0, promotion: spec_promo_piece(s[4]) })
        } else {
            None
        }
    }
}

/// The UCI text of a move: from square, to square, promotion letter if any.
pub open spec fn spec_move_uci(m: Move) -> Seq<char> {
    let squares = spec_square_symbol(m.from.idx as int) + spec_square_symbol(m.to.idx as int);
    match m.promotion {
        Some(p) => squares + seq![spec_piece_char(p)],
        None => squares,
    }
}

impl Move {
    pub open spec fn wf(self) -> bool {
        self.from.wf() && self.to.wf()
    }

    /// Reads UCI move text such as `e2e4` or `e7e8q`.
    pub fn parse(algebra: &str) -> (r: Option<Move>)
        ensures
            r == spec_parse_move(algebra@),
            r matches Some(m) ==> m.wf(),
    {
        let len = algebra.unicode_len();
        if len != 4 && len != 5 {
            return None;
        }
        let from = Square::parse(algebra.substring_char(0, 2));
        let to = Square::parse(algebra.substring_char(2, 4));
        if from.is_none() || to.is_none() {
            return None;
        }
        let promotion = if len == 5 {
            let c = algebra.get_char(4);
            match c {
                'n' => Some(PieceType::Knight),
                'b' => Some(PieceType::Bishop),
                'r' => Some(PieceType::Rook),
                'q' => Some(PieceType::Queen),
                _ => {
                    return None;
                },
            }
        } else {
            None
        };
        Some(Move { from: from.unwrap(), to: to.unwrap(), promotion })
    }

    /// The four promotion variants of a pawn move, knight through queen.
    pub fn enumerate_promotions(&self) -> (r: Vec<Move>)
        ensures
            r@.len() == 4,
            r@[0] == (Move { promotion: Some(PieceType::Knight), ..*self }),
            r@[1] == (Move { promotion: Some(PieceType::Bishop), ..*self }),
            r@[2] == (Move { promotion: Some(PieceType::Rook), ..*self }),
            r@[3] == (Move { promotion: Some(PieceType::Queen), ..*self }),
    {
        let mut moves: Vec<Move> = Vec::new();
        moves.push(Move { promotion: Some(PieceType::Knight), ..*self });
        moves.push(Move { promotion: Some(PieceType::Bishop), ..*self });
        moves.push(Move { promotion: Some(PieceType::Rook), ..*self });
        moves.push(Move { promotion: Some(PieceType::Queen), ..*self });
        moves
    }

    /// The same move seen from the other side of the board.
    pub fn mirror(&self) -> (r: Move)
        requires
            self.wf(),
        ensures
            r.from.idx as int == crate::bb::mirror_sq(self.from.idx as int),
            r.to.idx as int == crate::bb::mirror_sq(self.to.idx as int),
            r.promotion == self.promotion,
            r.wf(),
    {
        Move { from: self.from.mirror(), to: self.to.mirror(), promotion: self.promotion }
    }

    /// The rook move that accompanies this move when it is one of the four
    /// castling king moves.
    pub fn get_castling_rook(&self) -> (r: Option<Move>)
        ensures
            r == spec_castling_rook(*self),
            r matches Some(m) ==> m.wf(),
    {
        let f = self.from.idx;
        let t = self.to.idx;
        if f == 4 && t == 2 {
            Some(Move { from: Square { idx: 0 }, to: Square { idx: 3 }, promotion: None })
        } else if f == 4 && t == 6 {
            Some(Move { from: Square { idx: 7 }, to: Square { idx: 5 }, promotion: None })
        } else if f == 60 && t == 58 {
            Some(Move { from: Square { idx: 56 }, to: Square { idx: 59 }, promotion: None })
        } else if f == 60 && t == 62 {
            Some(Move { from: Square { idx: 63 }, to: Square { idx: 61 }, promotion: None })
        } else {
            None
        }
    }

    /// The UCI text of this move.
    pub fn uci(&self) -> (r: String)
        requires
            self.wf(),
        ensures
            r@ == spec_move_uci(*self),
    {
        let mut repr = self.from.symbol();
        let to_sym = self.to.symbol();
        repr.append(to_sym.as_str());
        match &self.promotion {
            Some(p) => {
                repr.append(p.symbol());
            },
            None => {},
        }
        proof {
            assert(repr@ =~= spec_move_uci(*self));
        }
        repr
    }
}

/// The rook side-effect of each of the four castling king moves:
/// e1c1, e1g1, e8c8 and e8g8.
pub open spec fn spec_castling_rook(m: Move) -> Option<Move> {
    if m.from.idx == 4 && m.to.idx == 2 {
        Some(Move { from: Square { idx: 0 }, to: Square { idx: 3 }, promotion: None })
    } else if m.from.idx == 4 && m.to.idx == 6 {
        Some(Move { from: Square { idx: 7 }, to: Square { idx: 5 }, promotion: None })
    } else if m.from.idx == 60 && m.to.idx == 58 {
        Some(Move { from: Square { idx: 56 }, to: Square { idx: 59 }, promotion: None })
    } else if m.from.idx == 60 && m.to.idx == 62 {
        Some(Move { from: Square { idx: 63 }, to: Square { idx: 61 }, promotion: None })
    } else {
        None
    }
}

} // verus!
