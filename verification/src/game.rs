//! The game state handed to the engine, and parsing of moves written in
//! UCI coordinate text (`e2e4`, or `e7e8q` with a promotion letter).
//!
//! The position itself is the `chess` crate's board and stays opaque to the
//! proofs; the text format, though, is this crate's own concern, so the
//! parser is verified: its contract says exactly which strings it accepts.

use vstd::prelude::*;
use crate::adapter::{apply_move_to, board_default, legal_moves_of, make_uci_move, side_of,
    spec_apply_move, spec_legal_moves, spec_side, spec_status, spec_uci_move_of, status_of};

verus! {

/// The side to move.
#[derive(Clone, Copy, PartialEq, Eq, Structural, Debug)]
pub enum Side {
    White,
    Black,
}

/// How a position stands: still being played, or ended.
#[derive(Clone, Copy, PartialEq, Eq, Structural, Debug)]
pub enum Status {
    Ongoing,
    Checkmate,
    Stalemate,
}

/// A promotion piece named in UCI move text.
#[derive(Clone, Copy, PartialEq, Eq, Structural, Debug)]
pub enum Promo {
    Queen,
    Rook,
    Bishop,
    Knight,
}

/// A chess game: the current position.
pub struct GameState {
    pub board: chess::Board,
}

/// The 0-based file index a UCI file letter stands for.
pub open spec fn spec_uci_file(c: char) -> Option<u8> {
    match c {
        'a' | 'A' => Some(0u8),
        'b' | 'B' => Some(1u8),
        'c' | 'C' => Some(2u8),
        'd' | 'D' => Some(3u8),
        'e' | 'E' => Some(4u8),
        'f' | 'F' => Some(5u8),
        'g' | 'G' => Some(6u8),
        'h' | 'H' => Some(7u8),
        _ => None,
    }
}

/// The 0-based rank index a UCI rank digit stands for.
pub open spec fn spec_uci_rank(c: char) -> Option<u8> {
    match c {
        '1' => Some(0u8),
        '2' => Some(1u8),
        '3' => Some(2u8),
        '4' => Some(3u8),
        '5' => Some(4u8),
        '6' => Some(5u8),
        '7' => Some(6u8),
        '8' => Some(7u8),
        _ => None,
    }
}

/// The promotion piece a UCI promotion letter stands for.
pub open spec fn spec_uci_promo(c: char) -> Option<Promo> {
    match c {
        'q' | 'Q' => Some(Promo::Queen),
        'r' | 'R' => Some(Promo::Rook),
        'b' | 'B' => Some(Promo::Bishop),
        'n' | 'N' => Some(Promo::Knight),
        _ => None,
    }
}

/// Which strings the UCI move parser accepts: four valid coordinate
/// characters.  Anything after them is ignored; in particular a fifth
/// character that names no promotion piece does not reject the move, it
/// only drops the promotion.
pub open spec fn spec_uci_ok(s: Seq<char>) -> bool {
    &&& s.len() >= 4
    &&& spec_uci_file(s[0]) is Some
    &&& spec_uci_rank(s[1]) is Some
    &&& spec_uci_file(s[2]) is Some
    &&& spec_uci_rank(s[3]) is Some
}

/// The move an accepted string parses to: its four coordinates, and a
/// promotion piece exactly when the string is five characters long and the
/// fifth names one.
pub open spec fn spec_parsed_uci(s: Seq<char>) -> chess::ChessMove
    recommends
        spec_uci_ok(s),
{
    spec_uci_move_of(
        spec_uci_file(s[0])->0,
        spec_uci_rank(s[1])->0,
        spec_uci_file(s[2])->0,
        spec_uci_rank(s[3])->0,
        if s.len() == 5 {
            spec_uci_promo(s[4])
        } else {
            None
        },
    )
}

impl GameState {
    /// A game at the standard starting position: ongoing, White to move,
    /// with the 20 legal opening moves.
    pub fn new() -> (s: Self)
        ensures
            spec_status(s.board) == Status::Ongoing,
            spec_side(s.board) == Side::White,
            spec_legal_moves(s.board).len() == 20,
    {
        GameState { board: board_default() }
    }

    /// The side to move in the current position.
    pub fn side_to_move(&self) -> (r: Side)
        ensures
            r == spec_side(self.board),
    {
        side_of(&self.board)
    }

    /// Whether the game has ended in checkmate or stalemate — equivalently,
    /// whether no legal move is left.
    pub fn is_terminal(&self) -> (r: bool)
        ensures
            r == (spec_status(self.board) != Status::Ongoing),
            r == (spec_legal_moves(self.board).len() == 0),
    {
        let st = status_of(&self.board);
        !(matches!(st, Status::Ongoing))
    }

    /// Every legal move in the current position, each exactly once.
    pub fn legal_moves(&self) -> (r: Vec<chess::ChessMove>)
        ensures
            r@ == spec_legal_moves(self.board),
            r@.no_duplicates(),
    {
        legal_moves_of(&self.board)
    }

    /// Plays a move, replacing the position with its successor; the side
    /// to move flips.  The move must be one of `legal_moves`; the caller
    /// checks that.
    pub fn apply_move(&mut self, mv: chess::ChessMove)
        requires
            spec_legal_moves(old(self).board).contains(mv),
        ensures
            final(self).board == spec_apply_move(old(self).board, mv),
            spec_side(final(self).board) != spec_side(old(self).board),
    {
        self.board = apply_move_to(&self.board, &mv);
    }

    /// Parses a move written as UCI coordinates.  Exactly the strings
    /// described by [`spec_uci_ok`] are accepted, and an accepted string
    /// parses to [`spec_parsed_uci`] of it: a five-character move whose
    /// fifth letter names no promotion piece keeps its coordinates and
    /// silently drops the promotion.
    pub fn parse_uci_move(mv: &str) -> (r: Option<chess::ChessMove>)
        ensures
            r is Some <==> spec_uci_ok(mv@),
            spec_uci_ok(mv@) ==> r == Some(spec_parsed_uci(mv@)),
    {
        let n = mv.unicode_len();
        if n < 4 {
            return None;
        }
        let ff = match Self::uci_file(mv.get_char(0)) {
            Some(x) => x,
            None => return None,
        };
        let fr = match Self::uci_rank(mv.get_char(1)) {
            Some(x) => x,
            None => return None,
        };
        let tf = match Self::uci_file(mv.get_char(2)) {
            Some(x) => x,
            None => return None,
        };
        let tr = match Self::uci_rank(mv.get_char(3)) {
            Some(x) => x,
            None => return None,
        };
        let promo: Option<Promo> = if n == 5 {
            Self::uci_promo_piece(mv.get_char(4))
        } else {
            None
        };
        Some(make_uci_move(ff, fr, tf, tr, promo))
    }

    /// Maps a file letter, either case, to its 0-based index.
    pub fn uci_file(c: char) -> (r: Option<u8>)
        ensures
            r == spec_uci_file(c),
    {
        match c {
            'a' | 'A' => Some(0),
            'b' | 'B' => Some(1),
            'c' | 'C' => Some(2),
            'd' | 'D' => Some(3),
            'e' | 'E' => Some(4),
            'f' | 'F' => Some(5),
            'g' | 'G' => Some(6),
            'h' | 'H' => Some(7),
            _ => None,
        }
    }

    /// Maps a rank digit to its 0-based index.
    pub fn uci_rank(c: char) -> (r: Option<u8>)
        ensures
            r == spec_uci_rank(c),
    {
        match c {
            '1' => Some(0),
            '2' => Some(1),
            '3' => Some(2),
            '4' => Some(3),
            '5' => Some(4),
            '6' => Some(5),
            '7' => Some(6),
            '8' => Some(7),
            _ => None,
        }
    }

    /// Maps a promotion letter, either case, to the piece it names.
    pub fn uci_promo_piece(c: char) -> (r: Option<Promo>)
        ensures
            r == spec_uci_promo(c),
    {
        match c {
            'q' | 'Q' => Some(Promo::Queen),
            'r' | 'R' => Some(Promo::Rook),
            'b' | 'B' => Some(Promo::Bishop),
            'n' | 'N' => Some(Promo::Knight),
            _ => None,
        }
    }
}

} // verus!
