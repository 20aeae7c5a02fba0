//! Trusted adapter to the `chess` rules engine and to `rand`.
//!
//! Everything the engine needs from the outside world passes through the
//! functions in this module.  Each wraps exactly the outside call named in
//! its doc comment; Verus takes the stated contract on trust and verifies
//! the rest of the crate on top of it.  Positions and moves stay opaque:
//! the engine never claims anything about what a board contains, only about
//! how it accounts for the values these functions hand back.

use vstd::prelude::*;
use crate::game::{Promo, Side, Status};

verus! {

/// The legal moves of a position, as `chess::MoveGen::new_legal` enumerates
/// them: a function of the board alone.
pub uninterp spec fn spec_legal_moves(b: chess::Board) -> Seq<chess::ChessMove>;

/// The classification `chess::Board::status` gives a position.
pub uninterp spec fn spec_status(b: chess::Board) -> Status;

/// The side to move that `chess::Board::side_to_move` reads off a position.
pub uninterp spec fn spec_side(b: chess::Board) -> Side;

/// The position `chess::Board::make_move_new` builds by applying a move.
pub uninterp spec fn spec_apply_move(b: chess::Board, m: chess::ChessMove) -> chess::Board;

/// The sample `rand::Rng::gen_range` draws over `0..n`, paired with the
/// state it leaves the generator in: a pure function of the generator
/// state and the bound, since `StdRng` is a deterministic pseudo-random
/// generator.
pub uninterp spec fn spec_gen_below(rng: rand::rngs::StdRng, n: usize) -> (usize, rand::rngs::StdRng);

/// The generator state `rand::SeedableRng::seed_from_u64` expands a seed
/// into: a pure function of the seed.
pub uninterp spec fn spec_rng_from_seed(seed: u64) -> rand::rngs::StdRng;

/// The move value `chess::ChessMove::new` builds from file and rank indices
/// and a promotion choice.  Behind this one name stands the composition of
/// four small constructors — `File::from_index`, `Rank::from_index`,
/// `Square::make_square` and `ChessMove::new` — deterministic in exactly
/// these five arguments.
pub uninterp spec fn spec_uci_move_of(
    from_file: u8,
    from_rank: u8,
    to_file: u8,
    to_rank: u8,
    promo: Option<Promo>,
) -> chess::ChessMove;

#[verifier::external_type_specification]
#[verifier::external_body]
pub struct ExBoard(chess::Board);

#[verifier::external_type_specification]
#[verifier::external_body]
pub struct ExChessMove(chess::ChessMove);

#[verifier::external_type_specification]
#[verifier::external_body]
pub struct ExStdRng(rand::rngs::StdRng);

/// Relies on `chess::Board::default`: the standard starting position — an
/// ongoing game, White to move, with its 20 legal opening moves.
#[verifier::external_body]
pub(crate) fn board_default() -> (r: chess::Board)
    ensures
        spec_status(r) == Status::Ongoing,
        spec_side(r) == Side::White,
        spec_legal_moves(r).len() == 20,
{
    chess::Board::default()
}

/// Relies on `chess::Board` being `Copy`: the copy is the very same value.
#[verifier::external_body]
pub(crate) fn clone_board(b: &chess::Board) -> (r: chess::Board)
    ensures
        r == *b,
{
    *b
}

/// Relies on `chess::ChessMove` being `Copy`: the copy is the very same value.
#[verifier::external_body]
pub(crate) fn clone_move(m: &chess::ChessMove) -> (r: chess::ChessMove)
    ensures
        r == *m,
{
    *m
}

/// Relies on `chess::Board::status`, which reports a position as ongoing,
/// checkmate or stalemate.  Its source computes the answer from the count
/// of `MoveGen::new_legal`'s moves — ongoing exactly when that count is
/// positive — which the second clause records.
#[verifier::external_body]
pub(crate) fn status_of(b: &chess::Board) -> (r: Status)
    ensures
        r == spec_status(*b),
        (r == Status::Ongoing) <==> spec_legal_moves(*b).len() > 0,
{
    match b.status() {
        chess::BoardStatus::Ongoing => Status::Ongoing,
        chess::BoardStatus::Checkmate => Status::Checkmate,
        chess::BoardStatus::Stalemate => Status::Stalemate,
    }
}

/// Relies on `chess::Board::side_to_move`, a plain field read.
#[verifier::external_body]
pub(crate) fn side_of(b: &chess::Board) -> (r: Side)
    ensures
        r == spec_side(*b),
{
    match b.side_to_move() {
        chess::Color::White => Side::White,
        chess::Color::Black => Side::Black,
    }
}

/// Relies on `chess::MoveGen::new_legal`, the legal-move enumerator: a
/// deterministic function of the board.  The enumeration never repeats a
/// move — it walks each source square once and, per square, each
/// destination bit and each distinct promotion piece once.
#[verifier::external_body]
pub(crate) fn legal_moves_of(b: &chess::Board) -> (r: Vec<chess::ChessMove>)
    ensures
        r@ == spec_legal_moves(*b),
        r@.no_duplicates(),
{
    chess::MoveGen::new_legal(b).collect()
}

/// Relies on `chess::Board::make_move_new`, which applies a move to a board
/// and returns the resulting position.  It is meant for legal moves only
/// and can panic on others (its `make_move` unwraps the piece on the source
/// square), so the precondition demands a move from the board's own legal
/// list.  `make_move` hands the turn to the other side unconditionally, so
/// the side to move always flips.
#[verifier::external_body]
pub(crate) fn apply_move_to(b: &chess::Board, m: &chess::ChessMove) -> (r: chess::Board)
    requires
        spec_legal_moves(*b).contains(*m),
    ensures
        r == spec_apply_move(*b, *m),
        spec_side(r) != spec_side(*b),
{
    b.make_move_new(*m)
}

/// Relies on `chess::File::from_index`, `chess::Rank::from_index`,
/// `chess::Square::make_square` and `chess::ChessMove::new`, all plain
/// constructors that cannot fail (`from_index` masks its argument to three
/// bits): the move built from the given coordinates and promotion choice.
#[verifier::external_body]
pub(crate) fn make_uci_move(
    from_file: u8,
    from_rank: u8,
    to_file: u8,
    to_rank: u8,
    promo: Option<Promo>,
) -> (r: chess::ChessMove)
    requires
        from_file < 8,
        from_rank < 8,
        to_file < 8,
        to_rank < 8,
    ensures
        r == spec_uci_move_of(from_file, from_rank, to_file, to_rank, promo),
{
    let fr = chess::Rank::from_index(from_rank as usize);
    let ff = chess::File::from_index(from_file as usize);
    let tr = chess::Rank::from_index(to_rank as usize);
    let tf = chess::File::from_index(to_file as usize);
    let p = match promo {
        None => None,
        Some(Promo::Queen) => Some(chess::Piece::Queen),
        Some(Promo::Rook) => Some(chess::Piece::Rook),
        Some(Promo::Bishop) => Some(chess::Piece::Bishop),
        Some(Promo::Knight) => Some(chess::Piece::Knight),
    };
    chess::ChessMove::new(chess::Square::make_square(fr, ff), chess::Square::make_square(tr, tf), p)
}

/// Relies on `rand::SeedableRng::seed_from_u64` for `StdRng`: a generator
/// whose state is determined by the seed alone, reproducible across runs.
#[verifier::external_body]
pub(crate) fn rng_from_seed(seed: u64) -> (r: rand::rngs::StdRng)
    ensures
        r == spec_rng_from_seed(seed),
{
    <rand::rngs::StdRng as rand::SeedableRng>::seed_from_u64(seed)
}

/// Relies on `rand::SeedableRng::from_entropy` for `StdRng`: a generator
/// seeded from the operating system, fresh on every call.
#[verifier::external_body]
pub(crate) fn rng_from_entropy() -> rand::rngs::StdRng {
    <rand::rngs::StdRng as rand::SeedableRng>::from_entropy()
}

/// Relies on `rand::Rng::gen_range` over `0..n`: a sample strictly below
/// `n`, and — `StdRng` being a deterministic generator — both the sample
/// and the generator's next state are functions of its previous state and
/// the bound.  `gen_range` panics only on an empty range, which the
/// precondition rules out.
#[verifier::external_body]
pub(crate) fn gen_below(rng: &mut rand::rngs::StdRng, n: usize) -> (r: usize)
    requires
        n >= 1,
    ensures
        r < n,
        r == spec_gen_below(*old(rng), n).0,
        *final(rng) == spec_gen_below(*old(rng), n).1,
{
    rand::Rng::gen_range(rng, 0..n)
}

} // verus!
