use mcts_chess::game::GameState;

use chess::{ChessMove, File, Piece, Rank, Square};

fn sq(file: File, rank: Rank) -> Square {
    Square::make_square(rank, file)
}

#[test]
fn parse_plain_move() {
    let got = GameState::parse_uci_move("e2e4");
    let want = ChessMove::new(sq(File::E, Rank::Second), sq(File::E, Rank::Fourth), None);
    assert_eq!(got, Some(want));
}

#[test]
fn parse_promotion_move() {
    let got = GameState::parse_uci_move("e7e8q");
    let want = ChessMove::new(
        sq(File::E, Rank::Seventh),
        sq(File::E, Rank::Eighth),
        Some(Piece::Queen),
    );
    assert_eq!(got, Some(want));
}

#[test]
fn parse_knight_promotion() {
    let got = GameState::parse_uci_move("a7a8n");
    let want = ChessMove::new(
        sq(File::A, Rank::Seventh),
        sq(File::A, Rank::Eighth),
        Some(Piece::Knight),
    );
    assert_eq!(got, Some(want));
}

#[test]
fn parse_accepts_uppercase() {
    assert_eq!(
        GameState::parse_uci_move("E2E4"),
        GameState::parse_uci_move("e2e4")
    );
}

#[test]
fn parse_rejects_short_text() {
    assert_eq!(GameState::parse_uci_move(""), None);
    assert_eq!(GameState::parse_uci_move("e2"), None);
    assert_eq!(GameState::parse_uci_move("e2e"), None);
}

#[test]
fn parse_rejects_bad_coordinates() {
    assert_eq!(GameState::parse_uci_move("e2e9"), None);
    assert_eq!(GameState::parse_uci_move("i2e4"), None);
    assert_eq!(GameState::parse_uci_move("e0e4"), None);
}

#[test]
fn parse_drops_bad_promotion_letter() {
    // A fifth letter that names no promotion piece does not reject the
    // move; the promotion is silently dropped.
    let want = ChessMove::new(sq(File::E, Rank::Seventh), sq(File::E, Rank::Eighth), None);
    assert_eq!(GameState::parse_uci_move("e7e8k"), Some(want));
    assert_eq!(GameState::parse_uci_move("e7e8x"), Some(want));
}

#[test]
fn parse_ignores_trailing_text_past_five_chars() {
    // A sixth character means no promotion letter is read at all.
    let got = GameState::parse_uci_move("e2e4qq");
    let want = ChessMove::new(sq(File::E, Rank::Second), sq(File::E, Rank::Fourth), None);
    assert_eq!(got, Some(want));
}
