use std::str::FromStr;

use mcts_chess::engine::{
    best_visited_move, run_search, select_child_index, simulate_random_default, Edge, MctsConfig,
    MctsEngine, Node,
};
use mcts_chess::game::{GameState, Side};
use mcts_chess::score::Score;

use chess::{Board, ChessMove, MoveGen};
use rand::rngs::StdRng;
use rand::SeedableRng;

// A position where white's only legal move is Kb1 (king a1, black rook h2).
const ONE_MOVE_FEN: &str = "k7/8/8/8/8/8/7r/K7 w - - 0 1";

// Black to move, stalemated: king a8 against queen c7.
const STALEMATE_FEN: &str = "k7/2Q5/8/8/8/8/8/4K3 b - - 0 1";

// Fool's mate: white to move, checkmated.
const CHECKMATE_FEN: &str = "rnb1kbnr/pppp1ppp/8/4p3/6Pq/5P2/PPPPP2P/RNBQKBNR w KQkq - 1 3";

fn engine_with(simulations: usize) -> MctsEngine {
    MctsEngine::new(MctsConfig { simulations })
}

fn state_from(fen: &str) -> GameState {
    GameState {
        board: Board::from_str(fen).expect("test position"),
    }
}

fn leaf_node(board: Board, visits: u64, value_sum: i64) -> Node {
    Node {
        position: board,
        visits,
        value_sum,
        children: Vec::new(),
        unexpanded_moves: Vec::new(),
        is_terminal: false,
    }
}

#[test]
fn config_default_is_1000_simulations() {
    assert_eq!(MctsConfig::default().simulations, 1000);
}

#[test]
fn engine_keeps_its_config() {
    assert_eq!(engine_with(7).config.simulations, 7);
}

#[test]
fn game_state_starts_as_usual() {
    let state = GameState::new();
    assert_eq!(state.side_to_move(), Side::White);
    assert!(!state.is_terminal());
    assert_eq!(state.legal_moves().len(), 20);
}

#[test]
fn apply_move_switches_side() {
    let mut state = GameState::new();
    let mv = GameState::parse_uci_move("e2e4").unwrap();
    assert!(state.legal_moves().contains(&mv));
    state.apply_move(mv);
    assert_eq!(state.side_to_move(), Side::Black);
}

#[test]
fn apply_move_builds_the_successor_position() {
    let mut state = GameState::new();
    let mv = GameState::parse_uci_move("g1f3").unwrap();
    assert!(state.legal_moves().contains(&mv));
    state.apply_move(mv);
    assert_eq!(state.board, Board::default().make_move_new(mv));
}

#[test]
fn terminal_positions_are_reported() {
    assert!(state_from(STALEMATE_FEN).is_terminal());
    assert!(state_from(CHECKMATE_FEN).is_terminal());
    assert!(!state_from(ONE_MOVE_FEN).is_terminal());
}

#[test]
fn no_move_on_stalemate() {
    let state = state_from(STALEMATE_FEN);
    assert_eq!(state.legal_moves().len(), 0);
    assert_eq!(engine_with(50).choose_move_seeded(&state, 1), None);
}

#[test]
fn no_move_on_checkmate() {
    let state = state_from(CHECKMATE_FEN);
    assert_eq!(state.legal_moves().len(), 0);
    assert_eq!(engine_with(50).choose_move_seeded(&state, 1), None);
}

#[test]
fn single_legal_move_short_circuits() {
    let state = state_from(ONE_MOVE_FEN);
    let legal = state.legal_moves();
    assert_eq!(legal.len(), 1);
    let chosen = engine_with(50).choose_move_seeded(&state, 1);
    assert_eq!(chosen, Some(legal[0]));
}

#[test]
fn single_legal_move_even_with_zero_budget() {
    let state = state_from(ONE_MOVE_FEN);
    let legal = state.legal_moves();
    let chosen = engine_with(0).choose_move_seeded(&state, 9);
    assert_eq!(chosen, Some(legal[0]));
}

#[test]
fn playout_outcome_in_range() {
    let mut rng = StdRng::seed_from_u64(3);
    for depth in [0usize, 1, 5, 96] {
        let outcome = simulate_random_default(&Board::default(), depth, &mut rng);
        assert!((-1..=1).contains(&outcome));
    }
}

#[test]
fn playout_scores_mate_against_the_mated_side() {
    // The side to move at the start is the mated side: -1 for it.
    let board = Board::from_str(CHECKMATE_FEN).unwrap();
    let mut rng = StdRng::seed_from_u64(5);
    assert_eq!(simulate_random_default(&board, 96, &mut rng), -1);
}

#[test]
fn playout_scores_stalemate_zero() {
    let board = Board::from_str(STALEMATE_FEN).unwrap();
    let mut rng = StdRng::seed_from_u64(5);
    assert_eq!(simulate_random_default(&board, 96, &mut rng), 0);
}

#[test]
fn playout_depth_zero_is_a_draw_only_while_ongoing() {
    let mut rng = StdRng::seed_from_u64(5);
    assert_eq!(simulate_random_default(&Board::default(), 0, &mut rng), 0);
}

#[test]
fn playout_scores_a_terminal_start_even_with_zero_budget() {
    // The terminal status is examined before the depth budget.
    let mut rng = StdRng::seed_from_u64(5);
    let mate = Board::from_str(CHECKMATE_FEN).unwrap();
    assert_eq!(simulate_random_default(&mate, 0, &mut rng), -1);
    let stale = Board::from_str(STALEMATE_FEN).unwrap();
    assert_eq!(simulate_random_default(&stale, 0, &mut rng), 0);
}

#[test]
fn unvisited_node_scores_infinite() {
    let node = leaf_node(Board::default(), 0, 0);
    assert_eq!(node.uct_value(10), Score::Infinite);
}

#[test]
fn visited_node_scores_finite() {
    let node = leaf_node(Board::default(), 1, 1);
    assert_eq!(node.uct_value(1), Score::Finite(1000));
}

#[test]
fn selection_prefers_the_unvisited_sibling() {
    let board = Board::default();
    let moves: Vec<ChessMove> = MoveGen::new_legal(&board).collect();
    let children = vec![
        Edge { mv: moves[0], child: leaf_node(board.make_move_new(moves[0]), 1, 1) },
        Edge { mv: moves[1], child: leaf_node(board.make_move_new(moves[1]), 0, 0) },
    ];
    assert_eq!(select_child_index(&children, 1), 1);
}

#[test]
fn selection_ties_go_to_the_first_child() {
    let board = Board::default();
    let moves: Vec<ChessMove> = MoveGen::new_legal(&board).collect();
    let children = vec![
        Edge { mv: moves[0], child: leaf_node(board.make_move_new(moves[0]), 0, 0) },
        Edge { mv: moves[1], child: leaf_node(board.make_move_new(moves[1]), 0, 0) },
    ];
    assert_eq!(select_child_index(&children, 1), 0);
}

#[test]
fn best_visited_move_takes_the_first_maximum() {
    let board = Board::default();
    let moves: Vec<ChessMove> = MoveGen::new_legal(&board).collect();
    let root = Node {
        position: board,
        visits: 13,
        value_sum: 0,
        children: vec![
            Edge { mv: moves[0], child: leaf_node(board.make_move_new(moves[0]), 3, 0) },
            Edge { mv: moves[1], child: leaf_node(board.make_move_new(moves[1]), 5, 0) },
            Edge { mv: moves[2], child: leaf_node(board.make_move_new(moves[2]), 5, 0) },
        ],
        unexpanded_moves: Vec::new(),
        is_terminal: false,
    };
    assert_eq!(best_visited_move(&root), Some(moves[1]));
}

#[test]
fn best_visited_move_none_without_children() {
    let root = leaf_node(Board::default(), 4, 0);
    assert_eq!(best_visited_move(&root), None);
}

#[test]
fn search_root_visits_equal_the_budget() {
    let board = Board::default();
    let legal: Vec<ChessMove> = MoveGen::new_legal(&board).collect();
    let mut rng = StdRng::seed_from_u64(11);
    let root = run_search(&board, legal.clone(), 50, &mut rng);
    assert_eq!(root.visits, 50);

    // Visit conservation: with legal moves at the root, every iteration
    // passes through exactly one child, so the children's visits sum to
    // the root's; one level down only the inequality is owed.
    let child_sum: u64 = root.children.iter().map(|e| e.child.visits).sum();
    assert_eq!(child_sum, root.visits);
    for edge in &root.children {
        let grandchild_sum: u64 = edge.child.children.iter().map(|e| e.child.visits).sum();
        assert!(grandchild_sum <= edge.child.visits);
    }

    // Every move in the tree's first layer came from the legal list.
    for edge in &root.children {
        assert!(legal.contains(&edge.mv));
    }
    for mv in &root.unexpanded_moves {
        assert!(legal.contains(mv));
    }
}

#[test]
fn search_budget_is_floored_at_one_iteration() {
    let board = Board::default();
    let legal: Vec<ChessMove> = MoveGen::new_legal(&board).collect();
    let mut rng = StdRng::seed_from_u64(11);
    let root = run_search(&board, legal, 0, &mut rng);
    assert_eq!(root.visits, 1);
}

#[test]
fn seeded_runs_choose_the_same_move() {
    let state = GameState::new();
    let engine = engine_with(25);
    let first = engine.choose_move_seeded(&state, 42);
    let second = engine.choose_move_seeded(&state, 42);
    assert!(first.is_some());
    assert_eq!(first, second);
}

#[test]
fn opening_choice_is_one_of_the_twenty_legal_moves() {
    let state = GameState::new();
    let legal = state.legal_moves();
    assert_eq!(legal.len(), 20);
    let chosen = engine_with(50).choose_move_seeded(&state, 7).unwrap();
    assert!(legal.contains(&chosen));
}

#[test]
fn entropy_seeded_choice_is_still_legal() {
    let state = GameState::new();
    let legal = state.legal_moves();
    let chosen = engine_with(10).choose_move(&state).unwrap();
    assert!(legal.contains(&chosen));
}
