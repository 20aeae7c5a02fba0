//! The Monte Carlo Tree Search engine.
//!
//! Every move decision builds a fresh tree rooted at the current position
//! and runs a fixed budget of iterations, each one a descent of
//! selection, expansion, simulation and backpropagation.  The chosen move
//! is the root child with the most visits.
//!
//! The well-formedness predicate [`node_wf`] carries the tree invariants:
//! the accumulated value of a node is bounded by its visit count, a node's
//! visit count is at least the sum of its children's (each iteration that
//! reached a child also passed through the parent), and a terminal node
//! has neither children nor unexpanded moves.

use vstd::prelude::*;
use crate::adapter::{apply_move_to, clone_board, clone_move, gen_below, legal_moves_of,
    rng_from_entropy, rng_from_seed, spec_apply_move, spec_legal_moves, spec_side, spec_status,
    status_of, side_of};
use crate::game::{GameState, Side, Status};
use crate::score::{MAX_VISITS, Score, score_gt, spec_score_gt, spec_uct_milli, uct_milli};

verus! {

/// How deep a random playout may run before it is scored as a draw.
pub const PLAYOUT_DEPTH: usize = 96;

/// Tunable knobs of the engine: the simulation budget per decision.
pub struct MctsConfig {
    pub simulations: usize,
}

impl Default for MctsConfig {
    /// The default budget of 1000 simulations per decision.
    fn default() -> (c: Self)
        ensures
            c.simulations == 1000,
    {
        MctsConfig { simulations: 1000 }
    }
}

/// The engine: holds its configuration; each decision is self-contained.
pub struct MctsEngine {
    pub config: MctsConfig,
}

/// One edge of the search tree: the move taken and the subtree under it.
pub struct Edge {
    pub mv: chess::ChessMove,
    pub child: Node,
}

/// A node of the search tree.
pub struct Node {
    /// The position this node stands for.
    pub position: chess::Board,
    /// How many completed iterations passed through this node.
    pub visits: u64,
    /// Sum of the playout outcomes backpropagated through this node.
    pub value_sum: i64,
    /// The children expanded so far, keyed by the move leading to each.
    pub children: Vec<Edge>,
    /// Legal moves not yet turned into children.
    pub unexpanded_moves: Vec<chess::ChessMove>,
    /// Whether the position is checkmate or stalemate.
    pub is_terminal: bool,
}

/// Total visits of the children on a sequence of edges.
pub open spec fn sum_child_visits(edges: Seq<Edge>) -> int
    decreases edges.len(),
{
    if edges.len() == 0 {
        0
    } else {
        edges[0].child.visits + sum_child_visits(edges.drop_first())
    }
}

/// The moves on a node's edges, in expansion order.
pub open spec fn child_moves(n: Node) -> Seq<chess::ChessMove> {
    n.children@.map_values(|e: Edge| e.mv)
}

/// The statistics a node needs for its score to be computable: the value
/// sum is bounded by the visit count, which is itself bounded.
pub open spec fn stats_ok(n: Node) -> bool {
    &&& n.visits <= MAX_VISITS
    &&& -(n.visits as int) <= n.value_sum as int <= n.visits as int
}

/// Well-formedness of a search tree: the statistics are consistent (the
/// value sum bounded by the visits, the visits at least the children's
/// sum), a terminal node is bare, the unexpanded moves and the children's
/// moves are disjoint, free of duplicates, and together exactly the legal
/// moves of the node's position, each child's position is the node's with
/// the child's move applied, and every subtree is well-formed in turn.
pub open spec fn node_wf(n: Node) -> bool
    decreases n,
{
    &&& -(n.visits as int) <= n.value_sum as int <= n.visits as int
    &&& sum_child_visits(n.children@) <= n.visits as int
    &&& (n.is_terminal ==> n.children@.len() == 0 && n.unexpanded_moves@.len() == 0)
    &&& n.unexpanded_moves@.no_duplicates()
    &&& child_moves(n).no_duplicates()
    &&& n.unexpanded_moves@.disjoint(child_moves(n))
    &&& (forall|m: chess::ChessMove|
        #![trigger n.unexpanded_moves@.contains(m)]
        #![trigger child_moves(n).contains(m)]
        #![trigger spec_legal_moves(n.position).contains(m)]
        (n.unexpanded_moves@.contains(m) || child_moves(n).contains(m)) <==> spec_legal_moves(
            n.position,
        ).contains(m))
    &&& (forall|i: int|
        0 <= i < n.children@.len() ==> (#[trigger] n.children@[i]).child.position
            == spec_apply_move(n.position, n.children@[i].mv))
    &&& (forall|i: int|
        0 <= i < n.children@.len() ==> node_wf(#[trigger] n.children@[i].child))
}

/// A sum of visit counts is never negative.
pub proof fn lemma_sum_child_visits_nonneg(edges: Seq<Edge>)
    ensures
        0 <= sum_child_visits(edges),
    decreases edges.len(),
{
    if edges.len() > 0 {
        lemma_sum_child_visits_nonneg(edges.drop_first());
    }
}

/// Each child's visit count is bounded by the sum over all the edges.
pub proof fn lemma_sum_child_visits_element(edges: Seq<Edge>, i: int)
    requires
        0 <= i < edges.len(),
    ensures
        edges[i].child.visits <= sum_child_visits(edges),
    decreases edges.len(),
{
    if i == 0 {
        lemma_sum_child_visits_nonneg(edges.drop_first());
    } else {
        lemma_sum_child_visits_element(edges.drop_first(), i - 1);
    }
}

/// Replacing one edge changes the sum by the difference at that edge.
pub proof fn lemma_sum_child_visits_update(edges: Seq<Edge>, i: int, e: Edge)
    requires
        0 <= i < edges.len(),
    ensures
        sum_child_visits(edges.update(i, e)) == sum_child_visits(edges)
            - edges[i].child.visits + e.child.visits,
    decreases edges.len(),
{
    let u = edges.update(i, e);
    if i == 0 {
        assert(u.drop_first() =~= edges.drop_first());
    } else {
        assert(u.drop_first() =~= edges.drop_first().update(i - 1, e));
        lemma_sum_child_visits_update(edges.drop_first(), i - 1, e);
    }
}

/// Appending an edge adds that edge's visits to the sum.
pub proof fn lemma_sum_child_visits_push(edges: Seq<Edge>, e: Edge)
    ensures
        sum_child_visits(edges.push(e)) == sum_child_visits(edges) + e.child.visits,
    decreases edges.len(),
{
    let p = edges.push(e);
    assert(p.len() == edges.len() + 1);
    assert(sum_child_visits(p) == p[0].child.visits + sum_child_visits(p.drop_first()));
    if edges.len() == 0 {
        assert(p[0] == e);
        assert(p.drop_first() =~= Seq::<Edge>::empty());
        assert(sum_child_visits(p.drop_first()) == 0);
    } else {
        assert(p[0] == edges[0]);
        assert(p.drop_first() =~= edges.drop_first().push(e));
        lemma_sum_child_visits_push(edges.drop_first(), e);
    }
}

/// In a well-formed tree, a node's visit count is at least the sum of its
/// children's, and every subtree is well-formed in turn.
pub proof fn lemma_visit_conservation(n: Node)
    requires
        node_wf(n),
    ensures
        sum_child_visits(n.children@) <= n.visits as int,
        forall|i: int|
            0 <= i < n.children@.len() ==> node_wf(#[trigger] n.children@[i].child),
        forall|i: int|
            0 <= i < n.children@.len()
                ==> #[trigger] n.children@[i].child.visits <= n.visits,
{
    assert forall|i: int|
        0 <= i < n.children@.len()
            implies #[trigger] n.children@[i].child.visits <= n.visits by {
        lemma_sum_child_visits_element(n.children@, i);
        lemma_sum_child_visits_nonneg(n.children@);
    }
}

/// The selection score of a node: unvisited nodes score infinite, visited
/// ones their UCT value.
pub open spec fn spec_score_of(n: Node, parent_visits: nat) -> Score {
    if n.visits == 0 {
        Score::Infinite
    } else {
        Score::Finite(spec_uct_milli(n.value_sum as int, n.visits as nat, parent_visits) as i64)
    }
}

impl Node {
    /// A fresh, unvisited node for a position: the terminal flag comes
    /// from the position's status and, when the position is still being
    /// played, the unexpanded moves are exactly its legal moves.
    pub fn new(position: chess::Board) -> (n: Node)
        ensures
            n.visits == 0,
            n.value_sum == 0,
            n.children@.len() == 0,
            n.position == position,
            n.is_terminal == (spec_status(position) != Status::Ongoing),
            !n.is_terminal ==> n.unexpanded_moves@ == spec_legal_moves(position),
            node_wf(n),
    {
        let st = status_of(&position);
        let is_terminal = !(matches!(st, Status::Ongoing));
        let unexpanded_moves = if is_terminal {
            Vec::new()
        } else {
            legal_moves_of(&position)
        };
        let n = Node {
            position,
            visits: 0,
            value_sum: 0,
            children: Vec::new(),
            unexpanded_moves,
            is_terminal,
        };
        proof {
            assert(n.children@ =~= Seq::<Edge>::empty());
            assert(child_moves(n) =~= Seq::<chess::ChessMove>::empty());
            if is_terminal {
                assert(n.unexpanded_moves@ =~= Seq::<chess::ChessMove>::empty());
                assert(spec_legal_moves(position).len() == 0);
            }
        }
        n
    }

    /// The node's UCT selection score, given the parent's visit count.
    pub fn uct_value(&self, parent_visits: u64) -> (s: Score)
        requires
            stats_ok(*self),
        ensures
            s == spec_score_of(*self, parent_visits as nat),
    {
        if self.visits == 0 {
            Score::Infinite
        } else {
            Score::Finite(uct_milli(self.value_sum, self.visits, parent_visits))
        }
    }
}

/// Picks the child with the highest selection score; on ties the earliest
/// of the tied children wins.  A child not yet visited always wins over
/// every visited one.
pub fn select_child_index(children: &Vec<Edge>, parent_visits: u64) -> (idx: usize)
    requires
        children@.len() >= 1,
        forall|i: int| 0 <= i < children@.len() ==> stats_ok(#[trigger] children@[i].child),
    ensures
        idx < children@.len(),
        forall|j: int|
            0 <= j < children@.len()
                ==> !spec_score_gt(
                spec_score_of(#[trigger] children@[j].child, parent_visits as nat),
                spec_score_of(children@[idx as int].child, parent_visits as nat),
            ),
        (exists|j: int| 0 <= j < children@.len() && #[trigger] children@[j].child.visits == 0)
            ==> children@[idx as int].child.visits == 0,
{
    let mut best_i: usize = 0;
    let mut best_s: Score = children[0].child.uct_value(parent_visits);
    let mut i: usize = 1;
    while i < children.len()
        invariant
            1 <= i <= children@.len(),
            best_i < i,
            forall|k: int| 0 <= k < children@.len() ==> stats_ok(#[trigger] children@[k].child),
            best_s == spec_score_of(children@[best_i as int].child, parent_visits as nat),
            forall|j: int|
                0 <= j < i
                    ==> !spec_score_gt(
                    spec_score_of(#[trigger] children@[j].child, parent_visits as nat),
                    best_s,
                ),
        decreases children@.len() - i,
    {
        let s = children[i].child.uct_value(parent_visits);
        if score_gt(s, best_s) {
            best_i = i;
            best_s = s;
        }
        i = i + 1;
    }
    proof {
        if exists|j: int|
            0 <= j < children@.len() && #[trigger] children@[j].child.visits == 0 {
            let j = choose|j: int|
                0 <= j < children@.len() && #[trigger] children@[j].child.visits == 0;
            assert(spec_score_of(children@[j].child, parent_visits as nat) == Score::Infinite);
            assert(children@[best_i as int].child.visits == 0) by {
                if children@[best_i as int].child.visits != 0 {
                    assert(spec_score_gt(
                        Score::Infinite,
                        spec_score_of(children@[best_i as int].child, parent_visits as nat),
                    ));
                }
            }
        }
    }
    best_i
}

/// How a finished position scores for the side that began the playout:
/// stalemate is a draw, checkmate counts against the mated side — the side
/// to move in the final position.
pub open spec fn spec_terminal_score(st: Status, start_side: Side, mated: Side) -> int
    recommends
        st != Status::Ongoing,
{
    if st == Status::Stalemate {
        0
    } else if mated == start_side {
        -1
    } else {
        1
    }
}

/// Scores a finished playout: 0 for stalemate, -1 when the playout's
/// starting side is the mated one, +1 when it delivered the mate.
pub fn terminal_score(st: Status, start_side: Side, mated: Side) -> (r: i64)
    requires
        st != Status::Ongoing,
    ensures
        r as int == spec_terminal_score(st, start_side, mated),
{
    if matches!(st, Status::Stalemate) {
        0
    } else if mated == start_side {
        -1
    } else {
        1
    }
}

/// Plays uniformly random legal moves from `start` until checkmate,
/// stalemate, or the depth cutoff, and scores the result for the side to
/// move at `start`: +1 when that side delivered mate, -1 when it was
/// mated, 0 for stalemate or a playout cut off while still ongoing.  The
/// terminal status is always examined before the budget, so a start that
/// is already finished is scored at once even with a zero budget:
/// stalemate gives 0, and checkmate gives -1, since the side to move at a
/// checkmate is the mated one.
pub fn simulate_random_default(
    start: &chess::Board,
    max_depth: usize,
    rng: &mut rand::rngs::StdRng,
) -> (outcome: i64)
    ensures
        -1 <= outcome <= 1,
        spec_status(*start) == Status::Checkmate ==> outcome == -1,
        spec_status(*start) == Status::Stalemate ==> outcome == 0,
        (spec_status(*start) == Status::Ongoing && max_depth == 0) ==> outcome == 0,
{
    let start_side = side_of(start);
    let mut board = clone_board(start);
    let mut depth: usize = 0;
    while depth <= max_depth
        invariant
            depth <= max_depth,
            start_side == spec_side(*start),
            depth == 0 ==> board == *start,
            depth >= 1 ==> spec_status(*start) == Status::Ongoing,
        decreases max_depth - depth + 1,
    {
        let st = status_of(&board);
        match st {
            Status::Ongoing => {
                if depth == max_depth {
                    return 0;
                }
                // An ongoing position has at least one legal move, so the
                // draw below is well-defined.
                let moves = legal_moves_of(&board);
                let k = gen_below(rng, moves.len());
                board = apply_move_to(&board, &moves[k]);
            },
            Status::Checkmate => {
                let mated = side_of(&board);
                return terminal_score(st, start_side, mated);
            },
            Status::Stalemate => {
                let mated = side_of(&board);
                return terminal_score(st, start_side, mated);
            },
        }
        depth = depth + 1;
    }
    0
}

/// One full iteration of the four-phase cycle on the subtree rooted at
/// `node`: descends along best-scoring children while the node is fully
/// expanded, expands one unexpanded move where possible, runs a playout
/// from the tip, and backpropagates the outcome along the path on the way
/// back up — every node on the path gains one visit and the outcome, with
/// no sign inversion between plies.  Returns the updated subtree and the
/// outcome; no move enters the subtree that was not already among its
/// children or its unexpanded moves.
pub fn run_iteration(node: Node, rng: &mut rand::rngs::StdRng) -> (res: (Node, i64))
    requires
        node_wf(node),
        node.visits < MAX_VISITS,
    ensures
        node_wf(res.0),
        res.0.visits == node.visits + 1,
        res.0.value_sum as int == node.value_sum as int + res.1 as int,
        -1 <= res.1 <= 1,
        res.0.position == node.position,
        res.0.is_terminal == node.is_terminal,
        (res.0.unexpanded_moves@ == node.unexpanded_moves@ && child_moves(res.0) == child_moves(
            node,
        )) || (node.unexpanded_moves@.len() > 0 && res.0.unexpanded_moves@
            == node.unexpanded_moves@.drop_last() && child_moves(res.0) == child_moves(node).push(
            node.unexpanded_moves@.last(),
        )),
        (!node.is_terminal && (node.unexpanded_moves@.len() > 0 || node.children@.len() > 0))
            ==> sum_child_visits(res.0.children@) == sum_child_visits(node.children@) + 1,
    decreases node,
{
    let ghost n0 = node;
    let mut node = node;
    let outcome: i64;
    if node.is_terminal || (node.unexpanded_moves.len() == 0 && node.children.len() == 0) {
        // Selection stopped here; simulate from this very position.
        outcome = simulate_random_default(&node.position, PLAYOUT_DEPTH, rng);
    } else if node.unexpanded_moves.len() > 0 {
        // Expansion: materialize one unexpanded move as a new child, then
        // simulate from the child.
        let mv = node.unexpanded_moves.pop().unwrap();
        let ghost mvg = mv;
        let ghost u0 = n0.unexpanded_moves@;
        let ghost cm0 = child_moves(n0);
        proof {
            assert(u0[u0.len() - 1] == mvg);
            assert(u0.contains(mvg));
            assert(spec_legal_moves(node.position).contains(mvg));
            assert(node.unexpanded_moves@ =~= u0.drop_last());
        }
        let child_pos = apply_move_to(&node.position, &mv);
        let ghost cpg = child_pos;
        let mut child = Node::new(child_pos);
        outcome = simulate_random_default(&child.position, PLAYOUT_DEPTH, rng);
        child.visits = 1;
        child.value_sum = outcome;
        proof {
            assert(sum_child_visits(child.children@) == 0);
            assert(node_wf(child));
            lemma_sum_child_visits_push(node.children@, Edge { mv: mvg, child });
        }
        node.children.push(Edge { mv, child });
        proof {
            assert(child_moves(node) =~= cm0.push(mvg));
            // What remains unexpanded still holds no duplicates.
            assert forall|i: int, j: int|
                0 <= i < node.unexpanded_moves@.len() && 0 <= j < node.unexpanded_moves@.len()
                    && i != j implies node.unexpanded_moves@[i]
                != node.unexpanded_moves@[j] by {
                assert(node.unexpanded_moves@[i] == u0[i]);
                assert(node.unexpanded_moves@[j] == u0[j]);
            }
            assert(node.unexpanded_moves@.no_duplicates());
            // The expanded move was not a child move yet.
            assert(!cm0.contains(mvg)) by {
                if cm0.contains(mvg) {
                    let j = choose|j: int| 0 <= j < cm0.len() && cm0[j] == mvg;
                    assert(u0[u0.len() - 1] != cm0[j]);
                }
            }
            assert forall|i: int, j: int|
                0 <= i < child_moves(node).len() && 0 <= j < child_moves(node).len() && i != j
                    implies child_moves(node)[i] != child_moves(node)[j] by {
                let cl = cm0.len() as int;
                if i < cl && j < cl {
                    assert(child_moves(node)[i] == cm0[i]);
                    assert(child_moves(node)[j] == cm0[j]);
                } else if j == cl {
                    assert(child_moves(node)[j] == mvg);
                    assert(child_moves(node)[i] == cm0[i]);
                    if cm0[i] == mvg {
                        assert(cm0.contains(mvg));
                    }
                } else {
                    assert(child_moves(node)[i] == mvg);
                    assert(child_moves(node)[j] == cm0[j]);
                    if cm0[j] == mvg {
                        assert(cm0.contains(mvg));
                    }
                }
            }
            assert(child_moves(node).no_duplicates());
            // Unexpanded moves and child moves stay disjoint.
            assert forall|i: int, j: int|
                0 <= i < node.unexpanded_moves@.len() && 0 <= j < child_moves(node).len()
                    implies node.unexpanded_moves@[i] != child_moves(node)[j] by {
                assert(node.unexpanded_moves@[i] == u0[i]);
                if j < cm0.len() {
                    assert(child_moves(node)[j] == cm0[j]);
                    assert(u0[i] != cm0[j]);
                } else {
                    assert(child_moves(node)[j] == mvg);
                    assert(u0[i] != u0[u0.len() - 1]);
                }
            }
            assert(node.unexpanded_moves@.disjoint(child_moves(node)));
            // Together they are still exactly the legal moves.
            assert forall|m: chess::ChessMove|
                (node.unexpanded_moves@.contains(m) || child_moves(node).contains(m))
                    <==> spec_legal_moves(node.position).contains(m) by {
                if node.unexpanded_moves@.contains(m) {
                    let k = choose|k: int|
                        0 <= k < node.unexpanded_moves@.len() && node.unexpanded_moves@[k] == m;
                    assert(u0[k] == m);
                    assert(u0.contains(m));
                }
                if child_moves(node).contains(m) {
                    let k = choose|k: int|
                        0 <= k < child_moves(node).len() && child_moves(node)[k] == m;
                    if k < cm0.len() {
                        assert(cm0[k] == m);
                        assert(cm0.contains(m));
                    } else {
                        assert(m == mvg);
                        assert(u0.contains(m));
                    }
                }
                if spec_legal_moves(node.position).contains(m) {
                    assert(u0.contains(m) || cm0.contains(m));
                    if u0.contains(m) {
                        let k = choose|k: int| 0 <= k < u0.len() && u0[k] == m;
                        if k < u0.len() - 1 {
                            assert(node.unexpanded_moves@[k] == m);
                            assert(node.unexpanded_moves@.contains(m));
                        } else {
                            assert(m == mvg);
                            assert(child_moves(node)[cm0.len() as int] == m);
                            assert(child_moves(node).contains(m));
                        }
                    } else {
                        let k = choose|k: int| 0 <= k < cm0.len() && cm0[k] == m;
                        assert(child_moves(node)[k] == m);
                        assert(child_moves(node).contains(m));
                    }
                }
            }
            // Each child, the new one included, sits on the right position.
            assert forall|i: int| 0 <= i < node.children@.len() implies (
            #[trigger] node.children@[i]).child.position == spec_apply_move(
                node.position,
                node.children@[i].mv,
            ) by {
                if i < n0.children@.len() {
                    assert(node.children@[i] == n0.children@[i]);
                } else {
                    assert(node.children@[i].mv == mvg);
                    assert(node.children@[i].child.position == cpg);
                }
            }
        }
    } else {
        // Fully expanded: descend into the child with the best score.
        let parent_visits = if node.visits < 1 {
            1
        } else {
            node.visits
        };
        proof {
            lemma_visit_conservation(n0);
            assert forall|i: int|
                0 <= i < node.children@.len()
                    implies stats_ok(#[trigger] node.children@[i].child) by {
                assert(node_wf(n0.children@[i].child));
            }
        }
        let idx = select_child_index(&node.children, parent_visits);
        let edge = node.children.remove(idx);
        proof {
            assert(decreases_to!(n0 => n0.children@[idx as int].child));
        }
        let (child2, out) = run_iteration(edge.child, rng);
        outcome = out;
        let ghost e2 = Edge { mv: n0.children@[idx as int].mv, child: child2 };
        node.children.insert(idx, Edge { mv: edge.mv, child: child2 });
        proof {
            assert(node.children@ =~= n0.children@.update(idx as int, e2));
            lemma_sum_child_visits_update(n0.children@, idx as int, e2);
            assert(child_moves(node) =~= child_moves(n0));
            assert forall|i: int|
                0 <= i < node.children@.len()
                    implies node_wf(#[trigger] node.children@[i].child)
                    && node.children@[i].child.position == spec_apply_move(
                    node.position,
                    node.children@[i].mv,
                ) by {
                if i != idx as int {
                    assert(node.children@[i] == n0.children@[i]);
                    assert(node_wf(n0.children@[i].child));
                } else {
                    assert(node.children@[i].child.position
                        == n0.children@[i].child.position);
                }
            }
        }
    }
    node.visits = node.visits + 1;
    node.value_sum = node.value_sum + outcome;
    (node, outcome)
}

/// Builds a fresh tree over the given position and its legal moves and
/// runs the configured number of iterations (floored at one).  The root's
/// final visit count equals the number of iterations run, the tree is
/// well-formed over the given position, and — since every iteration of a
/// root that has moves routes its visit through exactly one child — the
/// children's visits sum to the root's.
pub fn run_search(
    root_position: &chess::Board,
    legal: Vec<chess::ChessMove>,
    simulations: usize,
    rng: &mut rand::rngs::StdRng,
) -> (root: Node)
    requires
        simulations as int <= MAX_VISITS as int,
        legal@ == spec_legal_moves(*root_position),
        legal@.no_duplicates(),
    ensures
        node_wf(root),
        root.position == *root_position,
        root.visits as int == if simulations >= 1 {
            simulations as int
        } else {
            1
        },
        legal@.len() > 0 ==> sum_child_visits(root.children@) == root.visits as int,
{
    let sims: usize = if simulations < 1 {
        1
    } else {
        simulations
    };
    let ghost legal0 = legal@;
    // A chess position is terminal exactly when it has no legal moves, so
    // the root's flag can be read off the list the caller already has.
    let no_moves = legal.len() == 0;
    let mut root = Node {
        position: clone_board(root_position),
        visits: 0,
        value_sum: 0,
        children: Vec::new(),
        unexpanded_moves: legal,
        is_terminal: no_moves,
    };
    proof {
        assert(root.children@ =~= Seq::<Edge>::empty());
        assert(sum_child_visits(root.children@) == 0);
        assert(child_moves(root) =~= Seq::<chess::ChessMove>::empty());
    }
    let mut it: usize = 0;
    while it < sims
        invariant
            it <= sims,
            1 <= sims,
            sims as int <= MAX_VISITS as int,
            node_wf(root),
            root.position == *root_position,
            root.is_terminal == (legal0.len() == 0),
            root.visits as int == it as int,
            legal0 == spec_legal_moves(*root_position),
            legal0.len() > 0 ==> sum_child_visits(root.children@) == it as int,
        decreases sims - it,
    {
        proof {
            if legal0.len() > 0 {
                // The root still holds every legal move, so it has an
                // unexpanded move or a child to route this visit through.
                assert(spec_legal_moves(root.position).contains(legal0[0]));
                assert(root.unexpanded_moves@.contains(legal0[0]) || child_moves(root).contains(
                    legal0[0],
                ));
                assert(root.unexpanded_moves@.len() > 0 || root.children@.len() > 0);
            }
        }
        let (stepped, _outcome) = run_iteration(root, rng);
        root = stepped;
        it = it + 1;
    }
    root
}

/// The move of the root child with the strictly greatest visit count; on
/// ties the earliest child wins ("robust child" selection).  `None` only
/// when the root has no children at all.
pub fn best_visited_move(root: &Node) -> (r: Option<chess::ChessMove>)
    ensures
        (r is Some) <==> root.children@.len() > 0,
        r matches Some(m) ==> exists|k: int|
            0 <= k < root.children@.len() && m == #[trigger] root.children@[k].mv
                && (forall|j: int|
                0 <= j < root.children@.len()
                    ==> #[trigger] root.children@[j].child.visits
                    <= root.children@[k].child.visits) && (forall|j: int|
                0 <= j < k
                    ==> #[trigger] root.children@[j].child.visits
                    < root.children@[k].child.visits),
        r matches Some(m) ==> child_moves(*root).contains(m),
{
    if root.children.len() == 0 {
        return None;
    }
    let mut best_i: usize = 0;
    let mut best_v: u64 = root.children[0].child.visits;
    let mut i: usize = 1;
    while i < root.children.len()
        invariant
            root.children@.len() >= 1,
            1 <= i <= root.children@.len(),
            best_i < i,
            best_v == root.children@[best_i as int].child.visits,
            forall|j: int|
                0 <= j < i ==> #[trigger] root.children@[j].child.visits <= best_v,
            forall|j: int|
                0 <= j < best_i ==> #[trigger] root.children@[j].child.visits < best_v,
        decreases root.children@.len() - i,
    {
        if root.children[i].child.visits > best_v {
            best_i = i;
            best_v = root.children[i].child.visits;
        }
        i = i + 1;
    }
    proof {
        assert(child_moves(*root)[best_i as int] == root.children@[best_i as int].mv);
    }
    Some(clone_move(&root.children[best_i].mv))
}

/// Decides a move for `position` given its legal moves: no move when there
/// is none, the only move at once when there is exactly one, and otherwise
/// the most-visited root child of a search of `simulations` iterations.
/// The returned move is always one of `legal`.
pub fn search_best_move(
    position: &chess::Board,
    legal: Vec<chess::ChessMove>,
    simulations: usize,
    rng: &mut rand::rngs::StdRng,
) -> (r: Option<chess::ChessMove>)
    requires
        simulations as int <= MAX_VISITS as int,
        legal@ == spec_legal_moves(*position),
        legal@.no_duplicates(),
    ensures
        (r is Some) <==> legal@.len() > 0,
        r matches Some(m) ==> legal@.contains(m),
        legal@.len() == 1 ==> r == Some(legal@[0]),
{
    if legal.len() == 0 {
        return None;
    }
    if legal.len() == 1 {
        return Some(clone_move(&legal[0]));
    }
    let fallback = clone_move(&legal[0]);
    let ghost legal0 = legal@;
    let root = run_search(position, legal, simulations, rng);
    let best = best_visited_move(&root);
    match best {
        Some(m) => {
            proof {
                // The chosen move is a child move of a well-formed tree
                // over this very position, hence one of its legal moves.
                assert(spec_legal_moves(root.position).contains(m));
            }
            Some(m)
        },
        None => Some(fallback),
    }
}

impl MctsEngine {
    /// An engine with the given configuration.
    pub fn new(config: MctsConfig) -> (e: Self)
        ensures
            e.config == config,
    {
        MctsEngine { config }
    }

    /// Chooses a move for the current position with a fresh,
    /// entropy-seeded random generator, as a live game does: no move
    /// exactly when the position has no legal move, always a legal move
    /// otherwise, and the only move at once when there is just one.
    pub fn choose_move(&self, state: &GameState) -> (r: Option<chess::ChessMove>)
        requires
            self.config.simulations as int <= MAX_VISITS as int,
        ensures
            (r is Some) <==> spec_legal_moves(state.board).len() > 0,
            r matches Some(m) ==> spec_legal_moves(state.board).contains(m),
            spec_legal_moves(state.board).len() == 1 ==> r == Some(
                spec_legal_moves(state.board)[0],
            ),
    {
        let mut rng = rng_from_entropy();
        self.choose_move_with(state, &mut rng)
    }

    /// The same decision procedure with an injected seed: runs with equal
    /// seeds and equal inputs make equal decisions.
    pub fn choose_move_seeded(&self, state: &GameState, seed: u64) -> (r: Option<
        chess::ChessMove,
    >)
        requires
            self.config.simulations as int <= MAX_VISITS as int,
        ensures
            (r is Some) <==> spec_legal_moves(state.board).len() > 0,
            r matches Some(m) ==> spec_legal_moves(state.board).contains(m),
            spec_legal_moves(state.board).len() == 1 ==> r == Some(
                spec_legal_moves(state.board)[0],
            ),
    {
        let mut rng = rng_from_seed(seed);
        self.choose_move_with(state, &mut rng)
    }

    /// The decision procedure over a caller-supplied generator: reads the
    /// legal moves once and hands everything to the verified search.
    pub fn choose_move_with(
        &self,
        state: &GameState,
        rng: &mut rand::rngs::StdRng,
    ) -> (r: Option<chess::ChessMove>)
        requires
            self.config.simulations as int <= MAX_VISITS as int,
        ensures
            (r is Some) <==> spec_legal_moves(state.board).len() > 0,
            r matches Some(m) ==> spec_legal_moves(state.board).contains(m),
            spec_legal_moves(state.board).len() == 1 ==> r == Some(
                spec_legal_moves(state.board)[0],
            ),
    {
        let legal = state.legal_moves();
        search_best_move(&state.board, legal, self.config.simulations, rng)
    }
}

} // verus!
