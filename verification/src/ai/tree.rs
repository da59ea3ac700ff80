//! The search tree: positions in an arena, expanded as the search reaches
//! them, searched by minimax with alpha-beta pruning.

use super::arena::{
    arena_add_edge, arena_add_node, arena_dot, arena_edge_count, arena_edges, arena_new,
    arena_node, arena_nodes, arena_outgoing, arena_set_node, dot_of, outgoing, Arena, GameNode,
};
use super::clock::{clock_now, duration_from_millis, duration_sum, nanos_of, shorter, time_between};
use super::heuristics::{
    lemma_evaluate_range, HeuristicWeights, HeuristicWeightsWithTwoStates, Weights, LOSS, WIN,
};
use super::minimax::{
    alpha_beta, child_window, first_step, lemma_alpha_beta_is_minimax,
    lemma_found_win_stays_found, lemma_principal_line_starts, lemma_search_step_is_minimax_step,
    lemma_step_is_search_step, lemma_visit_child_wf, minimax, minimax_step, principal_line, scan,
    scan_growth, scan_step, scan_step_with, search_moves, search_step, tree_growth, visit_child,
    visit_move, worst, Outcome,
};
use crate::game::board::Move;
use crate::game::gamestate::{line_playable, play_line, Position, State};
use std::time::{Duration, Instant};
use vstd::prelude::*;

verus! {

/// Whether node `i` is one of the children listed in `out`. The children
/// of a node are added together, so they are neighbours in the arena.
pub open spec fn is_child(out: Seq<(usize, Move)>, i: int) -> bool {
    out.len() > 0 && out[0].0 - out.len() < i <= out[0].0
}

/// What ties a child to its parent: it lies one ply deeper, and its
/// position is the parent's after the step `m`, which the player to move
/// may make there.
pub open spec fn child_of(parent: GameNode, m: Move, child: GameNode) -> bool {
    &&& child.depth == parent.depth + 1
    &&& child.state@ == parent.state@.play(m.origin(), m.dest())
    &&& m.origin() < 37
    &&& parent.state@.move_result(m.origin(), m.dest(), true) is Ok
}

/// Entry `k` of a node's edge list leads to the child that the step tried
/// as number `k` leads to.
pub open spec fn edge_ok(nodes: Seq<GameNode>, node: GameNode, out: Seq<(usize, Move)>, k: int) -> bool {
    &&& out[k].1 == visit_move(node.state@, k)
    &&& out[k].0 < nodes.len()
    &&& out[k].0 + k == out[0].0
    &&& nodes[out[k].0 as int].depth == node.depth + 1
    &&& nodes[out[k].0 as int].state@ == visit_child(node.state@, k)
}

/// What holds of every node of a tree: its position is well formed and no
/// deeper than the limit; its children, once it has any, are those of all
/// the steps open in its position, the step listed last first; and its
/// cached best child is a child.
pub open spec fn node_ok(
    nodes: Seq<GameNode>,
    edges: Seq<(usize, usize, Move)>,
    max_depth: u8,
    a: int,
) -> bool {
    let node = nodes[a];
    let out = outgoing(edges, a as usize);
    &&& node.state@.wf()
    &&& node.depth <= max_depth
    &&& (node.best_child_node matches Some((b, m)) ==> out.len() > 0 && b < nodes.len() && child_of(
        node,
        m,
        nodes[b as int],
    ))
    &&& (out.len() > 0 ==> {
        &&& node.depth < max_depth
        &&& out.len() == search_moves(node.state@).len()
        &&& forall|k: int| 0 <= k < out.len() ==> #[trigger] edge_ok(nodes, node, out, k)
    })
}

/// A node that the search has not touched: no cached child, no children.
pub open spec fn fresh(nodes: Seq<GameNode>, edges: Seq<(usize, usize, Move)>, c: int) -> bool {
    nodes[c].best_child_node is None && outgoing(edges, c as usize).len() == 0
}

/// A node that has not been searched: no cached child, and children, if
/// any, that are fresh.
pub open spec fn pristine(nodes: Seq<GameNode>, edges: Seq<(usize, usize, Move)>, a: int) -> bool {
    &&& nodes[a].best_child_node is None
    &&& forall|k: int|
        0 <= k < outgoing(edges, a as usize).len() ==> fresh(
            nodes,
            edges,
            #[trigger] outgoing(edges, a as usize)[k].0 as int,
        )
}

/// The line of steps cached below node `a`: the step to its best child,
/// then that child's line, for at most `fuel` steps.
pub open spec fn cached_line(nodes: Seq<GameNode>, a: int, fuel: nat) -> Seq<Move>
    decreases fuel,
{
    if fuel == 0 || a < 0 || a >= nodes.len() {
        Seq::empty()
    } else {
        match nodes[a].best_child_node {
            Some((b, m)) => seq![m] + cached_line(nodes, b as int, (fuel - 1) as nat),
            None => Seq::empty(),
        }
    }
}

/// Adding an edge puts it in front of the edges that leave its source and
/// leaves the edges of other nodes as they are.
pub proof fn lemma_outgoing_push(edges: Seq<(usize, usize, Move)>, e: (usize, usize, Move), x: usize)
    ensures
        e.0 == x ==> outgoing(edges.push(e), x) == seq![(e.1, e.2)] + outgoing(edges, x),
        e.0 != x ==> outgoing(edges.push(e), x) == outgoing(edges, x),
{
    assert(edges.push(e).drop_last() =~= edges);
    assert(edges.push(e).last() == e);
}

/// A node stays as [`node_ok`] asks while it keeps its weight and edges
/// and every node keeps its depth and position.
pub proof fn lemma_node_ok_frame(
    nodes1: Seq<GameNode>,
    edges1: Seq<(usize, usize, Move)>,
    nodes2: Seq<GameNode>,
    edges2: Seq<(usize, usize, Move)>,
    max_depth: u8,
    a: int,
)
    requires
        0 <= a < nodes1.len() <= nodes2.len(),
        node_ok(nodes1, edges1, max_depth, a),
        nodes2[a] == nodes1[a],
        outgoing(edges2, a as usize) == outgoing(edges1, a as usize),
        forall|i: int|
            0 <= i < nodes1.len() ==> (#[trigger] nodes2[i]).depth == nodes1[i].depth
                && nodes2[i].state == nodes1[i].state,
    ensures
        node_ok(nodes2, edges2, max_depth, a),
{
    let node = nodes1[a];
    let out = outgoing(edges1, a as usize);
    assert forall|k: int| 0 <= k < out.len() implies #[trigger] edge_ok(nodes2, node, out, k) by {
        assert(edge_ok(nodes1, node, out, k));
    }
}

/// A cached line stays as it is while the nodes on it do. Here every node
/// but `c` keeps its weight, and the line starts at a node other than `c`
/// that lies no higher in the tree, so that it never meets `c`.
pub proof fn lemma_cached_line_frame(
    nodes1: Seq<GameNode>,
    edges1: Seq<(usize, usize, Move)>,
    nodes2: Seq<GameNode>,
    max_depth: u8,
    x: int,
    fuel: nat,
    c: int,
)
    requires
        nodes1.len() <= nodes2.len(),
        0 <= c < nodes1.len(),
        0 <= x < nodes1.len(),
        x != c,
        nodes1[x].depth >= nodes1[c].depth,
        forall|i: int| 0 <= i < nodes1.len() && i != c ==> #[trigger] nodes2[i] == nodes1[i],
        forall|i: int| 0 <= i < nodes1.len() ==> #[trigger] node_ok(nodes1, edges1, max_depth, i),
    ensures
        cached_line(nodes2, x, fuel) == cached_line(nodes1, x, fuel),
    decreases fuel,
{
    if fuel > 0 {
        assert(nodes2[x] == nodes1[x]);
        assert(node_ok(nodes1, edges1, max_depth, x));
        match nodes1[x].best_child_node {
            Some((b, m)) => {
                lemma_cached_line_frame(
                    nodes1,
                    edges1,
                    nodes2,
                    max_depth,
                    b as int,
                    (fuel - 1) as nat,
                    c,
                );
            },
            None => {},
        }
    }
}

/// A tree of positions below one root position, with the depth to which
/// it may grow and the weights that judge its leaves.
pub struct GameTree {
    tree: Arena,
    tree_root_idx: usize,
    max_depth: u8,
    pub weights: HeuristicWeights,
}

impl GameTree {
    /// The nodes of the arena, by index.
    pub closed spec fn nodes(&self) -> Seq<GameNode> {
        arena_nodes(self.tree)
    }

    /// The edges of the arena, in the order they were added.
    pub closed spec fn edges(&self) -> Seq<(usize, usize, Move)> {
        arena_edges(self.tree)
    }

    /// The index of the root.
    pub closed spec fn root(&self) -> usize {
        self.tree_root_idx
    }

    /// The depth to which the tree may grow.
    pub closed spec fn depth_limit(&self) -> u8 {
        self.max_depth
    }

    /// The weights that judge the leaves.
    pub closed spec fn weight_values(&self) -> Seq<i64> {
        self.weights@
    }

    /// The position at the root.
    pub open spec fn root_position(&self) -> Position {
        self.nodes()[self.root() as int].state@
    }

    /// The tree is well formed: the root is a node at depth 0, every node
    /// is as [`node_ok`] says, and edges leave existing nodes only.
    pub open spec fn wf(&self) -> bool {
        &&& self.root() < self.nodes().len() <= usize::MAX
        &&& self.nodes()[self.root() as int].depth == 0
        &&& forall|a: int|
            0 <= a < self.nodes().len() ==> #[trigger] node_ok(
                self.nodes(),
                self.edges(),
                self.depth_limit(),
                a,
            )
        &&& forall|x: usize|
            x >= self.nodes().len() ==> (#[trigger] outgoing(self.edges(), x)).len() == 0
    }

    /// The edges that leave the root, each with the child it leads to and
    /// its step, the one added last first.
    pub open spec fn root_children(&self) -> Seq<(usize, Move)> {
        outgoing(self.edges(), self.root())
    }

    /// The tree has not been searched yet.
    pub open spec fn unsearched(&self) -> bool {
        pristine(self.nodes(), self.edges(), self.root() as int)
    }

    /// The line cached below the root.
    pub open spec fn cached_root_line(&self) -> Seq<Move> {
        cached_line(self.nodes(), self.root() as int, self.depth_limit() as nat)
    }

    /// The index of the root in the arena.
    pub fn root_index(&self) -> (a: usize)
        ensures
            a == self.root(),
    {
        self.tree_root_idx
    }

    /// A tree that holds `base_state` alone, to be searched `max_depth`
    /// plies deep with `weights`.
    pub fn new(base_state: State, max_depth: u8, weights: &Weights) -> (tree: GameTree)
        requires
            base_state.wf(),
        ensures
            tree.wf(),
            tree.unsearched(),
            tree.root_position() == base_state@,
            tree.depth_limit() == max_depth,
            tree.weight_values() == weights@,
            tree.edges().len() == 0,
    {
        let mut tree = arena_new();
        let tree_root_idx = arena_add_node(&mut tree, GameNode::new(0, base_state));
        let result = GameTree {
            tree_root_idx,
            tree,
            max_depth,
            weights: HeuristicWeights::new(*weights),
        };
        assert(result.nodes() =~= seq![GameNode { depth: 0, state: base_state, best_child_node: None }]);
        assert(forall|x: usize| (#[trigger] outgoing(result.edges(), x)).len() == 0);
        assert(node_ok(result.nodes(), result.edges(), result.depth_limit(), 0));
        result
    }

    /// Expands the root, if it is not expanded yet and the depth limit
    /// allows: one child for every step open in the root position.
    pub fn build_eval_tree(&mut self)
        requires
            old(self).wf(),
        ensures
            final(self).wf(),
            final(self).root_position() == old(self).root_position(),
            final(self).depth_limit() == old(self).depth_limit(),
            final(self).weight_values() == old(self).weight_values(),
            old(self).unsearched() ==> final(self).unsearched(),
            final(self).edges().len() == old(self).edges().len() + outgoing(
                final(self).edges(),
                final(self).root(),
            ).len() - outgoing(old(self).edges(), old(self).root()).len(),
            final(self).root() == old(self).root(),
            final(self).root_children().len() == if old(self).depth_limit() > 0 {
                search_moves(old(self).root_position()).len()
            } else {
                0
            },
            forall|k: int|
                0 <= k < final(self).root_children().len() ==> #[trigger] edge_ok(
                    final(self).nodes(),
                    final(self).nodes()[final(self).root() as int],
                    final(self).root_children(),
                    k,
                ),
            old(self).nodes().len() <= final(self).nodes().len(),
            forall|i: int|
                0 <= i < old(self).nodes().len() ==> #[trigger] final(self).nodes()[i] == old(
                    self,
                ).nodes()[i],
            old(self).root_children().len() > 0 ==> final(self).nodes() == old(self).nodes()
                && final(self).edges() == old(self).edges(),
    {
        let ghost out0 = outgoing(self.edges(), self.root());
        proof {
            assert(node_ok(self.nodes(), self.edges(), self.depth_limit(), self.root() as int));
        }
        self.add_all_possible_children(self.tree_root_idx);
        proof {
            let out = outgoing(self.edges(), self.root());
            assert(node_ok(self.nodes(), self.edges(), self.depth_limit(), self.root() as int));
            if old(self).unsearched() {
                assert forall|k: int| 0 <= k < out.len() implies fresh(
                    self.nodes(),
                    self.edges(),
                    #[trigger] out[k].0 as int,
                ) by {
                    assert(node_ok(self.nodes(), self.edges(), self.depth_limit(), self.root() as int));
                    assert(edge_ok(self.nodes(), self.nodes()[self.root() as int], out, k));
                    if out0.len() > 0 {
                        let c = out0[k].0;
                        assert(fresh(old(self).nodes(), old(self).edges(), c as int));
                    } else {
                        assert(edge_ok(
                            self.nodes(),
                            self.nodes()[self.root() as int],
                            out,
                            out.len() - 1,
                        ));
                    }
                }
            }
        }
    }

    /// Gives node `root` its children, unless it has them already or lies
    /// at the depth limit.
    fn add_all_possible_children(&mut self, root: usize)
        requires
            old(self).wf(),
            root < old(self).nodes().len(),
        ensures
            final(self).wf(),
            final(self).root() == old(self).root(),
            final(self).depth_limit() == old(self).depth_limit(),
            final(self).weights == old(self).weights,
            old(self).nodes().len() <= final(self).nodes().len(),
            old(self).edges().len() <= final(self).edges().len(),
            final(self).edges().len() == old(self).edges().len() + outgoing(
                final(self).edges(),
                root,
            ).len() - outgoing(old(self).edges(), root).len(),
            forall|i: int|
                0 <= i < old(self).nodes().len() ==> #[trigger] final(self).nodes()[i] == old(
                    self,
                ).nodes()[i],
            forall|i: int|
                old(self).nodes().len() <= i < final(self).nodes().len() ==> #[trigger] fresh(
                    final(self).nodes(),
                    final(self).edges(),
                    i,
                ),
            forall|x: usize|
                x != root ==> #[trigger] outgoing(final(self).edges(), x) == outgoing(
                    old(self).edges(),
                    x,
                ),
            outgoing(old(self).edges(), root).len() > 0 ==> outgoing(final(self).edges(), root)
                == outgoing(old(self).edges(), root),
            outgoing(old(self).edges(), root).len() > 0 ==> final(self).nodes() == old(self).nodes()
                && final(self).edges() == old(self).edges(),
            outgoing(old(self).edges(), root).len() == 0 && outgoing(final(self).edges(), root).len()
                > 0 ==> outgoing(final(self).edges(), root).last().0 >= old(self).nodes().len(),
            outgoing(final(self).edges(), root).len() == 0 <==> (old(self).nodes()[root as int].depth
                >= old(self).depth_limit() || search_moves(
                old(self).nodes()[root as int].state@,
            ).len() == 0),
    {
        proof {
            assert(node_ok(self.nodes(), self.edges(), self.depth_limit(), root as int));
        }
        let root_node = arena_node(&self.tree, root);
        if root_node.depth >= self.max_depth {
            return ;
        }
        let existing = arena_outgoing(&self.tree, root);
        if existing.len() > 0 {
            return ;
        }
        let possible_moves = root_node.state.current_possible_moves(root_node.state.current_turn);
        let ghost pos = root_node.state@;
        let ghost nodes0 = self.nodes();
        let ghost edges0 = self.edges();
        let ghost n0 = self.nodes().len();
        let mut i: usize = 0;
        while i < possible_moves.len()
            invariant
                i <= possible_moves.len(),
                root < n0,
                n0 == nodes0.len(),
                possible_moves@ == search_moves(pos),
                root_node.state@ == pos,
                root_node.state.wf(),
                root_node == nodes0[root as int],
                root_node.depth < self.max_depth,
                self.root() == old(self).root(),
                self.depth_limit() == old(self).depth_limit(),
                self.weights == old(self).weights,
                self.nodes().len() == n0 + i,
                self.nodes().len() <= usize::MAX,
                self.edges().len() == edges0.len() + i,
                forall|j: int| 0 <= j < n0 ==> #[trigger] self.nodes()[j] == nodes0[j],
                forall|j: int|
                    0 <= j < i ==> {
                        let child = #[trigger] self.nodes()[n0 + j];
                        &&& child.depth == root_node.depth + 1
                        &&& child.best_child_node is None
                        &&& child.state@ == pos.play(
                            possible_moves@[j].origin(),
                            possible_moves@[j].dest(),
                        )
                        &&& child.state@.wf()
                    },
                forall|x: usize|
                    x != root ==> #[trigger] outgoing(self.edges(), x) == outgoing(edges0, x),
                outgoing(self.edges(), root).len() == i,
                forall|k: int|
                    0 <= k < i ==> #[trigger] outgoing(self.edges(), root)[k] == (
                        (n0 + i - 1 - k) as usize,
                        possible_moves@[i - 1 - k],
                    ),
            decreases possible_moves.len() - i,
        {
            let m = possible_moves[i];
            let (origin, dest) = match m {
                Move::Straight(o, d) => (o, d),
                Move::Diagonal(o, d) => (o, d),
            };
            proof {
                crate::game::gamestate::lemma_possible_moves_playable(pos, i as int);
            }
            let mut new_state = root_node.state;
            new_state.move_piece(origin, dest, true).unwrap();
            let ghost edges_before = self.edges();
            let ghost out_before = outgoing(self.edges(), root);
            let new_node = arena_add_node(
                &mut self.tree,
                GameNode::new(root_node.depth + 1, new_state),
            );
            arena_add_edge(&mut self.tree, root, new_node, m);
            proof {
                assert forall|x: usize| x != root implies #[trigger] outgoing(self.edges(), x)
                    == outgoing(edges0, x) by {
                    lemma_outgoing_push(edges_before, (root, new_node, m), x);
                }
                lemma_outgoing_push(edges_before, (root, new_node, m), root);
                let out_now = outgoing(self.edges(), root);
                assert(out_now == seq![(new_node, m)] + out_before);
                assert forall|k: int| 0 <= k < i + 1 implies #[trigger] out_now[k] == (
                    (n0 + (i + 1) - 1 - k) as usize,
                    possible_moves@[(i + 1) - 1 - k],
                ) by {
                    if k > 0 {
                        assert(out_now[k] == out_before[k - 1]);
                    }
                }
            }
            i += 1;
        }
        proof {
            let nodes = self.nodes();
            let edges = self.edges();
            let out = outgoing(edges, root);
            let md = self.depth_limit();
            assert forall|a: int| 0 <= a < nodes.len() implies #[trigger] node_ok(
                nodes,
                edges,
                md,
                a,
            ) by {
                if a < n0 && a != root {
                    assert(node_ok(nodes0, edges0, md, a));
                    lemma_node_ok_frame(nodes0, edges0, nodes, edges, md, a);
                } else if a == root {
                    assert forall|k: int| 0 <= k < out.len() implies #[trigger] edge_ok(
                        nodes,
                        nodes[a],
                        out,
                        k,
                    ) by {
                        assert(out[k] == ((n0 + i - 1 - k) as usize, possible_moves@[i - 1 - k]));
                        assert(out[0] == ((n0 + i - 1) as usize, possible_moves@[i - 1]));
                        let child = nodes[n0 + (i - 1 - k)];
                    }
                } else {
                    let child = nodes[n0 + (a - n0)];
                    assert(outgoing(edges, a as usize) == outgoing(edges0, a as usize));
                }
            }
            assert forall|j: int| n0 <= j < nodes.len() implies #[trigger] fresh(nodes, edges, j) by {
                let child = nodes[n0 + (j - n0)];
                assert(outgoing(edges, j as usize) == outgoing(edges0, j as usize));
            }
            if out.len() > 0 {
                assert(out[out.len() - 1] == ((n0 + i - 1 - (out.len() - 1)) as usize, possible_moves@[0]));
            }
        }
    }

    /// The value of node `a` for the side that maximizes, inside the
    /// window, and the step to its best child. With the whole window,
    /// from [`LOSS`] to [`WIN`], the value is that of plain minimax.
    pub fn max_value(&mut self, a: usize, alpha: i128, beta: i128) -> (res: (i128, Option<Move>))
        requires
            old(self).wf(),
            a < old(self).nodes().len(),
            pristine(old(self).nodes(), old(self).edges(), a as int),
        ensures
            final(self).searched_from(*old(self), a, alpha, beta, true, res),
            alpha == LOSS && beta == WIN ==> res.0 == minimax(
                old(self).weight_values(),
                old(self).nodes()[a as int].state@,
                (old(self).depth_limit() - old(self).nodes()[a as int].depth) as nat,
                true,
            ),
    {
        proof {
            assert(node_ok(self.nodes(), self.edges(), self.depth_limit(), a as int));
            self.weights.lemma_view_len();
            lemma_alpha_beta_is_minimax(
                self.weight_values(),
                self.nodes()[a as int].state@,
                (self.depth_limit() - self.nodes()[a as int].depth) as nat,
                true,
            );
        }
        self.search_value(a, alpha, beta, true)
    }

    /// The value of node `a` for the side that minimizes, inside the
    /// window, and the step to its best child. With the whole window,
    /// from [`LOSS`] to [`WIN`], the value is that of plain minimax.
    pub fn min_value(&mut self, a: usize, alpha: i128, beta: i128) -> (res: (i128, Option<Move>))
        requires
            old(self).wf(),
            a < old(self).nodes().len(),
            pristine(old(self).nodes(), old(self).edges(), a as int),
        ensures
            final(self).searched_from(*old(self), a, alpha, beta, false, res),
            alpha == LOSS && beta == WIN ==> res.0 == minimax(
                old(self).weight_values(),
                old(self).nodes()[a as int].state@,
                (old(self).depth_limit() - old(self).nodes()[a as int].depth) as nat,
                false,
            ),
    {
        proof {
            assert(node_ok(self.nodes(), self.edges(), self.depth_limit(), a as int));
            self.weights.lemma_view_len();
            lemma_alpha_beta_is_minimax(
                self.weight_values(),
                self.nodes()[a as int].state@,
                (self.depth_limit() - self.nodes()[a as int].depth) as nat,
                false,
            );
        }
        self.search_value(a, alpha, beta, false)
    }

    /// What a value function leaves behind. The tree is `self`, the tree
    /// it was called on `before`: the result is that of [`alpha_beta`] on
    /// the node's position, the line cached below the node is the line of
    /// that search, and no node changed but `a`, its children and those
    /// the search has added.
    pub open spec fn searched_from(
        &self,
        before: GameTree,
        a: usize,
        alpha: i128,
        beta: i128,
        maximizing: bool,
        res: (i128, Option<Move>),
    ) -> bool {
        let node = before.nodes()[a as int];
        let plies = (before.depth_limit() - node.depth) as nat;
        let found = alpha_beta(
            before.weight_values(),
            node.state@,
            plies,
            maximizing,
            alpha as int,
            beta as int,
        );
        &&& self.wf()
        &&& self.root() == before.root()
        &&& self.depth_limit() == before.depth_limit()
        &&& self.weight_values() == before.weight_values()
        &&& before.nodes().len() <= self.nodes().len()
        &&& before.edges().len() <= self.edges().len()
        &&& self.edges().len() == before.edges().len() - outgoing(before.edges(), a).len()
            + tree_growth(
            before.weight_values(),
            node.state@,
            plies,
            maximizing,
            alpha as int,
            beta as int,
        )
        &&& self.unchanged_outside(before, a)
        &&& self.nodes()[a as int].state == node.state
        &&& self.nodes()[a as int].depth == node.depth
        &&& res.0 == found.score
        &&& res.1 == first_step(found.line)
        &&& cached_line(self.nodes(), a as int, plies) == found.line
    }

    /// Every node of `before` but `a` and its children is in `self` as it
    /// was, with the edges it had.
    pub open spec fn unchanged_outside(&self, before: GameTree, a: usize) -> bool {
        let out = outgoing(before.edges(), a);
        &&& forall|i: int|
            0 <= i < before.nodes().len() && i != a && !is_child(out, i)
                ==> #[trigger] self.nodes()[i] == before.nodes()[i]
        &&& forall|x: usize|
            x < before.nodes().len() && x != a && !is_child(out, x as int) ==> #[trigger] outgoing(
                self.edges(),
                x,
            ) == outgoing(before.edges(), x)
    }

    #[verifier::rlimit(60)]
    fn search_value(&mut self, a: usize, alpha: i128, beta: i128, maximizing: bool) -> (res: (
        i128,
        Option<Move>,
    ))
        requires
            old(self).wf(),
            a < old(self).nodes().len(),
            pristine(old(self).nodes(), old(self).edges(), a as int),
        ensures
            final(self).searched_from(*old(self), a, alpha, beta, maximizing, res),
        decreases old(self).depth_limit() - old(self).nodes()[a as int].depth,
    {
        let ghost before = *self;
        let ghost w = self.weight_values();
        let ghost md = self.depth_limit();
        let ghost out_in = outgoing(self.edges(), a);
        proof {
            assert(node_ok(self.nodes(), self.edges(), md, a as int));
        }
        self.add_all_possible_children(a);
        let out = arena_outgoing(&self.tree, a);
        let node0 = arena_node(&self.tree, a);
        let ghost pos = node0.state@;
        let ghost d = (md - node0.depth) as nat;
        let ghost target = alpha_beta(w, pos, d, maximizing, alpha as int, beta as int);
        proof {
            assert(node_ok(self.nodes(), self.edges(), md, a as int));
        }
        if out.len() == 0 {
            let score = self.weights.score(&node0.state);
            proof {
                assert(cached_line(self.nodes(), a as int, d) =~= Seq::<Move>::empty());
            }
            return (score, None);
        }
        let ghost expanded = *self;
        proof {
            lemma_children_fresh(before, expanded, a);
        }
        let mut alpha_cur = alpha;
        let mut beta_cur = beta;
        let mut best_score: i128 = if maximizing {
            LOSS
        } else {
            WIN
        };
        let mut best_move: Option<Move> = None;
        let ghost mut line: Seq<Move> = Seq::empty();
        let mut cut = false;
        let mut k: usize = 0;
        while k < out.len() && !cut
            invariant
                k <= out.len(),
                out@.len() > 0,
                a < expanded.nodes().len(),
                expanded.wf(),
                expanded.nodes().len() <= self.nodes().len(),
                expanded.edges().len() <= self.edges().len(),
                self.wf(),
                self.root() == expanded.root(),
                self.depth_limit() == md,
                expanded.depth_limit() == md,
                md == old(self).depth_limit(),
                node0.depth == old(self).nodes()[a as int].depth,
                self.weight_values() == w,
                outgoing(self.edges(), a) == out@,
                outgoing(expanded.edges(), a) == out@,
                self.nodes()[a as int].state == node0.state,
                self.nodes()[a as int].depth == node0.depth,
                pos == node0.state@,
                d == md - node0.depth,
                d > 0,
                target == alpha_beta(w, pos, d, maximizing, alpha as int, beta as int),
                search_moves(pos).len() == out@.len(),
                forall|j: int|
                    k <= j < out@.len() ==> fresh(
                        self.nodes(),
                        self.edges(),
                        #[trigger] out@[j].0 as int,
                    ),
                self.nodes()[a as int].best_child_node matches Some((b, m)) ==> out@[0].0 - k < b
                    <= out@[0].0,
                cached_line(self.nodes(), a as int, d) == line,
                best_move == first_step(line),
                !cut ==> scan(
                    w,
                    pos,
                    d,
                    maximizing,
                    alpha_cur as int,
                    beta_cur as int,
                    k as nat,
                    best_score as int,
                    line,
                ) == target,
                cut ==> (Outcome { score: best_score as int, line }) == target,
                self.edges().len() + (if cut {
                    0nat
                } else {
                    scan_growth(
                        w,
                        pos,
                        d,
                        maximizing,
                        alpha_cur as int,
                        beta_cur as int,
                        k as nat,
                        best_score as int,
                    )
                }) == expanded.edges().len() + scan_growth(
                    w,
                    pos,
                    d,
                    maximizing,
                    alpha as int,
                    beta as int,
                    0,
                    worst(maximizing),
                ),
                self.unchanged_outside(expanded, a),
            decreases out.len() - k,
        {
            let (dest, mv) = out[k];
            let ghost at_call = *self;
            let ghost alpha_then = alpha_cur as int;
            let ghost beta_then = beta_cur as int;
            let ghost best_then = best_score as int;
            let ghost line_then = line;
            proof {
                assert(node_ok(self.nodes(), self.edges(), md, a as int));
                assert(edge_ok(self.nodes(), self.nodes()[a as int], out@, k as int));
                assert(fresh(self.nodes(), self.edges(), out@[k as int].0 as int));
            }
            let child_alpha = if k > 0 && maximizing && alpha_cur > LOSS {
                alpha_cur - 1
            } else {
                alpha_cur
            };
            let child_beta = if k > 0 && !maximizing && beta_cur < WIN {
                beta_cur + 1
            } else {
                beta_cur
            };
            proof {
                assert(child_window(maximizing, alpha_then, beta_then, k as nat) == (
                    child_alpha as int,
                    child_beta as int,
                ));
            }
            let (new_score, _) = self.search_value(dest, child_alpha, child_beta, !maximizing);
            let ghost sub = alpha_beta(
                w,
                visit_child(pos, k as int),
                (d - 1) as nat,
                !maximizing,
                child_alpha as int,
                child_beta as int,
            );
            let ghost after_call = *self;
            proof {
                lemma_after_child(expanded, at_call, after_call, a, out@, k as int, d, line);
            }
            let improved = if maximizing {
                new_score >= best_score
            } else {
                new_score <= best_score
            };
            if improved {
                best_score = new_score;
                best_move = Some(mv);
                let mut node = arena_node(&self.tree, a);
                node.best_child_node = Some((dest, mv));
                arena_set_node(&mut self.tree, a, node);
                proof {
                    line = seq![mv] + sub.line;
                    lemma_visit_child_wf(pos, k as int);
                    lemma_after_cache(expanded, after_call, *self, a, out@, k as int, d);
                }
            }
            if maximizing {
                if best_score > alpha_cur {
                    alpha_cur = best_score;
                }
            } else {
                if best_score < beta_cur {
                    beta_cur = best_score;
                }
            }
            proof {
                let step = scan_step(
                    w,
                    pos,
                    d,
                    maximizing,
                    alpha_then,
                    beta_then,
                    k as nat,
                    best_then,
                    line_then,
                );
                assert(step == scan_step_with(
                    pos,
                    maximizing,
                    alpha_then,
                    beta_then,
                    k as nat,
                    best_then,
                    line_then,
                    sub,
                ));
                assert(step.best == best_score);
                assert(step.line == line);
                assert(step.alpha == alpha_cur);
                assert(step.beta == beta_cur);
                let plain = scan_step(
                    w,
                    pos,
                    d,
                    maximizing,
                    alpha_then,
                    beta_then,
                    k as nat,
                    best_then,
                    Seq::empty(),
                );
                assert(plain == scan_step_with(
                    pos,
                    maximizing,
                    alpha_then,
                    beta_then,
                    k as nat,
                    best_then,
                    Seq::empty(),
                    sub,
                ));
                assert(scan(
                    w,
                    pos,
                    d,
                    maximizing,
                    alpha_then,
                    beta_then,
                    k as nat,
                    best_then,
                    line_then,
                ) == target);
            }
            k += 1;
            if alpha_cur >= beta_cur {
                cut = true;
            }
        }
        proof {
            lemma_combine_frames(before, expanded, *self, a);
        }
        (best_score, best_move)
    }

    /// Searches the tree for player `player_idx`, black (0) maximizing
    /// and white (1) minimizing, with the whole window, and returns the
    /// principal variation: the steps along the cached best children, from
    /// the root down. Its first step is the step of plain minimax; where a
    /// step wins for the player, it is the first such step tried.
    pub fn rollback(&mut self, player_idx: usize) -> (expected_moves: Vec<Move>)
        requires
            old(self).wf(),
            old(self).unsearched(),
            player_idx <= 1,
        ensures
            final(self).wf(),
            final(self).root_position() == old(self).root_position(),
            final(self).depth_limit() == old(self).depth_limit(),
            final(self).weight_values() == old(self).weight_values(),
            final(self).edges().len() == old(self).edges().len() - outgoing(
                old(self).edges(),
                old(self).root(),
            ).len() + tree_growth(
                old(self).weight_values(),
                old(self).root_position(),
                old(self).depth_limit() as nat,
                player_idx == 0,
                LOSS as int,
                WIN as int,
            ),
            expected_moves@ == principal_line(
                old(self).weight_values(),
                old(self).root_position(),
                old(self).depth_limit() as nat,
                player_idx as u8,
            ),
            expected_moves@ == final(self).cached_root_line(),
            line_playable(
                old(self).root_position(),
                expected_moves@,
                expected_moves@.len() as int,
            ),
            first_step(expected_moves@) == search_step(
                old(self).weight_values(),
                old(self).root_position(),
                old(self).depth_limit() as nat,
                player_idx == 0,
            ),
            minimax(
                old(self).weight_values(),
                old(self).root_position(),
                old(self).depth_limit() as nat,
                player_idx == 0,
            ) != worst(player_idx != 0) ==> first_step(expected_moves@) == minimax_step(
                old(self).weight_values(),
                old(self).root_position(),
                old(self).depth_limit() as nat,
                player_idx == 0,
            ),
    {
        proof {
            assert(node_ok(self.nodes(), self.edges(), self.depth_limit(), self.root() as int));
            self.weights.lemma_view_len();
            lemma_step_is_search_step(
                self.weight_values(),
                self.root_position(),
                self.depth_limit() as nat,
                player_idx == 0,
            );
            if minimax(
                self.weight_values(),
                self.root_position(),
                self.depth_limit() as nat,
                player_idx == 0,
            ) != worst(player_idx != 0) {
                lemma_search_step_is_minimax_step(
                    self.weight_values(),
                    self.root_position(),
                    self.depth_limit() as nat,
                    player_idx == 0,
                );
            }
        }
        if player_idx == 0 {
            self.max_value(self.tree_root_idx, LOSS, WIN);
        } else {
            self.min_value(self.tree_root_idx, LOSS, WIN);
        }
        self.cached_moves()
    }

    /// The steps along the cached best children, from the root down.
    fn cached_moves(&self) -> (expected_moves: Vec<Move>)
        requires
            self.wf(),
        ensures
            expected_moves@ == self.cached_root_line(),
            line_playable(self.root_position(), expected_moves@, expected_moves@.len() as int),
    {
        let ghost nodes = self.nodes();
        let ghost md = self.depth_limit();
        let ghost start = self.root_position();
        let mut expected_moves: Vec<Move> = Vec::new();
        let mut current_node_idx = self.tree_root_idx;
        let mut next = arena_node(&self.tree, current_node_idx).best_child_node;
        while next.is_some()
            invariant
                self.wf(),
                nodes == self.nodes(),
                md == self.depth_limit(),
                start == self.root_position(),
                current_node_idx < nodes.len(),
                next == nodes[current_node_idx as int].best_child_node,
                expected_moves@ + cached_line(
                    nodes,
                    current_node_idx as int,
                    (md - nodes[current_node_idx as int].depth) as nat,
                ) == self.cached_root_line(),
                line_playable(start, expected_moves@, expected_moves@.len() as int),
                nodes[current_node_idx as int].state@ == play_line(
                    start,
                    expected_moves@,
                    expected_moves@.len() as int,
                ),
            decreases md - nodes[current_node_idx as int].depth,
        {
            proof {
                assert(node_ok(nodes, self.edges(), md, current_node_idx as int));
            }
            let (child_idx, mv) = next.unwrap();
            proof {
                let before = expected_moves@;
                let fuel = (md - nodes[current_node_idx as int].depth) as nat;
                crate::game::gamestate::lemma_line_extends(start, before, mv, before.len() as int);
                assert(before.push(mv) + cached_line(nodes, child_idx as int, (fuel - 1) as nat)
                    =~= before + cached_line(nodes, current_node_idx as int, fuel));
            }
            expected_moves.push(mv);
            current_node_idx = child_idx;
            next = arena_node(&self.tree, current_node_idx).best_child_node;
        }
        proof {
            assert(node_ok(nodes, self.edges(), md, current_node_idx as int));
            assert(cached_line(
                nodes,
                current_node_idx as int,
                (md - nodes[current_node_idx as int].depth) as nat,
            ) =~= Seq::<Move>::empty());
            assert(expected_moves@ + Seq::<Move>::empty() =~= expected_moves@);
        }
        expected_moves
    }

    /// The tree as text in the DOT language, to be drawn.
    pub fn dot_text(&self) -> (text: String)
        ensures
            text@ == dot_of(self.nodes(), self.edges()),
    {
        arena_dot(&self.tree)
    }

    /// The number of edges, which is the number of nodes below the root.
    pub fn total_subnodes(&self) -> (n: usize)
        ensures
            n == self.edges().len(),
    {
        arena_edge_count(&self.tree)
    }
}


/// After node `a` was given its children, all of them are fresh, where
/// `a` had not been searched before.
proof fn lemma_children_fresh(before: GameTree, expanded: GameTree, a: usize)
    requires
        before.wf(),
        expanded.wf(),
        a < before.nodes().len(),
        pristine(before.nodes(), before.edges(), a as int),
        before.nodes().len() <= expanded.nodes().len(),
        forall|i: int|
            0 <= i < before.nodes().len() ==> #[trigger] expanded.nodes()[i] == before.nodes()[i],
        forall|i: int|
            before.nodes().len() <= i < expanded.nodes().len() ==> #[trigger] fresh(
                expanded.nodes(),
                expanded.edges(),
                i,
            ),
        forall|x: usize|
            x != a ==> #[trigger] outgoing(expanded.edges(), x) == outgoing(before.edges(), x),
        outgoing(before.edges(), a).len() > 0 ==> outgoing(expanded.edges(), a) == outgoing(
            before.edges(),
            a,
        ),
        outgoing(before.edges(), a).len() == 0 && outgoing(expanded.edges(), a).len() > 0
            ==> outgoing(expanded.edges(), a).last().0 >= before.nodes().len(),
        expanded.depth_limit() == before.depth_limit(),
    ensures
        forall|j: int|
            0 <= j < outgoing(expanded.edges(), a).len() ==> fresh(
                expanded.nodes(),
                expanded.edges(),
                #[trigger] outgoing(expanded.edges(), a)[j].0 as int,
            ),
        expanded.nodes()[a as int].best_child_node is None,
        expanded.unchanged_outside(expanded, a),
{
    let out = outgoing(expanded.edges(), a);
    let out_in = outgoing(before.edges(), a);
    let md = expanded.depth_limit();
    assert(node_ok(expanded.nodes(), expanded.edges(), md, a as int));
    assert(node_ok(before.nodes(), before.edges(), md, a as int));
    assert forall|j: int| 0 <= j < out.len() implies fresh(
        expanded.nodes(),
        expanded.edges(),
        #[trigger] out[j].0 as int,
    ) by {
        assert(edge_ok(expanded.nodes(), expanded.nodes()[a as int], out, j));
        assert(edge_ok(expanded.nodes(), expanded.nodes()[a as int], out, out.len() - 1));
        let c = out[j].0;
        if out_in.len() > 0 {
            assert(edge_ok(before.nodes(), before.nodes()[a as int], out_in, j));
            assert(fresh(before.nodes(), before.edges(), out_in[j].0 as int));
            assert(outgoing(expanded.edges(), c) == outgoing(before.edges(), c));
        } else {
            assert(c >= before.nodes().len());
        }
    }
}

/// What the search of child `k` leaves of the parent's loop: the parent
/// and the children still to come are as they were, and so is the line
/// cached below the parent.
proof fn lemma_after_child(
    expanded: GameTree,
    at_call: GameTree,
    after_call: GameTree,
    a: usize,
    out: Seq<(usize, Move)>,
    k: int,
    d: nat,
    line: Seq<Move>,
)
    requires
        expanded.wf(),
        at_call.wf(),
        after_call.wf(),
        a < expanded.nodes().len() <= at_call.nodes().len() <= after_call.nodes().len(),
        0 <= k < out.len(),
        outgoing(at_call.edges(), a) == out,
        outgoing(expanded.edges(), a) == out,
        at_call.depth_limit() == after_call.depth_limit(),
        at_call.depth_limit() == expanded.depth_limit(),
        d == at_call.depth_limit() - at_call.nodes()[a as int].depth,
        forall|j: int|
            k <= j < out.len() ==> fresh(at_call.nodes(), at_call.edges(), #[trigger] out[j].0 as int),
        at_call.nodes()[a as int].best_child_node matches Some((b, m)) ==> out[0].0 - k < b
            <= out[0].0,
        cached_line(at_call.nodes(), a as int, d) == line,
        at_call.unchanged_outside(expanded, a),
        after_call.unchanged_outside(at_call, out[k].0),
    ensures
        after_call.nodes()[a as int] == at_call.nodes()[a as int],
        outgoing(after_call.edges(), a) == out,
        forall|j: int|
            k + 1 <= j < out.len() ==> fresh(
                after_call.nodes(),
                after_call.edges(),
                #[trigger] out[j].0 as int,
            ),
        cached_line(after_call.nodes(), a as int, d) == line,
        after_call.unchanged_outside(expanded, a),
{
    let md = at_call.depth_limit();
    let dest = out[k].0;
    let nodes_b = at_call.nodes();
    let nodes_c = after_call.nodes();
    assert(node_ok(nodes_b, at_call.edges(), md, a as int));
    assert(edge_ok(nodes_b, nodes_b[a as int], out, k));
    assert(edge_ok(nodes_b, nodes_b[a as int], out, 0));
    assert(fresh(nodes_b, at_call.edges(), out[k].0 as int));
    let out_dest = outgoing(at_call.edges(), dest);
    assert(out_dest.len() == 0);
    assert(forall|i: int| !is_child(out_dest, i));
    assert(nodes_c[a as int] == nodes_b[a as int]);
    assert forall|j: int| k + 1 <= j < out.len() implies fresh(
        nodes_c,
        after_call.edges(),
        #[trigger] out[j].0 as int,
    ) by {
        assert(edge_ok(nodes_b, nodes_b[a as int], out, j));
        assert(fresh(nodes_b, at_call.edges(), out[j].0 as int));
        assert(nodes_c[out[j].0 as int] == nodes_b[out[j].0 as int]);
        assert(outgoing(after_call.edges(), out[j].0) == outgoing(at_call.edges(), out[j].0));
    }
    assert forall|i: int|
        0 <= i < nodes_b.len() && i != dest implies #[trigger] nodes_c[i] == nodes_b[i] by {
        assert(!is_child(out_dest, i));
    }
    if d > 0 {
        match nodes_b[a as int].best_child_node {
            Some((b, m)) => {
                assert(b != dest);
                lemma_cached_line_frame(
                    nodes_b,
                    at_call.edges(),
                    nodes_c,
                    md,
                    b as int,
                    (d - 1) as nat,
                    dest as int,
                );
            },
            None => {},
        }
    }
    assert forall|i: int|
        0 <= i < expanded.nodes().len() && i != a && !is_child(
            out,
            i,
        ) implies #[trigger] nodes_c[i] == expanded.nodes()[i] by {
        assert(nodes_b[i] == expanded.nodes()[i]);
        assert(nodes_c[i] == nodes_b[i]);
    }
    assert forall|x: usize|
        x < expanded.nodes().len() && x != a && !is_child(out, x as int) implies #[trigger] outgoing(
        after_call.edges(),
        x,
    ) == outgoing(expanded.edges(), x) by {
        assert(outgoing(at_call.edges(), x) == outgoing(expanded.edges(), x));
        assert(!is_child(out_dest, x as int));
        assert(outgoing(after_call.edges(), x) == outgoing(at_call.edges(), x));
    }
}

/// What caching child `k` as the best leaves of the parent's loop: the
/// tree is well formed, the line cached below the parent is the step to
/// the child and then the child's line, and nothing else has changed.
proof fn lemma_after_cache(
    expanded: GameTree,
    after_call: GameTree,
    cached: GameTree,
    a: usize,
    out: Seq<(usize, Move)>,
    k: int,
    d: nat,
)
    requires
        expanded.wf(),
        after_call.wf(),
        a < expanded.nodes().len() <= after_call.nodes().len(),
        0 <= k < out.len(),
        outgoing(after_call.edges(), a) == out,
        outgoing(expanded.edges(), a) == out,
        after_call.depth_limit() == expanded.depth_limit(),
        d == after_call.depth_limit() - after_call.nodes()[a as int].depth,
        forall|j: int|
            k + 1 <= j < out.len() ==> fresh(
                after_call.nodes(),
                after_call.edges(),
                #[trigger] out[j].0 as int,
            ),
        after_call.unchanged_outside(expanded, a),
        cached.root() == after_call.root(),
        cached.depth_limit() == after_call.depth_limit(),
        cached.edges() == after_call.edges(),
        cached.nodes() == after_call.nodes().update(
            a as int,
            GameNode {
                best_child_node: Some(out[k]),
                ..after_call.nodes()[a as int]
            },
        ),
        out[k].1.origin() < 37,
        after_call.nodes()[a as int].state@.move_result(
            out[k].1.origin(),
            out[k].1.dest(),
            true,
        ) is Ok,
    ensures
        cached.wf(),
        d > 0,
        cached_line(cached.nodes(), a as int, d) == seq![out[k].1] + cached_line(
            after_call.nodes(),
            out[k].0 as int,
            (d - 1) as nat,
        ),
        forall|j: int|
            k + 1 <= j < out.len() ==> fresh(cached.nodes(), cached.edges(), #[trigger] out[j].0 as int),
        cached.unchanged_outside(expanded, a),
{
    let md = after_call.depth_limit();
    let nodes_c = after_call.nodes();
    let nodes_d = cached.nodes();
    let edges = after_call.edges();
    let dest = out[k].0;
    assert(node_ok(nodes_c, edges, md, a as int));
    assert(edge_ok(nodes_c, nodes_c[a as int], out, k));
    assert(edge_ok(nodes_c, nodes_c[a as int], out, 0));
    assert forall|i: int| 0 <= i < nodes_d.len() implies #[trigger] node_ok(nodes_d, edges, md, i) by {
        assert(node_ok(nodes_c, edges, md, i));
        if i != a {
            lemma_node_ok_frame(nodes_c, edges, nodes_d, edges, md, i);
        } else {
            assert forall|j: int| 0 <= j < out.len() implies #[trigger] edge_ok(
                nodes_d,
                nodes_d[a as int],
                out,
                j,
            ) by {
                assert(edge_ok(nodes_c, nodes_c[a as int], out, j));
            }
        }
    }
    lemma_cached_line_frame(nodes_c, edges, nodes_d, md, dest as int, (d - 1) as nat, a as int);
    assert forall|j: int| k + 1 <= j < out.len() implies fresh(
        nodes_d,
        cached.edges(),
        #[trigger] out[j].0 as int,
    ) by {
        assert(edge_ok(nodes_c, nodes_c[a as int], out, j));
        assert(fresh(nodes_c, edges, out[j].0 as int));
    }
}

/// The frame of a value function, from the frame of the expansion and the
/// frame of the loop.
proof fn lemma_combine_frames(before: GameTree, expanded: GameTree, end: GameTree, a: usize)
    requires
        before.wf(),
        expanded.wf(),
        a < before.nodes().len() <= expanded.nodes().len(),
        expanded.depth_limit() == before.depth_limit(),
        forall|i: int|
            0 <= i < before.nodes().len() ==> #[trigger] expanded.nodes()[i] == before.nodes()[i],
        forall|x: usize|
            x != a ==> #[trigger] outgoing(expanded.edges(), x) == outgoing(before.edges(), x),
        outgoing(before.edges(), a).len() > 0 ==> outgoing(expanded.edges(), a) == outgoing(
            before.edges(),
            a,
        ),
        outgoing(before.edges(), a).len() == 0 && outgoing(expanded.edges(), a).len() > 0
            ==> outgoing(expanded.edges(), a).last().0 >= before.nodes().len(),
        end.unchanged_outside(expanded, a),
    ensures
        end.unchanged_outside(before, a),
{
    let out = outgoing(expanded.edges(), a);
    let out_in = outgoing(before.edges(), a);
    let md = expanded.depth_limit();
    assert(node_ok(expanded.nodes(), expanded.edges(), md, a as int));
    if out.len() > 0 {
        assert(edge_ok(expanded.nodes(), expanded.nodes()[a as int], out, out.len() - 1));
    }
    assert forall|i: int|
        0 <= i < before.nodes().len() && i != a && !is_child(
            out_in,
            i,
        ) implies #[trigger] end.nodes()[i] == before.nodes()[i] by {
        assert(!is_child(out, i));
        assert(end.nodes()[i] == expanded.nodes()[i]);
    }
    assert forall|x: usize|
        x < before.nodes().len() && x != a && !is_child(out_in, x as int) implies #[trigger] outgoing(
        end.edges(),
        x,
    ) == outgoing(before.edges(), x) by {
        assert(!is_child(out, x as int));
        assert(outgoing(end.edges(), x) == outgoing(expanded.edges(), x));
    }
}


/// How far a search may go: for a time, or to a depth.
#[derive(Clone, Copy, Debug, PartialEq)]
pub enum SearchLimit {
    Time(Duration),
    Depth(u8),
}

/// The limit that a search has where none is given: 700 milliseconds.
pub open spec fn is_default_limit(limit: SearchLimit) -> bool {
    limit matches SearchLimit::Time(d) && nanos_of(d) == 700_000_000
}

impl Default for SearchLimit {
    /// A budget of 700 milliseconds.
    fn default() -> (limit: SearchLimit)
        ensures
            is_default_limit(limit),
    {
        SearchLimit::Time(duration_from_millis(700))
    }
}

/// Why a search has no step to suggest.
#[derive(Clone, Copy, Debug, PartialEq, Eq, Structural)]
pub enum SearchError {
    /// The search came back without a step: no step is open in the
    /// position, or the depth is 0.
    NoLegalMove,
    /// The budget was used up before the search of any depth began.
    BudgetExhausted,
}

impl SearchError {
    /// The error in words.
    pub fn message(&self) -> (text: &'static str)
        ensures
            *self == SearchError::NoLegalMove ==> text == "Rollback did not return a potential move",
            *self == SearchError::BudgetExhausted ==> text == "could not find a best move in time",
    {
        match self {
            SearchError::NoLegalMove => "Rollback did not return a potential move",
            SearchError::BudgetExhausted => "could not find a best move in time",
        }
    }
}

/// What a search suggests, and how it came to it.
pub struct SuggestedMove {
    pub suggestion: Move,
    max_depth_considered: u8,
    time_building_trees: Duration,
    time_evaluating_trees: Duration,
    total_nodes_considered: usize,
    heuristical_reasoning: HeuristicWeightsWithTwoStates,
    expected_line: Vec<Move>,
}

/// The mathematical content of a [`SuggestedMove`].
pub struct Suggestion {
    pub suggestion: Move,
    pub depth: u8,
    pub line: Seq<Move>,
    pub nodes: usize,
    pub building: Duration,
    pub evaluating: Duration,
    pub weights: Seq<i64>,
    pub before: Position,
    pub after: Position,
}

impl View for SuggestedMove {
    type V = Suggestion;

    closed spec fn view(&self) -> Suggestion {
        Suggestion {
            suggestion: self.suggestion,
            depth: self.max_depth_considered,
            line: self.expected_line@,
            nodes: self.total_nodes_considered,
            building: self.time_building_trees,
            evaluating: self.time_evaluating_trees,
            weights: self.heuristical_reasoning.heuristic_weights@,
            before: self.heuristical_reasoning.old_state@,
            after: self.heuristical_reasoning.new_state@,
        }
    }
}

impl SuggestedMove {
    /// The step that the search suggests.
    pub fn suggestion(&self) -> (m: Move)
        ensures
            m == self@.suggestion,
    {
        self.suggestion
    }

    /// The depth of the last search that was completed.
    pub fn max_depth_considered(&self) -> (depth: u8)
        ensures
            depth == self@.depth,
    {
        self.max_depth_considered
    }

    /// The time spent on building trees.
    pub fn time_building_trees(&self) -> (time: Duration)
        ensures
            time == self@.building,
    {
        self.time_building_trees
    }

    /// The time spent on searching trees.
    pub fn time_evaluating_trees(&self) -> (time: Duration)
        ensures
            time == self@.evaluating,
    {
        self.time_evaluating_trees
    }

    /// The number of nodes below the root of the last tree.
    pub fn total_nodes_considered(&self) -> (nodes: usize)
        ensures
            nodes == self@.nodes,
    {
        self.total_nodes_considered
    }

    /// The evaluator with the states before and after the expected line.
    pub fn heuristical_reasoning(&self) -> (report: HeuristicWeightsWithTwoStates)
        ensures
            report.heuristic_weights@ == self@.weights,
            report.old_state@ == self@.before,
            report.new_state@ == self@.after,
    {
        self.heuristical_reasoning
    }

    /// The principal variation: the steps that the search expects.
    pub fn expected_line(&self) -> (line: &Vec<Move>)
        ensures
            line@ == self@.line,
    {
        &self.expected_line
    }
}

/// What a search of `pos` to `depth` plies comes to: the depth and the
/// principal variation, or no step where the depth is 0 or no step is
/// open.
pub open spec fn search_outcome(weights: Seq<i64>, pos: Position, depth: nat) -> Result<
    (nat, Seq<Move>),
    SearchError,
> {
    if depth > 0 && search_moves(pos).len() > 0 {
        Ok((depth, principal_line(weights, pos, depth, pos.current_turn)))
    } else {
        Err(SearchError::NoLegalMove)
    }
}

/// What iterative deepening comes to when the budget lasts for `rounds`
/// rounds: the search of the last depth begun, which is `rounds` or the
/// cap of 100; an error where the budget lasts for none.
pub open spec fn deepening_outcome(weights: Seq<i64>, pos: Position, rounds: nat) -> Result<
    (nat, Seq<Move>),
    SearchError,
> {
    if rounds == 0 {
        Err(SearchError::BudgetExhausted)
    } else if rounds <= 100 {
        search_outcome(weights, pos, rounds)
    } else {
        search_outcome(weights, pos, 100)
    }
}

/// Whether the result of a search of `state` says what `outcome` says: the
/// same error, or a suggestion of that depth whose line is the outcome's
/// and may be played from the state, whose step is the first of the line
/// and the step of plain minimax (the first winning step tried, where a
/// step wins for the player to move),
/// whose count of nodes is that of the tree searched to that depth, and
/// whose report holds the state and the state that the line leads to.
pub open spec fn reports(
    res: Result<SuggestedMove, SearchError>,
    weights: Seq<i64>,
    state: State,
    outcome: Result<(nat, Seq<Move>), SearchError>,
) -> bool {
    match outcome {
        Ok((depth, line)) => {
            &&& res matches Ok(sm)
            &&& sm@.depth == depth
            &&& sm@.line == line
            &&& line.len() > 0
            &&& line_playable(state@, line, line.len() as int)
            &&& sm@.suggestion == line[0]
            &&& Some(sm@.suggestion) == search_step(
                weights,
                state@,
                depth,
                state@.current_turn == 0,
            )
            &&& minimax(weights, state@, depth, state@.current_turn == 0) != worst(
                state@.current_turn != 0,
            ) ==> Some(sm@.suggestion) == minimax_step(
                weights,
                state@,
                depth,
                state@.current_turn == 0,
            )
            &&& sm@.nodes == tree_growth(
                weights,
                state@,
                depth,
                state@.current_turn == 0,
                LOSS as int,
                WIN as int,
            )
            &&& sm@.weights == weights
            &&& sm@.before == state@
            &&& sm@.after == play_line(state@, line, line.len() as int)
        },
        Err(e) => res == Err::<SuggestedMove, SearchError>(e),
    }
}

/// A win once found is reported at every greater depth. Where the game is
/// on and the minimax value of the state at `depth` plies is [`WIN`] or
/// [`LOSS`], a search to any depth from there on suggests a step, and the
/// line it expects ends the game with that winner.
pub proof fn lemma_found_win_is_reported(
    res: Result<SuggestedMove, SearchError>,
    weights: Seq<i64>,
    state: State,
    depth: nat,
    deeper: nat,
)
    requires
        state.wf(),
        state@.active,
        weights.len() == 19,
        depth <= deeper,
        minimax(weights, state@, depth, state@.current_turn == 0) == WIN || minimax(
            weights,
            state@,
            depth,
            state@.current_turn == 0,
        ) == LOSS,
        reports(res, weights, state, search_outcome(weights, state@, deeper)),
    ensures
        res matches Ok(sm) && !sm@.after.active && sm@.after.winner == Some(
            if minimax(weights, state@, depth, state@.current_turn == 0) == WIN {
                0u8
            } else {
                1u8
            },
        ),
{
    lemma_evaluate_range(weights, state@);
    lemma_found_win_stays_found(weights, state@, depth, deeper, state@.current_turn);
}

/// What sets the number of rounds of iterative deepening: the clock, or a
/// count.
pub enum Budget {
    /// Rounds begin while less than the limit has passed since the start.
    Clock { start: Instant, limit: Duration },
    /// This many rounds.
    Rounds(u8),
}

impl Budget {
    /// Whether the budget is a time limit of zero, which no time that has
    /// passed is shorter than: no round begins.
    pub open spec fn is_spent(&self) -> bool {
        *self matches Budget::Clock { start, limit } && nanos_of(limit) == 0
    }

    /// Whether another round may begin after `done` rounds.
    fn allows(&self, done: u8) -> (go: bool)
        ensures
            *self matches Budget::Rounds(n) ==> go == (done < n),
            self.is_spent() ==> !go,
    {
        match self {
            Budget::Clock { start, limit } => {
                let now = clock_now();
                let elapsed = time_between(&now, start);
                shorter(&elapsed, limit)
            },
            Budget::Rounds(n) => done < *n,
        }
    }
}

/// Searches `state` to `max_depth` plies and says what the search
/// suggests.
fn search_once(
    state: &State,
    max_depth: u8,
    weights: &Weights,
    time_building: Duration,
    time_evaluating: Duration,
) -> (res: (Result<SuggestedMove, SearchError>, Duration, Duration))
    requires
        state.wf(),
    ensures
        reports(res.0, weights@, *state, search_outcome(weights@, state@, max_depth as nat)),
{
    let before_building_tree = clock_now();
    let mut tree = GameTree::new(*state, max_depth, weights);
    tree.build_eval_tree();
    let after_building_tree = clock_now();
    let moves = tree.rollback(state.current_turn as usize);
    proof {
        lemma_principal_line_starts(weights@, state@, max_depth as nat, state.current_turn);
    }
    let time_building = duration_sum(
        time_building,
        time_between(&after_building_tree, &before_building_tree),
    );
    if moves.len() == 0 {
        return (Err(SearchError::NoLegalMove), time_building, time_evaluating);
    }
    let m = moves[0];
    let after_evaluating_tree = clock_now();
    let time_evaluating = duration_sum(
        time_evaluating,
        time_between(&after_evaluating_tree, &after_building_tree),
    );
    let suggested = SuggestedMove {
        suggestion: m,
        max_depth_considered: max_depth,
        time_building_trees: time_building,
        time_evaluating_trees: time_evaluating,
        total_nodes_considered: tree.total_subnodes(),
        heuristical_reasoning: tree.weights.new_with_state_and_moves(*state, &moves),
        expected_line: moves,
    };
    (Ok(suggested), time_building, time_evaluating)
}

/// Iterative deepening: searches `state` to depth 1, 2 and so on, as long
/// as the budget allows another round and the depth is below 100, and
/// answers with the last search. The budget is asked before a round, never
/// during one.
pub fn deepen(state: &State, budget: &Budget, weights: &Weights) -> (res: Result<
    SuggestedMove,
    SearchError,
>)
    requires
        state.wf(),
        state.active,
    ensures
        exists|rounds: nat|
            reports(res, weights@, *state, #[trigger] deepening_outcome(weights@, state@, rounds)),
        *budget matches Budget::Rounds(n) ==> reports(
            res,
            weights@,
            *state,
            deepening_outcome(weights@, state@, n as nat),
        ),
        budget.is_spent() ==> res == Err::<SuggestedMove, SearchError>(
            SearchError::BudgetExhausted,
        ),
{
    let mut depth_to_search: u8 = 0;
    let mut best: Result<SuggestedMove, SearchError> = Err(SearchError::BudgetExhausted);
    let mut time_building = duration_from_millis(0);
    let mut time_evaluating = duration_from_millis(0);
    let mut go = budget.allows(depth_to_search);
    while go && depth_to_search < 100
        invariant
            state.wf(),
            depth_to_search <= 100,
            reports(best, weights@, *state, deepening_outcome(weights@, state@, depth_to_search as nat)),
            depth_to_search > 0 ==> best is Ok,
            *budget matches Budget::Rounds(n) ==> depth_to_search <= n && go == (depth_to_search
                < n),
            budget.is_spent() ==> !go && depth_to_search == 0,
        decreases 100 - depth_to_search,
    {
        depth_to_search += 1;
        let (found, building, evaluating) = search_once(
            state,
            depth_to_search,
            weights,
            time_building,
            time_evaluating,
        );
        time_building = building;
        time_evaluating = evaluating;
        if found.is_err() {
            proof {
                match *budget {
                    Budget::Rounds(n) => {
                        assert(deepening_outcome(weights@, state@, n as nat) == deepening_outcome(
                            weights@,
                            state@,
                            depth_to_search as nat,
                        ));
                    },
                    _ => {},
                }
            }
            return found;
        }
        best = found;
        go = budget.allows(depth_to_search);
    }
    proof {
        match *budget {
            Budget::Rounds(n) => {
                assert(deepening_outcome(weights@, state@, n as nat) == deepening_outcome(
                    weights@,
                    state@,
                    depth_to_search as nat,
                ));
            },
            _ => {},
        }
    }
    best
}

/// Iterative deepening under a time limit, counted from the call. A round
/// that has begun runs to its end, so the limit may be passed.
pub fn iterative_deepening(state: &State, time_limit: &Duration, weights: &Weights) -> (res: Result<
    SuggestedMove,
    SearchError,
>)
    requires
        state.wf(),
        state.active,
    ensures
        exists|rounds: nat|
            reports(res, weights@, *state, #[trigger] deepening_outcome(weights@, state@, rounds)),
        nanos_of(*time_limit) == 0 ==> res == Err::<SuggestedMove, SearchError>(
            SearchError::BudgetExhausted,
        ),
{
    let budget = Budget::Clock { start: clock_now(), limit: *time_limit };
    deepen(state, &budget, weights)
}

/// The step to make in `state`, found within `limit`: by one search to the
/// depth, or by iterative deepening for the time.
pub fn get_best_move(state: &State, limit: &SearchLimit, weights: &Weights) -> (res: Result<
    SuggestedMove,
    SearchError,
>)
    requires
        state.wf(),
        state.active,
    ensures
        match *limit {
            SearchLimit::Depth(max_depth) => reports(
                res,
                weights@,
                *state,
                search_outcome(weights@, state@, max_depth as nat),
            ),
            SearchLimit::Time(time_limit) => {
                &&& exists|rounds: nat|
                    reports(
                        res,
                        weights@,
                        *state,
                        #[trigger] deepening_outcome(weights@, state@, rounds),
                    )
                &&& nanos_of(time_limit) == 0 ==> res == Err::<SuggestedMove, SearchError>(
                    SearchError::BudgetExhausted,
                )
            },
        },
{
    match limit {
        SearchLimit::Time(time_limit) => iterative_deepening(state, time_limit, weights),
        SearchLimit::Depth(max_depth) => {
            let zero = duration_from_millis(0);
            search_once(state, *max_depth, weights, zero, zero).0
        },
    }
}

} // verus!
