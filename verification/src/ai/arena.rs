//! The arena that holds a search tree: a `petgraph` graph whose nodes are
//! positions and whose edges are the steps between them.

use crate::game::board::Move;
use crate::game::gamestate::State;
use petgraph::dot::Dot;
use petgraph::graph::{Graph, NodeIndex};
use petgraph::visit::EdgeRef;
use petgraph::Directed;
use vstd::prelude::*;

verus! {

/// One position of the search tree.
#[derive(Clone, Copy, Debug)]
pub struct GameNode {
    pub state: State,
    pub depth: u8,
    /// The child that the search last found best here, with the step that
    /// leads to it.
    pub best_child_node: Option<(usize, Move)>,
}

impl GameNode {
    /// A node that has not been searched.
    pub fn new(depth: u8, state: State) -> (node: GameNode)
        ensures
            node.depth == depth,
            node.state == state,
            node.best_child_node is None,
    {
        GameNode { depth, state, best_child_node: None }
    }
}

#[verifier::external_type_specification]
#[verifier::external_body]
#[verifier::reject_recursive_types(N)]
#[verifier::reject_recursive_types(E)]
#[verifier::reject_recursive_types(Ty)]
#[verifier::reject_recursive_types(Ix)]
pub struct ExGraph<N, E, Ty, Ix>(Graph<N, E, Ty, Ix>);

#[verifier::external_type_specification]
#[verifier::external_body]
pub struct ExDirected(Directed);

/// The graph type of the arena: directed, indexed by `usize`.
pub type Arena = Graph<GameNode, Move, Directed, usize>;

/// The node weights of the graph, by node index.
pub uninterp spec fn arena_nodes(g: Arena) -> Seq<GameNode>;

/// The edges of the graph in the order they were added, each as (source,
/// target, weight).
pub uninterp spec fn arena_edges(g: Arena) -> Seq<(usize, usize, Move)>;

/// The edges that leave `a`, each as (target, weight), the one added last
/// first.
pub open spec fn outgoing(edges: Seq<(usize, usize, Move)>, a: usize) -> Seq<(usize, Move)>
    decreases edges.len(),
{
    if edges.len() == 0 {
        Seq::empty()
    } else {
        let last = edges.last();
        let earlier = outgoing(edges.drop_last(), a);
        if last.0 == a {
            seq![(last.1, last.2)] + earlier
        } else {
            earlier
        }
    }
}

/// `Graph::with_capacity(0, 0)`: a graph without nodes or edges.
#[verifier::external_body]
pub(crate) fn arena_new() -> (g: Arena)
    ensures
        arena_nodes(g) == Seq::<GameNode>::empty(),
        arena_edges(g) == Seq::<(usize, usize, Move)>::empty(),
{
    Graph::with_capacity(0, 0)
}

/// `Graph::add_node`: appends a node and returns its index, the number of
/// nodes there were before. The edges stay as they are. With `usize`
/// indices the graph has no node limit of its own; the nodes live in a
/// `Vec`, so their number stays a `usize`.
#[verifier::external_body]
pub(crate) fn arena_add_node(g: &mut Arena, weight: GameNode) -> (idx: usize)
    ensures
        arena_nodes(*final(g)) == arena_nodes(*old(g)).push(weight),
        arena_edges(*final(g)) == arena_edges(*old(g)),
        idx == arena_nodes(*old(g)).len(),
        arena_nodes(*final(g)).len() <= usize::MAX,
{
    g.add_node(weight).index()
}

/// `Graph::add_edge`: appends an edge from `a` to `b`. The nodes stay as
/// they are. The call panics where a node does not exist, which the
/// precondition rules out.
#[verifier::external_body]
pub(crate) fn arena_add_edge(g: &mut Arena, a: usize, b: usize, weight: Move)
    requires
        a < arena_nodes(*old(g)).len(),
        b < arena_nodes(*old(g)).len(),
    ensures
        arena_nodes(*final(g)) == arena_nodes(*old(g)),
        arena_edges(*final(g)) == arena_edges(*old(g)).push((a, b, weight)),
{
    g.add_edge(NodeIndex::new(a), NodeIndex::new(b), weight);
}

/// Indexing the graph by a node index: a copy of that node's weight. The
/// index must exist.
#[verifier::external_body]
pub(crate) fn arena_node(g: &Arena, a: usize) -> (node: GameNode)
    requires
        a < arena_nodes(*g).len(),
    ensures
        node == arena_nodes(*g)[a as int],
{
    g[NodeIndex::new(a)]
}

/// Assigning through the graph's mutable index: replaces the weight of
/// node `a`. Nothing else changes. The index must exist.
#[verifier::external_body]
pub(crate) fn arena_set_node(g: &mut Arena, a: usize, weight: GameNode)
    requires
        a < arena_nodes(*old(g)).len(),
    ensures
        arena_nodes(*final(g)) == arena_nodes(*old(g)).update(a as int, weight),
        arena_edges(*final(g)) == arena_edges(*old(g)),
{
    g[NodeIndex::new(a)] = weight;
}

/// `Graph::edges`: the edges that leave `a`, each as (target, weight). The
/// graph keeps them as a list that every new edge is put in front of, so
/// the edge added last comes first.
#[verifier::external_body]
pub(crate) fn arena_outgoing(g: &Arena, a: usize) -> (out: Vec<(usize, Move)>)
    requires
        a < arena_nodes(*g).len(),
    ensures
        out@ == outgoing(arena_edges(*g), a),
{
    g.edges(NodeIndex::new(a)).map(|e| (e.target().index(), *e.weight())).collect()
}

/// `Graph::edge_count`: the number of edges.
#[verifier::external_body]
pub(crate) fn arena_edge_count(g: &Arena) -> (n: usize)
    ensures
        n == arena_edges(*g).len(),
{
    g.edge_count()
}

/// The graph as text in the DOT language, with the nodes and the steps as
/// labels: what `petgraph::dot::Dot` makes of it.
pub uninterp spec fn dot_of(nodes: Seq<GameNode>, edges: Seq<(usize, usize, Move)>) -> Seq<char>;

/// `Dot::new` and its formatting: the graph as text in the DOT language.
/// The text is made from the nodes and the edges alone.
#[verifier::external_body]
pub(crate) fn arena_dot(g: &Arena) -> (text: String)
    ensures
        text@ == dot_of(arena_nodes(*g), arena_edges(*g)),
{
    format!("{:?}", Dot::new(g))
}

} // verus!
