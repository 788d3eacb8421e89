use vstd::prelude::*;
use crate::pre_processing::queue::{lemma_without, with_item, IndexedVec};
use crate::outside::ordered_set::without;

verus! {

/// `item` depends on `dependency`.
#[derive(Debug, Clone, Copy, PartialEq, Eq, Structural)]
pub struct Edge {
    pub item: usize,
    pub dependency: usize,
}

/// A graph of dependencies between nodes, which are indices, together with its
/// leaves: the nodes that came in and depend on nothing.
#[derive(Debug)]
pub struct DepsGraph {
    edges: Vec<Edge>,
    leaves: IndexedVec,
}

/// A graph of dependencies as a value of the mathematics: the edges in the order in
/// which they came in, and the leaves in the order in which they became leaves.
pub struct DepsGraphView {
    pub edges: Seq<Edge>,
    pub leaves: Seq<usize>,
}

impl View for DepsGraph {
    type V = DepsGraphView;

    closed spec fn view(&self) -> DepsGraphView {
        DepsGraphView { edges: self.edges@, leaves: self.leaves@ }
    }
}

/// Whether `node` depends on some node.
pub open spec fn has_dependency(edges: Seq<Edge>, node: usize) -> bool {
    exists|i: int| 0 <= i < edges.len() && (#[trigger] edges[i]).item == node
}

/// Whether some node depends on `node`.
pub open spec fn has_dependent(edges: Seq<Edge>, node: usize) -> bool {
    exists|i: int| 0 <= i < edges.len() && (#[trigger] edges[i]).dependency == node
}

/// Whether `node` depends on `dependency` and on nothing else.
pub open spec fn only_depends_on(edges: Seq<Edge>, node: usize, dependency: usize) -> bool {
    forall|i: int|
        0 <= i < edges.len() && (#[trigger] edges[i]).item == node ==> edges[i].dependency
            == dependency
}

/// The first `upto` of `edges` without those that lead to `leaf`.
pub open spec fn edges_without(edges: Seq<Edge>, leaf: usize, upto: int) -> Seq<Edge>
    decreases upto,
{
    if upto <= 0 {
        Seq::empty()
    } else {
        let rest = edges_without(edges, leaf, upto - 1);
        if edges[upto - 1].dependency == leaf {
            rest
        } else {
            rest.push(edges[upto - 1])
        }
    }
}

/// `leaves` and, after them, the nodes that the first `upto` of `edges` show to depend
/// on `leaf` and on nothing else, in the order of those edges.
pub open spec fn leaves_released(
    edges: Seq<Edge>,
    leaves: Seq<usize>,
    leaf: usize,
    upto: int,
) -> Seq<usize>
    decreases upto,
{
    if upto <= 0 {
        leaves
    } else {
        let rest = leaves_released(edges, leaves, leaf, upto - 1);
        let edge = edges[upto - 1];
        if edge.dependency == leaf && only_depends_on(edges, edge.item, leaf) {
            with_item(rest, edge.item)
        } else {
            rest
        }
    }
}

/// The graph after a node has come in: it becomes a leaf, the last one, unless it is
/// one or stands in an edge.
pub open spec fn graph_with_node(graph: DepsGraphView, node: usize) -> DepsGraphView {
    if has_dependency(graph.edges, node) || has_dependent(graph.edges, node) {
        graph
    } else {
        DepsGraphView { edges: graph.edges, leaves: with_item(graph.leaves, node) }
    }
}

/// The graph after `item` was said to depend on `dependency`. The edge comes in unless
/// it is there. `item` is no leaf any more; `dependency` becomes the last leaf if it
/// depends on nothing, and is no leaf if it does.
pub open spec fn graph_with_edge(graph: DepsGraphView, item: usize, dependency: usize)
    -> DepsGraphView {
    let edge = Edge { item, dependency };
    let edges = if graph.edges.contains(edge) {
        graph.edges
    } else {
        graph.edges.push(edge)
    };
    let others = without(without(graph.leaves, item), dependency);
    DepsGraphView {
        edges,
        leaves: if has_dependency(edges, dependency) {
            others
        } else {
            with_item(others, dependency)
        },
    }
}

/// The graph after its first leaf has left: the edges that led to it are gone, and the
/// nodes that depended on nothing else are leaves now.
pub open spec fn graph_without_first_leaf(graph: DepsGraphView) -> DepsGraphView {
    if graph.leaves.len() == 0 {
        graph
    } else {
        let leaf = graph.leaves[0];
        DepsGraphView {
            edges: edges_without(graph.edges, leaf, graph.edges.len() as int),
            leaves: leaves_released(
                graph.edges,
                graph.leaves.drop_first(),
                leaf,
                graph.edges.len() as int,
            ),
        }
    }
}

/// The size by which a graph shrinks whenever a leaf leaves it.
pub open spec fn graph_measure(graph: DepsGraphView) -> nat {
    graph.edges.len() + graph.leaves.len()
}

proof fn lemma_released_bound(edges: Seq<Edge>, leaves: Seq<usize>, leaf: usize, upto: int)
    requires
        0 <= upto <= edges.len(),
    ensures
        edges_without(edges, leaf, upto).len() + leaves_released(edges, leaves, leaf, upto).len()
            <= upto + leaves.len(),
    decreases upto,
{
    if upto > 0 {
        lemma_released_bound(edges, leaves, leaf, upto - 1);
    }
}

/// A graph shrinks when its first leaf leaves it.
pub proof fn lemma_pop_shrinks(graph: DepsGraphView)
    requires
        graph.leaves.len() > 0,
    ensures
        graph_measure(graph_without_first_leaf(graph)) < graph_measure(graph),
{
    lemma_released_bound(
        graph.edges,
        graph.leaves.drop_first(),
        graph.leaves[0],
        graph.edges.len() as int,
    );
}

/// The graph after its leaves have left it one by one, each time the first, until it has
/// none.
pub open spec fn graph_drained(graph: DepsGraphView) -> DepsGraphView
    decreases graph_measure(graph),
    via graph_drained_decreases
{
    if graph.leaves.len() == 0 {
        graph
    } else {
        graph_drained(graph_without_first_leaf(graph))
    }
}

#[via_fn]
proof fn graph_drained_decreases(graph: DepsGraphView) {
    if graph.leaves.len() > 0 {
        lemma_pop_shrinks(graph);
    }
}

/// The leaves in the order in which they leave the graph when it is drained.
pub open spec fn drain_order(graph: DepsGraphView) -> Seq<usize>
    decreases graph_measure(graph),
    via drain_order_decreases
{
    if graph.leaves.len() == 0 {
        Seq::empty()
    } else {
        seq![graph.leaves[0]] + drain_order(graph_without_first_leaf(graph))
    }
}

#[via_fn]
proof fn drain_order_decreases(graph: DepsGraphView) {
    if graph.leaves.len() > 0 {
        lemma_pop_shrinks(graph);
    }
}

impl DepsGraph {
    /// No node is a leaf twice.
    pub open spec fn wf(&self) -> bool {
        self@.leaves.no_duplicates()
    }

    /// A graph without nodes.
    pub fn new() -> (res: Self)
        ensures
            res@ == (DepsGraphView { edges: Seq::empty(), leaves: Seq::empty() }),
            res.wf(),
    {
        DepsGraph { edges: Vec::new(), leaves: IndexedVec::new() }
    }

    fn depends_on_some(&self, node: usize) -> (res: bool)
        ensures
            res == has_dependency(self@.edges, node),
    {
        let mut i: usize = 0;
        while i < self.edges.len()
            invariant
                i <= self.edges@.len(),
                forall|k: int| 0 <= k < i ==> self.edges@[k].item != node,
            decreases self.edges@.len() - i,
        {
            if self.edges[i].item == node {
                return true;
            }
            i += 1;
        }
        false
    }

    fn is_depended_on(&self, node: usize) -> (res: bool)
        ensures
            res == has_dependent(self@.edges, node),
    {
        let mut i: usize = 0;
        while i < self.edges.len()
            invariant
                i <= self.edges@.len(),
                forall|k: int| 0 <= k < i ==> self.edges@[k].dependency != node,
            decreases self.edges@.len() - i,
        {
            if self.edges[i].dependency == node {
                return true;
            }
            i += 1;
        }
        false
    }

    fn depends_only_on(&self, node: usize, dependency: usize) -> (res: bool)
        ensures
            res == only_depends_on(self@.edges, node, dependency),
    {
        let mut i: usize = 0;
        while i < self.edges.len()
            invariant
                i <= self.edges@.len(),
                forall|k: int|
                    0 <= k < i && (#[trigger] self.edges@[k]).item == node
                        ==> self.edges@[k].dependency == dependency,
            decreases self.edges@.len() - i,
        {
            if self.edges[i].item == node && self.edges[i].dependency != dependency {
                return false;
            }
            i += 1;
        }
        true
    }

    fn has_edge(&self, edge: Edge) -> (res: bool)
        ensures
            res == self@.edges.contains(edge),
    {
        let mut i: usize = 0;
        while i < self.edges.len()
            invariant
                i <= self.edges@.len(),
                forall|k: int| 0 <= k < i ==> self.edges@[k] != edge,
            decreases self.edges@.len() - i,
        {
            if self.edges[i].item == edge.item && self.edges[i].dependency == edge.dependency {
                return true;
            }
            i += 1;
        }
        false
    }

    /// Lets a node come in. Nothing changes if it is in the graph already.
    pub fn add_node_if_needed(&mut self, item: usize)
        ensures
            final(self)@ == graph_with_node(old(self)@, item),
            old(self).wf() ==> final(self).wf(),
    {
        if self.depends_on_some(item) {
            return ;
        }
        if self.is_depended_on(item) {
            return ;
        }
        self.leaves.insert(item);
    }

    /// Says that `item` depends on `dependency`; tells whether that is new.
    pub fn insert_if_needed(&mut self, item: usize, dependency: usize) -> (res: bool)
        ensures
            res == !old(self)@.edges.contains(Edge { item, dependency }),
            final(self)@ == graph_with_edge(old(self)@, item, dependency),
            old(self).wf() ==> final(self).wf() && !final(self)@.leaves.contains(item),
    {
        let edge = Edge { item, dependency };
        let res = !self.has_edge(edge);
        proof {
            if self.wf() {
                lemma_without(self@.leaves, item);
                lemma_without(without(self@.leaves, item), dependency);
            }
        }
        self.leaves.remove(item);
        if res {
            self.edges.push(edge);
        }
        self.leaves.remove(dependency);
        if !self.depends_on_some(dependency) {
            assert(item != dependency) by {
                if item == dependency {
                    if res {
                        assert(self.edges@[self.edges@.len() - 1] == edge);
                    } else {
                        let at = choose|at: int|
                            0 <= at < self.edges@.len() && self.edges@[at] == edge;
                        assert(self.edges@[at].item == dependency);
                    }
                }
            }
            self.leaves.insert(dependency);
        }
        res
    }

    /// Takes the first leaf out of the graph, with the edges that lead to it.
    pub fn pop_leaf(&mut self) -> (res: Option<usize>)
        ensures
            final(self)@ == graph_without_first_leaf(old(self)@),
            res == if old(self)@.leaves.len() == 0 {
                None
            } else {
                Some(old(self)@.leaves[0])
            },
            res.is_some() ==> graph_measure(final(self)@) < graph_measure(old(self)@),
            old(self).wf() ==> final(self).wf(),
    {
        let Some(leaf) = self.leaves.pop() else {
            return None;
        };
        let mut kept: Vec<Edge> = Vec::new();
        let mut i: usize = 0;
        while i < self.edges.len()
            invariant
                i <= self.edges@.len(),
                self.edges@ == old(self)@.edges,
                old(self)@.leaves.len() > 0,
                leaf == old(self)@.leaves[0],
                kept@ == edges_without(self.edges@, leaf, i as int),
                old(self).wf() ==> self.leaves.wf(),
                self.leaves@ == leaves_released(
                    self.edges@,
                    old(self)@.leaves.drop_first(),
                    leaf,
                    i as int,
                ),
            decreases self.edges@.len() - i,
        {
            let edge = self.edges[i];
            if edge.dependency == leaf {
                if self.depends_only_on(edge.item, leaf) {
                    self.leaves.insert(edge.item);
                }
            } else {
                kept.push(edge);
            }
            i += 1;
        }
        self.edges = kept;
        proof {
            lemma_pop_shrinks(old(self)@);
        }
        Some(leaf)
    }

    /// Takes the leaves out one by one, each time the first, until none is left. Returns
    /// them in the order in which they left. What is left has a cycle, or is empty.
    pub fn drain(&mut self) -> (res: Vec<usize>)
        ensures
            final(self)@ == graph_drained(old(self)@),
            res@ == drain_order(old(self)@),
            old(self).wf() ==> final(self).wf(),
    {
        let mut order: Vec<usize> = Vec::new();
        loop
            invariant
                old(self).wf() ==> self.wf(),
                graph_drained(old(self)@) == graph_drained(self@),
                drain_order(old(self)@) == order@ + drain_order(self@),
            ensures
                old(self).wf() ==> self.wf(),
                self@ == graph_drained(old(self)@),
                order@ == drain_order(old(self)@),
            decreases graph_measure(self@),
        {
            let ghost before = self@;
            match self.pop_leaf() {
                Some(leaf) => {
                    order.push(leaf);
                    assert(order@ + drain_order(self@) =~= drain_order(old(self)@));
                },
                None => {
                    assert(order@ + drain_order(self@) =~= order@);
                    break ;
                },
            }
        }
        order
    }

    /// Whether no edge is left.
    pub fn is_empty(&self) -> (res: bool)
        ensures
            res == (self@.edges.len() == 0),
    {
        self.edges.len() == 0
    }

    /// The leaves, the first first.
    pub fn leaves(&self) -> (res: Vec<usize>)
        ensures
            res@ == self@.leaves,
    {
        self.leaves.as_vec()
    }
}

} // verus!
