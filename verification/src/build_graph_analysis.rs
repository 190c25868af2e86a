//! The graph of the dependencies between packages, and how each package is
//! used.

use petgraph::visit::EdgeRef;
use vstd::prelude::*;
use crate::dep_kind::{
    dependency_kind_from_edge_and_dependent, gives, lemma_gives_from_one, lemma_gives_nothing,
    DepKind, DepKindSet,
};
use crate::text::str_eq;

verus! {

#[verifier::external_type_specification]
#[verifier::external_body]
pub struct ExDirected(petgraph::Directed);

#[verifier::external_type_specification]
#[verifier::external_body]
#[verifier::reject_recursive_types(N)]
#[verifier::reject_recursive_types(E)]
#[verifier::reject_recursive_types(Ty)]
#[verifier::reject_recursive_types(Ix)]
pub struct ExGraph<N, E, Ty, Ix>(petgraph::graph::Graph<N, E, Ty, Ix>);

/// A directed graph whose nodes and edges carry kinds of use.
pub type KindGraph = petgraph::graph::Graph<DepKindSet, DepKindSet, petgraph::Directed, u32>;

/// The weights of the nodes of a graph, by index.
pub uninterp spec fn graph_nodes(graph: KindGraph) -> Seq<DepKindSet>;

/// The edges of a graph in the order in which they were added, each with its
/// source, its target and its weight.
pub uninterp spec fn graph_edges(graph: KindGraph) -> Seq<(int, int, DepKindSet)>;

/// The edges that leave `node`, most recent first, each with its target and
/// its weight.
pub open spec fn edges_from(edges: Seq<(int, int, DepKindSet)>, node: int) -> Seq<
    (int, DepKindSet),
>
    decreases edges.len(),
{
    if edges.len() == 0 {
        Seq::empty()
    } else if edges.last().0 == node {
        seq![(edges.last().1, edges.last().2)] + edges_from(edges.drop_last(), node)
    } else {
        edges_from(edges.drop_last(), node)
    }
}

/// The targets and weights of a list of edges, with the targets as integers.
pub open spec fn edge_views(edges: Seq<(usize, DepKindSet)>) -> Seq<(int, DepKindSet)> {
    edges.map_values(|e: (usize, DepKindSet)| (e.0 as int, e.1))
}

/// `petgraph::graph::Graph::new` makes a graph without nodes and edges.
#[verifier::external_body]
fn graph_new() -> (graph: KindGraph)
    ensures
        graph_nodes(graph) == Seq::<DepKindSet>::empty(),
        graph_edges(graph) == Seq::<(int, int, DepKindSet)>::empty(),
{
    petgraph::graph::Graph::new()
}

/// `Graph::try_add_node` adds a node behind the others and gives its index.
/// It fails, and changes nothing, only where the graph has as many nodes as
/// its index type allows.
#[verifier::external_body]
fn graph_add_node(graph: &mut KindGraph, weight: DepKindSet) -> (r: Option<usize>)
    ensures
        graph_edges(*final(graph)) == graph_edges(*old(graph)),
        match r {
            Some(index) => index == graph_nodes(*old(graph)).len() && graph_nodes(*final(graph))
                == graph_nodes(*old(graph)).push(weight),
            None => graph_nodes(*final(graph)) == graph_nodes(*old(graph)),
        },
        graph_nodes(*old(graph)).len() < u32::MAX ==> r is Some,
{
    match graph.try_add_node(weight) {
        Ok(index) => Some(index.index()),
        Err(_) => None,
    }
}

/// `Graph::try_add_edge` adds an edge between two nodes of the graph behind
/// the other edges. It fails, and changes nothing, only where the graph has
/// as many edges as its index type allows.
#[verifier::external_body]
fn graph_add_edge(graph: &mut KindGraph, source: usize, target: usize, weight: DepKindSet) -> (r:
    bool)
    requires
        source < graph_nodes(*old(graph)).len(),
        target < graph_nodes(*old(graph)).len(),
    ensures
        graph_nodes(*final(graph)) == graph_nodes(*old(graph)),
        graph_edges(*final(graph)) == if r {
            graph_edges(*old(graph)).push((source as int, target as int, weight))
        } else {
            graph_edges(*old(graph))
        },
        graph_edges(*old(graph)).len() < u32::MAX ==> r,
{
    let a = petgraph::graph::NodeIndex::new(source);
    let b = petgraph::graph::NodeIndex::new(target);
    graph.try_add_edge(a, b, weight).is_ok()
}

/// Indexing a `Graph` by a `NodeIndex` gives the weight of that node. The
/// node must be one of the graph.
#[verifier::external_body]
fn graph_node_weight(graph: &KindGraph, node: usize) -> (r: DepKindSet)
    requires
        node < graph_nodes(*graph).len(),
    ensures
        r == graph_nodes(*graph)[node as int],
{
    graph[petgraph::graph::NodeIndex::new(node)]
}

/// Indexing a `Graph` mutably by a `NodeIndex` gives access to the weight of
/// that node, which is replaced here. The node must be one of the graph.
#[verifier::external_body]
fn graph_set_node_weight(graph: &mut KindGraph, node: usize, weight: DepKindSet)
    requires
        node < graph_nodes(*old(graph)).len(),
    ensures
        graph_nodes(*final(graph)) == graph_nodes(*old(graph)).update(node as int, weight),
        graph_edges(*final(graph)) == graph_edges(*old(graph)),
{
    graph[petgraph::graph::NodeIndex::new(node)] = weight;
}

/// `Graph::edges` lists the edges that leave a node of a directed graph in
/// reverse order of their addition; each is handed out with the index of its
/// target and with its weight.
#[verifier::external_body]
fn graph_edges_from(graph: &KindGraph, node: usize) -> (r: Vec<(usize, DepKindSet)>)
    requires
        node < graph_nodes(*graph).len(),
    ensures
        edge_views(r@) == edges_from(graph_edges(*graph), node as int),
{
    graph.edges(petgraph::graph::NodeIndex::new(node)).map(
        |edge| (edge.target().index(), *edge.weight()),
    ).collect()
}

/// Why a graph could not be built.
#[derive(Debug, Clone, Copy, PartialEq, Eq, Structural)]
pub enum GraphError {
    /// A node with that name exists already.
    NodeExists,
    /// The graph cannot hold more nodes or edges.
    Full,
}

impl GraphError {
    /// A sentence for the error.
    pub fn message(&self) -> (r: &'static str)
        ensures
            r@ == match *self {
                GraphError::NodeExists => "Node already existed"@,
                GraphError::Full => "The dependency graph is full"@,
            },
    {
        match self {
            GraphError::NodeExists => "Node already existed",
            GraphError::Full => "The dependency graph is full",
        }
    }
}

/// The number of kinds that the nodes lack, taken together.
pub open spec fn missing(kinds: Seq<DepKindSet>) -> int
    decreases kinds.len(),
{
    if kinds.len() == 0 {
        0
    } else {
        missing(kinds.drop_last()) + (5 - kinds.last().count())
    }
}

/// No node lacks a negative number of kinds.
pub proof fn lemma_missing_bounds(kinds: Seq<DepKindSet>)
    ensures
        0 <= missing(kinds) <= 5 * kinds.len(),
    decreases kinds.len(),
{
    if kinds.len() > 0 {
        lemma_missing_bounds(kinds.drop_last());
    }
}

/// Giving a node other kinds changes what is lacking by the difference.
pub proof fn lemma_missing_update(kinds: Seq<DepKindSet>, i: int, weight: DepKindSet)
    requires
        0 <= i < kinds.len(),
    ensures
        missing(kinds.update(i, weight)) == missing(kinds) + kinds[i].count() - weight.count(),
    decreases kinds.len(),
{
    let after = kinds.update(i, weight);
    if i == kinds.len() - 1 {
        assert(after.drop_last() =~= kinds.drop_last());
    } else {
        lemma_missing_update(kinds.drop_last(), i, weight);
        assert(after.drop_last() =~= kinds.drop_last().update(i, weight));
    }
}

/// A set with more kinds counts more.
pub proof fn lemma_count_grows(small: DepKindSet, large: DepKindSet)
    requires
        small.subset_of(&large),
        !large.subset_of(&small),
    ensures
        small.count() < large.count(),
{
    assert(small.has(DepKind::Unknown) ==> large.has(DepKind::Unknown));
    assert(small.has(DepKind::Normal) ==> large.has(DepKind::Normal));
    assert(small.has(DepKind::Build) ==> large.has(DepKind::Build));
    assert(small.has(DepKind::Dev) ==> large.has(DepKind::Dev));
    assert(small.has(DepKind::ProcMacro) ==> large.has(DepKind::ProcMacro));
    let k = choose|k: DepKind| large.has(k) && !small.has(k);
    assert(large.has(k) && !small.has(k));
}

/// What leaves `node` is an edge of the graph.
pub proof fn lemma_edges_from_sound(edges: Seq<(int, int, DepKindSet)>, node: int, j: int)
    requires
        0 <= j < edges_from(edges, node).len(),
    ensures
        exists|e: int|
            0 <= e < edges.len() && #[trigger] edges[e] == (
                node,
                edges_from(edges, node)[j].0,
                edges_from(edges, node)[j].1,
            ),
    decreases edges.len(),
{
    if edges.len() > 0 {
        let rest = edges.drop_last();
        if edges.last().0 == node {
            if j == 0 {
                assert(edges[edges.len() - 1] == (
                    node,
                    edges_from(edges, node)[j].0,
                    edges_from(edges, node)[j].1,
                ));
            } else {
                lemma_edges_from_sound(rest, node, j - 1);
                let e = choose|e: int|
                    0 <= e < rest.len() && #[trigger] rest[e] == (
                        node,
                        edges_from(rest, node)[j - 1].0,
                        edges_from(rest, node)[j - 1].1,
                    );
                assert(edges[e] == rest[e]);
            }
        } else {
            lemma_edges_from_sound(rest, node, j);
            let e = choose|e: int|
                0 <= e < rest.len() && #[trigger] rest[e] == (
                    node,
                    edges_from(rest, node)[j].0,
                    edges_from(rest, node)[j].1,
                );
            assert(edges[e] == rest[e]);
        }
    }
}

/// Each edge of the graph leaves its source.
pub proof fn lemma_edges_from_complete(edges: Seq<(int, int, DepKindSet)>, e: int)
    requires
        0 <= e < edges.len(),
    ensures
        exists|j: int|
            0 <= j < edges_from(edges, edges[e].0).len() && #[trigger] edges_from(
                edges,
                edges[e].0,
            )[j] == (edges[e].1, edges[e].2),
    decreases edges.len(),
{
    let node = edges[e].0;
    let rest = edges.drop_last();
    if e == edges.len() - 1 {
        assert(edges_from(edges, node)[0] == (edges[e].1, edges[e].2));
    } else {
        lemma_edges_from_complete(rest, e);
        assert(rest[e] == edges[e]);
        let j = choose|j: int|
            0 <= j < edges_from(rest, node).len() && #[trigger] edges_from(rest, node)[j] == (
                edges[e].1,
                edges[e].2,
            );
        if edges.last().0 == node {
            assert(edges_from(edges, node)[j + 1] == edges_from(rest, node)[j]);
        } else {
            assert(edges_from(edges, node)[j] == edges_from(rest, node)[j]);
        }
    }
}

/// Whether `to` has every kind that an edge of the kinds `edge` gives to a
/// dependency of a crate of the kinds `from`.
pub open spec fn flows(edge: DepKindSet, from: DepKindSet, to: DepKindSet) -> bool {
    forall|k: DepKind| #[trigger] gives(edge, from, k) ==> to.has(k)
}

/// Whether the target of `edge` has every kind that the edge gives it, as
/// the kinds of its source stand.
pub open spec fn edge_closed(kinds: Seq<DepKindSet>, edge: (int, int, DepKindSet)) -> bool {
    flows(edge.2, kinds[edge.0], kinds[edge.1])
}

/// Whether every edge is closed: the kinds have reached a fixed point.
pub open spec fn all_closed(kinds: Seq<DepKindSet>, edges: Seq<(int, int, DepKindSet)>) -> bool {
    forall|e: int| 0 <= e < edges.len() ==> edge_closed(kinds, #[trigger] edges[e])
}

/// Whether each node has at least the kinds that it had before.
pub open spec fn grown_from(before: Seq<DepKindSet>, after: Seq<DepKindSet>) -> bool {
    &&& before.len() == after.len()
    &&& forall|i: int| 0 <= i < before.len() ==> (#[trigger] before[i]).subset_of(&after[i])
}

/// Whether `node` waits in `queue` at or behind `head`.
pub open spec fn pending(queue: Seq<usize>, head: int, node: int) -> bool {
    exists|q: int| head <= q < queue.len() && #[trigger] queue[q] == node
}

/// Whether `kind` comes to `node` from the kinds that the nodes had at first,
/// along at most `steps` edges.
pub open spec fn derived_in(
    first: Seq<DepKindSet>,
    edges: Seq<(int, int, DepKindSet)>,
    node: int,
    kind: DepKind,
    steps: nat,
) -> bool
    decreases steps,
{
    ||| (0 <= node < first.len() && first[node].has(kind))
    ||| (steps > 0 && exists|e: int, from: DepKind|
        0 <= e < edges.len() && edges[e].1 == node && derived_in(
            first,
            edges,
            edges[e].0,
            from,
            (steps - 1) as nat,
        ) && #[trigger] gives(edges[e].2, DepKindSet::of_kind(from), kind))
}

/// Whether `kind` comes to `node` from the kinds that the nodes had at first,
/// along some path of edges.
pub open spec fn derived(
    first: Seq<DepKindSet>,
    edges: Seq<(int, int, DepKindSet)>,
    node: int,
    kind: DepKind,
) -> bool {
    exists|steps: nat| derived_in(first, edges, node, kind, steps)
}

/// Whether every kind of every node comes from the kinds that the nodes had
/// at first.
pub open spec fn all_derived(
    first: Seq<DepKindSet>,
    edges: Seq<(int, int, DepKindSet)>,
    kinds: Seq<DepKindSet>,
) -> bool {
    forall|i: int, k: DepKind|
        0 <= i < kinds.len() && (#[trigger] kinds[i].has(k)) ==> derived(first, edges, i, k)
}

/// Whether each edge joins two of `n` nodes.
pub open spec fn edges_within(edges: Seq<(int, int, DepKindSet)>, n: nat) -> bool {
    forall|e: int|
        0 <= e < edges.len() ==> 0 <= (#[trigger] edges[e]).0 < n && 0 <= edges[e].1 < n
}

/// A kind that comes to a node along edges is held by the node wherever the
/// kinds have grown from the first ones and every edge is closed.
proof fn lemma_derived_is_held(
    first: Seq<DepKindSet>,
    edges: Seq<(int, int, DepKindSet)>,
    kinds: Seq<DepKindSet>,
    node: int,
    kind: DepKind,
    steps: nat,
)
    requires
        edges_within(edges, first.len()),
        grown_from(first, kinds),
        all_closed(kinds, edges),
        derived_in(first, edges, node, kind, steps),
    ensures
        0 <= node < kinds.len(),
        kinds[node].has(kind),
    decreases steps,
{
    if 0 <= node < first.len() && first[node].has(kind) {
        assert(first[node].subset_of(&kinds[node]));
    } else {
        let (e, from) = choose|e: int, from: DepKind|
            0 <= e < edges.len() && edges[e].1 == node && derived_in(
                first,
                edges,
                edges[e].0,
                from,
                (steps - 1) as nat,
            ) && #[trigger] gives(edges[e].2, DepKindSet::of_kind(from), kind);
        lemma_derived_is_held(first, edges, kinds, edges[e].0, from, (steps - 1) as nat);
        lemma_gives_from_one(edges[e].2, kinds[edges[e].0], kind);
        assert(edge_closed(kinds, edges[e]));
    }
}

/// The order in which the nodes are visited is immaterial: the kinds that a
/// flood fill ends with are determined by the kinds it began with and the
/// edges. Any two lists of kinds that have grown from the first ones, are
/// closed under every edge and hold nothing but what comes along edges are
/// the same.
pub proof fn lemma_fixed_point_is_unique(
    first: Seq<DepKindSet>,
    edges: Seq<(int, int, DepKindSet)>,
    a: Seq<DepKindSet>,
    b: Seq<DepKindSet>,
)
    requires
        edges_within(edges, first.len()),
        grown_from(first, a),
        all_closed(a, edges),
        all_derived(first, edges, a),
        grown_from(first, b),
        all_closed(b, edges),
        all_derived(first, edges, b),
    ensures
        a == b,
{
    assert forall|i: int, k: DepKind| 0 <= i < a.len() implies a[i].has(k) == b[i].has(k) by {
        if a[i].has(k) {
            let steps = choose|steps: nat| derived_in(first, edges, i, k, steps);
            lemma_derived_is_held(first, edges, b, i, k, steps);
        }
        if b[i].has(k) {
            let steps = choose|steps: nat| derived_in(first, edges, i, k, steps);
            lemma_derived_is_held(first, edges, a, i, k, steps);
        }
    }
    assert forall|i: int| 0 <= i < a.len() implies a[i] == b[i] by {
        assert(a[i].has(DepKind::Unknown) == b[i].has(DepKind::Unknown));
        assert(a[i].has(DepKind::Normal) == b[i].has(DepKind::Normal));
        assert(a[i].has(DepKind::Build) == b[i].has(DepKind::Build));
        assert(a[i].has(DepKind::Dev) == b[i].has(DepKind::Dev));
        assert(a[i].has(DepKind::ProcMacro) == b[i].has(DepKind::ProcMacro));
    }
    assert(a =~= b);
}

/// A graph of the dependencies between packages, with edges pointing from
/// dependent to dependency, so an edge means "depends on". Each node holds
/// all the different ways in which the package is used.
pub struct DepGraph {
    graph: KindGraph,
    ids: Vec<String>,
}

impl DepGraph {
    /// The names of the packages, by node.
    pub closed spec fn ids(&self) -> Seq<Seq<char>> {
        self.ids@.map_values(|id: String| id@)
    }

    /// The kinds of the packages, by node.
    pub closed spec fn kinds(&self) -> Seq<DepKindSet> {
        graph_nodes(self.graph)
    }

    /// The edges, each with its source, its target and its kinds.
    pub closed spec fn edges(&self) -> Seq<(int, int, DepKindSet)> {
        graph_edges(self.graph)
    }

    /// Each node has a name of its own, and each edge joins two nodes.
    pub closed spec fn wf(&self) -> bool {
        &&& self.ids().len() == self.kinds().len()
        &&& self.ids().no_duplicates()
        &&& forall|e: int|
            0 <= e < self.edges().len() ==> 0 <= (#[trigger] self.edges()[e]).0 < self.kinds().len()
                && 0 <= self.edges()[e].1 < self.kinds().len()
    }

    /// What follows from well-formedness.
    pub proof fn lemma_wf(&self)
        requires
            self.wf(),
        ensures
            self.ids().len() == self.kinds().len(),
            self.ids().no_duplicates(),
            edges_within(self.edges(), self.kinds().len()),
    {
    }

    /// The graph without nodes.
    pub fn new() -> (r: Self)
        ensures
            r.wf(),
            r.ids() == Seq::<Seq<char>>::empty(),
            r.kinds() == Seq::<DepKindSet>::empty(),
            r.edges() == Seq::<(int, int, DepKindSet)>::empty(),
    {
        let r = DepGraph { graph: graph_new(), ids: Vec::new() };
        assert(r.ids() =~= Seq::<Seq<char>>::empty());
        r
    }

    /// The number of nodes.
    pub fn node_count(&self) -> (n: usize)
        requires
            self.wf(),
        ensures
            n == self.ids().len(),
    {
        self.ids.len()
    }

    /// The node of the package named `package_id`.
    pub fn index_of(&self, package_id: &str) -> (r: Option<usize>)
        ensures
            match r {
                Some(i) => i < self.ids().len() && self.ids()[i as int] == package_id@,
                None => !self.ids().contains(package_id@),
            },
    {
        let mut i: usize = 0;
        while i < self.ids.len()
            invariant
                i <= self.ids.len(),
                forall|k: int| 0 <= k < i ==> self.ids()[k] != package_id@,
            decreases self.ids.len() - i,
        {
            if str_eq(self.ids[i].as_str(), package_id) {
                return Some(i);
            }
            i += 1;
        }
        None
    }

    /// The name of a node.
    pub fn id_at(&self, node: usize) -> (r: &str)
        requires
            node < self.ids().len(),
        ensures
            r@ == self.ids()[node as int],
    {
        self.ids[node].as_str()
    }

    /// The kinds of a node.
    pub fn kinds_at(&self, node: usize) -> (r: DepKindSet)
        requires
            self.wf(),
            node < self.ids().len(),
        ensures
            r == self.kinds()[node as int],
    {
        graph_node_weight(&self.graph, node)
    }

    /// The kinds of the package named `package_id`.
    pub fn kinds_of(&self, package_id: &str) -> (r: Option<DepKindSet>)
        requires
            self.wf(),
        ensures
            match r {
                Some(kinds) => exists|i: int|
                    0 <= i < self.ids().len() && self.ids()[i] == package_id@ && kinds
                        == self.kinds()[i],
                None => !self.ids().contains(package_id@),
            },
    {
        match self.index_of(package_id) {
            Some(i) => Some(self.kinds_at(i)),
            None => None,
        }
    }

    /// Adds a node with the kinds `kinds` for a package that has none yet.
    fn push_node(&mut self, package_id: &str, kinds: DepKindSet) -> (r: Result<usize, GraphError>)
        requires
            old(self).wf(),
            !old(self).ids().contains(package_id@),
        ensures
            final(self).wf(),
            final(self).edges() == old(self).edges(),
            match r {
                Ok(i) => i == old(self).ids().len() && final(self).ids() == old(self).ids().push(
                    package_id@,
                ) && final(self).kinds() == old(self).kinds().push(kinds),
                Err(e) => e == GraphError::Full && final(self).ids() == old(self).ids()
                    && final(self).kinds() == old(self).kinds() && old(self).ids().len()
                    >= u32::MAX,
            },
    {
        match graph_add_node(&mut self.graph, kinds) {
            Some(i) => {
                self.ids.push(package_id.to_owned());
                proof {
                    assert(self.ids() =~= old(self).ids().push(package_id@));
                    assert forall|a: int, b: int|
                        0 <= a < self.ids().len() && 0 <= b < self.ids().len() && a
                            != b implies self.ids()[a] != self.ids()[b] by {
                        if a < old(self).ids().len() && b < old(self).ids().len() {
                            assert(old(self).ids()[a] != old(self).ids()[b]);
                        } else if a < old(self).ids().len() {
                            assert(old(self).ids()[a] != package_id@);
                        } else {
                            assert(old(self).ids()[b] != package_id@);
                        }
                    }
                    assert forall|e: int| 0 <= e < self.edges().len() implies 0 <= (
                    #[trigger] self.edges()[e]).0 < self.kinds().len() && 0 <= self.edges()[e].1
                        < self.kinds().len() by {
                        assert(0 <= old(self).edges()[e].0 < old(self).kinds().len());
                    }
                    assert(self.ids().len() == self.kinds().len());
                    assert(self.ids().no_duplicates());
                    assert(self.wf());
                }
                Ok(i)
            },
            None => {
                proof {
                    assert(self.kinds() == old(self).kinds());
                    assert(self.edges() == old(self).edges());
                    assert(self.ids() == old(self).ids());
                    assert forall|e: int| 0 <= e < self.edges().len() implies 0 <= (
                    #[trigger] self.edges()[e]).0 < self.kinds().len() && 0 <= self.edges()[e].1
                        < self.kinds().len() by {
                        assert(0 <= old(self).edges()[e].0 < old(self).kinds().len());
                    }
                }
                Err(GraphError::Full)
            },
        }
    }

    /// Adds a node of the kind `kind` for the package named `package_id`,
    /// which must have none yet.
    pub fn insert_node(&mut self, package_id: &str, kind: DepKind) -> (r: Result<usize, GraphError>)
        requires
            old(self).wf(),
        ensures
            final(self).wf(),
            final(self).edges() == old(self).edges(),
            match r {
                Ok(i) => !old(self).ids().contains(package_id@) && i == old(self).ids().len()
                    && final(self).ids() == old(self).ids().push(package_id@)
                    && final(self).kinds() == old(self).kinds().push(DepKindSet::of_kind(kind)),
                Err(e) => final(self).ids() == old(self).ids() && final(self).kinds() == old(self).kinds()
                    && (e == GraphError::NodeExists <==> old(self).ids().contains(package_id@))
                    && (e == GraphError::Full ==> old(self).ids().len() >= u32::MAX),
            },
    {
        match self.index_of(package_id) {
            Some(i) => {
                assert(self.ids()[i as int] == package_id@);
                Err(GraphError::NodeExists)
            },
            None => self.push_node(package_id, DepKindSet::of(kind)),
        }
    }

    /// The node of the package named `package_id`, which is added without
    /// kinds where the package has none.
    pub fn node_of(&mut self, package_id: &str) -> (r: Result<usize, GraphError>)
        requires
            old(self).wf(),
        ensures
            final(self).wf(),
            final(self).edges() == old(self).edges(),
            match r {
                Ok(i) => i < final(self).ids().len() && final(self).ids()[i as int] == package_id@
                    && if old(self).ids().contains(package_id@) {
                    final(self).ids() == old(self).ids() && final(self).kinds() == old(self).kinds()
                } else {
                    final(self).ids() == old(self).ids().push(package_id@) && final(self).kinds()
                        == old(self).kinds().push(DepKindSet::none())
                },
                Err(e) => e == GraphError::Full && !old(self).ids().contains(package_id@)
                    && final(self).ids() == old(self).ids() && final(self).kinds() == old(self).kinds() && old(self).ids().len() >= u32::MAX,
            },
    {
        match self.index_of(package_id) {
            Some(i) => {
                assert(self.ids()[i as int] == package_id@);
                Ok(i)
            },
            None => self.push_node(package_id, DepKindSet::new()),
        }
    }

    /// Adds an edge of the kinds `edge` from the node `dependent` to the node
    /// `dependency`.
    pub fn add_edge_between(&mut self, dependent: usize, dependency: usize, edge: DepKindSet) -> (r:
        Result<(), GraphError>)
        requires
            old(self).wf(),
            dependent < old(self).ids().len(),
            dependency < old(self).ids().len(),
        ensures
            final(self).wf(),
            final(self).ids() == old(self).ids(),
            final(self).kinds() == old(self).kinds(),
            match r {
                Ok(()) => final(self).edges() == old(self).edges().push(
                    (dependent as int, dependency as int, edge),
                ),
                Err(e) => e == GraphError::Full && final(self).edges() == old(self).edges() && old(self).edges().len() >= u32::MAX,
            },
    {
        if graph_add_edge(&mut self.graph, dependent, dependency, edge) {
            proof {
                assert forall|e: int| 0 <= e < self.edges().len() implies 0 <= (
                #[trigger] self.edges()[e]).0 < self.kinds().len() && 0 <= self.edges()[e].1
                    < self.kinds().len() by {
                    if e < old(self).edges().len() {
                        assert(0 <= old(self).edges()[e].0 < old(self).kinds().len());
                    }
                }
            }
            Ok(())
        } else {
            Err(GraphError::Full)
        }
    }
}

impl DepGraph {
    /// Spreads the kinds along the edges until nothing changes: each
    /// dependency gets the kinds that the edges to it give it from the kinds
    /// of its dependents. No node loses a kind, in the end every edge is
    /// closed, and every kind comes from a kind that was there at first.
    pub fn compute_dependency_kinds(&mut self)
        requires
            old(self).wf(),
        ensures
            final(self).wf(),
            final(self).ids() == old(self).ids(),
            final(self).edges() == old(self).edges(),
            grown_from(old(self).kinds(), final(self).kinds()),
            all_closed(final(self).kinds(), final(self).edges()),
            all_derived(old(self).kinds(), old(self).edges(), final(self).kinds()),
    {
        let n = self.ids.len();
        let ghost first = self.kinds();
        let ghost edges = self.edges();
        let mut queue: Vec<usize> = Vec::new();
        let mut i: usize = 0;
        while i < n
            invariant
                i <= n,
                n == self.ids().len(),
                self.wf(),
                *self == *old(self),
                forall|q: int| 0 <= q < queue@.len() ==> (#[trigger] queue@[q]) < n,
                forall|node: int|
                    0 <= node < i && !(#[trigger] self.kinds()[node]).none_set() ==> pending(
                        queue@,
                        0,
                        node,
                    ),
            decreases n - i,
        {
            let kinds = self.kinds_at(i);
            let ghost before = queue@;
            if !kinds.is_empty() {
                queue.push(i);
            }
            proof {
                assert forall|node: int|
                    0 <= node < i + 1 && !(#[trigger] self.kinds()[node]).none_set() implies pending(
                    queue@,
                    0,
                    node,
                ) by {
                    if node < i {
                        let q = choose|q: int| 0 <= q < before.len() && #[trigger] before[q] == node;
                        assert(queue@[q] == node);
                    } else {
                        assert(queue@[before.len() as int] == node);
                    }
                }
            }
            i += 1;
        }
        proof {
            assert forall|e: int| 0 <= e < edges.len() implies edge_closed(
                self.kinds(),
                #[trigger] edges[e],
            ) || pending(queue@, 0, edges[e].0) by {
                let source = edges[e].0;
                self.lemma_wf();
                if self.kinds()[source].none_set() {
                    assert forall|k: DepKind| #[trigger]
                        gives(edges[e].2, self.kinds()[source], k) implies self.kinds()[edges[e].1].has(
                        k,
                    ) by {
                        lemma_gives_nothing(edges[e].2, self.kinds()[source], k);
                    }
                } else {
                    assert(pending(queue@, 0, source));
                }
            }
            assert forall|i: int, k: DepKind|
                0 <= i < first.len() && (#[trigger] first[i].has(k)) implies derived(
                first,
                edges,
                i,
                k,
            ) by {
                assert(derived_in(first, edges, i, k, 0));
            }
        }
        let mut head: usize = 0;
        while head < queue.len()
            invariant
                head <= queue.len(),
                n == self.ids().len(),
                self.wf(),
                self.ids() == old(self).ids(),
                self.edges() == edges,
                edges == old(self).edges(),
                first == old(self).kinds(),
                forall|q: int| 0 <= q < queue@.len() ==> (#[trigger] queue@[q]) < n,
                grown_from(first, self.kinds()),
                all_derived(first, edges, self.kinds()),
                forall|e: int|
                    0 <= e < edges.len() ==> edge_closed(self.kinds(), #[trigger] edges[e])
                        || pending(queue@, head as int, edges[e].0),
            decreases missing(self.kinds()), queue.len() - head,
        {
            let node = queue[head];
            head += 1;
            let node_kind = self.kinds_at(node);
            let out = graph_edges_from(&self.graph, node);
            let ghost kinds0 = self.kinds();
            let ghost len0 = queue@.len();
            proof {
                lemma_missing_bounds(kinds0);
                assert forall|e: int|
                    0 <= e < edges.len() && edges[e].0 != node implies edge_closed(
                    self.kinds(),
                    #[trigger] edges[e],
                ) || pending(queue@, head as int, edges[e].0) by {
                    if !edge_closed(self.kinds(), edges[e]) {
                        let q = choose|q: int|
                            head - 1 <= q < queue@.len() && #[trigger] queue@[q] == edges[e].0;
                        assert(q != head - 1);
                        assert(head <= q < queue@.len() && queue@[q] == edges[e].0);
                    }
                }
            }
            let mut j: usize = 0;
            while j < out.len()
                invariant
                    j <= out.len(),
                    head <= queue.len(),
                    n == self.ids().len(),
                    node < n,
                    self.wf(),
                    self.ids() == old(self).ids(),
                    self.edges() == edges,
                    edges == old(self).edges(),
                    first == old(self).kinds(),
                    edge_views(out@) == edges_from(edges, node as int),
                    forall|q: int| 0 <= q < queue@.len() ==> (#[trigger] queue@[q]) < n,
                    grown_from(first, self.kinds()),
                    grown_from(kinds0, self.kinds()),
                    all_derived(first, edges, self.kinds()),
                    node_kind == kinds0[node as int],
                    forall|d: DepKind| #[trigger] node_kind.has(d) ==> derived(first, edges, node as int, d),
                    forall|e: int|
                        0 <= e < edges.len() && edges[e].0 != node ==> edge_closed(
                            self.kinds(),
                            #[trigger] edges[e],
                        ) || pending(queue@, head as int, edges[e].0),
                    forall|t: int|
                        0 <= t < j ==> flows(
                            (#[trigger] out@[t]).1,
                            node_kind,
                            self.kinds()[out@[t].0 as int],
                        ),
                    self.kinds()[node as int] == node_kind || pending(
                        queue@,
                        head as int,
                        node as int,
                    ),
                    queue@.len() >= len0,
                    missing(self.kinds()) + (queue@.len() - len0) <= missing(kinds0),
                decreases out.len() - j,
            {
                let target = out[j].0;
                let edge = out[j].1;
                proof {
                    assert(edge_views(out@)[j as int] == (target as int, edge));
                    lemma_edges_from_sound(edges, node as int, j as int);
                    self.lemma_wf();
                }
                let ghost e_index = choose|e: int|
                    0 <= e < edges.len() && #[trigger] edges[e] == (
                        node as int,
                        target as int,
                        edge,
                    );
                assert(edges[e_index].1 == target);
                let new_kinds = dependency_kind_from_edge_and_dependent(&edge, &node_kind);
                let current = self.kinds_at(target);
                proof {
                    assert(new_kinds.subset_of(&current) <==> flows(edge, node_kind, current)) by {
                        if new_kinds.subset_of(&current) {
                            assert forall|k: DepKind| #[trigger]
                                gives(edge, node_kind, k) implies current.has(k) by {
                                assert(new_kinds.has(k));
                            }
                        }
                        if flows(edge, node_kind, current) {
                            assert forall|k: DepKind| #[trigger]
                                new_kinds.has(k) implies current.has(k) by {
                                assert(gives(edge, node_kind, k));
                            }
                        }
                    }
                }
                if !new_kinds.is_subset(&current) {
                    let merged = current.union(&new_kinds);
                    let ghost kinds_before = self.kinds();
                    let ghost queue_before = queue@;
                    graph_set_node_weight(&mut self.graph, target, merged);
                    queue.push(target);
                    proof {
                        let kinds_after = self.kinds();
                        assert(kinds_after == kinds_before.update(target as int, merged));
                        assert(current.subset_of(&merged));
                        assert(!merged.subset_of(&current)) by {
                            let k = choose|k: DepKind| new_kinds.has(k) && !current.has(k);
                            assert(merged.has(k) && !current.has(k));
                        }
                        lemma_count_grows(current, merged);
                        lemma_missing_update(kinds_before, target as int, merged);
                        assert(flows(edge, node_kind, merged)) by {
                            assert forall|k: DepKind| #[trigger]
                                gives(edge, node_kind, k) implies merged.has(k) by {
                                assert(new_kinds.has(k));
                            }
                        }
                        assert(queue@[queue_before.len() as int] == target);
                        assert(pending(queue@, head as int, target as int));
                        assert forall|e: int| 0 <= e < self.edges().len() implies 0 <= (
                        #[trigger] self.edges()[e]).0 < self.kinds().len() && 0
                            <= self.edges()[e].1 < self.kinds().len() by {
                            assert(0 <= edges[e].0 < kinds_before.len());
                        }
                        assert forall|i: int| 0 <= i < first.len() implies (
                        #[trigger] first[i]).subset_of(&kinds_after[i]) by {
                            assert(first[i].subset_of(&kinds_before[i]));
                        }
                        assert forall|i: int| 0 <= i < kinds0.len() implies (
                        #[trigger] kinds0[i]).subset_of(&kinds_after[i]) by {
                            assert(kinds0[i].subset_of(&kinds_before[i]));
                        }
                        assert forall|i: int, k: DepKind|
                            0 <= i < kinds_after.len() && (
                            #[trigger] kinds_after[i].has(k)) implies derived(first, edges, i, k) by {
                            if i == target && !kinds_before[i].has(k) {
                                assert(new_kinds.has(k));
                                assert(gives(edge, node_kind, k));
                                lemma_gives_from_one(edge, node_kind, k);
                                let from = choose|from: DepKind|
                                    node_kind.has(from) && #[trigger] gives(
                                        edge,
                                        DepKindSet::of_kind(from),
                                        k,
                                    );
                                assert(derived(first, edges, node as int, from));
                                let steps = choose|steps: nat|
                                    derived_in(first, edges, node as int, from, steps);
                                assert(edges[e_index].1 == i && derived_in(
                                    first,
                                    edges,
                                    edges[e_index].0,
                                    from,
                                    steps,
                                ) && gives(edges[e_index].2, DepKindSet::of_kind(from), k));
                                let more: nat = (steps + 1) as nat;
                                assert(derived_in(
                                    first,
                                    edges,
                                    edges[e_index].0,
                                    from,
                                    (more - 1) as nat,
                                ));
                                assert(0 <= e_index < edges.len() && edges[e_index].1 == i);
                                assert(gives(edges[e_index].2, DepKindSet::of_kind(from), k));
                                assert(derived_in(first, edges, i, k, more));
                            } else {
                                assert(kinds_before[i].has(k));
                            }
                        }
                        assert forall|e: int|
                            0 <= e < edges.len() && edges[e].0 != node implies edge_closed(
                            kinds_after,
                            #[trigger] edges[e],
                        ) || pending(queue@, head as int, edges[e].0) by {
                            let source = edges[e].0;
                            if source == target {
                            } else if edge_closed(kinds_before, edges[e]) {
                                assert(kinds_after[source] == kinds_before[source]);
                                assert(kinds_before[edges[e].1].subset_of(&kinds_after[edges[e].1]));
                            } else {
                                let q = choose|q: int|
                                    head <= q < queue_before.len() && #[trigger] queue_before[q]
                                        == source;
                                assert(queue@[q] == source);
                            }
                        }
                        if target != node && kinds_before[node as int] != node_kind {
                            let q = choose|q: int|
                                head <= q < queue_before.len() && #[trigger] queue_before[q] == node;
                            assert(queue@[q] == node);
                        }
                        assert forall|t: int| 0 <= t < j + 1 implies flows(
                            (#[trigger] out@[t]).1,
                            node_kind,
                            kinds_after[out@[t].0 as int],
                        ) by {
                            if t < j {
                                assert(flows(out@[t].1, node_kind, kinds_before[out@[t].0 as int]));
                                assert(edge_views(out@)[t] == (out@[t].0 as int, out@[t].1));
                                lemma_edges_from_sound(edges, node as int, t);
                                assert(kinds_before[out@[t].0 as int].subset_of(
                                    &kinds_after[out@[t].0 as int],
                                ));
                            }
                        }
                    }
                } else {
                    proof {
                        assert forall|t: int| 0 <= t < j + 1 implies flows(
                            (#[trigger] out@[t]).1,
                            node_kind,
                            self.kinds()[out@[t].0 as int],
                        ) by {}
                    }
                }
                j += 1;
            }
            proof {
                lemma_missing_bounds(self.kinds());
                assert forall|e: int| 0 <= e < edges.len() implies edge_closed(
                    self.kinds(),
                    #[trigger] edges[e],
                ) || pending(queue@, head as int, edges[e].0) by {
                    if edges[e].0 == node {
                        lemma_edges_from_complete(edges, e);
                        let t = choose|t: int|
                            0 <= t < edges_from(edges, edges[e].0).len() && #[trigger] edges_from(
                                edges,
                                edges[e].0,
                            )[t] == (edges[e].1, edges[e].2);
                        assert(edge_views(out@)[t] == (out@[t].0 as int, out@[t].1));
                        assert(flows(out@[t].1, node_kind, self.kinds()[out@[t].0 as int]));
                    }
                }
            }
        }
        proof {
            assert forall|e: int| 0 <= e < edges.len() implies edge_closed(
                self.kinds(),
                #[trigger] edges[e],
            ) by {
                if pending(queue@, head as int, edges[e].0) {
                    let q = choose|q: int|
                        head <= q < queue@.len() && #[trigger] queue@[q] == edges[e].0;
                }
            }
        }
    }
}

/// What a graph holds: the names and the kinds of its nodes, and its edges.
pub struct GraphView {
    pub ids: Seq<Seq<char>>,
    pub kinds: Seq<DepKindSet>,
    pub edges: Seq<(int, int, DepKindSet)>,
}

/// The graph without nodes.
pub open spec fn empty_graph() -> GraphView {
    GraphView { ids: Seq::empty(), kinds: Seq::empty(), edges: Seq::empty() }
}

/// `graph` with a node for `id`, which is added without kinds where there is
/// none.
pub open spec fn with_node(graph: GraphView, id: Seq<char>) -> GraphView {
    if graph.ids.contains(id) {
        graph
    } else {
        GraphView { ids: graph.ids.push(id), kinds: graph.kinds.push(DepKindSet::none()), ..graph }
    }
}

/// `graph` with an edge of the kinds `edge` from the node of `dependent` to
/// the node of `dependency`, which are added where they are missing.
pub open spec fn with_edge(
    graph: GraphView,
    dependent: Seq<char>,
    dependency: Seq<char>,
    edge: DepKindSet,
) -> GraphView {
    let nodes = with_node(with_node(graph, dependent), dependency);
    GraphView {
        edges: nodes.edges.push(
            (nodes.ids.index_of(dependent), nodes.ids.index_of(dependency), edge),
        ),
        ..nodes
    }
}

/// The kinds of the edge to a dependency: `ProcMacro` where the dependency
/// is a macro package, else the kinds that are declared.
pub open spec fn declared_kinds(is_proc_macro: bool, kinds: Seq<DepKind>) -> DepKindSet {
    if is_proc_macro {
        DepKindSet::of_kind(DepKind::ProcMacro)
    } else {
        DepKindSet {
            unknown: kinds.contains(DepKind::Unknown),
            normal: kinds.contains(DepKind::Normal),
            build: kinds.contains(DepKind::Build),
            dev: kinds.contains(DepKind::Dev),
            proc_macro: kinds.contains(DepKind::ProcMacro),
        }
    }
}

/// The kinds of the edge to a dependency.
pub fn edge_kinds(is_proc_macro: bool, kinds: &[DepKind]) -> (r: DepKindSet)
    ensures
        r == declared_kinds(is_proc_macro, kinds@),
{
    if is_proc_macro {
        DepKindSet::of(DepKind::ProcMacro)
    } else {
        let r = DepKindSet::from_slice(kinds);
        assert(r.has(DepKind::Unknown) == kinds@.contains(DepKind::Unknown));
        assert(r.has(DepKind::Normal) == kinds@.contains(DepKind::Normal));
        assert(r.has(DepKind::Build) == kinds@.contains(DepKind::Build));
        assert(r.has(DepKind::Dev) == kinds@.contains(DepKind::Dev));
        assert(r.has(DepKind::ProcMacro) == kinds@.contains(DepKind::ProcMacro));
        r
    }
}

/// One declared dependency: `dependent` depends on `dependency` in the ways
/// `kinds`.
#[derive(Debug, PartialEq, Eq)]
pub struct Dependency {
    pub dependent: String,
    pub dependency: String,
    pub kinds: DepKindSet,
}

/// What a `Dependency` stands for.
pub struct DependencyView {
    pub dependent: Seq<char>,
    pub dependency: Seq<char>,
    pub kinds: DepKindSet,
}

impl View for Dependency {
    type V = DependencyView;

    open spec fn view(&self) -> DependencyView {
        DependencyView {
            dependent: self.dependent@,
            dependency: self.dependency@,
            kinds: self.kinds,
        }
    }
}

/// The views of a list of dependencies.
pub open spec fn dependency_views(deps: Seq<Dependency>) -> Seq<DependencyView> {
    deps.map_values(|d: Dependency| d@)
}

/// The views of a list of names.
pub open spec fn id_views(ids: Seq<String>) -> Seq<Seq<char>> {
    ids.map_values(|id: String| id@)
}

/// The graph of the first `n` of `starting`, each a node of the kind
/// `Normal`; `None` where one of them occurs twice.
pub open spec fn started(starting: Seq<Seq<char>>, n: nat) -> Option<GraphView>
    decreases n,
{
    if n == 0 || n > starting.len() {
        Some(empty_graph())
    } else {
        match started(starting, (n - 1) as nat) {
            Some(graph) => if graph.ids.contains(starting[n - 1]) {
                None
            } else {
                Some(
                    GraphView {
                        ids: graph.ids.push(starting[n - 1]),
                        kinds: graph.kinds.push(DepKindSet::of_kind(DepKind::Normal)),
                        ..graph
                    },
                )
            },
            None => None,
        }
    }
}

/// `graph` with an edge for each of the first `n` of `deps`, in order.
pub open spec fn connected(graph: GraphView, deps: Seq<DependencyView>, n: nat) -> GraphView
    decreases n,
{
    if n == 0 || n > deps.len() {
        graph
    } else {
        with_edge(
            connected(graph, deps, (n - 1) as nat),
            deps[n - 1].dependent,
            deps[n - 1].dependency,
            deps[n - 1].kinds,
        )
    }
}

impl View for DepGraph {
    type V = GraphView;

    closed spec fn view(&self) -> GraphView {
        GraphView { ids: self.ids(), kinds: self.kinds(), edges: self.edges() }
    }
}

impl DepGraph {
    /// The view holds the names, the kinds and the edges.
    pub proof fn lemma_view(&self)
        ensures
            self@.ids == self.ids(),
            self@.kinds == self.kinds(),
            self@.edges == self.edges(),
    {
    }

    /// Adds an edge of the kinds `edge` from the package `dependent` to the
    /// package `dependency`. A package without a node gets one, without
    /// kinds. On an error the graph may have gained a node, and nothing else;
    /// there is none as long as the graph has room.
    pub fn add_edge(&mut self, dependent: &str, dependency: &str, edge: DepKindSet) -> (r: Result<
        (),
        GraphError,
    >)
        requires
            old(self).wf(),
        ensures
            final(self).wf(),
            match r {
                Ok(()) => final(self)@ == with_edge(old(self)@, dependent@, dependency@, edge),
                Err(e) => e == GraphError::Full && final(self).edges() == old(self).edges() && (
                old(self).ids().len() + 2 > u32::MAX || old(self).edges().len() >= u32::MAX),
            },
    {
        let source = match self.node_of(dependent) {
            Ok(i) => i,
            Err(e) => {
                return Err(e);
            },
        };
        let ghost middle = self@;
        proof {
            assert(middle == with_node(old(self)@, dependent@));
            assert(middle.ids[source as int] == dependent@);
        }
        let target = match self.node_of(dependency) {
            Ok(i) => i,
            Err(e) => {
                return Err(e);
            },
        };
        let ghost nodes = self@;
        proof {
            assert(nodes == with_node(middle, dependency@));
            assert(nodes.ids[source as int] == dependent@);
            assert(nodes.ids[target as int] == dependency@);
            nodes.ids.index_of_first_ensures(dependent@);
            nodes.ids.index_of_first_ensures(dependency@);
            assert(nodes.ids.contains(dependent@));
            assert(nodes.ids.contains(dependency@));
            let a = nodes.ids.index_of(dependent@);
            let b = nodes.ids.index_of(dependency@);
            assert(nodes.ids[a] == dependent@);
            assert(nodes.ids[b] == dependency@);
            assert(a == source);
            assert(b == target);
        }
        self.add_edge_between(source, target, edge)
    }

    /// The graph of the packages `starting`, each of the kind `Normal`, and
    /// of the declared dependencies `deps`. It fails where a starting package
    /// is named twice, and else only where the graph has no room.
    pub fn from_dependencies(starting: &Vec<String>, deps: &Vec<Dependency>) -> (r: Result<
        DepGraph,
        GraphError,
    >)
        ensures
            match r {
                Ok(graph) => graph.wf() && started(id_views(starting@), starting@.len()) is Some
                    && graph@ == connected(
                    started(id_views(starting@), starting@.len())->0,
                    dependency_views(deps@),
                    deps@.len(),
                ),
                Err(e) => (e == GraphError::NodeExists <==> started(
                    id_views(starting@),
                    starting@.len(),
                ) is None) && (e == GraphError::Full ==> starting@.len() + 2 * deps@.len()
                    >= u32::MAX),
            },
    {
        let ghost names = id_views(starting@);
        let ghost declared = dependency_views(deps@);
        proof {
            lemma_started(names, starting@.len());
            assert(names.take(names.len() as int) =~= names);
        }
        if !all_distinct(starting) {
            return Err(GraphError::NodeExists);
        }
        let mut graph = DepGraph::new();
        let mut i: usize = 0;
        while i < starting.len()
            invariant
                i <= starting.len(),
                graph.wf(),
                names == id_views(starting@),
                names.no_duplicates(),
                started(names, starting@.len()) is Some,
                started(names, i as nat) == Some(graph@),
                graph.ids() == names.take(i as int),
                graph.edges() == Seq::<(int, int, DepKindSet)>::empty(),
            decreases starting.len() - i,
        {
            assert(names[i as int] == starting@[i as int]@);
            proof {
                if names.take(i as int).contains(names[i as int]) {
                    let m = choose|m: int|
                        0 <= m < names.take(i as int).len() && names.take(i as int)[m] == names[i as int];
                    assert(names[m] == names[i as int]);
                }
                assert(names.take(i + 1) =~= names.take(i as int).push(names[i as int]));
            }
            match graph.insert_node(starting[i].as_str(), DepKind::Normal) {
                Ok(_) => {},
                Err(e) => {
                    return Err(e);
                },
            }
            i += 1;
        }
        let ghost base = graph@;
        let mut j: usize = 0;
        while j < deps.len()
            invariant
                j <= deps.len(),
                graph.wf(),
                declared == dependency_views(deps@),
                started(names, starting@.len()) == Some(base),
                names == id_views(starting@),
                graph@ == connected(base, declared, j as nat),
                graph.ids().len() <= starting@.len() + 2 * j,
                graph.edges().len() <= j,
            decreases deps.len() - j,
        {
            assert(declared[j as int] == deps@[j as int]@);
            let dep = &deps[j];
            match graph.add_edge(dep.dependent.as_str(), dep.dependency.as_str(), dep.kinds) {
                Ok(()) => {},
                Err(e) => {
                    return Err(e);
                },
            }
            j += 1;
        }
        Ok(graph)
    }

    /// How each package is used: the kinds of each node once they were
    /// spread along the edges.
    pub fn analyze(self) -> (r: Vec<(String, DepKindSet)>)
        requires
            self.wf(),
        ensures
            r@.len() == self.ids().len(),
            forall|i: int| 0 <= i < r@.len() ==> (#[trigger] r@[i]).0@ == self.ids()[i],
            grown_from(self.kinds(), analyzed_kinds(r@)),
            all_closed(analyzed_kinds(r@), self.edges()),
            all_derived(self.kinds(), self.edges(), analyzed_kinds(r@)),
    {
        let mut graph = self;
        graph.compute_dependency_kinds();
        let mut out: Vec<(String, DepKindSet)> = Vec::new();
        let n = graph.node_count();
        let mut i: usize = 0;
        while i < n
            invariant
                i <= n,
                n == graph.ids().len(),
                graph.wf(),
                out@.len() == i,
                forall|k: int| 0 <= k < i ==> (#[trigger] out@[k]).0@ == graph.ids()[k],
                forall|k: int| 0 <= k < i ==> (#[trigger] out@[k]).1 == graph.kinds()[k],
            decreases n - i,
        {
            let id = graph.id_at(i).to_owned();
            let kinds = graph.kinds_at(i);
            out.push((id, kinds));
            i += 1;
        }
        proof {
            graph.lemma_wf();
            assert(analyzed_kinds(out@) =~= graph.kinds());
        }
        out
    }
}

/// The kinds of a list of analysed packages.
pub open spec fn analyzed_kinds(packages: Seq<(String, DepKindSet)>) -> Seq<DepKindSet> {
    packages.map_values(|p: (String, DepKindSet)| p.1)
}

/// The graph can be started with the first `n` packages exactly where none
/// of them is named twice, and its nodes are then those packages.
pub proof fn lemma_started(starting: Seq<Seq<char>>, n: nat)
    requires
        n <= starting.len(),
    ensures
        started(starting, n) is Some <==> starting.take(n as int).no_duplicates(),
        started(starting, n) is Some ==> started(starting, n)->0.ids == starting.take(n as int),
    decreases n,
{
    if n == 0 {
        assert(starting.take(0) =~= Seq::<Seq<char>>::empty());
    } else {
        lemma_started(starting, (n - 1) as nat);
        let before = starting.take(n - 1);
        let now = starting.take(n as int);
        assert(now =~= before.push(starting[n - 1]));
        if now.no_duplicates() {
            assert forall|a: int, b: int|
                0 <= a < before.len() && 0 <= b < before.len() && a != b implies before[a]
                != before[b] by {
                assert(now[a] != now[b]);
            }
            if before.contains(starting[n - 1]) {
                let m = choose|m: int| 0 <= m < before.len() && before[m] == starting[n - 1];
                assert(now[m] == now[n - 1]);
            }
        }
        if started(starting, n) is Some {
            assert forall|a: int, b: int|
                0 <= a < now.len() && 0 <= b < now.len() && a != b implies now[a] != now[b] by {
                if a < n - 1 && b < n - 1 {
                    assert(before[a] != before[b]);
                } else if a < n - 1 {
                    assert(before[a] == now[a]);
                } else {
                    assert(before[b] == now[b]);
                }
            }
        }
    }
}

/// Whether no name occurs twice.
pub fn all_distinct(names: &Vec<String>) -> (r: bool)
    ensures
        r == id_views(names@).no_duplicates(),
{
    let ghost views = id_views(names@);
    let mut i: usize = 0;
    while i < names.len()
        invariant
            i <= names.len(),
            views == id_views(names@),
            forall|a: int, b: int| 0 <= a < b < i ==> views[a] != views[b],
        decreases names.len() - i,
    {
        let mut k: usize = 0;
        while k < i
            invariant
                k <= i,
                i < names.len(),
                views == id_views(names@),
                forall|a: int| 0 <= a < k ==> views[a] != views[i as int],
            decreases i - k,
        {
            if str_eq(names[k].as_str(), names[i].as_str()) {
                assert(views[k as int] == views[i as int]);
                return false;
            }
            k += 1;
        }
        i += 1;
    }
    assert forall|a: int, b: int|
        0 <= a < views.len() && 0 <= b < views.len() && a != b implies views[a] != views[b] by {
        if a < b {
        } else {
            assert(views[b] != views[a]);
        }
    }
    true
}

/// Whether `packages` tell how each package of `graph` is used: each node
/// with its name and with the kinds that it has once the kinds were spread
/// along the edges.
pub open spec fn analysis_of(graph: GraphView, packages: Seq<(String, DepKindSet)>) -> bool {
    &&& packages.len() == graph.ids.len()
    &&& forall|i: int| 0 <= i < packages.len() ==> (#[trigger] packages[i]).0@ == graph.ids[i]
    &&& grown_from(graph.kinds, analyzed_kinds(packages))
    &&& all_closed(analyzed_kinds(packages), graph.edges)
    &&& all_derived(graph.kinds, graph.edges, analyzed_kinds(packages))
}

/// Analyses the graph of what the packages `starting` reach along the
/// declared dependencies `deps`: how is each package used?
pub fn analyze_dependency_graph(starting: &Vec<String>, deps: &Vec<Dependency>) -> (r: Result<
    Vec<(String, DepKindSet)>,
    GraphError,
>)
    ensures
        match r {
            Ok(packages) => exists|graph: GraphView| #[trigger]
                reached_from(graph, id_views(starting@), dependency_views(deps@)) && analysis_of(
                    graph,
                    packages@,
                ),
            Err(e) => (e == GraphError::NodeExists <==> !id_views(starting@).no_duplicates()) && (e
                == GraphError::Full ==> (starting@.len() + deps@.len() + 1) * (deps@.len() + 1)
                >= u32::MAX),
        },
{
    match DepGraph::from_roots(starting, deps) {
        Ok(graph) => {
            proof {
                graph.lemma_view();
            }
            let ghost view = graph@;
            let packages = graph.analyze();
            proof {
                assert(reached_from(view, id_views(starting@), dependency_views(deps@))
                    && analysis_of(view, packages@));
            }
            Ok(packages)
        },
        Err(e) => Err(e),
    }
}

/// Whether `edge` stands for one of the declared dependencies.
pub open spec fn edge_declared(
    ids: Seq<Seq<char>>,
    deps: Seq<DependencyView>,
    edge: (int, int, DepKindSet),
) -> bool {
    &&& 0 <= edge.0 < ids.len()
    &&& 0 <= edge.1 < ids.len()
    &&& exists|d: int|
        0 <= d < deps.len() && (#[trigger] deps[d]).dependent == ids[edge.0] && deps[d].dependency
            == ids[edge.1] && deps[d].kinds == edge.2
}

/// Whether an edge leads from `node` to the dependency of `dep`, with its
/// kinds.
pub open spec fn dep_followed(
    ids: Seq<Seq<char>>,
    edges: Seq<(int, int, DepKindSet)>,
    node: int,
    dep: DependencyView,
) -> bool {
    exists|e: int|
        0 <= e < edges.len() && (#[trigger] edges[e]).0 == node && 0 <= edges[e].1 < ids.len()
            && ids[edges[e].1] == dep.dependency && edges[e].2 == dep.kinds
}

/// Whether an edge leads to `node` from a node that was there before it.
pub open spec fn discovered(edges: Seq<(int, int, DepKindSet)>, node: int) -> bool {
    exists|e: int| 0 <= e < edges.len() && (#[trigger] edges[e]).1 == node && 0 <= edges[e].0 < node
}

/// Whether the declared dependencies of the first `done` nodes were all
/// followed.
pub open spec fn followed_up_to(
    ids: Seq<Seq<char>>,
    edges: Seq<(int, int, DepKindSet)>,
    deps: Seq<DependencyView>,
    done: int,
) -> bool {
    forall|i: int, d: int|
        0 <= i < done && i < ids.len() && 0 <= d < deps.len() && #[trigger] ids[i]
            == (#[trigger] deps[d]).dependent ==> dep_followed(ids, edges, i, deps[d])
}

/// Whether `graph` is the graph of what the packages `starting` reach along
/// the declared dependencies `deps`.
///
/// Its first nodes are the starting packages, which are used normally; the
/// other nodes have no kind yet. Each edge stands for a declared dependency,
/// each declared dependency of a node is followed by an edge, and each node
/// that is no starting package was discovered along an edge from an earlier
/// node.
pub open spec fn reached_from(
    graph: GraphView,
    starting: Seq<Seq<char>>,
    deps: Seq<DependencyView>,
) -> bool {
    &&& starting.len() <= graph.ids.len() == graph.kinds.len()
    &&& graph.ids.no_duplicates()
    &&& graph.ids.take(starting.len() as int) == starting
    &&& forall|i: int|
        0 <= i < graph.kinds.len() ==> #[trigger] graph.kinds[i] == if i < starting.len() {
            DepKindSet::of_kind(DepKind::Normal)
        } else {
            DepKindSet::none()
        }
    &&& forall|e: int|
        0 <= e < graph.edges.len() ==> edge_declared(graph.ids, deps, #[trigger] graph.edges[e])
    &&& followed_up_to(graph.ids, graph.edges, deps, graph.ids.len() as int)
    &&& forall|i: int| starting.len() <= i < graph.ids.len() ==> #[trigger] discovered(graph.edges, i)
}

/// The number of the first `n` declared dependencies whose dependency is
/// none of `ids`.
pub open spec fn unseen(deps: Seq<DependencyView>, ids: Seq<Seq<char>>, n: nat) -> nat
    decreases n,
{
    if n == 0 || n > deps.len() {
        0
    } else if ids.contains(deps[n - 1].dependency) {
        unseen(deps, ids, (n - 1) as nat)
    } else {
        unseen(deps, ids, (n - 1) as nat) + 1
    }
}

/// No more dependencies are unseen than there are.
pub proof fn lemma_unseen_bound(deps: Seq<DependencyView>, ids: Seq<Seq<char>>, n: nat)
    requires
        n <= deps.len(),
    ensures
        unseen(deps, ids, n) <= n,
    decreases n,
{
    if n > 0 {
        lemma_unseen_bound(deps, ids, (n - 1) as nat);
    }
}

/// A new node leaves no more dependencies unseen, and fewer where it is the
/// dependency of one of them.
pub proof fn lemma_unseen_push(deps: Seq<DependencyView>, ids: Seq<Seq<char>>, id: Seq<char>, n: nat)
    requires
        n <= deps.len(),
        !ids.contains(id),
    ensures
        unseen(deps, ids.push(id), n) <= unseen(deps, ids, n),
        (exists|d: int| 0 <= d < n && (#[trigger] deps[d]).dependency == id) ==> unseen(
            deps,
            ids.push(id),
            n,
        ) < unseen(deps, ids, n),
    decreases n,
{
    if n > 0 {
        lemma_unseen_push(deps, ids, id, (n - 1) as nat);
        let more = ids.push(id);
        let name = deps[n - 1].dependency;
        if ids.contains(name) {
            let k = choose|k: int| 0 <= k < ids.len() && ids[k] == name;
            assert(more[k] == name);
        }
        if name == id {
            assert(more[ids.len() as int] == id);
        } else if more.contains(name) {
            let k = choose|k: int| 0 <= k < more.len() && more[k] == name;
            assert(ids[k] == name);
        }
        if exists|d: int| 0 <= d < n && (#[trigger] deps[d]).dependency == id {
            let d = choose|d: int| 0 <= d < n && (#[trigger] deps[d]).dependency == id;
            if d < n - 1 {
                assert(0 <= d < n - 1 && deps[d].dependency == id);
            }
        }
    }
}

impl DepGraph {
    /// The graph of what the packages `starting` reach along the declared
    /// dependencies `deps`, built breadth first: the dependencies of a
    /// package are followed once the package itself was reached. It fails
    /// where a starting package is named twice, and else only where the
    /// graph has no room.
    pub fn from_roots(starting: &Vec<String>, deps: &Vec<Dependency>) -> (r: Result<
        DepGraph,
        GraphError,
    >)
        ensures
            match r {
                Ok(graph) => graph.wf() && reached_from(
                    graph@,
                    id_views(starting@),
                    dependency_views(deps@),
                ),
                Err(e) => (e == GraphError::NodeExists <==> !id_views(starting@).no_duplicates())
                    && (e == GraphError::Full ==> (starting@.len() + deps@.len() + 1) * (deps@.len()
                    + 1) >= u32::MAX),
            },
    {
        let ghost names = id_views(starting@);
        let ghost declared = dependency_views(deps@);
        if !all_distinct(starting) {
            return Err(GraphError::NodeExists);
        }
        let mut graph = DepGraph::new();
        let mut i: usize = 0;
        while i < starting.len()
            invariant
                i <= starting.len(),
                graph.wf(),
                names == id_views(starting@),
                names.no_duplicates(),
                graph.ids() == names.take(i as int),
                graph.kinds().len() == i,
                forall|k: int|
                    0 <= k < i ==> #[trigger] graph.kinds()[k] == DepKindSet::of_kind(DepKind::Normal),
                graph.edges() == Seq::<(int, int, DepKindSet)>::empty(),
            decreases starting.len() - i,
        {
            assert(names[i as int] == starting@[i as int]@);
            proof {
                if names.take(i as int).contains(names[i as int]) {
                    let m = choose|m: int|
                        0 <= m < names.take(i as int).len() && names.take(i as int)[m] == names[i as int];
                    assert(names[m] == names[i as int]);
                }
                assert(names.take(i + 1) =~= names.take(i as int).push(names[i as int]));
            }
            match graph.insert_node(starting[i].as_str(), DepKind::Normal) {
                Ok(_) => {},
                Err(e) => {
                    proof {
                        assert((starting@.len() + deps@.len() + 1) * (deps@.len() + 1) >= u32::MAX)
                            by (nonlinear_arith)
                            requires
                                starting@.len() >= u32::MAX,
                        ;
                    }
                    return Err(e);
                },
            }
            i += 1;
        }
        proof {
            assert(names.take(names.len() as int) =~= names);
            lemma_unseen_bound(declared, graph.ids(), deps@.len());
            graph.lemma_wf();
        }
        let roots = starting.len();
        let mut head: usize = 0;
        while head < graph.node_count()
            invariant
                graph.wf(),
                names == id_views(starting@),
                declared == dependency_views(deps@),
                roots == names.len(),
                graph.ids().len() == graph.kinds().len(),
                graph.ids().no_duplicates(),
                roots <= graph.ids().len(),
                head <= graph.ids().len(),
                graph.ids().take(roots as int) == names,
                forall|k: int|
                    0 <= k < graph.kinds().len() ==> #[trigger] graph.kinds()[k] == if k < roots {
                        DepKindSet::of_kind(DepKind::Normal)
                    } else {
                        DepKindSet::none()
                    },
                forall|e: int|
                    0 <= e < graph.edges().len() ==> edge_declared(
                        graph.ids(),
                        declared,
                        #[trigger] graph.edges()[e],
                    ),
                followed_up_to(graph.ids(), graph.edges(), declared, head as int),
                forall|k: int| roots <= k < graph.ids().len() ==> #[trigger] discovered(graph.edges(), k),
                graph.ids().len() + unseen(declared, graph.ids(), declared.len()) <= roots
                    + declared.len(),
                graph.edges().len() <= head * declared.len(),
            decreases unseen(declared, graph.ids(), declared.len()), graph.ids().len() - head,
        {
            let name = graph.id_at(head).to_owned();
            let ghost edges_at_start = graph.edges().len();
            let ghost unseen_at_start = unseen(declared, graph.ids(), declared.len());
            let ghost nodes_at_start = graph.ids().len();
            let mut d: usize = 0;
            while d < deps.len()
                invariant
                    d <= deps.len(),
                    graph.wf(),
                    names == id_views(starting@),
                    declared == dependency_views(deps@),
                    roots == names.len(),
                    graph.ids().len() == graph.kinds().len(),
                    graph.ids().no_duplicates(),
                    roots <= graph.ids().len(),
                    head < graph.ids().len(),
                    name@ == graph.ids()[head as int],
                    graph.ids().take(roots as int) == names,
                    forall|k: int|
                        0 <= k < graph.kinds().len() ==> #[trigger] graph.kinds()[k] == if k
                            < roots {
                            DepKindSet::of_kind(DepKind::Normal)
                        } else {
                            DepKindSet::none()
                        },
                    forall|e: int|
                        0 <= e < graph.edges().len() ==> edge_declared(
                            graph.ids(),
                            declared,
                            #[trigger] graph.edges()[e],
                        ),
                    followed_up_to(graph.ids(), graph.edges(), declared, head as int),
                    forall|m: int|
                        0 <= m < d && graph.ids()[head as int] == (
                        #[trigger] declared[m]).dependent ==> dep_followed(
                            graph.ids(),
                            graph.edges(),
                            head as int,
                            declared[m],
                        ),
                    forall|k: int|
                        roots <= k < graph.ids().len() ==> #[trigger] discovered(graph.edges(), k),
                    graph.ids().len() + unseen(declared, graph.ids(), declared.len()) <= roots
                        + declared.len(),
                    edges_at_start <= head * declared.len(),
                    graph.edges().len() <= edges_at_start + d,
                    unseen(declared, graph.ids(), declared.len()) <= unseen_at_start,
                    unseen(declared, graph.ids(), declared.len()) == unseen_at_start
                        ==> graph.ids().len() == nodes_at_start,
                decreases deps.len() - d,
            {
                let dep = &deps[d];
                assert(declared[d as int] == dep@);
                if str_eq(dep.dependent.as_str(), name.as_str()) {
                    let ghost ids_before = graph.ids();
                    let ghost edges_before = graph.edges();
                    let target = match graph.node_of(dep.dependency.as_str()) {
                        Ok(t) => t,
                        Err(e) => {
                            proof {
                                lemma_unseen_bound(declared, ids_before, declared.len());
                                let a: int = (starting@.len() + deps@.len() + 1) as int;
                                let b: int = (deps@.len() + 1) as int;
                                assert(a * b >= u32::MAX) by (nonlinear_arith)
                                    requires
                                        a >= u32::MAX,
                                        b >= 1,
                                ;
                            }
                            return Err(e);
                        },
                    };
                    let ghost ids_now = graph.ids();
                    proof {
                        graph.lemma_wf();
                        if !ids_before.contains(dep.dependency@) {
                            assert(0 <= d < declared.len() && declared[d as int].dependency
                                == dep.dependency@);
                            lemma_unseen_push(declared, ids_before, dep.dependency@, declared.len());
                        }
                        assert(ids_now.take(roots as int) =~= ids_before.take(roots as int));
                        assert forall|e: int| 0 <= e < edges_before.len() implies edge_declared(
                            ids_now,
                            declared,
                            #[trigger] edges_before[e],
                        ) by {
                            assert(edge_declared(ids_before, declared, edges_before[e]));
                            let k = choose|k: int|
                                0 <= k < declared.len() && (#[trigger] declared[k]).dependent
                                    == ids_before[edges_before[e].0] && declared[k].dependency
                                    == ids_before[edges_before[e].1] && declared[k].kinds
                                    == edges_before[e].2;
                            assert(declared[k].dependent == ids_now[edges_before[e].0]);
                        }
                    }
                    match graph.add_edge_between(head, target, dep.kinds) {
                        Ok(()) => {},
                        Err(e) => {
                            proof {
                                let a: int = (starting@.len() + deps@.len() + 1) as int;
                                let b: int = (deps@.len() + 1) as int;
                                let h: int = head as int;
                                let n: int = declared.len() as int;
                                assert(h * n + n <= a * b) by (nonlinear_arith)
                                    requires
                                        0 <= h < a,
                                        0 <= n < b,
                                ;
                            }
                            return Err(e);
                        },
                    }
                    proof {
                        let edges_now = graph.edges();
                        let new_edge = (head as int, target as int, dep.kinds);
                        assert(edges_now[edges_before.len() as int] == new_edge);
                        assert forall|e: int| 0 <= e < edges_now.len() implies edge_declared(
                            ids_now,
                            declared,
                            #[trigger] edges_now[e],
                        ) by {
                            if e < edges_before.len() {
                                assert(edges_now[e] == edges_before[e]);
                            } else {
                                assert(declared[d as int].dependent == ids_now[head as int]);
                            }
                        }
                        assert forall|i2: int, d2: int|
                            0 <= i2 < head && i2 < ids_now.len() && 0 <= d2 < declared.len()
                                && #[trigger] ids_now[i2] == (
                            #[trigger] declared[d2]).dependent implies dep_followed(
                            ids_now,
                            edges_now,
                            i2,
                            declared[d2],
                        ) by {
                            assert(ids_before[i2] == ids_now[i2]);
                            assert(dep_followed(ids_before, edges_before, i2, declared[d2]));
                            let e = choose|e: int|
                                0 <= e < edges_before.len() && (#[trigger] edges_before[e]).0 == i2
                                    && 0 <= edges_before[e].1 < ids_before.len()
                                    && ids_before[edges_before[e].1] == declared[d2].dependency
                                    && edges_before[e].2 == declared[d2].kinds;
                            assert(edges_now[e] == edges_before[e]);
                        }
                        assert forall|m: int|
                            0 <= m < d + 1 && ids_now[head as int] == (
                            #[trigger] declared[m]).dependent implies dep_followed(
                            ids_now,
                            edges_now,
                            head as int,
                            declared[m],
                        ) by {
                            if m < d {
                                assert(dep_followed(ids_before, edges_before, head as int, declared[m]));
                                let e = choose|e: int|
                                    0 <= e < edges_before.len() && (#[trigger] edges_before[e]).0
                                        == head && 0 <= edges_before[e].1 < ids_before.len()
                                        && ids_before[edges_before[e].1] == declared[m].dependency
                                        && edges_before[e].2 == declared[m].kinds;
                                assert(edges_now[e] == edges_before[e]);
                            } else {
                                assert(edges_now[edges_before.len() as int].0 == head);
                            }
                        }
                        assert forall|k: int| roots <= k < ids_now.len() implies #[trigger] discovered(
                            edges_now,
                            k,
                        ) by {
                            if k < ids_before.len() {
                                assert(discovered(edges_before, k));
                                let e = choose|e: int|
                                    0 <= e < edges_before.len() && (#[trigger] edges_before[e]).1
                                        == k && 0 <= edges_before[e].0 < k;
                                assert(edges_now[e] == edges_before[e]);
                            } else {
                                assert(edges_now[edges_before.len() as int].1 == k);
                            }
                        }
                    }
                } else {
                    proof {
                        assert forall|m: int|
                            0 <= m < d + 1 && graph.ids()[head as int] == (
                            #[trigger] declared[m]).dependent implies dep_followed(
                            graph.ids(),
                            graph.edges(),
                            head as int,
                            declared[m],
                        ) by {}
                    }
                }
                d += 1;
            }
            proof {
                assert forall|i2: int, d2: int|
                    0 <= i2 < head + 1 && i2 < graph.ids().len() && 0 <= d2 < declared.len()
                        && #[trigger] graph.ids()[i2] == (
                    #[trigger] declared[d2]).dependent implies dep_followed(
                    graph.ids(),
                    graph.edges(),
                    i2,
                    declared[d2],
                ) by {}
                let h: int = head as int;
                let n: int = declared.len() as int;
                assert(h * n + n == (h + 1) * n) by (nonlinear_arith);
            }
            head += 1;
        }
        proof {
            graph.lemma_view();
        }
        Ok(graph)
    }
}

impl Default for DepGraph {
    fn default() -> (r: Self)
        ensures
            r.wf(),
            r.ids() == Seq::<Seq<char>>::empty(),
            r.kinds() == Seq::<DepKindSet>::empty(),
            r.edges() == Seq::<(int, int, DepKindSet)>::empty(),
    {
        DepGraph::new()
    }
}

} // verus!
