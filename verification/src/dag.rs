//! Dependency graph of a pipeline and its topological execution order.
use vstd::prelude::*;
use crate::manifest::{Manifest, Sink, Source, Transform, manifest_names, manifest_node_count, transform_copy};
use petgraph::graph::DiGraph;

verus! {

#[verifier::external_type_specification]
#[verifier::external_body]
#[verifier::reject_recursive_types(N)]
#[verifier::reject_recursive_types(E)]
#[verifier::reject_recursive_types(Ty)]
#[verifier::reject_recursive_types(Ix)]
pub struct ExGraph<N, E, Ty, Ix>(petgraph::graph::Graph<N, E, Ty, Ix>);

#[verifier::external_type_specification]
#[verifier::external_body]
pub struct ExDirected(petgraph::Directed);

/// The node weights a petgraph graph holds, by node index.
pub uninterp spec fn graph_node_weights(g: DiGraph<usize, ()>) -> Seq<usize>;

/// The edges a petgraph graph holds, as (source index, target index), by edge index.
pub uninterp spec fn graph_edges(g: DiGraph<usize, ()>) -> Seq<(usize, usize)>;

/// `(a, b)` is one of the edges.
pub open spec fn has_edge(edges: Seq<(usize, usize)>, a: int, b: int) -> bool {
    exists|k: int| 0 <= k < edges.len() && edges[k].0 == a && edges[k].1 == b
}

/// `p` follows edges from each element to the next.
pub open spec fn is_path(edges: Seq<(usize, usize)>, p: Seq<int>) -> bool {
    forall|i: int| 0 <= i < p.len() - 1 ==> #[trigger] has_edge(edges, p[i], p[i + 1])
}

/// Some path of at least one edge returns to where it started.
pub open spec fn has_cycle(edges: Seq<(usize, usize)>) -> bool {
    exists|p: Seq<int>| p.len() >= 2 && p[0] == p[p.len() - 1] && #[trigger] is_path(edges, p)
}

/// `order` lists each of the nodes `0..n` once, and every edge goes forward in it.
pub open spec fn is_topo_order(n: int, edges: Seq<(usize, usize)>, order: Seq<usize>) -> bool {
    &&& order.len() == n
    &&& order.no_duplicates()
    &&& forall|i: int| 0 <= i < order.len() ==> #[trigger] order[i] < n
    &&& forall|v: int| 0 <= v < n ==> #[trigger] order.contains(v as usize)
    &&& forall|k: int, i: int, j: int|
        #![trigger edges[k], order[i], order[j]]
        0 <= k < edges.len() && 0 <= i < order.len() && 0 <= j < order.len() && order[i]
            == edges[k].0 && order[j] == edges[k].1 ==> i < j
}

/// Creates an empty directed graph (`petgraph::graph::Graph::new`).
#[verifier::external_body]
fn graph_new() -> (g: DiGraph<usize, ()>)
    ensures
        graph_node_weights(g) == Seq::<usize>::empty(),
        graph_edges(g) == Seq::<(usize, usize)>::empty(),
{
    DiGraph::new()
}

/// Adds a node (`petgraph::graph::Graph::add_node`); it gets the next index.
/// The call panics when the `u32` index space is full, which `requires` rules out.
#[verifier::external_body]
fn graph_add_node(g: &mut DiGraph<usize, ()>, weight: usize) -> (idx: usize)
    requires
        graph_node_weights(*old(g)).len() < u32::MAX,
    ensures
        idx == graph_node_weights(*old(g)).len(),
        graph_node_weights(*final(g)) == graph_node_weights(*old(g)).push(weight),
        graph_edges(*final(g)) == graph_edges(*old(g)),
{
    g.add_node(weight).index()
}

/// Adds an edge (`petgraph::graph::Graph::add_edge`).
/// The call panics on unknown node indices or a full `u32` edge index space.
#[verifier::external_body]
fn graph_add_edge(g: &mut DiGraph<usize, ()>, a: usize, b: usize)
    requires
        a < graph_node_weights(*old(g)).len(),
        b < graph_node_weights(*old(g)).len(),
        graph_edges(*old(g)).len() < u32::MAX,
    ensures
        graph_node_weights(*final(g)) == graph_node_weights(*old(g)),
        graph_edges(*final(g)) == graph_edges(*old(g)).push((a, b)),
{
    g.add_edge(petgraph::graph::NodeIndex::new(a), petgraph::graph::NodeIndex::new(b), ());
}

/// Number of nodes (`petgraph::graph::Graph::node_count`).
#[verifier::external_body]
fn graph_node_count(g: &DiGraph<usize, ()>) -> (n: usize)
    ensures
        n == graph_node_weights(*g).len(),
{
    g.node_count()
}

/// Number of edges (`petgraph::graph::Graph::edge_count`).
#[verifier::external_body]
fn graph_edge_count(g: &DiGraph<usize, ()>) -> (n: usize)
    ensures
        n == graph_edges(*g).len(),
{
    g.edge_count()
}

/// Topological sort (`petgraph::algo::toposort`), node indices in order.
/// The documentation promises every node ordered before its successors when the
/// graph is acyclic, and an error otherwise; which of the valid orders comes back
/// is left unsaid.
#[verifier::external_body]
fn graph_toposort(g: &DiGraph<usize, ()>) -> (r: Result<Vec<usize>, ()>)
    ensures
        r matches Ok(order) ==> is_topo_order(
            graph_node_weights(*g).len() as int,
            graph_edges(*g),
            order@,
        ),
        r is Err ==> has_cycle(graph_edges(*g)),
{
    match petgraph::algo::toposort(g, None) {
        Ok(order) => Ok(order.iter().map(|i| i.index()).collect()),
        Err(_) => Err(()),
    }
}

/// Errors from building the dependency graph.
#[derive(Debug)]
pub enum DagError {
    CycleDetected,
    UnknownInput(String),
    DuplicateName(String),
}

/// A node of the pipeline graph.
#[derive(Debug)]
pub enum Node {
    Source(Source),
    Transform(Transform),
    Sink(Sink),
}

/// Name of a node.
pub open spec fn node_name(n: Node) -> Seq<char> {
    match n {
        Node::Source(s) => s.name@,
        Node::Transform(t) => t.name@,
        Node::Sink(s) => s.name@,
    }
}

impl Node {
    /// The node's name.
    pub fn name(&self) -> (r: &str)
        ensures
            r@ == node_name(*self),
    {
        match self {
            Node::Source(s) => s.name.as_str(),
            Node::Transform(t) => t.name.as_str(),
            Node::Sink(s) => s.name.as_str(),
        }
    }
}

/// `nodes` holds copies of the manifest's entries, sources then transforms then sinks.
pub open spec fn nodes_mirror_manifest(m: Manifest, nodes: Seq<Node>) -> bool {
    let ns = m.source@.len();
    let nt = m.transform@.len();
    &&& nodes.len() == ns + nt + m.sink@.len()
    &&& forall|i: int|
        0 <= i < ns ==> #[trigger] nodes[i] == Node::Source(m.source@[i])
    &&& forall|i: int|
        ns <= i < ns + nt ==> (#[trigger] nodes[i] matches Node::Transform(t) && transform_copy(t, m.transform@[i - ns]))
    &&& forall|i: int|
        ns + nt <= i < nodes.len() ==> #[trigger] nodes[i] == Node::Sink(m.sink@[i - ns - nt])
}

/// Index of the first name equal to `x`, or `-1`.
pub open spec fn first_index(names: Seq<Seq<char>>, x: Seq<char>) -> int
    decreases names.len(),
{
    if names.len() == 0 {
        -1
    } else {
        let p = first_index(names.drop_last(), x);
        if p >= 0 {
            p
        } else if names.last() == x {
            names.len() - 1
        } else {
            -1
        }
    }
}

/// Input names of the manifest's transforms, then of its sinks: the edge sources.
pub open spec fn manifest_inputs(m: Manifest) -> Seq<Seq<char>> {
    m.transform@.map_values(|t: Transform| t.input@) + m.sink@.map_values(|s: Sink| s.input@)
}

/// The dependency edges of a manifest: from each transform's and sink's input
/// to the transform or sink itself.
pub open spec fn manifest_edges(m: Manifest) -> Seq<(usize, usize)> {
    let names = manifest_names(m);
    let ins = manifest_inputs(m);
    Seq::new(
        ins.len(),
        |k: int| (first_index(names, ins[k]) as usize, (m.source@.len() + k) as usize),
    )
}

/// Index of the first name that repeats an earlier one, or `-1`.
pub open spec fn first_duplicate(names: Seq<Seq<char>>) -> int
    decreases names.len(),
{
    if names.len() == 0 {
        -1
    } else {
        let p = first_duplicate(names.drop_last());
        if p >= 0 {
            p
        } else if first_index(names.drop_last(), names.last()) >= 0 {
            names.len() - 1
        } else {
            -1
        }
    }
}

/// Index of the first element of `ins` absent from `names`, or `-1`.
pub open spec fn first_unknown(names: Seq<Seq<char>>, ins: Seq<Seq<char>>) -> int
    decreases ins.len(),
{
    if ins.len() == 0 {
        -1
    } else {
        let p = first_unknown(names, ins.drop_last());
        if p >= 0 {
            p
        } else if first_index(names, ins.last()) < 0 {
            ins.len() - 1
        } else {
            -1
        }
    }
}

/// What `Dag::from_manifest` decides for a manifest.
pub open spec fn manifest_dag_error(m: Manifest) -> Option<(int, Seq<char>)> {
    // (kind: 0 duplicate, 1 unknown input, 2 cycle; offending name)
    let names = manifest_names(m);
    let ins = manifest_inputs(m);
    if first_duplicate(names) >= 0 {
        Some((0, names[first_duplicate(names)]))
    } else if first_unknown(names, ins) >= 0 {
        Some((1, ins[first_unknown(names, ins)]))
    } else if has_cycle(manifest_edges(m)) {
        Some((2, Seq::empty()))
    } else {
        None
    }
}

/// Pipeline dependency graph with its nodes.
pub struct Dag {
    graph: DiGraph<usize, ()>,
    nodes: Vec<Node>,
    /// The execution order, fixed when the graph was built: node indices.
    order: Vec<usize>,
}

impl Dag {
    /// The graph's nodes, by index.
    pub closed spec fn spec_nodes(&self) -> Seq<Node> {
        self.nodes@
    }

    /// The graph's edges, by node index.
    pub closed spec fn spec_edges(&self) -> Seq<(usize, usize)> {
        graph_edges(self.graph)
    }

    /// The execution order fixed when the graph was built: every node once,
    /// each after the nodes it reads from.
    pub closed spec fn spec_order(&self) -> Seq<Node> {
        Seq::new(self.order@.len(), |q: int| self.nodes@[self.order@[q] as int])
    }

    #[verifier::type_invariant]
    closed spec fn inv(&self) -> bool {
        &&& is_topo_order(self.nodes@.len() as int, graph_edges(self.graph), self.order@)
        &&& graph_node_weights(self.graph).len() == self.nodes@.len()
        &&& node_names(self.nodes@).no_duplicates()
        &&& forall|k: int|
            0 <= k < graph_edges(self.graph).len() ==> #[trigger] graph_edges(self.graph)[k].0
                < self.nodes@.len() && graph_edges(self.graph)[k].1 < self.nodes@.len()
        &&& !has_cycle(graph_edges(self.graph))
    }
}

} // verus!

verus! {

/// Names of a sequence of nodes.
pub open spec fn node_names(nodes: Seq<Node>) -> Seq<Seq<char>> {
    nodes.map_values(|n: Node| node_name(n))
}

/// `v` lists the nodes in an order that `is_topo_order` admits.
pub open spec fn is_node_order(nodes: Seq<Node>, edges: Seq<(usize, usize)>, v: Seq<Node>) -> bool {
    exists|order: Seq<usize>|
        #![trigger is_topo_order(nodes.len() as int, edges, order)]
        is_topo_order(nodes.len() as int, edges, order) && v.len() == order.len() && forall|i: int|
            0 <= i < v.len() ==> #[trigger] v[i] == nodes[order[i] as int]
}

/// Characterizes `first_index`.
pub proof fn lemma_first_index(s: Seq<Seq<char>>, x: Seq<char>)
    ensures
        -1 <= first_index(s, x) < s.len(),
        first_index(s, x) == -1 <==> !s.contains(x),
        first_index(s, x) >= 0 ==> s[first_index(s, x)] == x,
        forall|j: int| 0 <= j < first_index(s, x) ==> s[j] != x,
    decreases s.len(),
{
    if s.len() > 0 {
        lemma_first_index(s.drop_last(), x);
        if first_index(s.drop_last(), x) == -1 {
            assert forall|j: int| 0 <= j < s.len() - 1 implies s[j] != x by {
                assert(s.drop_last()[j] == s[j]);
                if s[j] == x {
                    assert(s.drop_last().contains(x));
                }
            }
        }
        if s.contains(x) && first_index(s.drop_last(), x) == -1 && s.last() != x {
            let j = choose|j: int| 0 <= j < s.len() && s[j] == x;
            assert(s.drop_last()[j] == s[j]);
        }
        if s.drop_last().contains(x) {
            let j = choose|j: int| 0 <= j < s.len() - 1 && s.drop_last()[j] == x;
            assert(s[j] == x);
        }
        assert forall|j: int| 0 <= j < first_index(s, x) implies s[j] != x by {
            assert(s.drop_last()[j] == s[j]);
        }
    }
}

/// A first occurrence found in a prefix is the first occurrence in the whole.
pub proof fn lemma_first_index_prefix(s: Seq<Seq<char>>, k: int, x: Seq<char>)
    requires
        0 <= k <= s.len(),
        first_index(s.take(k), x) >= 0,
    ensures
        first_index(s, x) == first_index(s.take(k), x),
    decreases s.len() - k,
{
    if k == s.len() {
        assert(s.take(k) =~= s);
    } else {
        assert(s.drop_last().take(k) =~= s.take(k));
        lemma_first_index_prefix(s.drop_last(), k, x);
    }
}

/// Extending a prefix by one element extends `first_index` as expected.
pub proof fn lemma_first_index_step(s: Seq<Seq<char>>, k: int, x: Seq<char>)
    requires
        0 <= k < s.len(),
    ensures
        first_index(s.take(k + 1), x) == (if first_index(s.take(k), x) >= 0 {
            first_index(s.take(k), x)
        } else if s[k] == x {
            k
        } else {
            -1
        }),
{
    assert(s.take(k + 1).drop_last() =~= s.take(k));
}

/// A duplicate found in a prefix is the first duplicate of the whole.
pub proof fn lemma_first_duplicate_prefix(s: Seq<Seq<char>>, k: int)
    requires
        0 <= k <= s.len(),
        first_duplicate(s.take(k)) >= 0,
    ensures
        first_duplicate(s) == first_duplicate(s.take(k)),
    decreases s.len() - k,
{
    if k == s.len() {
        assert(s.take(k) =~= s);
    } else {
        assert(s.drop_last().take(k) =~= s.take(k));
        lemma_first_duplicate_prefix(s.drop_last(), k);
    }
}

/// `first_duplicate` is an index or `-1`.
pub proof fn lemma_first_duplicate_range(s: Seq<Seq<char>>)
    ensures
        -1 <= first_duplicate(s) < s.len(),
    decreases s.len(),
{
    if s.len() > 0 {
        lemma_first_duplicate_range(s.drop_last());
    }
}

/// Without a duplicate, every name occurs once.
pub proof fn lemma_no_duplicate(s: Seq<Seq<char>>)
    requires
        first_duplicate(s) == -1,
    ensures
        s.no_duplicates(),
    decreases s.len(),
{
    if s.len() > 0 {
        lemma_no_duplicate(s.drop_last());
        lemma_first_index(s.drop_last(), s.last());
        assert forall|i: int, j: int| 0 <= i < s.len() && 0 <= j < s.len() && i != j implies s[i]
            != s[j] by {
            if j == s.len() - 1 {
                assert(s.drop_last()[i] == s[i]);
            } else if i == s.len() - 1 {
                assert(s.drop_last()[j] == s[j]);
            } else {
                assert(s.drop_last()[i] == s[i]);
                assert(s.drop_last()[j] == s[j]);
            }
        }
    }
}

/// An unknown input found in a prefix is the first unknown input of the whole.
pub proof fn lemma_first_unknown_prefix(names: Seq<Seq<char>>, ins: Seq<Seq<char>>, k: int)
    requires
        0 <= k <= ins.len(),
        first_unknown(names, ins.take(k)) >= 0,
    ensures
        first_unknown(names, ins) == first_unknown(names, ins.take(k)),
    decreases ins.len() - k,
{
    if k == ins.len() {
        assert(ins.take(k) =~= ins);
    } else {
        assert(ins.drop_last().take(k) =~= ins.take(k));
        lemma_first_unknown_prefix(names, ins.drop_last(), k);
    }
}

/// Without an unknown input, every input names a node.
pub proof fn lemma_no_unknown(names: Seq<Seq<char>>, ins: Seq<Seq<char>>)
    requires
        first_unknown(names, ins) == -1,
    ensures
        forall|k: int| 0 <= k < ins.len() ==> #[trigger] first_index(names, ins[k]) >= 0,
    decreases ins.len(),
{
    if ins.len() > 0 {
        lemma_no_unknown(names, ins.drop_last());
        assert forall|k: int| 0 <= k < ins.len() implies #[trigger] first_index(names, ins[k])
            >= 0 by {
            if k < ins.len() - 1 {
                assert(ins.drop_last()[k] == ins[k]);
            }
        }
    }
}

/// Along a path, positions in a topological order strictly increase.
proof fn lemma_path_increases(n: int, edges: Seq<(usize, usize)>, order: Seq<usize>, p: Seq<int>, pos: spec_fn(int) -> int)
    requires
        is_topo_order(n, edges, order),
        is_path(edges, p),
        p.len() >= 2,
        forall|v: int| 0 <= v < n ==> 0 <= #[trigger] pos(v) < order.len() && order[pos(v)] == v,
        forall|k: int| 0 <= k < edges.len() ==> #[trigger] edges[k].0 < n && edges[k].1 < n,
    ensures
        0 <= p[0] < n,
        0 <= p[p.len() - 1] < n,
        pos(p[0]) < pos(p[p.len() - 1]),
    decreases p.len(),
{
    let i0: int = 0;
    assert(has_edge(edges, p[i0], p[i0 + 1]));
    let k = choose|k: int| 0 <= k < edges.len() && edges[k].0 == p[0] && edges[k].1 == p[1];
    assert(order[pos(p[0])] == edges[k].0);
    assert(order[pos(p[1])] == edges[k].1);
    if p.len() > 2 {
        let q = p.drop_first();
        assert forall|i: int| 0 <= i < q.len() - 1 implies #[trigger] has_edge(edges, q[i], q[i + 1]) by {
            let i1: int = i + 1;
            assert(has_edge(edges, p[i1], p[i1 + 1]));
        }
        lemma_path_increases(n, edges, order, q, pos);
    }
}

/// A graph with a topological order has no cycle.
pub proof fn lemma_topo_order_acyclic(n: int, edges: Seq<(usize, usize)>, order: Seq<usize>)
    requires
        is_topo_order(n, edges, order),
        n <= usize::MAX,
        forall|k: int| 0 <= k < edges.len() ==> #[trigger] edges[k].0 < n && edges[k].1 < n,
    ensures
        !has_cycle(edges),
{
    let pos = |v: int| choose|i: int| 0 <= i < order.len() && order[i] == v;
    assert forall|v: int| 0 <= v < n implies 0 <= #[trigger] pos(v) < order.len() && order[pos(v)] == v by {
        assert(order.contains(v as usize));
        let i = choose|i: int| 0 <= i < order.len() && order[i] == v as usize;
        assert(order[i] == v);
    }
    if has_cycle(edges) {
        let p = choose|p: Seq<int>| p.len() >= 2 && p[0] == p[p.len() - 1] && #[trigger] is_path(edges, p);
        lemma_path_increases(n, edges, order, p, pos);
    }
}

/// Index of the first node named `name`.
fn find_node(nodes: &Vec<Node>, name: &str) -> (r: Option<usize>)
    ensures
        r matches Some(i) ==> i as int == first_index(node_names(nodes@), name@),
        r is None ==> first_index(node_names(nodes@), name@) == -1,
{
    let ghost names = node_names(nodes@);
    let mut i: usize = 0;
    while i < nodes.len()
        invariant
            i <= nodes@.len(),
            names == node_names(nodes@),
            first_index(names.take(i as int), name@) == -1,
        decreases nodes@.len() - i,
    {
        proof {
            lemma_first_index_step(names, i as int, name@);
        }
        let n = nodes[i].name();
        if crate::text::str_eq(n, name) {
            proof {
                lemma_first_index_prefix(names, i + 1, name@);
            }
            return Some(i);
        }
        i = i + 1;
    }
    proof {
        assert(names.take(nodes@.len() as int) =~= names);
    }
    None
}

} // verus!

verus! {

/// Names of a manifest's nodes at given positions.
pub proof fn lemma_manifest_name_at(m: Manifest, i: int)
    requires
        0 <= i < manifest_node_count(m),
    ensures
        manifest_names(m).len() == manifest_node_count(m),
        i < m.source@.len() ==> manifest_names(m)[i] == m.source@[i].name@,
        m.source@.len() <= i < m.source@.len() + m.transform@.len() ==> manifest_names(m)[i]
            == m.transform@[i - m.source@.len()].name@,
        m.source@.len() + m.transform@.len() <= i ==> manifest_names(m)[i] == m.sink@[i
            - m.source@.len() - m.transform@.len()].name@,
{
    let a = m.source@.map_values(|s: Source| s.name@);
    let b = m.transform@.map_values(|t: Transform| t.name@);
    let c = m.sink@.map_values(|s: Sink| s.name@);
    assert(manifest_names(m) == a + b + c);
    if i < a.len() {
        assert((a + b)[i] == a[i]);
    } else if i < a.len() + b.len() {
        assert((a + b)[i] == b[i - a.len()]);
    }
}

/// Inputs of a manifest at given positions.
proof fn lemma_manifest_input_at(m: Manifest, k: int)
    requires
        0 <= k < m.transform@.len() + m.sink@.len(),
    ensures
        manifest_inputs(m).len() == m.transform@.len() + m.sink@.len(),
        k < m.transform@.len() ==> manifest_inputs(m)[k] == m.transform@[k].input@,
        m.transform@.len() <= k ==> manifest_inputs(m)[k] == m.sink@[k - m.transform@.len()].input@,
{
}

/// Appending a node extends the names by its name.
proof fn lemma_node_names_push(nodes: Seq<Node>, n: Node)
    ensures
        node_names(nodes.push(n)) == node_names(nodes).push(node_name(n)),
{
    assert(node_names(nodes.push(n)) =~= node_names(nodes).push(node_name(n)));
}

/// One step of the duplicate scan over a prefix of names.
proof fn lemma_duplicate_step(names: Seq<Seq<char>>, i: int)
    requires
        0 <= i < names.len(),
        first_duplicate(names.take(i)) == -1,
    ensures
        first_index(names.take(i), names[i]) >= 0 ==> first_duplicate(names) == i,
        first_index(names.take(i), names[i]) < 0 ==> first_duplicate(names.take(i + 1)) == -1,
{
    assert(names.take(i + 1).drop_last() =~= names.take(i));
    assert(names.take(i + 1).last() == names[i]);
    if first_index(names.take(i), names[i]) >= 0 {
        lemma_first_duplicate_prefix(names, i + 1);
    }
}

/// One step of the unknown-input scan.
proof fn lemma_unknown_step(names: Seq<Seq<char>>, ins: Seq<Seq<char>>, k: int)
    requires
        0 <= k < ins.len(),
        first_unknown(names, ins.take(k)) == -1,
    ensures
        first_index(names, ins[k]) < 0 ==> first_unknown(names, ins) == k,
        first_index(names, ins[k]) >= 0 ==> first_unknown(names, ins.take(k + 1)) == -1,
{
    assert(ins.take(k + 1).drop_last() =~= ins.take(k));
    assert(ins.take(k + 1).last() == ins[k]);
    if first_index(names, ins[k]) < 0 {
        lemma_first_unknown_prefix(names, ins, k + 1);
    }
}

impl Dag {
    /// Builds the dependency graph of a manifest: one node per source, transform and
    /// sink (in that order), and one edge from each transform's and sink's input to it.
    /// Fails on the first repeated name, then on the first input naming no node, then
    /// on a cycle.
    pub fn from_manifest(manifest: &Manifest) -> (r: Result<Dag, DagError>)
        requires
            crate::manifest::manifest_node_count(*manifest) < u32::MAX,
        ensures
            (manifest_dag_error(*manifest) is None) <==> (r is Ok),
            r matches Ok(dag) ==> nodes_mirror_manifest(*manifest, dag.spec_nodes())
                && dag.spec_edges() == manifest_edges(*manifest),
            r matches Err(DagError::DuplicateName(n)) ==> manifest_dag_error(*manifest) == Some(
                (0int, n@),
            ),
            r matches Err(DagError::UnknownInput(n)) ==> manifest_dag_error(*manifest) == Some(
                (1int, n@),
            ),
            r matches Err(DagError::CycleDetected) ==> manifest_dag_error(*manifest) == Some(
                (2int, Seq::<char>::empty()),
            ),
    {
        let ghost m = *manifest;
        let ghost names = manifest_names(m);
        let ns = manifest.source.len();
        let nt = manifest.transform.len();
        let nk = manifest.sink.len();
        let mut nodes: Vec<Node> = Vec::new();
        let mut i: usize = 0;
        while i < ns
            invariant
                m == *manifest,
                names == manifest_names(m),
                ns == m.source@.len(),
                nt == m.transform@.len(),
                nk == m.sink@.len(),
                ns + nt + nk < u32::MAX,
                i <= ns,
                nodes@.len() == i,
                forall|k: int| 0 <= k < i ==> #[trigger] nodes@[k] == Node::Source(m.source@[k]),
                node_names(nodes@) == names.take(i as int),
                first_duplicate(names.take(i as int)) == -1,
            decreases ns - i,
        {
            let src = &manifest.source[i];
            proof {
                lemma_manifest_name_at(m, i as int);
                lemma_duplicate_step(names, i as int);
            }
            if let Some(_) = find_node(&nodes, src.name.as_str()) {
                return Err(DagError::DuplicateName(src.name.clone()));
            }
            let node = Node::Source(src.duplicate());
            proof {
                lemma_node_names_push(nodes@, node);
                assert(names.take(i + 1) =~= names.take(i as int).push(names[i as int]));
            }
            nodes.push(node);
            i = i + 1;
        }
        let mut j: usize = 0;
        while j < nt
            invariant
                m == *manifest,
                names == manifest_names(m),
                ns == m.source@.len(),
                nt == m.transform@.len(),
                nk == m.sink@.len(),
                ns + nt + nk < u32::MAX,
                j <= nt,
                nodes@.len() == ns + j,
                forall|k: int| 0 <= k < ns ==> #[trigger] nodes@[k] == Node::Source(m.source@[k]),
                forall|k: int|
                    ns <= k < ns + j ==> (#[trigger] nodes@[k] matches Node::Transform(t) && transform_copy(t, m.transform@[k - ns])),
                node_names(nodes@) == names.take(ns + j),
                first_duplicate(names.take(ns + j)) == -1,
            decreases nt - j,
        {
            let t = &manifest.transform[j];
            proof {
                lemma_manifest_name_at(m, ns + j);
                lemma_duplicate_step(names, ns + j);
            }
            if let Some(_) = find_node(&nodes, t.name.as_str()) {
                return Err(DagError::DuplicateName(t.name.clone()));
            }
            let node = Node::Transform(t.duplicate());
            proof {
                lemma_node_names_push(nodes@, node);
                assert(names.take(ns + j + 1) =~= names.take(ns + j).push(names[ns + j]));
            }
            nodes.push(node);
            j = j + 1;
        }
        let mut k: usize = 0;
        while k < nk
            invariant
                m == *manifest,
                names == manifest_names(m),
                ns == m.source@.len(),
                nt == m.transform@.len(),
                nk == m.sink@.len(),
                ns + nt + nk < u32::MAX,
                k <= nk,
                nodes@.len() == ns + nt + k,
                forall|q: int| 0 <= q < ns ==> #[trigger] nodes@[q] == Node::Source(m.source@[q]),
                forall|q: int|
                    ns <= q < ns + nt ==> (#[trigger] nodes@[q] matches Node::Transform(t) && transform_copy(t, m.transform@[q - ns])),
                forall|q: int|
                    ns + nt <= q < ns + nt + k ==> #[trigger] nodes@[q] == Node::Sink(
                        m.sink@[q - ns - nt],
                    ),
                node_names(nodes@) == names.take(ns + nt + k),
                first_duplicate(names.take(ns + nt + k)) == -1,
            decreases nk - k,
        {
            let s = &manifest.sink[k];
            proof {
                lemma_manifest_name_at(m, ns + nt + k);
                lemma_duplicate_step(names, ns + nt + k);
            }
            if let Some(_) = find_node(&nodes, s.name.as_str()) {
                return Err(DagError::DuplicateName(s.name.clone()));
            }
            let node = Node::Sink(s.duplicate());
            proof {
                lemma_node_names_push(nodes@, node);
                assert(names.take(ns + nt + k + 1) =~= names.take(ns + nt + k).push(
                    names[ns + nt + k],
                ));
            }
            nodes.push(node);
            k = k + 1;
        }
        let n = nodes.len();
        proof {
            assert(names.len() == n);
            assert(names.take(n as int) =~= names);
            lemma_no_duplicate(names);
        }
        let mut graph = graph_new();
        let mut i: usize = 0;
        while i < n
            invariant
                i <= n,
                n < u32::MAX,
                graph_node_weights(graph).len() == i,
                graph_edges(graph) == Seq::<(usize, usize)>::empty(),
            decreases n - i,
        {
            graph_add_node(&mut graph, i);
            i = i + 1;
        }
        let ghost ins = manifest_inputs(m);
        let ghost edges = manifest_edges(m);
        let mut j: usize = 0;
        while j < nt
            invariant
                m == *manifest,
                names == manifest_names(m),
                ins == manifest_inputs(m),
                edges == manifest_edges(m),
                ns == m.source@.len(),
                nt == m.transform@.len(),
                nk == m.sink@.len(),
                n == ns + nt + nk,
                n < u32::MAX,
                node_names(nodes@) == names,
                first_duplicate(names) == -1,
                j <= nt,
                graph_node_weights(graph).len() == n,
                graph_edges(graph) == edges.take(j as int),
                first_unknown(names, ins.take(j as int)) == -1,
            decreases nt - j,
        {
            let t = &manifest.transform[j];
            proof {
                lemma_manifest_input_at(m, j as int);
                lemma_unknown_step(names, ins, j as int);
                lemma_first_index(names, ins[j as int]);
            }
            match find_node(&nodes, t.input.as_str()) {
                None => {
                    return Err(DagError::UnknownInput(t.input.clone()));
                },
                Some(from) => {
                    graph_add_edge(&mut graph, from, ns + j);
                    proof {
                        assert(edges.take(j + 1) =~= edges.take(j as int).push(edges[j as int]));
                    }
                },
            }
            j = j + 1;
        }
        let mut k: usize = 0;
        while k < nk
            invariant
                m == *manifest,
                names == manifest_names(m),
                ins == manifest_inputs(m),
                edges == manifest_edges(m),
                ns == m.source@.len(),
                nt == m.transform@.len(),
                nk == m.sink@.len(),
                n == ns + nt + nk,
                n < u32::MAX,
                node_names(nodes@) == names,
                first_duplicate(names) == -1,
                k <= nk,
                graph_node_weights(graph).len() == n,
                graph_edges(graph) == edges.take(nt + k),
                first_unknown(names, ins.take(nt + k)) == -1,
            decreases nk - k,
        {
            let s = &manifest.sink[k];
            proof {
                lemma_manifest_input_at(m, nt + k);
                lemma_unknown_step(names, ins, nt + k);
                lemma_first_index(names, ins[nt + k]);
            }
            match find_node(&nodes, s.input.as_str()) {
                None => {
                    return Err(DagError::UnknownInput(s.input.clone()));
                },
                Some(from) => {
                    graph_add_edge(&mut graph, from, ns + nt + k);
                    proof {
                        assert(edges.take(nt + k + 1) =~= edges.take(nt + k).push(edges[nt + k]));
                    }
                },
            }
            k = k + 1;
        }
        proof {
            assert(ins.len() == nt + nk);
            assert(edges.take(nt + nk) =~= edges);
            assert(ins.take(nt + nk) =~= ins);
            lemma_no_unknown(names, ins);
            assert forall|q: int| 0 <= q < edges.len() implies #[trigger] edges[q].0 < n
                && edges[q].1 < n by {
                lemma_first_index(names, ins[q]);
            }
        }
        match graph_toposort(&graph) {
            Err(()) => Err(DagError::CycleDetected),
            Ok(order) => {
                proof {
                    lemma_topo_order_acyclic(n as int, edges, order@);
                }
                Ok(Dag { graph, nodes, order })
            },
        }
    }
}

} // verus!

verus! {

impl Dag {
    /// The execution order fixed when the graph was built (`spec_order`): every
    /// node once, each after all nodes it reads from. A built graph is acyclic,
    /// so this always succeeds.
    pub fn topological_order(&self) -> (r: Result<Vec<&Node>, DagError>)
        ensures
            r matches Ok(v) ==> is_node_order(
                self.spec_nodes(),
                self.spec_edges(),
                v@.map_values(|n: &Node| *n),
            ),
            r matches Ok(v) ==> v@.map_values(|n: &Node| *n) == self.spec_order(),
            r is Ok,
    {
        proof {
            use_type_invariant(self);
        }
        let mut v: Vec<&Node> = Vec::new();
        let mut i: usize = 0;
        while i < self.order.len()
            invariant
                i <= self.order@.len(),
                is_topo_order(self.nodes@.len() as int, graph_edges(self.graph), self.order@),
                v@.len() == i,
                forall|q: int| 0 <= q < i ==> *v@[q] == self.nodes@[self.order@[q] as int],
            decreases self.order@.len() - i,
        {
            let idx = self.order[i];
            v.push(&self.nodes[idx]);
            i = i + 1;
        }
        proof {
            let vv = v@.map_values(|n: &Node| *n);
            assert forall|q: int| 0 <= q < vv.len() implies #[trigger] vv[q]
                == self.nodes@[self.order@[q] as int] by {}
            assert(vv =~= self.spec_order());
        }
        Ok(v)
    }

    /// The node with the given name, if any.
    pub fn get_node(&self, name: &str) -> (r: Option<&Node>)
        ensures
            r matches Some(n) ==> node_name(*n) == name@ && self.spec_nodes().contains(*n),
            r is None ==> !node_names(self.spec_nodes()).contains(name@),
    {
        match find_node(&self.nodes, name) {
            Some(i) => {
                proof {
                    lemma_first_index(node_names(self.nodes@), name@);
                    assert(self.nodes@.contains(self.nodes@[i as int]));
                }
                Some(&self.nodes[i])
            },
            None => {
                proof {
                    lemma_first_index(node_names(self.nodes@), name@);
                }
                None
            },
        }
    }

    /// Number of nodes.
    pub fn node_count(&self) -> (r: usize)
        ensures
            r == self.spec_nodes().len(),
    {
        proof {
            use_type_invariant(self);
        }
        graph_node_count(&self.graph)
    }

    /// Number of edges.
    pub fn edge_count(&self) -> (r: usize)
        ensures
            r == self.spec_edges().len(),
    {
        graph_edge_count(&self.graph)
    }
}

/// In any execution order of a graph built from a manifest, every transform and
/// every sink comes after the node it reads from.
pub proof fn law_inputs_precede(m: Manifest, dag: Dag, v: Seq<Node>)
    requires
        manifest_node_count(m) < u32::MAX,
        manifest_dag_error(m) is None,
        nodes_mirror_manifest(m, dag.spec_nodes()),
        dag.spec_edges() == manifest_edges(m),
        is_node_order(dag.spec_nodes(), dag.spec_edges(), v),
    ensures
        forall|i: int|
            0 <= i < v.len() ==> match #[trigger] v[i] {
                Node::Source(_) => true,
                Node::Transform(t) => exists|j: int| 0 <= j < i && node_name(v[j]) == t.input@,
                Node::Sink(s) => exists|j: int| 0 <= j < i && node_name(v[j]) == s.input@,
            },
{
    let nodes = dag.spec_nodes();
    let edges = dag.spec_edges();
    let names = manifest_names(m);
    let ns = m.source@.len() as int;
    let nt = m.transform@.len() as int;
    let order = choose|order: Seq<usize>|
        #![trigger is_topo_order(nodes.len() as int, edges, order)]
        is_topo_order(nodes.len() as int, edges, order) && v.len() == order.len() && forall|i: int|
            0 <= i < v.len() ==> #[trigger] v[i] == nodes[order[i] as int];
    assert(node_names(nodes) =~= names) by {
        assert forall|q: int| 0 <= q < nodes.len() implies #[trigger] node_names(nodes)[q]
            == names[q] by {
            lemma_manifest_name_at(m, q);
        }
    }
    assert forall|i: int| 0 <= i < v.len() implies match #[trigger] v[i] {
        Node::Source(_) => true,
        Node::Transform(t) => exists|j: int| 0 <= j < i && node_name(v[j]) == t.input@,
        Node::Sink(s) => exists|j: int| 0 <= j < i && node_name(v[j]) == s.input@,
    } by {
        let x = order[i] as int;
        assert(v[i] == nodes[x]);
        if x >= ns {
            // the node at x is the target of edge k
            let k = x - ns;
            lemma_manifest_input_at(m, k);
            let ins = manifest_inputs(m);
            lemma_first_unknown_range(names, ins);
            lemma_no_unknown(names, ins);
            lemma_first_index(names, ins[k]);
            let a = first_index(names, ins[k]);
            assert(edges[k] == (a as usize, x as usize));
            assert(order.contains(a as usize));
            let j = choose|j: int| 0 <= j < order.len() && order[j] == a as usize;
            assert(order[j] == edges[k].0 && order[i] == edges[k].1);
            assert(j < i);
            assert(v[j] == nodes[a]);
            assert(node_name(v[j]) == node_names(nodes)[a]);
            if x < ns + nt {
                assert(nodes[x] matches Node::Transform(t) && t.input == m.transform@[k].input);
            } else {
                assert(nodes[x] == Node::Sink(m.sink@[k - nt]));
            }
        }
    }
}

/// `first_unknown` is an index or `-1`.
proof fn lemma_first_unknown_range(names: Seq<Seq<char>>, ins: Seq<Seq<char>>)
    ensures
        -1 <= first_unknown(names, ins) < ins.len(),
    decreases ins.len(),
{
    if ins.len() > 0 {
        lemma_first_unknown_range(names, ins.drop_last());
    }
}

} // verus!
