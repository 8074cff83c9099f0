//! Visual pipeline graph: nodes with layout positions and ports, and the edges
//! between them, for node-graph editors.
use vstd::prelude::*;
use crate::manifest::{Manifest, ParamValue, ParamView, Params, Project, Sink, Source, Transform, param_view, toml_text};
use crate::pipeline::PipelineError;
use crate::text::{decimal, u64_text};
use crate::keyed::{key_position, set_entry, lemma_key_position, lemma_key_position_range};

verus! {

/// A 2-D layout position; each coordinate is held by its decimal text.
#[derive(Debug)]
pub struct Position {
    pub x: String,
    pub y: String,
}

/// Port direction on a visual node.
#[derive(Debug, Clone, Copy, PartialEq, Eq, Structural)]
pub enum PortDirection {
    Input,
    Output,
}

/// A connection port on a node.
#[derive(Debug)]
pub struct Port {
    pub id: String,
    pub direction: PortDirection,
    pub label: String,
}

/// The kind of a visual node.
#[derive(Debug, Clone, Copy, PartialEq, Eq, Structural)]
pub enum NodeKind {
    Source,
    Transform,
    Sink,
}

/// A node parameter as it appears in the graph's JSON: a string, or any other
/// JSON value held by its JSON text.
#[derive(Debug)]
pub enum JsonParam {
    Str(String),
    Other(String),
}

impl View for JsonParam {
    /// Whether the value is a string, and its text.
    type V = (bool, Seq<char>);

    open spec fn view(&self) -> (bool, Seq<char>) {
        match self {
            JsonParam::Str(s) => (true, s@),
            JsonParam::Other(t) => (false, t@),
        }
    }
}

/// A node in the visual pipeline graph.
#[derive(Debug)]
pub struct VisualNode {
    pub id: String,
    pub kind: NodeKind,
    pub label: String,
    pub position: Position,
    pub ports: Vec<Port>,
    /// Node-specific parameters (operation, format, path, ...), one entry per key.
    pub params: Vec<(String, JsonParam)>,
}

/// An edge connecting two ports.
#[derive(Debug)]
pub struct VisualEdge {
    pub id: String,
    pub from_node: String,
    pub from_port: String,
    pub to_node: String,
    pub to_port: String,
}

/// The complete visual pipeline graph.
#[derive(Debug)]
pub struct VisualPipeline {
    pub name: String,
    pub version: String,
    pub nodes: Vec<VisualNode>,
    pub edges: Vec<VisualEdge>,
}

/// Entries of a node's parameter list, by key text and value view.
pub open spec fn json_entries(ps: Seq<(String, JsonParam)>) -> Seq<(Seq<char>, (bool, Seq<char>))> {
    ps.map_values(|e: (String, JsonParam)| (e.0@, e.1@))
}

/// Entries of a transform's parameter table, by key text.
pub open spec fn param_entries(ps: Seq<(String, ParamValue)>) -> Seq<(Seq<char>, ParamValue)> {
    crate::keyed::raw_entries(ps)
}

/// Sets a node parameter (map insertion).
pub fn set_json_param(ps: &mut Vec<(String, JsonParam)>, k: String, v: JsonParam)
    ensures
        json_entries(final(ps)@) == set_entry(json_entries(old(ps)@), k@, v@),
{
    let ghost es = json_entries(ps@);
    let mut i: usize = 0;
    while i < ps.len()
        invariant
            i <= ps@.len(),
            es == json_entries(ps@),
            es == json_entries(old(ps)@),
            forall|j: int| 0 <= j < i ==> es[j].0 != k@,
        decreases ps@.len() - i,
    {
        if crate::text::str_eq(ps[i].0.as_str(), k.as_str()) {
            proof {
                lemma_key_position(es, k@, i as int);
            }
            ps.set(i, (k, v));
            proof {
                assert(json_entries(ps@) =~= set_entry(es, k@, v@));
            }
            return;
        }
        i = i + 1;
    }
    proof {
        lemma_key_position(es, k@, i as int);
    }
    ps.push((k, v));
    proof {
        assert(json_entries(ps@) =~= set_entry(es, k@, v@));
    }
}

} // verus!

verus! {

// ---------------------------------------------------------------------------
// Building the graph from a manifest
// ---------------------------------------------------------------------------

/// Text of a layout coordinate with integral value `n`.
pub open spec fn layout_coord(n: nat) -> Seq<char> {
    decimal(n) + ".0"@
}

/// Vertical distance between rows of the layout.
pub open spec fn row_height() -> nat {
    120
}

/// Rows up to `n` lie where a double-precision coordinate is exact.
pub open spec fn rows_exact(n: nat) -> bool {
    row_height() * n <= 0x20_0000_0000_0000
}

/// `p` is the port `id` in direction `dir` labelled `label`.
pub open spec fn is_port(p: Port, id: Seq<char>, dir: PortDirection, label: Seq<char>) -> bool {
    p.id@ == id && p.direction == dir && p.label@ == label
}

/// `pos` is column `x`, row `row` of the layout.
pub open spec fn is_position(pos: Position, x: nat, row: nat) -> bool {
    pos.x@ == layout_coord(x) && pos.y@ == layout_coord(row_height() * row)
}

/// Text of an optional CRS, empty when absent.
pub open spec fn crs_text(crs: Option<String>) -> Seq<char> {
    match crs {
        Some(c) => c@,
        None => Seq::empty(),
    }
}

/// `n` is the node drawn for source `s` in row `row`.
pub open spec fn is_source_node(n: VisualNode, s: Source, row: nat) -> bool {
    &&& n.id@ == s.name@
    &&& n.kind == NodeKind::Source
    &&& n.label@ == s.name@
    &&& is_position(n.position, 0, row)
    &&& n.ports@.len() == 1
    &&& is_port(n.ports@[0], "output"@, PortDirection::Output, "data"@)
    &&& json_entries(n.params@) == seq![
        ("format"@, (true, s.format@)),
        ("path"@, (true, s.path@)),
        ("crs"@, (true, crs_text(s.crs))),
    ]
}

/// Parameters shown for a transform: its operation, then each parameter's TOML
/// text, inserted in order into one map.
pub open spec fn transform_entries(op: Seq<char>, ps: Seq<(String, ParamValue)>) -> Seq<
    (Seq<char>, (bool, Seq<char>)),
>
    decreases ps.len(),
{
    if ps.len() == 0 {
        seq![("operation"@, (true, op))]
    } else {
        set_entry(
            transform_entries(op, ps.drop_last()),
            ps.last().0@,
            (true, crate::manifest::toml_text(ps.last().1)),
        )
    }
}

/// `n` is the node drawn for transform `t` in row `row`.
pub open spec fn is_transform_node(n: VisualNode, t: Transform, row: nat) -> bool {
    &&& n.id@ == t.name@
    &&& n.kind == NodeKind::Transform
    &&& n.label@ == t.name@
    &&& is_position(n.position, 300, row)
    &&& n.ports@.len() == 2
    &&& is_port(n.ports@[0], "input"@, PortDirection::Input, "in"@)
    &&& is_port(n.ports@[1], "output"@, PortDirection::Output, "out"@)
    &&& json_entries(n.params@) == transform_entries(t.operation@, t.params@)
}

/// `n` is the node drawn for sink `s` in row `row`.
pub open spec fn is_sink_node(n: VisualNode, s: Sink, row: nat) -> bool {
    &&& n.id@ == s.name@
    &&& n.kind == NodeKind::Sink
    &&& n.label@ == s.name@
    &&& is_position(n.position, 600, row)
    &&& n.ports@.len() == 1
    &&& is_port(n.ports@[0], "input"@, PortDirection::Input, "data"@)
    &&& json_entries(n.params@) == seq![("format"@, (true, s.format@)), ("path"@, (true, s.path@))]
}

/// `e` connects the output of `from` to the input of `to`.
pub open spec fn is_edge(e: VisualEdge, from: Seq<char>, to: Seq<char>) -> bool {
    &&& e.id@ == "edge-"@ + from + "-"@ + to
    &&& e.from_node@ == from
    &&& e.from_port@ == "output"@
    &&& e.to_node@ == to
    &&& e.to_port@ == "input"@
}

/// Text of the layout coordinate `n`.
fn coord_text(n: u64) -> (r: String)
    ensures
        r@ == layout_coord(n as nat),
{
    let mut s = u64_text(n);
    s.append(".0");
    s
}

/// Position in column `x`, row `row`.
fn layout_position(x: u64, row: u64) -> (r: Position)
    requires
        rows_exact(row as nat),
    ensures
        is_position(r, x as nat, row as nat),
{
    Position { x: coord_text(x), y: coord_text(120 * row) }
}

fn new_port(id: &str, direction: PortDirection, label: &str) -> (r: Port)
    ensures
        is_port(r, id@, direction, label@),
{
    Port { id: String::from_str(id), direction, label: String::from_str(label) }
}

fn str_param(key: &str, value: &String) -> (r: (String, JsonParam))
    ensures
        r.0@ == key@,
        r.1@ == (true, value@),
{
    (String::from_str(key), JsonParam::Str(value.clone()))
}

fn visual_node_from_source(source: &Source, row: u64) -> (r: VisualNode)
    requires
        rows_exact(row as nat),
    ensures
        is_source_node(r, *source, row as nat),
{
    let crs = match &source.crs {
        Some(c) => c.clone(),
        None => String::new(),
    };
    let mut ports: Vec<Port> = Vec::new();
    ports.push(new_port("output", PortDirection::Output, "data"));
    let mut params: Vec<(String, JsonParam)> = Vec::new();
    params.push(str_param("format", &source.format));
    params.push(str_param("path", &source.path));
    params.push(str_param("crs", &crs));
    let r = VisualNode {
        id: source.name.clone(),
        kind: NodeKind::Source,
        label: source.name.clone(),
        position: layout_position(0, row),
        ports,
        params,
    };
    assert(json_entries(r.params@) =~= seq![
        ("format"@, (true, source.format@)),
        ("path"@, (true, source.path@)),
        ("crs"@, (true, crs_text(source.crs))),
    ]);
    r
}

fn visual_node_from_transform(transform: &Transform, row: u64) -> (r: VisualNode)
    requires
        rows_exact(row as nat),
    ensures
        is_transform_node(r, *transform, row as nat),
{
    let mut params: Vec<(String, JsonParam)> = Vec::new();
    params.push(str_param("operation", &transform.operation));
    let ghost ps = transform.params@;
    proof {
        assert(json_entries(params@) =~= transform_entries(transform.operation@, ps.take(0)));
    }
    let mut i: usize = 0;
    while i < transform.params.len()
        invariant
            i <= ps.len(),
            ps == transform.params@,
            json_entries(params@) == transform_entries(transform.operation@, ps.take(i as int)),
        decreases ps.len() - i,
    {
        let text = crate::manifest::param_display(&transform.params[i].1);
        set_json_param(&mut params, transform.params[i].0.clone(), JsonParam::Str(text));
        proof {
            assert(ps.take(i + 1).drop_last() =~= ps.take(i as int));
        }
        i = i + 1;
    }
    proof {
        assert(ps.take(ps.len() as int) =~= ps);
    }
    let mut ports: Vec<Port> = Vec::new();
    ports.push(new_port("input", PortDirection::Input, "in"));
    ports.push(new_port("output", PortDirection::Output, "out"));
    VisualNode {
        id: transform.name.clone(),
        kind: NodeKind::Transform,
        label: transform.name.clone(),
        position: layout_position(300, row),
        ports,
        params,
    }
}

fn visual_node_from_sink(sink: &Sink, row: u64) -> (r: VisualNode)
    requires
        rows_exact(row as nat),
    ensures
        is_sink_node(r, *sink, row as nat),
{
    let mut ports: Vec<Port> = Vec::new();
    ports.push(new_port("input", PortDirection::Input, "data"));
    let mut params: Vec<(String, JsonParam)> = Vec::new();
    params.push(str_param("format", &sink.format));
    params.push(str_param("path", &sink.path));
    let r = VisualNode {
        id: sink.name.clone(),
        kind: NodeKind::Sink,
        label: sink.name.clone(),
        position: layout_position(600, row),
        ports,
        params,
    };
    assert(json_entries(r.params@) =~= seq![
        ("format"@, (true, sink.format@)),
        ("path"@, (true, sink.path@)),
    ]);
    r
}

fn new_edge(from: &String, to: &String) -> (r: VisualEdge)
    ensures
        is_edge(r, from@, to@),
{
    let mut id = String::from_str("edge-");
    id.append(from.as_str());
    id.append("-");
    id.append(to.as_str());
    VisualEdge {
        id,
        from_node: from.clone(),
        from_port: String::from_str("output"),
        to_node: to.clone(),
        to_port: String::from_str("input"),
    }
}

} // verus!

verus! {

/// `v` draws manifest `m`: sources in the first column, transforms in the
/// second, sinks in the third, each column filled from the top row down, and an
/// edge into every transform and sink from its input, transforms first.
pub open spec fn draws_manifest(v: VisualPipeline, m: Manifest) -> bool {
    let ns = m.source@.len() as int;
    let nt = m.transform@.len() as int;
    let nk = m.sink@.len() as int;
    &&& v.name@ == m.project.name@
    &&& v.version@ == m.project.version@
    &&& v.nodes@.len() == ns + nt + nk
    &&& forall|i: int| 0 <= i < ns ==> is_source_node(#[trigger] v.nodes@[i], m.source@[i], i as nat)
    &&& forall|i: int|
        0 <= i < nt ==> is_transform_node(#[trigger] v.nodes@[ns + i], m.transform@[i], i as nat)
    &&& forall|i: int|
        0 <= i < nk ==> is_sink_node(#[trigger] v.nodes@[ns + nt + i], m.sink@[i], i as nat)
    &&& v.edges@.len() == nt + nk
    &&& forall|i: int|
        0 <= i < nt ==> is_edge(#[trigger] v.edges@[i], m.transform@[i].input@, m.transform@[i].name@)
    &&& forall|i: int|
        0 <= i < nk ==> is_edge(#[trigger] v.edges@[nt + i], m.sink@[i].input@, m.sink@[i].name@)
}

/// Every column of the manifest's layout has exact coordinates.
pub open spec fn layout_fits(m: Manifest) -> bool {
    &&& rows_exact(m.source@.len())
    &&& rows_exact(m.transform@.len())
    &&& rows_exact(m.sink@.len())
}

impl VisualPipeline {
    /// Builds the graph of a manifest with the automatic layout.
    pub fn from_manifest(manifest: &Manifest) -> (r: Self)
        requires
            layout_fits(*manifest),
        ensures
            draws_manifest(r, *manifest),
    {
        let m = manifest;
        let ghost ns = m.source@.len() as int;
        let ghost nt = m.transform@.len() as int;
        let mut nodes: Vec<VisualNode> = Vec::new();
        let mut edges: Vec<VisualEdge> = Vec::new();
        let mut i: usize = 0;
        while i < m.source.len()
            invariant
                i <= m.source@.len(),
                rows_exact(m.source@.len()),
                nodes@.len() == i,
                edges@.len() == 0,
                forall|j: int| 0 <= j < i ==> is_source_node(#[trigger] nodes@[j], m.source@[j], j as nat),
            decreases m.source@.len() - i,
        {
            nodes.push(visual_node_from_source(&m.source[i], i as u64));
            i = i + 1;
        }
        let mut i: usize = 0;
        while i < m.transform.len()
            invariant
                i <= m.transform@.len(),
                ns == m.source@.len(),
                rows_exact(m.transform@.len()),
                nodes@.len() == ns + i,
                edges@.len() == i,
                forall|j: int| 0 <= j < ns ==> is_source_node(#[trigger] nodes@[j], m.source@[j], j as nat),
                forall|j: int|
                    0 <= j < i ==> is_transform_node(#[trigger] nodes@[ns + j], m.transform@[j], j as nat),
                forall|j: int|
                    0 <= j < i ==> is_edge(#[trigger] edges@[j], m.transform@[j].input@, m.transform@[j].name@),
            decreases m.transform@.len() - i,
        {
            let t = &m.transform[i];
            nodes.push(visual_node_from_transform(t, i as u64));
            edges.push(new_edge(&t.input, &t.name));
            i = i + 1;
        }
        let mut i: usize = 0;
        while i < m.sink.len()
            invariant
                i <= m.sink@.len(),
                ns == m.source@.len(),
                nt == m.transform@.len(),
                rows_exact(m.sink@.len()),
                nodes@.len() == ns + nt + i,
                edges@.len() == nt + i,
                forall|j: int| 0 <= j < ns ==> is_source_node(#[trigger] nodes@[j], m.source@[j], j as nat),
                forall|j: int|
                    0 <= j < nt ==> is_transform_node(#[trigger] nodes@[ns + j], m.transform@[j], j as nat),
                forall|j: int|
                    0 <= j < i ==> is_sink_node(#[trigger] nodes@[ns + nt + j], m.sink@[j], j as nat),
                forall|j: int|
                    0 <= j < nt ==> is_edge(#[trigger] edges@[j], m.transform@[j].input@, m.transform@[j].name@),
                forall|j: int|
                    0 <= j < i ==> is_edge(#[trigger] edges@[nt + j], m.sink@[j].input@, m.sink@[j].name@),
            decreases m.sink@.len() - i,
        {
            let s = &m.sink[i];
            nodes.push(visual_node_from_sink(s, i as u64));
            edges.push(new_edge(&s.input, &s.name));
            i = i + 1;
        }
        VisualPipeline {
            name: m.project.name.clone(),
            version: m.project.version.clone(),
            nodes,
            edges,
        }
    }
}

} // verus!

verus! {

// ---------------------------------------------------------------------------
// Reading a manifest back from the graph
// ---------------------------------------------------------------------------

/// The string value of parameter `k`, if it is present and a string.
pub open spec fn param_string(es: Seq<(Seq<char>, (bool, Seq<char>))>, k: Seq<char>) -> Option<
    Seq<char>,
> {
    let i = key_position(es, k);
    if i >= 0 && es[i].1.0 {
        Some(es[i].1.1)
    } else {
        None
    }
}

/// The string value of parameter `k`, or the empty text.
pub open spec fn param_text(es: Seq<(Seq<char>, (bool, Seq<char>))>, k: Seq<char>) -> Seq<char> {
    match param_string(es, k) {
        Some(t) => t,
        None => Seq::empty(),
    }
}

/// The nodes of kind `k`, in order.
pub open spec fn nodes_of_kind(ns: Seq<VisualNode>, k: NodeKind) -> Seq<VisualNode>
    decreases ns.len(),
{
    if ns.len() == 0 {
        Seq::empty()
    } else if ns.last().kind == k {
        nodes_of_kind(ns.drop_last(), k).push(ns.last())
    } else {
        nodes_of_kind(ns.drop_last(), k)
    }
}

/// The node feeding `id`: the origin of the first edge into it, or the empty text.
pub open spec fn edge_input(es: Seq<VisualEdge>, id: Seq<char>) -> Seq<char>
    decreases es.len(),
{
    if es.len() == 0 {
        Seq::empty()
    } else if es[0].to_node@ == id {
        es[0].from_node@
    } else {
        edge_input(es.drop_first(), id)
    }
}

/// A transform's parameter table read back from its node: every string
/// parameter but `operation`, inserted in order.
pub open spec fn restored_params(ps: Seq<(String, JsonParam)>) -> Seq<(Seq<char>, ParamValue)>
    decreases ps.len(),
{
    if ps.len() == 0 {
        Seq::empty()
    } else {
        let acc = restored_params(ps.drop_last());
        let e = ps.last();
        if e.0@ != "operation"@ && e.1 is Str {
            set_entry(acc, e.0@, ParamValue::String(e.1->Str_0))
        } else {
            acc
        }
    }
}

/// `s` is the source read back from node `n`.
pub open spec fn is_restored_source(s: Source, n: VisualNode) -> bool {
    let es = json_entries(n.params@);
    &&& s.name@ == n.id@
    &&& s.format@ == param_text(es, "format"@)
    &&& s.path@ == param_text(es, "path"@)
    &&& match param_string(es, "crs"@) {
        Some(c) => s.crs is Some && s.crs->0@ == c,
        None => s.crs is None,
    }
}

/// `t` is the transform read back from node `n` of a graph with edges `edges`.
pub open spec fn is_restored_transform(t: Transform, n: VisualNode, edges: Seq<VisualEdge>) -> bool {
    &&& t.name@ == n.id@
    &&& t.input@ == edge_input(edges, n.id@)
    &&& t.operation@ == param_text(json_entries(n.params@), "operation"@)
    &&& param_entries(t.params@) == restored_params(n.params@)
}

/// `s` is the sink read back from node `n` of a graph with edges `edges`.
pub open spec fn is_restored_sink(s: Sink, n: VisualNode, edges: Seq<VisualEdge>) -> bool {
    let es = json_entries(n.params@);
    &&& s.name@ == n.id@
    &&& s.input@ == edge_input(edges, n.id@)
    &&& s.format@ == param_text(es, "format"@)
    &&& s.path@ == param_text(es, "path"@)
}

/// `m` is the manifest read back from graph `v`: one source, transform or sink
/// per node of that kind, in node order.
pub open spec fn reads_back(m: Manifest, v: VisualPipeline) -> bool {
    let srcs = nodes_of_kind(v.nodes@, NodeKind::Source);
    let trs = nodes_of_kind(v.nodes@, NodeKind::Transform);
    let sks = nodes_of_kind(v.nodes@, NodeKind::Sink);
    &&& m.project.name@ == v.name@
    &&& m.project.version@ == v.version@
    &&& m.source@.len() == srcs.len()
    &&& m.transform@.len() == trs.len()
    &&& m.sink@.len() == sks.len()
    &&& forall|j: int| 0 <= j < srcs.len() ==> is_restored_source(#[trigger] m.source@[j], srcs[j])
    &&& forall|j: int|
        0 <= j < trs.len() ==> is_restored_transform(#[trigger] m.transform@[j], trs[j], v.edges@)
    &&& forall|j: int| 0 <= j < sks.len() ==> is_restored_sink(#[trigger] m.sink@[j], sks[j], v.edges@)
}

/// Position of parameter `key` (`key_position`), if present.
fn find_param(params: &Vec<(String, JsonParam)>, key: &str) -> (r: Option<usize>)
    ensures
        match r {
            Some(i) => i as int == key_position(json_entries(params@), key@),
            None => key_position(json_entries(params@), key@) == -1,
        },
        r matches Some(i) ==> i < params@.len(),
{
    let ghost es = json_entries(params@);
    let mut i: usize = 0;
    while i < params.len()
        invariant
            i <= params@.len(),
            es == json_entries(params@),
            forall|j: int| 0 <= j < i ==> es[j].0 != key@,
        decreases params@.len() - i,
    {
        if crate::text::str_eq(params[i].0.as_str(), key) {
            proof {
                lemma_key_position(es, key@, i as int);
            }
            return Some(i);
        }
        i = i + 1;
    }
    proof {
        lemma_key_position(es, key@, i as int);
    }
    None
}

/// The string value of parameter `key`, if present and a string.
fn param_string_of(params: &Vec<(String, JsonParam)>, key: &str) -> (r: Option<String>)
    ensures
        match r {
            Some(s) => param_string(json_entries(params@), key@) == Some(s@),
            None => param_string(json_entries(params@), key@) is None,
        },
{
    match find_param(params, key) {
        Some(i) => match &params[i].1 {
            JsonParam::Str(s) => Some(s.clone()),
            JsonParam::Other(_) => None,
        },
        None => None,
    }
}

/// The string value of parameter `key`, or the empty string.
fn param_str(params: &Vec<(String, JsonParam)>, key: &str) -> (r: String)
    ensures
        r@ == param_text(json_entries(params@), key@),
{
    match param_string_of(params, key) {
        Some(s) => s,
        None => String::new(),
    }
}

/// `edge_input` skips edges that do not lead to `id`.
proof fn lemma_edge_input(es: Seq<VisualEdge>, id: Seq<char>, i: int)
    requires
        0 <= i <= es.len(),
        forall|j: int| 0 <= j < i ==> es[j].to_node@ != id,
    ensures
        i < es.len() && es[i].to_node@ == id ==> edge_input(es, id) == es[i].from_node@,
        i == es.len() ==> edge_input(es, id) == Seq::<char>::empty(),
    decreases es.len(),
{
    if i > 0 && es.len() > 0 {
        lemma_edge_input(es.drop_first(), id, i - 1);
    }
}

/// The node feeding `id` (`edge_input`).
fn input_of(edges: &Vec<VisualEdge>, id: &String) -> (r: String)
    ensures
        r@ == edge_input(edges@, id@),
{
    let mut i: usize = 0;
    while i < edges.len()
        invariant
            i <= edges@.len(),
            forall|j: int| 0 <= j < i ==> edges@[j].to_node@ != id@,
        decreases edges@.len() - i,
    {
        if crate::text::str_eq(edges[i].to_node.as_str(), id.as_str()) {
            proof {
                lemma_edge_input(edges@, id@, i as int);
            }
            return edges[i].from_node.clone();
        }
        i = i + 1;
    }
    proof {
        lemma_edge_input(edges@, id@, i as int);
    }
    String::new()
}

/// A transform's parameter table read back from its node (`restored_params`).
fn restore_params(ps: &Vec<(String, JsonParam)>) -> (r: Params)
    ensures
        param_entries(r@) == restored_params(ps@),
{
    let mut out: Params = Vec::new();
    let mut i: usize = 0;
    while i < ps.len()
        invariant
            i <= ps@.len(),
            param_entries(out@) == restored_params(ps@.take(i as int)),
        decreases ps@.len() - i,
    {
        proof {
            assert(ps@.take(i + 1).drop_last() =~= ps@.take(i as int));
            assert(ps@.take(i + 1).last() == ps@[i as int]);
        }
        if !crate::text::str_eq(ps[i].0.as_str(), "operation") {
            match &ps[i].1 {
                JsonParam::Str(s) => {
                    crate::keyed::set_keyed(&mut out, ps[i].0.clone(), ParamValue::String(s.clone()));
                },
                JsonParam::Other(_) => {},
            }
        }
        i = i + 1;
    }
    proof {
        assert(ps@.take(ps@.len() as int) =~= ps@);
    }
    out
}

impl VisualPipeline {
    /// Reads the pipeline manifest back from the graph: one source, transform or
    /// sink per node of that kind, in node order; inputs come from the edges.
    pub fn to_manifest(&self) -> (r: Result<Manifest, PipelineError>)
        ensures
            r is Ok,
            r matches Ok(m) ==> reads_back(m, *self),
    {
        let ghost ns = self.nodes@;
        let mut sources: Vec<Source> = Vec::new();
        let mut transforms: Vec<Transform> = Vec::new();
        let mut sinks: Vec<Sink> = Vec::new();
        let mut i: usize = 0;
        while i < self.nodes.len()
            invariant
                i <= ns.len(),
                ns == self.nodes@,
                sources@.len() == nodes_of_kind(ns.take(i as int), NodeKind::Source).len(),
                transforms@.len() == nodes_of_kind(ns.take(i as int), NodeKind::Transform).len(),
                sinks@.len() == nodes_of_kind(ns.take(i as int), NodeKind::Sink).len(),
                forall|j: int|
                    0 <= j < sources@.len() ==> is_restored_source(
                        #[trigger] sources@[j],
                        nodes_of_kind(ns.take(i as int), NodeKind::Source)[j],
                    ),
                forall|j: int|
                    0 <= j < transforms@.len() ==> is_restored_transform(
                        #[trigger] transforms@[j],
                        nodes_of_kind(ns.take(i as int), NodeKind::Transform)[j],
                        self.edges@,
                    ),
                forall|j: int|
                    0 <= j < sinks@.len() ==> is_restored_sink(
                        #[trigger] sinks@[j],
                        nodes_of_kind(ns.take(i as int), NodeKind::Sink)[j],
                        self.edges@,
                    ),
            decreases ns.len() - i,
        {
            let node = &self.nodes[i];
            proof {
                assert(ns.take(i + 1).drop_last() =~= ns.take(i as int));
                assert(ns.take(i + 1).last() == ns[i as int]);
            }
            match node.kind {
                NodeKind::Source => {
                    sources.push(
                        Source {
                            name: node.id.clone(),
                            format: param_str(&node.params, "format"),
                            path: param_str(&node.params, "path"),
                            crs: param_string_of(&node.params, "crs"),
                        },
                    );
                },
                NodeKind::Transform => {
                    transforms.push(
                        Transform {
                            name: node.id.clone(),
                            input: input_of(&self.edges, &node.id),
                            operation: param_str(&node.params, "operation"),
                            params: restore_params(&node.params),
                        },
                    );
                },
                NodeKind::Sink => {
                    sinks.push(
                        Sink {
                            name: node.id.clone(),
                            input: input_of(&self.edges, &node.id),
                            format: param_str(&node.params, "format"),
                            path: param_str(&node.params, "path"),
                        },
                    );
                },
            }
            i = i + 1;
        }
        proof {
            assert(ns.take(ns.len() as int) =~= ns);
        }
        Ok(
            Manifest {
                project: Project { name: self.name.clone(), version: self.version.clone() },
                source: sources,
                transform: transforms,
                sink: sinks,
            },
        )
    }
}

} // verus!

verus! {

// ---------------------------------------------------------------------------
// Round trip
// ---------------------------------------------------------------------------

/// Names of the manifest's transforms, then of its sinks.
pub open spec fn step_target_names(m: Manifest) -> Seq<Seq<char>> {
    m.transform@.map_values(|t: Transform| t.name@) + m.sink@.map_values(|s: Sink| s.name@)
}

/// No transform has a parameter named `operation`.
pub open spec fn no_operation_param(m: Manifest) -> bool {
    forall|t: int, k: int|
        0 <= t < m.transform@.len() && 0 <= k < m.transform@[t].params@.len()
            ==> #[trigger] m.transform@[t].params@[k].0@ != "operation"@
}

/// The nodes of each kind in a graph whose nodes are grouped by kind.
proof fn lemma_kinds(nodes: Seq<VisualNode>, ns: int, nt: int, k: int)
    requires
        0 <= ns,
        0 <= nt,
        ns + nt <= nodes.len(),
        0 <= k <= nodes.len(),
        forall|i: int| 0 <= i < ns ==> #[trigger] nodes[i].kind == NodeKind::Source,
        forall|i: int| ns <= i < ns + nt ==> #[trigger] nodes[i].kind == NodeKind::Transform,
        forall|i: int| ns + nt <= i < nodes.len() ==> #[trigger] nodes[i].kind == NodeKind::Sink,
    ensures
        nodes_of_kind(nodes.take(k), NodeKind::Source) == nodes.take(if k < ns { k } else { ns }),
        nodes_of_kind(nodes.take(k), NodeKind::Transform) == nodes.subrange(
            ns,
            if k < ns { ns } else if k < ns + nt { k } else { ns + nt },
        ),
        nodes_of_kind(nodes.take(k), NodeKind::Sink) == nodes.subrange(
            ns + nt,
            if k < ns + nt { ns + nt } else { k },
        ),
    decreases k,
{
    if k == 0 {
        assert(nodes.take(0) =~= Seq::<VisualNode>::empty());
        assert(nodes.subrange(ns, ns) =~= Seq::<VisualNode>::empty());
        assert(nodes.subrange(ns + nt, ns + nt) =~= Seq::<VisualNode>::empty());
    } else {
        lemma_kinds(nodes, ns, nt, k - 1);
        assert(nodes.take(k).drop_last() =~= nodes.take(k - 1));
        assert(nodes.take(k).last() == nodes[k - 1]);
        if k - 1 < ns {
            assert(nodes.take(k - 1).push(nodes[k - 1]) =~= nodes.take(k));
        } else if k - 1 < ns + nt {
            assert(nodes.subrange(ns, k - 1).push(nodes[k - 1]) =~= nodes.subrange(ns, k));
        } else {
            assert(nodes.subrange(ns + nt, k - 1).push(nodes[k - 1]) =~= nodes.subrange(
                ns + nt,
                k,
            ));
        }
    }
}

/// The operation entry of a transform node stays first and keeps its value
/// when no parameter is named `operation`.
proof fn lemma_operation_entry(op: Seq<char>, ps: Seq<(String, ParamValue)>)
    requires
        forall|k: int| 0 <= k < ps.len() ==> #[trigger] ps[k].0@ != "operation"@,
    ensures
        transform_entries(op, ps).len() >= 1,
        transform_entries(op, ps)[0] == ("operation"@, (true, op)),
    decreases ps.len(),
{
    if ps.len() > 0 {
        lemma_operation_entry(op, ps.drop_last());
        let acc = transform_entries(op, ps.drop_last());
        let i = key_position(acc, ps.last().0@);
        lemma_key_position_range(acc, ps.last().0@);
        if i == 0 {
            assert(acc[0].0 == ps.last().0@);
        }
    }
}

/// No two parameters of the list share a key, and none is named `operation`.
pub open spec fn plain_keys(ps: Seq<(String, ParamValue)>) -> bool {
    &&& forall|j: int, k: int| 0 <= j < k < ps.len() ==> #[trigger] ps[j].0@ != #[trigger] ps[k].0@
    &&& forall|k: int| 0 <= k < ps.len() ==> #[trigger] ps[k].0@ != "operation"@
}

/// A parameter list as node entries: each key with the TOML text of its value.
pub open spec fn shown_entries(ps: Seq<(String, ParamValue)>) -> Seq<(Seq<char>, (bool, Seq<char>))> {
    ps.map_values(|e: (String, ParamValue)| (e.0@, (true, toml_text(e.1))))
}

/// A parameter list as it comes back from the graph: each key with the string
/// of its value's TOML text.
pub open spec fn shown_params(ps: Seq<(String, ParamValue)>) -> Seq<(Seq<char>, ParamView)> {
    ps.map_values(|e: (String, ParamValue)| (e.0@, ParamView::String(toml_text(e.1))))
}

/// Parameter entries by key text and value view.
pub open spec fn entry_views(es: Seq<(Seq<char>, ParamValue)>) -> Seq<(Seq<char>, ParamView)> {
    es.map_values(|e: (Seq<char>, ParamValue)| (e.0, param_view(e.1)))
}

/// With plain keys, a transform node lists its operation, then each parameter
/// in order.
proof fn lemma_transform_entries(op: Seq<char>, ps: Seq<(String, ParamValue)>)
    requires
        plain_keys(ps),
    ensures
        transform_entries(op, ps) == seq![("operation"@, (true, op))] + shown_entries(ps),
    decreases ps.len(),
{
    if ps.len() > 0 {
        let d = ps.drop_last();
        assert(plain_keys(d)) by {
            assert forall|j: int, k: int| 0 <= j < k < d.len() implies #[trigger] d[j].0@
                != #[trigger] d[k].0@ by {
                assert(ps[j].0@ != ps[k].0@);
            }
            assert forall|k: int| 0 <= k < d.len() implies #[trigger] d[k].0@ != "operation"@ by {
                assert(ps[k].0@ != "operation"@);
            }
        }
        lemma_transform_entries(op, d);
        let acc = seq![("operation"@, (true, op))] + shown_entries(d);
        let k = ps.last().0@;
        assert forall|j: int| 0 <= j < acc.len() implies acc[j].0 != k by {
            if j == 0 {
                assert(ps[ps.len() - 1].0@ != "operation"@);
            } else {
                assert(acc[j].0 == d[j - 1].0@);
                assert(ps[j - 1].0@ != ps[ps.len() - 1].0@);
            }
        }
        lemma_key_position(acc, k, acc.len() as int);
        assert(acc.push((k, (true, toml_text(ps.last().1)))) =~= seq![("operation"@, (true, op))]
            + shown_entries(ps));
    }
}

/// Reading back the parameters of a node that lists an operation and then
/// plain-keyed parameters gives each parameter as the string of its TOML text.
proof fn lemma_restored_shown(jp: Seq<(String, JsonParam)>, op: Seq<char>, ps: Seq<(String, ParamValue)>)
    requires
        plain_keys(ps),
        json_entries(jp) == seq![("operation"@, (true, op))] + shown_entries(ps),
    ensures
        entry_views(restored_params(jp)) == shown_params(ps),
    decreases ps.len(),
{
    assert(jp.len() == ps.len() + 1) by {
        assert(json_entries(jp).len() == jp.len());
    }
    if ps.len() == 0 {
        let d = jp.drop_last();
        assert(d.len() == 0);
        assert(restored_params(d) =~= Seq::<(Seq<char>, ParamValue)>::empty());
        assert(json_entries(jp)[0] == ("operation"@, (true, op)));
        assert(jp[0].0@ == "operation"@);
        assert(jp.last() == jp[0]);
        assert(entry_views(restored_params(jp)) =~= shown_params(ps));
    } else {
        let d = ps.drop_last();
        let jd = jp.drop_last();
        assert(plain_keys(d)) by {
            assert forall|j: int, k: int| 0 <= j < k < d.len() implies #[trigger] d[j].0@
                != #[trigger] d[k].0@ by {
                assert(ps[j].0@ != ps[k].0@);
            }
            assert forall|k: int| 0 <= k < d.len() implies #[trigger] d[k].0@ != "operation"@ by {
                assert(ps[k].0@ != "operation"@);
            }
        }
        assert(json_entries(jd) =~= seq![("operation"@, (true, op))] + shown_entries(d)) by {
            assert forall|j: int| 0 <= j < jd.len() implies #[trigger] json_entries(jd)[j]
                == (seq![("operation"@, (true, op))] + shown_entries(d))[j] by {
                assert(json_entries(jd)[j] == json_entries(jp)[j]);
            }
        }
        lemma_restored_shown(jd, op, d);
        let acc = restored_params(jd);
        let e = jp.last();
        let n = ps.len() - 1;
        assert(json_entries(jp)[n + 1] == (ps[n].0@, (true, toml_text(ps[n].1))));
        assert(jp[n + 1] == e);
        assert(e.0@ == ps[n].0@);
        assert(e.1@ == (true, toml_text(ps[n].1)));
        assert(e.1 is Str);
        assert(e.0@ != "operation"@) by {
            assert(ps[n].0@ != "operation"@);
        }
        let k = e.0@;
        assert(entry_views(acc).len() == acc.len());
        assert forall|j: int| 0 <= j < acc.len() implies acc[j].0 != k by {
            assert(entry_views(acc)[j].0 == acc[j].0);
            assert(shown_params(d)[j].0 == d[j].0@);
            assert(ps[j].0@ != ps[n].0@);
        }
        lemma_key_position(acc, k, acc.len() as int);
        let sv = e.1->Str_0;
        assert(sv@ == toml_text(ps[n].1));
        assert(restored_params(jp) == acc.push((k, ParamValue::String(sv))));
        assert(param_view(ParamValue::String(sv)) == ParamView::String(toml_text(ps[n].1)));
        assert forall|j: int| 0 <= j < ps.len() implies #[trigger] entry_views(restored_params(jp))[j]
            == shown_params(ps)[j] by {
            if j < n {
                assert(entry_views(restored_params(jp))[j] == entry_views(acc)[j]);
                assert(shown_params(ps)[j] == shown_params(d)[j]);
            }
        }
        assert(entry_views(restored_params(jp)) =~= shown_params(ps));
    }
}

/// Reading back the graph of a manifest gives its sources, transforms and sinks
/// again, in order: the same names, formats and paths, the same operations and
/// inputs, and each given CRS (an absent CRS comes back as the empty text); a
/// transform whose parameter keys are distinct gets its parameters back in
/// order, each as the string of its TOML text. This holds when no two
/// transforms or sinks share a name and no transform has a parameter named
/// `operation`.
pub proof fn law_manifest_roundtrip(m: Manifest, v: VisualPipeline, back: Manifest)
    requires
        draws_manifest(v, m),
        reads_back(back, v),
        step_target_names(m).no_duplicates(),
        no_operation_param(m),
    ensures
        back.project.name@ == m.project.name@,
        back.project.version@ == m.project.version@,
        back.source@.len() == m.source@.len(),
        back.transform@.len() == m.transform@.len(),
        back.sink@.len() == m.sink@.len(),
        forall|i: int|
            0 <= i < m.source@.len() ==> {
                let (a, b) = (#[trigger] back.source@[i], m.source@[i]);
                &&& a.name@ == b.name@
                &&& a.format@ == b.format@
                &&& a.path@ == b.path@
                &&& a.crs is Some
                &&& a.crs->0@ == crs_text(b.crs)
            },
        forall|i: int|
            0 <= i < m.transform@.len() ==> {
                let (a, b) = (#[trigger] back.transform@[i], m.transform@[i]);
                &&& a.name@ == b.name@
                &&& a.input@ == b.input@
                &&& a.operation@ == b.operation@
                &&& plain_keys(b.params@) ==> entry_views(param_entries(a.params@))
                    == shown_params(b.params@)
            },
        forall|i: int|
            0 <= i < m.sink@.len() ==> {
                let (a, b) = (#[trigger] back.sink@[i], m.sink@[i]);
                &&& a.name@ == b.name@
                &&& a.input@ == b.input@
                &&& a.format@ == b.format@
                &&& a.path@ == b.path@
            },
{
    let ns = m.source@.len() as int;
    let nt = m.transform@.len() as int;
    let nk = m.sink@.len() as int;
    let nodes = v.nodes@;
    let edges = v.edges@;
    let names = step_target_names(m);
    assert forall|i: int| 0 <= i < ns implies #[trigger] nodes[i].kind == NodeKind::Source by {
        assert(is_source_node(nodes[i], m.source@[i], i as nat));
    }
    assert forall|i: int| ns <= i < ns + nt implies #[trigger] nodes[i].kind
        == NodeKind::Transform by {
        assert(is_transform_node(nodes[ns + (i - ns)], m.transform@[i - ns], (i - ns) as nat));
    }
    assert forall|i: int| ns + nt <= i < nodes.len() implies #[trigger] nodes[i].kind
        == NodeKind::Sink by {
        assert(is_sink_node(nodes[ns + nt + (i - ns - nt)], m.sink@[i - ns - nt], (i - ns - nt) as nat));
    }
    lemma_kinds(nodes, ns, nt, nodes.len() as int);
    assert(nodes.take(nodes.len() as int) =~= nodes);
    let srcs = nodes_of_kind(nodes, NodeKind::Source);
    let trs = nodes_of_kind(nodes, NodeKind::Transform);
    let sks = nodes_of_kind(nodes, NodeKind::Sink);
    reveal_strlit("format");
    reveal_strlit("path");
    reveal_strlit("crs");
    reveal_strlit("operation");
    assert forall|i: int| 0 <= i < ns implies {
        let (a, b) = (#[trigger] back.source@[i], m.source@[i]);
        &&& a.name@ == b.name@
        &&& a.format@ == b.format@
        &&& a.path@ == b.path@
        &&& a.crs is Some
        &&& a.crs->0@ == crs_text(b.crs)
    } by {
        assert(srcs[i] == nodes[i]);
        assert(is_source_node(nodes[i], m.source@[i], i as nat));
        assert(is_restored_source(back.source@[i], srcs[i]));
        let es = json_entries(nodes[i].params@);
        reveal_with_fuel(key_position, 4);
        assert(es.drop_first().drop_first()[0].0 == "crs"@);
        assert(key_position(es, "format"@) == 0);
        assert(es[0].0 == "format"@);
        assert("format"@.len() == 6);
        assert("path"@.len() == 4);
        assert(es[0].0 != "path"@);
        assert(es.drop_first()[0].0 == "path"@);
        assert(key_position(es.drop_first(), "path"@) == 0);
        assert(key_position(es, "path"@) == 1);
        assert(es[0].0 != "crs"@);
        assert(es[1].0 != "crs"@);
        assert(key_position(es.drop_first().drop_first(), "crs"@) == 0);
        assert(key_position(es.drop_first(), "crs"@) == 1);
        assert(key_position(es, "crs"@) == 2);
    }
    assert forall|i: int| 0 <= i < nt implies {
        let (a, b) = (#[trigger] back.transform@[i], m.transform@[i]);
        &&& a.name@ == b.name@
        &&& a.input@ == b.input@
        &&& a.operation@ == b.operation@
        &&& plain_keys(b.params@) ==> entry_views(param_entries(a.params@))
            == shown_params(b.params@)
    } by {
        let t = m.transform@[i];
        if plain_keys(t.params@) {
            lemma_transform_entries(t.operation@, t.params@);
            lemma_restored_shown(nodes[ns + i].params@, t.operation@, t.params@);
        }
        assert(trs[i] == nodes[ns + i]);
        assert(is_transform_node(nodes[ns + i], t, i as nat));
        assert(is_restored_transform(back.transform@[i], trs[i], edges));
        assert forall|k: int| 0 <= k < t.params@.len() implies #[trigger] t.params@[k].0@
            != "operation"@ by {
            assert(m.transform@[i].params@[k].0@ != "operation"@);
        }
        lemma_operation_entry(t.operation@, t.params@);
        let es = json_entries(nodes[ns + i].params@);
        assert(key_position(es, "operation"@) == 0);
        assert(names[i] == t.name@);
        assert forall|j: int| 0 <= j < i implies edges[j].to_node@ != t.name@ by {
            assert(is_edge(edges[j], m.transform@[j].input@, m.transform@[j].name@));
            assert(names[j] == m.transform@[j].name@);
        }
        assert(is_edge(edges[i], t.input@, t.name@));
        lemma_edge_input(edges, t.name@, i);
    }
    assert forall|i: int| 0 <= i < nk implies {
        let (a, b) = (#[trigger] back.sink@[i], m.sink@[i]);
        &&& a.name@ == b.name@
        &&& a.input@ == b.input@
        &&& a.format@ == b.format@
        &&& a.path@ == b.path@
    } by {
        let s = m.sink@[i];
        assert(sks[i] == nodes[ns + nt + i]);
        assert(is_sink_node(nodes[ns + nt + i], s, i as nat));
        assert(is_restored_sink(back.sink@[i], sks[i], edges));
        let es = json_entries(nodes[ns + nt + i].params@);
        reveal_with_fuel(key_position, 3);
        assert(key_position(es, "format"@) == 0);
        assert(es[0].0 == "format"@);
        assert("format"@.len() == 6);
        assert("path"@.len() == 4);
        assert(es[0].0 != "path"@);
        assert(es.drop_first()[0].0 == "path"@);
        assert(key_position(es.drop_first(), "path"@) == 0);
        assert(key_position(es, "path"@) == 1);
        assert(names[nt + i] == s.name@);
        assert forall|j: int| 0 <= j < nt + i implies edges[j].to_node@ != s.name@ by {
            if j < nt {
                assert(is_edge(edges[j], m.transform@[j].input@, m.transform@[j].name@));
                assert(names[j] == m.transform@[j].name@);
            } else {
                assert(is_edge(edges[nt + (j - nt)], m.sink@[j - nt].input@, m.sink@[j - nt].name@));
                assert(names[j] == m.sink@[j - nt].name@);
            }
        }
        assert(is_edge(edges[nt + i], s.input@, s.name@));
        lemma_edge_input(edges, s.name@, nt + i);
    }
}

} // verus!
