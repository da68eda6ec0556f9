//! The dependency graph and its builder: a directed graph over resource and
//! pass vertices, maintained as a forward graph and its edge-reversed twin.
//! Edge direction `resource -> pass` means "the pass consumes the resource";
//! `pass -> resource` means "the pass produces the resource".
//!
//! The graph structure itself lives in `petgraph` graphs; the builder keeps a
//! mirror of the vertex tags and proves how every call changes the node and
//! edge sequences.

use vstd::prelude::*;
use petgraph::visit::EdgeRef;

verus! {

use std::collections::HashMap;
use crate::graph_resource::Id;
use crate::graph_resource::Resource;
use crate::ids::fresh_uuid;
use crate::pass::PassResource;
use crate::pass::RenderPassBuilder;
use crate::pipeline::PipelineLayoutBuilder;
use crate::registry::Handle;
use crate::registry::HandleMap;
use crate::shader::ShaderRepresentation;

/// Declares `petgraph::graph::Graph` so the graph structure can live in
/// `petgraph` while Verus reasons about it through [`graph_nodes`] and
/// [`graph_edges`].
#[verifier::external_type_specification]
#[verifier::external_body]
#[verifier::reject_recursive_types(N)]
#[verifier::reject_recursive_types(E)]
#[verifier::reject_recursive_types(Ty)]
#[verifier::reject_recursive_types(Ix)]
pub struct ExGraph<N, E, Ty, Ix>(petgraph::graph::Graph<N, E, Ty, Ix>);

/// Declares `petgraph::Directed`, the edge-type marker of a directed graph.
#[verifier::external_type_specification]
#[verifier::external_body]
pub struct ExDirected(petgraph::Directed);

/// The node weights of `g`, in insertion order; the node with index `i` is
/// the `i`-th element.
pub uninterp spec fn graph_nodes(g: petgraph::graph::Graph<u64, (), petgraph::Directed, u32>) -> Seq<
    u64,
>;

/// The edges of `g` as (source index, target index) pairs, in insertion
/// order.
pub uninterp spec fn graph_edges(g: petgraph::graph::Graph<u64, (), petgraph::Directed, u32>) -> Seq<
    (usize, usize),
>;

/// Relies on `petgraph::graph::Graph::new`: the new graph has no nodes and
/// no edges.
#[verifier::external_body]
fn graph_new() -> (g: petgraph::graph::Graph<u64, (), petgraph::Directed, u32>)
    ensures
        graph_nodes(g) == Seq::<u64>::empty(),
        graph_edges(g) == Seq::<(usize, usize)>::empty(),
{
    petgraph::graph::Graph::new()
}

/// Relies on `petgraph::graph::Graph::add_node`: appends one node and
/// returns its index, which equals the previous node count.
#[verifier::external_body]
fn graph_add_node(
    g: &mut petgraph::graph::Graph<u64, (), petgraph::Directed, u32>,
    weight: u64,
) -> (ix: usize)
    requires
        graph_nodes(*old(g)).len() < u32::MAX,
    ensures
        ix == graph_nodes(*old(g)).len(),
        graph_nodes(*final(g)) == graph_nodes(*old(g)).push(weight),
        graph_edges(*final(g)) == graph_edges(*old(g)),
{
    g.add_node(weight).index()
}

/// Relies on `petgraph::graph::Graph::add_edge`: appends one edge from node
/// `a` to node `b`, which must exist.
#[verifier::external_body]
fn graph_add_edge(
    g: &mut petgraph::graph::Graph<u64, (), petgraph::Directed, u32>,
    a: usize,
    b: usize,
)
    requires
        a < graph_nodes(*old(g)).len(),
        b < graph_nodes(*old(g)).len(),
        graph_edges(*old(g)).len() < u32::MAX,
    ensures
        graph_nodes(*final(g)) == graph_nodes(*old(g)),
        graph_edges(*final(g)) == graph_edges(*old(g)).push((a, b)),
{
    g.add_edge(
        petgraph::graph::NodeIndex::new(a),
        petgraph::graph::NodeIndex::new(b),
        (),
    );
}

/// Relies on `petgraph::graph::Graph::edge_references`: yields every edge,
/// in edge-index (insertion) order.
#[verifier::external_body]
fn graph_edge_list(g: &petgraph::graph::Graph<u64, (), petgraph::Directed, u32>) -> (r: Vec<
    (usize, usize),
>)
    ensures
        r@ == graph_edges(*g),
{
    g.edge_references().map(|e| (e.source().index(), e.target().index())).collect()
}

/// There is an edge from `a` to `b`.
pub open spec fn edge_in(edges: Seq<(usize, usize)>, a: int, b: int) -> bool {
    exists|k: int| 0 <= k < edges.len() && edges[k].0 == a && edges[k].1 == b
}

/// `order` lists each of the `n` nodes exactly once, and every edge goes
/// from an earlier position to a later one.
pub open spec fn valid_topo_order(order: Seq<usize>, n: int, edges: Seq<(usize, usize)>) -> bool {
    &&& order.len() == n
    &&& forall|i: int| 0 <= i < order.len() ==> (#[trigger] order[i]) < n
    &&& forall|i: int, j: int|
        0 <= i < order.len() && 0 <= j < order.len() && i != j ==> #[trigger] order[i]
            != #[trigger] order[j]
    &&& forall|i: int, j: int|
        0 <= i < order.len() && 0 <= j < order.len() && #[trigger] edge_in(
            edges,
            order[i] as int,
            order[j] as int,
        ) ==> i < j
}

/// `c` is a closed walk along `edges` among nodes below `n`.
pub open spec fn is_cycle(c: Seq<usize>, n: int, edges: Seq<(usize, usize)>) -> bool {
    &&& c.len() >= 1
    &&& forall|i: int| 0 <= i < c.len() ==> (#[trigger] c[i]) < n
    &&& forall|i: int|
        0 <= i < c.len() - 1 ==> #[trigger] edge_in(edges, c[i] as int, c[i + 1] as int)
    &&& edge_in(edges, c.last() as int, c[0] as int)
}

/// The graph on `n` nodes with `edges` contains a cycle (a self-loop
/// counts).
pub open spec fn has_cycle(n: int, edges: Seq<(usize, usize)>) -> bool {
    exists|c: Seq<usize>| is_cycle(c, n, edges)
}

/// Every edge turned around.
pub open spec fn flip_edges(edges: Seq<(usize, usize)>) -> Seq<(usize, usize)> {
    edges.map_values(|e: (usize, usize)| (e.1, e.0))
}

/// An edge runs through the flipped edge list exactly backwards.
pub proof fn lemma_edge_in_flip(edges: Seq<(usize, usize)>, a: int, b: int)
    ensures
        edge_in(flip_edges(edges), a, b) <==> edge_in(edges, b, a),
{
    if edge_in(flip_edges(edges), a, b) {
        let k = choose|k: int|
            0 <= k < flip_edges(edges).len() && flip_edges(edges)[k].0 == a && flip_edges(
                edges,
            )[k].1 == b;
        assert(edges[k].0 == b && edges[k].1 == a);
    }
    if edge_in(edges, b, a) {
        let k = choose|k: int| 0 <= k < edges.len() && edges[k].0 == b && edges[k].1 == a;
        assert(flip_edges(edges)[k] == (a as usize, b as usize)) by {
            assert(flip_edges(edges)[k] == (edges[k].1, edges[k].0));
        }
        assert(flip_edges(edges)[k].0 == a && flip_edges(edges)[k].1 == b);
    }
}

/// A cycle in the flipped graph is a cycle in the graph, and conversely.
pub proof fn lemma_cycle_flip(n: int, edges: Seq<(usize, usize)>)
    ensures
        has_cycle(n, flip_edges(edges)) <==> has_cycle(n, edges),
{
    assert forall|a: int, b: int| true implies (edge_in(flip_edges(edges), a, b) <==> edge_in(
        edges,
        b,
        a,
    )) by {
        lemma_edge_in_flip(edges, a, b);
    }
    if has_cycle(n, edges) {
        let c = choose|c: Seq<usize>| is_cycle(c, n, edges);
        let r = c.reverse();
        assert(r.len() == c.len());
        assert forall|i: int| 0 <= i < r.len() - 1 implies #[trigger] edge_in(
            flip_edges(edges),
            r[i] as int,
            r[i + 1] as int,
        ) by {
            let j = c.len() - 2 - i;
            assert(r[i] == c[j + 1]);
            assert(r[i + 1] == c[j]);
            assert(edge_in(edges, c[j] as int, c[j + 1] as int));
        }
        assert(r.last() == c[0]);
        assert(r[0] == c.last());
        assert(edge_in(edges, c.last() as int, c[0] as int));
        assert(edge_in(flip_edges(edges), r.last() as int, r[0] as int));
        assert(is_cycle(r, n, flip_edges(edges)));
    }
    if has_cycle(n, flip_edges(edges)) {
        let c = choose|c: Seq<usize>| is_cycle(c, n, flip_edges(edges));
        let r = c.reverse();
        assert(r.len() == c.len());
        assert forall|i: int| 0 <= i < r.len() - 1 implies #[trigger] edge_in(
            edges,
            r[i] as int,
            r[i + 1] as int,
        ) by {
            let j = c.len() - 2 - i;
            assert(r[i] == c[j + 1]);
            assert(r[i + 1] == c[j]);
            assert(edge_in(flip_edges(edges), c[j] as int, c[j + 1] as int));
        }
        assert(r.last() == c[0]);
        assert(r[0] == c.last());
        assert(edge_in(flip_edges(edges), c.last() as int, c[0] as int));
        assert(edge_in(edges, r.last() as int, r[0] as int));
        assert(is_cycle(r, n, edges));
    }
}

/// The result of `petgraph::algo::toposort` on `g`, as node indices. The
/// algorithm is a pure function of the graph value: it allocates its own
/// workspace and consults no clock, randomness or ambient state, so naming
/// its result is sound; which valid order it picks is petgraph's choice and
/// is not constrained beyond this name.
pub uninterp spec fn toposort_of(g: petgraph::graph::Graph<u64, (), petgraph::Directed, u32>) -> Result<
    Seq<usize>,
    usize,
>;

/// Relies on `petgraph::algo::toposort` (documented: `Ok` is a vector of all
/// nodes in topological order, each node ordered before its successors;
/// `Err(Cycle)` exactly when the graph is cyclic, self-loops included). The
/// same graph value always yields the same result, named [`toposort_of`].
#[verifier::external_body]
fn graph_toposort(g: &petgraph::graph::Graph<u64, (), petgraph::Directed, u32>) -> (r: Result<
    Vec<usize>,
    usize,
>)
    ensures
        match r {
            Result::Ok(order) => valid_topo_order(
                order@,
                graph_nodes(*g).len() as int,
                graph_edges(*g),
            ) && !has_cycle(graph_nodes(*g).len() as int, graph_edges(*g)) && toposort_of(*g)
                == Result::<Seq<usize>, usize>::Ok(order@),
            Result::Err(i) => has_cycle(graph_nodes(*g).len() as int, graph_edges(*g)) && i
                < graph_nodes(*g).len() && toposort_of(*g) == Result::<Seq<usize>, usize>::Err(i),
        },
{
    match petgraph::algo::toposort(g, None) {
        Ok(order) => Ok(order.iter().map(|n| n.index()).collect()),
        Err(cycle) => Err(cycle.node_id().index()),
    }
}

/// The forward dependency graph and its edge-reversed twin, kept in
/// lockstep.
struct RenderGraphMeta {
    forward_graph: petgraph::graph::Graph<u64, (), petgraph::Directed, u32>,
    reverse_graph: petgraph::graph::Graph<u64, (), petgraph::Directed, u32>,
}

impl RenderGraphMeta {
    spec fn nodes(&self) -> Seq<u64> {
        graph_nodes(self.forward_graph)
    }

    spec fn edges(&self) -> Seq<(usize, usize)> {
        graph_edges(self.forward_graph)
    }

    spec fn inv(&self) -> bool {
        &&& graph_nodes(self.reverse_graph) == self.nodes()
        &&& graph_edges(self.reverse_graph) == flip_edges(self.edges())
    }

    fn new() -> (m: RenderGraphMeta)
        ensures
            m.inv(),
            m.nodes() == Seq::<u64>::empty(),
            m.edges() == Seq::<(usize, usize)>::empty(),
    {
        let m = RenderGraphMeta { forward_graph: graph_new(), reverse_graph: graph_new() };
        proof {
            assert(flip_edges(m.edges()) =~= Seq::<(usize, usize)>::empty());
        }
        m
    }

    fn add_node(&mut self, weight: u64) -> (ix: usize)
        requires
            old(self).inv(),
            old(self).nodes().len() < u32::MAX,
        ensures
            final(self).inv(),
            ix == old(self).nodes().len(),
            final(self).nodes() == old(self).nodes().push(weight),
            final(self).edges() == old(self).edges(),
    {
        let ix = graph_add_node(&mut self.forward_graph, weight);
        let _ = graph_add_node(&mut self.reverse_graph, weight);
        ix
    }

    fn add_edge(&mut self, from: usize, to: usize)
        requires
            old(self).inv(),
            from < old(self).nodes().len(),
            to < old(self).nodes().len(),
            old(self).edges().len() < u32::MAX,
        ensures
            final(self).inv(),
            final(self).nodes() == old(self).nodes(),
            final(self).edges() == old(self).edges().push((from, to)),
    {
        graph_add_edge(&mut self.forward_graph, from, to);
        graph_add_edge(&mut self.reverse_graph, to, from);
        proof {
            assert(flip_edges(old(self).edges().push((from, to))) =~= flip_edges(
                old(self).edges(),
            ).push((to, from)));
        }
    }
}

/// A vertex of the dependency graph: a resource or a pass, by registry
/// handle.
#[derive(Debug, Copy, Clone, PartialEq, Eq, Structural, Hash)]
pub enum Vertex {
    Resource(Handle),
    Pass(Handle),
}

impl Vertex {
    /// The registry handle id the vertex wraps.
    pub open spec fn vid(&self) -> u64 {
        match *self {
            Vertex::Resource(h) => h.0,
            Vertex::Pass(h) => h.0,
        }
    }
}

/// A vertex of the graph together with the registry handle it wraps.
#[derive(Debug, Copy, Clone, PartialEq, Eq, Structural, Hash)]
pub struct VertexHandle {
    pub node_index: usize,
    pub handle: Handle,
}

impl VertexHandle {
    /// The vertex's position in the graph's node list.
    pub open spec fn spec_node_index(&self) -> int {
        self.node_index as int
    }

    /// The vertex's position in the graph's node list.
    pub fn node_index(&self) -> (r: usize)
        ensures
            r as int == self.spec_node_index(),
    {
        self.node_index
    }
}

/// Structured builder and compiler errors, distinguished so callers can
/// react programmatically.
#[derive(Debug, Copy, Clone, PartialEq, Eq, Structural)]
pub enum RenderGraphResult {
    /// A referenced resource was not created as a vertex.
    ResourceDoesNotExist,
    /// A referenced pass was not created as a vertex.
    PassDoesNotExist,
    /// A referenced pipeline was never added to the graph.
    PipelineDoesNotExist,
}

/// What a pass needs from the pipeline registry: its layout declaration and
/// its shaders.
#[derive(Debug, Clone)]
pub struct PipelineInfo {
    pub builder: PipelineLayoutBuilder,
    pub vertex_shader: Handle,
    pub fragment_shader: Option<Handle>,
}

/// A human-readable tag for one vertex of the graph.
#[derive(Debug, Clone, PartialEq, Eq)]
pub enum VertexLabel {
    /// The registered name of the vertex's object.
    Named(String),
    /// The generated id of an anonymous resource.
    Generated(u128),
    /// An unlabelled pass, by handle value.
    Anonymous(u64),
}

/// The edges as mathematical integer pairs.
pub open spec fn edge_ints(edges: Seq<(usize, usize)>) -> Seq<(int, int)> {
    edges.map_values(|e: (usize, usize)| (e.0 as int, e.1 as int))
}

/// Every attachment that names an existing resource has a vertex in `rmap`.
pub open spec fn all_resolvable(atts: Seq<PassResource>, rmap: Map<u64, usize>) -> bool {
    forall|i: int|
        0 <= i < atts.len() ==> match (#[trigger] atts[i]).spec_resource_handle() {
            Option::Some(h) => rmap.dom().contains(h.0),
            Option::None => true,
        }
}

/// The vertex each attachment's named resource resolves to; `None` for an
/// attachment asking for a new allocation.
pub open spec fn spec_resolve(atts: Seq<PassResource>, rmap: Map<u64, usize>) -> Seq<Option<int>> {
    Seq::new(
        atts.len(),
        |i: int|
            match atts[i].spec_resource_handle() {
                Option::Some(h) => if rmap.dom().contains(h.0) {
                    Option::Some(rmap[h.0] as int)
                } else {
                    Option::None
                },
                Option::None => Option::None,
            },
    )
}

/// One planned output: its vertex index and its resource handle id.
#[verifier::ext_equal]
pub struct PlannedOutput {
    pub node: int,
    pub rid: int,
}

/// The planned effect of registering one pass's attachments, in declaration
/// order: how many vertices and resource handle ids exist afterwards, which
/// edges are appended, and the pass's outputs. Outputs naming an existing
/// resource and freshly allocated outputs are listed separately; the
/// returned list is the existing outputs followed by the fresh ones, each
/// group in declaration order. A fresh output consumes two registry ids:
/// one for the new dynamic resource (whose vertex it is) and one for its
/// promoted persistent twin.
#[verifier::ext_equal]
pub struct PassPlan {
    pub vnext: int,
    pub rnext: int,
    pub edges: Seq<(int, int)>,
    pub outs_existing: Seq<PlannedOutput>,
    pub outs_new: Seq<PlannedOutput>,
}

/// The (vertex index, resource id) pairs of a planned output list.
pub open spec fn planned_pairs(outs: Seq<PlannedOutput>) -> Seq<(int, int)> {
    outs.map_values(|o: PlannedOutput| (o.node, o.rid))
}

/// The (vertex index, resource id) pairs of a returned output list.
pub open spec fn out_pairs(outs: Seq<VertexHandle>) -> Seq<(int, int)> {
    outs.map_values(|vh: VertexHandle| (vh.spec_node_index(), vh.handle.0 as int))
}

proof fn lemma_out_pairs_push(s: Seq<VertexHandle>, vh: VertexHandle)
    ensures
        out_pairs(s.push(vh)) =~= out_pairs(s).push((vh.spec_node_index(), vh.handle.0 as int)),
{
}

proof fn lemma_planned_pairs_push(s: Seq<PlannedOutput>, o: PlannedOutput)
    ensures
        planned_pairs(s.push(o)) =~= planned_pairs(s).push((o.node, o.rid)),
{
}

/// Registering a pass at vertex `pass_node` processes its attachments in
/// declaration order. An `OnlyOutput(None)` attachment allocates the next
/// two resource handle ids (the dynamic resource and its promoted
/// persistent twin) and the next vertex, and links `pass_node` to it; an
/// output naming an existing resource links `pass_node` to that resource's
/// vertex; an input, including the input side of an `InputAndOutput`, links
/// the resource's vertex to `pass_node`.
pub open spec fn pass_plan(
    atts: Seq<PassResource>,
    resolved: Seq<Option<int>>,
    pass_node: int,
    v0: int,
    r0: int,
) -> PassPlan
    decreases atts.len(),
{
    if atts.len() == 0 {
        PassPlan {
            vnext: v0,
            rnext: r0,
            edges: Seq::empty(),
            outs_existing: Seq::empty(),
            outs_new: Seq::empty(),
        }
    } else {
        let p = pass_plan(atts.drop_last(), resolved.drop_last(), pass_node, v0, r0);
        match atts.last() {
            PassResource::OnlyInput(_) => PassPlan {
                vnext: p.vnext,
                rnext: p.rnext,
                edges: p.edges.push((resolved.last()->0, pass_node)),
                outs_existing: p.outs_existing,
                outs_new: p.outs_new,
            },
            PassResource::OnlyOutput(oh) => match oh {
                Option::Some(h) => PassPlan {
                    vnext: p.vnext,
                    rnext: p.rnext,
                    edges: p.edges.push((pass_node, resolved.last()->0)),
                    outs_existing: p.outs_existing.push(
                        PlannedOutput { node: resolved.last()->0, rid: h.0 as int },
                    ),
                    outs_new: p.outs_new,
                },
                Option::None => PassPlan {
                    vnext: p.vnext + 1,
                    rnext: p.rnext + 2,
                    edges: p.edges.push((pass_node, p.vnext)),
                    outs_existing: p.outs_existing,
                    outs_new: p.outs_new.push(PlannedOutput { node: p.vnext, rid: p.rnext }),
                },
            },
            PassResource::InputAndOutput(h) => PassPlan {
                vnext: p.vnext,
                rnext: p.rnext,
                edges: p.edges.push((resolved.last()->0, pass_node)),
                outs_existing: p.outs_existing.push(
                    PlannedOutput { node: resolved.last()->0, rid: h.0 as int },
                ),
                outs_new: p.outs_new,
            },
        }
    }
}

/// Unfolds one step of [`pass_plan`] along a prefix of the attachments.
proof fn lemma_pass_plan_step(
    atts: Seq<PassResource>,
    res: Seq<Option<int>>,
    pn: int,
    v0: int,
    r0: int,
    i: int,
)
    requires
        0 <= i < atts.len(),
        res.len() == atts.len(),
    ensures
        ({
            let p0 = pass_plan(atts.take(i), res.take(i), pn, v0, r0);
            let p1 = pass_plan(atts.take(i + 1), res.take(i + 1), pn, v0, r0);
            p1 == match atts[i] {
                PassResource::OnlyInput(_) => PassPlan {
                    vnext: p0.vnext,
                    rnext: p0.rnext,
                    edges: p0.edges.push((res[i]->0, pn)),
                    outs_existing: p0.outs_existing,
                    outs_new: p0.outs_new,
                },
                PassResource::OnlyOutput(oh) => match oh {
                    Option::Some(h) => PassPlan {
                        vnext: p0.vnext,
                        rnext: p0.rnext,
                        edges: p0.edges.push((pn, res[i]->0)),
                        outs_existing: p0.outs_existing.push(
                            PlannedOutput { node: res[i]->0, rid: h.0 as int },
                        ),
                        outs_new: p0.outs_new,
                    },
                    Option::None => PassPlan {
                        vnext: p0.vnext + 1,
                        rnext: p0.rnext + 2,
                        edges: p0.edges.push((pn, p0.vnext)),
                        outs_existing: p0.outs_existing,
                        outs_new: p0.outs_new.push(PlannedOutput { node: p0.vnext, rid: p0.rnext }),
                    },
                },
                PassResource::InputAndOutput(h) => PassPlan {
                    vnext: p0.vnext,
                    rnext: p0.rnext,
                    edges: p0.edges.push((res[i]->0, pn)),
                    outs_existing: p0.outs_existing.push(
                        PlannedOutput { node: res[i]->0, rid: h.0 as int },
                    ),
                    outs_new: p0.outs_new,
                },
            }
        }),
{
    assert(atts.take(i + 1).drop_last() =~= atts.take(i));
    assert(res.take(i + 1).drop_last() =~= res.take(i));
    assert(atts.take(i + 1).last() == atts[i]);
    assert(res.take(i + 1).last() == res[i]);
}

/// Law: building a pass never confuses fresh and reused vertices. An
/// `OnlyOutput(None)` attachment always yields a freshly allocated vertex,
/// at an index at or above `v0` and so distinct from every vertex that
/// existed before the pass was added; an `OnlyOutput(Some(h))` or
/// `InputAndOutput(h)` attachment never allocates a vertex and reuses
/// exactly the existing vertex of `h`.
pub proof fn lemma_output_vertex_allocation(
    atts: Seq<PassResource>,
    rmap: Map<u64, usize>,
    pass_node: int,
    v0: int,
    r0: int,
)
    requires
        all_resolvable(atts, rmap),
    ensures
        ({
            let p = pass_plan(atts, spec_resolve(atts, rmap), pass_node, v0, r0);
            &&& p.vnext >= v0
            &&& forall|k: int|
                0 <= k < p.outs_new.len() ==> v0 <= (#[trigger] p.outs_new[k]).node < p.vnext
            &&& forall|k: int|
                0 <= k < p.outs_existing.len() ==> rmap.dom().contains(
                    (#[trigger] p.outs_existing[k]).rid as u64,
                ) && p.outs_existing[k].node == rmap[p.outs_existing[k].rid as u64]
        }),
    decreases atts.len(),
{
    if atts.len() > 0 {
        let prefix = atts.drop_last();
        assert(all_resolvable(prefix, rmap)) by {
            assert forall|i: int| 0 <= i < prefix.len() implies match (#[trigger] prefix[i]).spec_resource_handle() {
                Option::Some(h) => rmap.dom().contains(h.0),
                Option::None => true,
            } by {
                assert(prefix[i] == atts[i]);
            }
        }
        lemma_output_vertex_allocation(prefix, rmap, pass_node, v0, r0);
        assert(spec_resolve(atts, rmap).drop_last() =~= spec_resolve(prefix, rmap));
        let p0 = pass_plan(prefix, spec_resolve(prefix, rmap), pass_node, v0, r0);
        let p = pass_plan(atts, spec_resolve(atts, rmap), pass_node, v0, r0);
        match atts.last() {
            PassResource::OnlyInput(_) => {},
            PassResource::OnlyOutput(oh) => match oh {
                Option::Some(h) => {
                    assert(atts[atts.len() - 1].spec_resource_handle() == Option::Some(h));
                    assert(spec_resolve(atts, rmap).last() == Option::Some(rmap[h.0] as int));
                },
                Option::None => {},
            },
            PassResource::InputAndOutput(h) => {
                assert(atts[atts.len() - 1].spec_resource_handle() == Option::Some(h));
                assert(spec_resolve(atts, rmap).last() == Option::Some(rmap[h.0] as int));
            },
        }
    }
}

/// The frame-graph builder: an append-only authoring surface over one
/// logical frame-graph instance. Building declares resources and passes;
/// compiling the finished graph is the compiler module's job.
pub struct RenderGraph {
    shaders: HandleMap<ShaderRepresentation>,
    pipelines: HandleMap<PipelineInfo>,
    passes: HandleMap<RenderPassBuilder>,
    resources: HandleMap<Resource>,
    graph: RenderGraphMeta,
    vertices: Vec<Vertex>,
    resource_vertex_map: HashMap<u64, usize>,
    pass_vertex_map: HashMap<u64, usize>,
}

impl RenderGraph {
    /// The vertex tags, in node-index order.
    pub closed spec fn vertices(&self) -> Seq<Vertex> {
        self.vertices@
    }

    /// The edges, as (source node, target node), in insertion order.
    pub closed spec fn edges(&self) -> Seq<(usize, usize)> {
        graph_edges(self.graph.forward_graph)
    }

    /// resource handle id -> node index of its vertex.
    pub closed spec fn resource_vertices(&self) -> Map<u64, usize> {
        self.resource_vertex_map@
    }

    /// pass handle id -> node index of its vertex.
    pub closed spec fn pass_vertices(&self) -> Map<u64, usize> {
        self.pass_vertex_map@
    }

    /// The registered resources.
    pub closed spec fn spec_resources(&self) -> Map<u64, Resource> {
        self.resources.entries()
    }

    /// The registered passes.
    pub closed spec fn spec_passes(&self) -> Map<u64, RenderPassBuilder> {
        self.passes.entries()
    }

    /// The registered pipelines.
    pub closed spec fn spec_pipelines(&self) -> Map<u64, PipelineInfo> {
        self.pipelines.entries()
    }

    /// The registered shaders.
    pub closed spec fn spec_shaders(&self) -> Map<u64, ShaderRepresentation> {
        self.shaders.entries()
    }

    /// The resource registry's name bindings.
    pub closed spec fn resource_names(&self) -> Seq<(Seq<char>, u64)> {
        self.resources.names()
    }

    /// The name each resource handle is registered under, if any.
    pub closed spec fn resource_labels(&self) -> Map<u64, Seq<char>> {
        self.resources.labels()
    }

    /// The name each pass handle is registered under, if any.
    pub closed spec fn pass_labels(&self) -> Map<u64, Seq<char>> {
        self.passes.labels()
    }

    pub closed spec fn resources_next(&self) -> u64 {
        self.resources.next()
    }

    pub closed spec fn passes_next(&self) -> u64 {
        self.passes.next()
    }

    pub closed spec fn pipelines_next(&self) -> u64 {
        self.pipelines.next()
    }

    pub closed spec fn shaders_next(&self) -> u64 {
        self.shaders.next()
    }

    pub open spec fn vertex_count_spec(&self) -> int {
        self.vertices().len() as int
    }

    /// Well-formedness: the vertex mirror matches the graph's nodes, the two
    /// petgraph twins agree, every edge connects a resource vertex and a
    /// pass vertex, and the vertex maps and registries are mutually
    /// consistent.
    pub closed spec fn inv(&self) -> bool {
        &&& self.shaders.inv()
        &&& self.pipelines.inv()
        &&& self.passes.inv()
        &&& self.resources.inv()
        &&& self.graph.inv()
        &&& graph_nodes(self.graph.forward_graph) == self.vertices@.map_values(
            |v: Vertex| v.vid(),
        )
        &&& forall|k: int|
            0 <= k < self.edges().len() ==> (#[trigger] self.edges()[k]).0 < self.vertices@.len()
                && self.edges()[k].1 < self.vertices@.len() && ((self.vertices@[
                self.edges()[k].0 as int
            ] is Pass && self.vertices@[self.edges()[k].1 as int] is Resource) || (self.vertices@[
                self.edges()[k].0 as int
            ] is Resource && self.vertices@[self.edges()[k].1 as int] is Pass))
        &&& forall|i: int|
            0 <= i < self.vertices@.len() ==> match #[trigger] self.vertices@[i] {
                Vertex::Resource(h) => self.resource_vertex_map@.dom().contains(h.0)
                    && self.resource_vertex_map@[h.0] == i && self.resources.entries().dom()
                    .contains(h.0),
                Vertex::Pass(h) => self.pass_vertex_map@.dom().contains(h.0)
                    && self.pass_vertex_map@[h.0] == i && self.passes.entries().dom().contains(h.0)
                    && self.pipelines.entries().dom().contains(
                    self.passes.entries()[h.0].pipeline.0,
                ),
            }
        &&& forall|id: u64| #[trigger]
            self.resource_vertex_map@.dom().contains(id) ==> self.resource_vertex_map@[id]
                < self.vertices@.len() && self.vertices@[self.resource_vertex_map@[id] as int]
                is Resource && self.resources.entries().dom().contains(id)
        &&& forall|id: u64| #[trigger]
            self.pass_vertex_map@.dom().contains(id) ==> self.pass_vertex_map@[id]
                < self.vertices@.len() && self.vertices@[self.pass_vertex_map@[id] as int]
                == Vertex::Pass(Handle(id))
    }

    /// Create an empty graph.
    pub fn new() -> (g: RenderGraph)
        ensures
            g.inv(),
            g.vertices() == Seq::<Vertex>::empty(),
            g.edges() == Seq::<(usize, usize)>::empty(),
            g.spec_resources() == Map::<u64, Resource>::empty(),
            g.spec_passes() == Map::<u64, RenderPassBuilder>::empty(),
            g.spec_pipelines() == Map::<u64, PipelineInfo>::empty(),
            g.spec_shaders() == Map::<u64, ShaderRepresentation>::empty(),
            g.resource_vertices() == Map::<u64, usize>::empty(),
            g.pass_vertices() == Map::<u64, usize>::empty(),
            g.resources_next() == 0,
            g.passes_next() == 0,
            g.pipelines_next() == 0,
            g.shaders_next() == 0,
            g.resource_names() == Seq::<(Seq<char>, u64)>::empty(),
            g.resource_labels() =~= Map::<u64, Seq<char>>::empty(),
            g.pass_labels() =~= Map::<u64, Seq<char>>::empty(),
    {
        let g = RenderGraph {
            shaders: HandleMap::new(),
            pipelines: HandleMap::new(),
            passes: HandleMap::new(),
            resources: HandleMap::new(),
            graph: RenderGraphMeta::new(),
            vertices: Vec::new(),
            resource_vertex_map: HashMap::new(),
            pass_vertex_map: HashMap::new(),
        };
        proof {
            assert(graph_nodes(g.graph.forward_graph) =~= g.vertices@.map_values(
                |v: Vertex| v.vid(),
            ));
        }
        g
    }

    /// Register a shader declaration, optionally under a name.
    pub fn add_shader(&mut self, shader: ShaderRepresentation, id: Option<&str>) -> (h: Handle)
        requires
            old(self).inv(),
            old(self).shaders_next() < u64::MAX,
        ensures
            final(self).inv(),
            h.0 == old(self).shaders_next(),
            !old(self).spec_shaders().dom().contains(h.0),
            final(self).spec_shaders() == old(self).spec_shaders().insert(h.0, shader),
            final(self).shaders_next() == old(self).shaders_next() + 1,
            final(self).vertices() == old(self).vertices(),
            final(self).edges() == old(self).edges(),
            final(self).spec_resources() == old(self).spec_resources(),
            final(self).spec_passes() == old(self).spec_passes(),
            final(self).spec_pipelines() == old(self).spec_pipelines(),
            final(self).resource_vertices() == old(self).resource_vertices(),
            final(self).pass_vertices() == old(self).pass_vertices(),
            final(self).resources_next() == old(self).resources_next(),
            final(self).passes_next() == old(self).passes_next(),
            final(self).pipelines_next() == old(self).pipelines_next(),
            final(self).resource_names() == old(self).resource_names(),
            final(self).resource_labels() == old(self).resource_labels(),
            final(self).pass_labels() == old(self).pass_labels(),
    {
        let string_id: Option<String> = match id {
            Option::Some(s) => Some(s.to_string()),
            Option::None => None,
        };
        self.shaders.add(shader, string_id)
    }

    /// Register a pipeline: its layout declaration, its vertex shader and
    /// optionally its fragment shader, optionally under a name.
    pub fn add_pipeline(
        &mut self,
        layout: PipelineLayoutBuilder,
        vertex_shader: Handle,
        fragment_shader: Option<Handle>,
        id: Option<&str>,
    ) -> (h: Handle)
        requires
            old(self).inv(),
            old(self).pipelines_next() < u64::MAX,
        ensures
            final(self).inv(),
            h.0 == old(self).pipelines_next(),
            !old(self).spec_pipelines().dom().contains(h.0),
            final(self).spec_pipelines() == old(self).spec_pipelines().insert(
                h.0,
                PipelineInfo { builder: layout, vertex_shader, fragment_shader },
            ),
            final(self).pipelines_next() == old(self).pipelines_next() + 1,
            final(self).vertices() == old(self).vertices(),
            final(self).edges() == old(self).edges(),
            final(self).spec_resources() == old(self).spec_resources(),
            final(self).spec_passes() == old(self).spec_passes(),
            final(self).spec_shaders() == old(self).spec_shaders(),
            final(self).resource_vertices() == old(self).resource_vertices(),
            final(self).pass_vertices() == old(self).pass_vertices(),
            final(self).resources_next() == old(self).resources_next(),
            final(self).passes_next() == old(self).passes_next(),
            final(self).shaders_next() == old(self).shaders_next(),
            final(self).resource_names() == old(self).resource_names(),
            final(self).resource_labels() == old(self).resource_labels(),
            final(self).pass_labels() == old(self).pass_labels(),
    {
        let string_id: Option<String> = match id {
            Option::Some(s) => Some(s.to_string()),
            Option::None => None,
        };
        self.pipelines.add(
            PipelineInfo { builder: layout, vertex_shader, fragment_shader },
            string_id,
        )
    }

    /// Declare a resource and create its vertex. A persistent resource is
    /// registered under its name (when it has one) for later lookup; a
    /// dynamic resource gets a fresh anonymous identity. The new vertex is
    /// distinct from every existing one.
    pub fn add_resource(&mut self, resource: Resource) -> (r: VertexHandle)
        requires
            old(self).inv(),
            old(self).resources_next() < u64::MAX,
            old(self).vertices().len() < u32::MAX,
        ensures
            final(self).inv(),
            r.handle.0 == old(self).resources_next(),
            r.spec_node_index() == old(self).vertices().len(),
            !old(self).resource_vertices().dom().contains(r.handle.0),
            final(self).vertices() == old(self).vertices().push(Vertex::Resource(r.handle)),
            final(self).edges() == old(self).edges(),
            final(self).spec_resources() == old(self).spec_resources().insert(
                r.handle.0,
                resource,
            ),
            final(self).resource_vertices() =~= old(self).resource_vertices().insert(
                r.handle.0,
                (old(self).vertices().len() as int) as usize,
            ),
            final(self).resources_next() == old(self).resources_next() + 1,
            final(self).resource_names() == match resource {
                Resource::Persistent(id) => match id.string_id {
                    Option::Some(n) => old(self).resource_names().push((n@, r.handle.0)),
                    Option::None => old(self).resource_names(),
                },
                Resource::Dynamic(_) => old(self).resource_names(),
            },
            final(self).resource_labels() =~= match resource {
                Resource::Persistent(id) => match id.string_id {
                    Option::Some(n) => old(self).resource_labels().insert(r.handle.0, n@),
                    Option::None => old(self).resource_labels(),
                },
                Resource::Dynamic(_) => old(self).resource_labels(),
            },
            final(self).pass_labels() == old(self).pass_labels(),
            final(self).spec_passes() == old(self).spec_passes(),
            final(self).spec_pipelines() == old(self).spec_pipelines(),
            final(self).spec_shaders() == old(self).spec_shaders(),
            final(self).pass_vertices() == old(self).pass_vertices(),
            final(self).passes_next() == old(self).passes_next(),
            final(self).pipelines_next() == old(self).pipelines_next(),
            final(self).shaders_next() == old(self).shaders_next(),
    {
        let string_id: Option<String> = match &resource {
            Resource::Persistent(id) => match &id.string_id {
                Option::Some(s) => Some(s.clone()),
                Option::None => None,
            },
            Resource::Dynamic(_) => None,
        };
        let rh = self.resources.add(resource, string_id);
        let node = self.graph.add_node(rh.0);
        self.vertices.push(Vertex::Resource(rh));
        self.resource_vertex_map.insert(rh.0, node);
        proof {
            assert(graph_nodes(self.graph.forward_graph) =~= self.vertices@.map_values(
                |v: Vertex| v.vid(),
            ));
            assert forall|i: int| 0 <= i < self.vertices@.len() implies match #[trigger] self
                .vertices@[i] {
                Vertex::Resource(h) => self.resource_vertex_map@.dom().contains(h.0)
                    && self.resource_vertex_map@[h.0] == i && self.resources.entries().dom()
                    .contains(h.0),
                Vertex::Pass(h) => self.pass_vertex_map@.dom().contains(h.0)
                    && self.pass_vertex_map@[h.0] == i && self.passes.entries().dom().contains(h.0)
                    && self.pipelines.entries().dom().contains(
                    self.passes.entries()[h.0].pipeline.0,
                ),
            } by {
                if i < old(self).vertices@.len() {
                    assert(old(self).vertices@[i] == self.vertices@[i]);
                    match old(self).vertices@[i] {
                        Vertex::Resource(h) => {
                            assert(h.0 != rh.0);
                        },
                        Vertex::Pass(h) => {},
                    }
                }
            }
            assert forall|id: u64| #[trigger]
                self.resource_vertex_map@.dom().contains(id) implies self.resource_vertex_map@[id]
                < self.vertices@.len() && self.vertices@[self.resource_vertex_map@[id] as int]
                is Resource && self.resources.entries().dom().contains(id) by {
                if id != rh.0 {
                    assert(old(self).resource_vertex_map@.dom().contains(id));
                }
            }
        }
        VertexHandle { node_index: node, handle: rh }
    }

    /// Declare a render pass. The pass and its vertex are registered; every
    /// `OnlyOutput(None)` attachment allocates a brand-new dynamic resource
    /// and its vertex, and additionally registers its promoted persistent
    /// twin (same generated id, no name) in the resource registry, bound to
    /// the same vertex, so a later pass can reference the output without
    /// threading the dynamic handle; every attachment naming an existing
    /// resource reuses that resource's vertex. Edges are added in
    /// attachment declaration order: `pass -> vertex` for each brand-new or
    /// write-only output, `vertex -> pass` for each attachment the pass
    /// reads (an in-out attachment adds only its consume edge: writing a
    /// resource in place produces no new vertex, and a produce edge back to
    /// the same vertex would turn every read-modify-write into a cycle).
    /// Returns the pass's vertex and its output vertices: those naming
    /// existing resources first, then the freshly allocated ones, each
    /// group in declaration order. Fails, changing nothing, when the pass's
    /// pipeline was never added or an attachment names a resource with no
    /// vertex.
    #[verifier::loop_isolation(false)]
    #[verifier::rlimit(100)]
    pub fn add_render_pass(&mut self, pass: RenderPassBuilder) -> (r: Result<
        (VertexHandle, Vec<VertexHandle>),
        RenderGraphResult,
    >)
        requires
            old(self).inv(),
            old(self).passes_next() < u64::MAX,
            old(self).resources_next() + 2 * pass.attachments().len() < u64::MAX,
            old(self).vertices().len() + 1 + pass.attachments().len() < u32::MAX,
            old(self).edges().len() + 2 * pass.attachments().len() < u32::MAX,
        ensures
            final(self).inv(),
            r is Ok <==> (old(self).spec_pipelines().dom().contains(pass.pipeline.0)
                && all_resolvable(pass.attachments(), old(self).resource_vertices())),
            match r {
                Result::Err(e) => {
                    &&& final(self).vertices() == old(self).vertices()
                    &&& final(self).edges() == old(self).edges()
                    &&& final(self).spec_resources() == old(self).spec_resources()
                    &&& final(self).spec_passes() == old(self).spec_passes()
                    &&& final(self).spec_pipelines() == old(self).spec_pipelines()
                    &&& final(self).spec_shaders() == old(self).spec_shaders()
                    &&& final(self).resource_vertices() == old(self).resource_vertices()
                    &&& final(self).pass_vertices() == old(self).pass_vertices()
                    &&& final(self).resources_next() == old(self).resources_next()
                    &&& final(self).passes_next() == old(self).passes_next()
                    &&& (e == RenderGraphResult::PipelineDoesNotExist <==> !old(
                        self,
                    ).spec_pipelines().dom().contains(pass.pipeline.0))
                    &&& (e == RenderGraphResult::ResourceDoesNotExist <==> old(
                        self,
                    ).spec_pipelines().dom().contains(pass.pipeline.0) && !all_resolvable(
                        pass.attachments(),
                        old(self).resource_vertices(),
                    ))
                },
                Result::Ok((pv, outs)) => {
                    let v0 = old(self).vertices().len() as int;
                    let r0 = old(self).resources_next() as int;
                    let plan = pass_plan(
                        pass.attachments(),
                        spec_resolve(pass.attachments(), old(self).resource_vertices()),
                        v0,
                        v0 + 1,
                        r0,
                    );
                    &&& pv.handle.0 == old(self).passes_next()
                    &&& pv.spec_node_index() == v0
                    &&& final(self).spec_passes() == old(self).spec_passes().insert(
                        pv.handle.0,
                        pass,
                    )
                    &&& final(self).passes_next() == old(self).passes_next() + 1
                    &&& final(self).pass_vertices() =~= old(self).pass_vertices().insert(
                        pv.handle.0,
                        (v0 as usize),
                    )
                    &&& final(self).vertices() =~= old(self).vertices().push(
                        Vertex::Pass(pv.handle),
                    ) + Seq::new(
                        (plan.vnext - (v0 + 1)) as nat,
                        |k: int| Vertex::Resource(Handle((r0 + 2 * k) as u64)),
                    )
                    &&& edge_ints(final(self).edges()) =~= edge_ints(old(self).edges())
                        + plan.edges
                    &&& out_pairs(outs@) =~= planned_pairs(plan.outs_existing) + planned_pairs(
                        plan.outs_new,
                    )
                    &&& final(self).resources_next() == plan.rnext
                    &&& forall|id: u64| #[trigger]
                        final(self).spec_resources().dom().contains(id) <==> (old(
                            self,
                        ).spec_resources().dom().contains(id) || (r0 <= id < plan.rnext))
                    &&& forall|id: u64| #[trigger]
                        old(self).spec_resources().dom().contains(id) ==> final(self).spec_resources()[id] == old(self).spec_resources()[id]
                    &&& forall|k: int|
                        0 <= k < plan.vnext - (v0 + 1) ==> (#[trigger] final(self).spec_resources()[((r0 + 2 * k) as u64)]) is Dynamic
                            && (final(self).spec_resources()[((r0 + 2 * k + 1) as u64)] matches Resource::Persistent(id)
                            && id.string_id is None && id.global_id == final(self).spec_resources()[((r0 + 2 * k) as u64)]->Dynamic_0)
                    &&& forall|id: u64| #[trigger]
                        final(self).resource_vertices().dom().contains(id) <==> (old(
                            self,
                        ).resource_vertices().dom().contains(id) || (r0 <= id < plan.rnext))
                    &&& forall|id: u64| #[trigger]
                        old(self).resource_vertices().dom().contains(id) ==> final(self).resource_vertices()[id] == old(self).resource_vertices()[id]
                    &&& forall|id: u64|
                        r0 <= id < plan.rnext ==> (#[trigger] final(self).resource_vertices()[id]) as int == v0 + 1 + ((id - r0) / 2)
                    &&& final(self).resource_names() == old(self).resource_names()
                    &&& final(self).resource_labels() =~= old(self).resource_labels()
                    &&& final(self).spec_pipelines() == old(self).spec_pipelines()
                    &&& final(self).spec_shaders() == old(self).spec_shaders()
                    &&& match pass.label {
                        Option::Some(l) => final(self).pass_labels() =~= old(
                            self,
                        ).pass_labels().insert(pv.handle.0, l@),
                        Option::None => final(self).pass_labels() =~= old(self).pass_labels(),
                    }
                },
            },
    {
        if self.pipelines.get_from_handle(&pass.pipeline).is_none() {
            return Result::Err(RenderGraphResult::PipelineDoesNotExist);
        }

        let atts = pass.all_attachments();
        let n_atts = atts.len();
        let ghost rmap0 = self.resource_vertex_map@;

        // Resolve every attachment that names an existing resource before
        // mutating anything, so a failed lookup leaves the graph untouched.
        let mut resolved: Vec<Option<usize>> = Vec::new();
        let mut i: usize = 0;
        while i < n_atts
            invariant
                i <= n_atts,
                n_atts == atts@.len(),
                atts@ == pass.attachments(),
                rmap0 == self.resource_vertex_map@,
                *self == *old(self),
                resolved@.len() == i,
                forall|j: int|
                    0 <= j < i ==> #[trigger] resolved@[j] == (match atts@[j].spec_resource_handle() {
                        Option::Some(h) => if rmap0.dom().contains(h.0) {
                            Option::Some(rmap0[h.0])
                        } else {
                            Option::None
                        },
                        Option::None => Option::None,
                    }),
                forall|j: int|
                    0 <= j < i ==> match (#[trigger] atts@[j]).spec_resource_handle() {
                        Option::Some(h) => rmap0.dom().contains(h.0),
                        Option::None => true,
                    },
            decreases n_atts - i,
        {
            match atts[i].resource_handle() {
                Option::Some(h) => {
                    match self.resource_vertex_map.get(&h.0) {
                        Option::Some(ix) => {
                            resolved.push(Some(*ix));
                        },
                        Option::None => {
                            proof {
                                assert(!all_resolvable(
                                    pass.attachments(),
                                    old(self).resource_vertices(),
                                )) by {
                                    assert(atts@[i as int].spec_resource_handle()
                                        == Option::Some(h));
                                }
                            }
                            return Result::Err(RenderGraphResult::ResourceDoesNotExist);
                        },
                    }
                },
                Option::None => {
                    resolved.push(None);
                },
            }
            i = i + 1;
        }
        proof {
            assert(all_resolvable(pass.attachments(), old(self).resource_vertices()));
        }

        let ghost v0 = old(self).vertices().len() as int;
        let ghost r0 = old(self).resources_next() as int;
        let ghost sres = spec_resolve(pass.attachments(), old(self).resource_vertices());
        proof {
            assert forall|j: int| 0 <= j < sres.len() implies sres[j] == (match resolved@[j] {
                Option::Some(x) => Option::Some(x as int),
                Option::None => Option::<int>::None,
            }) by {}
        }

        // Register the pass and its vertex.
        let label: Option<String> = match &pass.label {
            Option::Some(s) => Some(s.clone()),
            Option::None => None,
        };
        let ghost pass_value = pass;
        let pass_handle = self.passes.add(pass, label);
        let pass_node = self.graph.add_node(pass_handle.0);
        self.vertices.push(Vertex::Pass(pass_handle));
        self.pass_vertex_map.insert(pass_handle.0, pass_node);
        proof {
            assert(graph_nodes(self.graph.forward_graph) =~= self.vertices@.map_values(
                |v: Vertex| v.vid(),
            ));
            assert forall|ii: int| 0 <= ii < self.vertices@.len() implies match #[trigger] self
                .vertices@[ii] {
                Vertex::Resource(h) => self.resource_vertex_map@.dom().contains(h.0)
                    && self.resource_vertex_map@[h.0] == ii && self.resources.entries().dom()
                    .contains(h.0),
                Vertex::Pass(h) => self.pass_vertex_map@.dom().contains(h.0)
                    && self.pass_vertex_map@[h.0] == ii && self.passes.entries().dom().contains(h.0)
                    && self.pipelines.entries().dom().contains(
                    self.passes.entries()[h.0].pipeline.0,
                ),
            } by {
                if ii < old(self).vertices@.len() {
                    assert(old(self).vertices@[ii] == self.vertices@[ii]);
                    match old(self).vertices@[ii] {
                        Vertex::Pass(h) => {
                            assert(h.0 != pass_handle.0);
                        },
                        Vertex::Resource(h) => {},
                    }
                }
            }
            assert forall|id: u64| #[trigger]
                self.pass_vertex_map@.dom().contains(id) implies self.pass_vertex_map@[id]
                < self.vertices@.len() && self.vertices@[self.pass_vertex_map@[id] as int]
                == Vertex::Pass(Handle(id)) by {
                if id != pass_handle.0 {
                    assert(old(self).pass_vertex_map@.dom().contains(id));
                }
            }
            assert(self.inv());
        }

        let ghost mid = *self;
        let mut outs_existing: Vec<VertexHandle> = Vec::new();
        let mut outs_new: Vec<VertexHandle> = Vec::new();
        let mut i2: usize = 0;
        while i2 < n_atts
            invariant
                i2 <= n_atts,
                n_atts == atts@.len(),
                atts@ == pass_value.attachments(),
                resolved@.len() == n_atts,
                sres == spec_resolve(pass_value.attachments(), old(self).resource_vertices()),
                forall|j: int|
                    0 <= j < n_atts ==> #[trigger] sres[j] == (match resolved@[j] {
                        Option::Some(x) => Option::Some(x as int),
                        Option::None => Option::<int>::None,
                    }),
                forall|j: int|
                    0 <= j < n_atts ==> match (#[trigger] atts@[j]).spec_resource_handle() {
                        Option::Some(h) => old(self).resource_vertices().dom().contains(h.0)
                            && old(self).resource_vertices()[h.0] < v0,
                        Option::None => true,
                    },
                self.inv(),
                v0 == old(self).vertices().len() as int,
                r0 == old(self).resources_next() as int,
                v0 + 1 + n_atts < u32::MAX,
                r0 + 2 * n_atts < u64::MAX,
                old(self).edges().len() + 2 * n_atts < u32::MAX,
                pass_node == v0,
                ({
                    let p = pass_plan(
                        atts@.take(i2 as int),
                        sres.take(i2 as int),
                        v0,
                        v0 + 1,
                        r0,
                    );
                    &&& self.vertices@.len() == p.vnext
                    &&& v0 + 1 <= p.vnext <= v0 + 1 + i2
                    &&& p.rnext <= r0 + 2 * i2
                    &&& p.rnext - r0 == 2 * (p.vnext - (v0 + 1))
                    &&& self.vertices@ =~= old(self).vertices().push(
                        Vertex::Pass(pass_handle),
                    ) + Seq::new(
                        (p.vnext - (v0 + 1)) as nat,
                        |k: int| Vertex::Resource(Handle((r0 + 2 * k) as u64)),
                    )
                    &&& edge_ints(self.edges()) =~= edge_ints(old(self).edges()) + p.edges
                    &&& p.edges.len() <= 2 * i2
                    &&& out_pairs(outs_existing@) =~= planned_pairs(p.outs_existing)
                    &&& out_pairs(outs_new@) =~= planned_pairs(p.outs_new)
                    &&& self.resources.next() as int == p.rnext
                    &&& forall|id: u64| #[trigger]
                        self.spec_resources().dom().contains(id) <==> (old(
                            self,
                        ).spec_resources().dom().contains(id) || (r0 <= id < p.rnext))
                    &&& forall|id: u64| #[trigger]
                        old(self).spec_resources().dom().contains(id) ==> self.spec_resources()[id]
                            == old(self).spec_resources()[id]
                    &&& forall|k: int|
                        0 <= k < p.vnext - (v0 + 1) ==> (#[trigger] self.spec_resources()[((r0 + 2 * k) as u64)]) is Dynamic
                            && (self.spec_resources()[((r0 + 2 * k + 1) as u64)] matches Resource::Persistent(id)
                            && id.string_id is None && id.global_id == self.spec_resources()[((r0 + 2 * k) as u64)]->Dynamic_0)
                    &&& forall|id: u64| #[trigger]
                        self.resource_vertex_map@.dom().contains(id) <==> (old(
                            self,
                        ).resource_vertices().dom().contains(id) || (r0 <= id < p.rnext))
                    &&& forall|id: u64| #[trigger]
                        old(self).resource_vertices().dom().contains(id)
                            ==> self.resource_vertex_map@[id] == old(self).resource_vertices()[id]
                    &&& forall|id: u64|
                        r0 <= id < p.rnext ==> (#[trigger] self.resource_vertex_map@[id]) as int
                            == v0 + 1 + ((id - r0) / 2)
                }),
                self.resource_names() == old(self).resource_names(),
                self.resource_labels() =~= old(self).resource_labels(),
                self.spec_passes() == mid.spec_passes(),
                self.passes.next() == mid.passes.next(),
                self.passes.labels() == mid.passes.labels(),
                self.pass_vertex_map@ == mid.pass_vertex_map@,
                self.spec_pipelines() == old(self).spec_pipelines(),
                self.spec_shaders() == old(self).spec_shaders(),
                self.shaders_next() == old(self).shaders_next(),
                self.pipelines_next() == old(self).pipelines_next(),
            decreases n_atts - i2,
        {
            let ghost pre = *self;
            let ghost p_pre = pass_plan(atts@.take(i2 as int), sres.take(i2 as int), v0, v0 + 1, r0);
            proof {
                assert(graph_nodes(self.graph.forward_graph).len() == self.vertices@.len()) by {
                    assert(self.vertices@.map_values(|v: Vertex| v.vid()).len()
                        == self.vertices@.len());
                }
                assert(edge_ints(self.edges()).len() == self.edges().len());
                assert(edge_ints(old(self).edges()).len() == old(self).edges().len());
                assert(self.edges().len() <= old(self).edges().len() + 2 * i2);
            }
            let a = atts[i2];
            let node_opt = resolved[i2];
            proof {
                lemma_pass_plan_step(atts@, sres, v0, v0 + 1, r0, i2 as int);
                let j = i2 as int;
                assert(atts@[j] == a);
                if a.spec_resource_handle() is Some {
                    let h = a.spec_resource_handle()->0;
                    assert(old(self).resource_vertices().dom().contains(h.0));
                    assert(sres[j] == Option::Some(old(self).resource_vertices()[h.0] as int));
                    assert(node_opt is Some);
                    assert(node_opt->0 as int == old(self).resource_vertices()[h.0] as int);
                    assert(old(self).resource_vertices()[h.0] < v0);
                    assert(node_opt->0 < self.vertices@.len());
                    assert(old(self).vertices()[node_opt->0 as int] is Resource);
                    assert(self.vertices@[node_opt->0 as int] is Resource);
                } else {
                    assert(sres[j] is None);
                    assert(node_opt is None);
                }
                assert(self.vertices@[v0] == Vertex::Pass(pass_handle));
            }
            let ghost p_next = pass_plan(
                atts@.take(i2 + 1),
                sres.take(i2 + 1),
                v0,
                v0 + 1,
                r0,
            );
            let ghost outs_existing_pre = outs_existing@;
            let ghost outs_new_pre = outs_new@;
            match a {
                PassResource::OnlyInput(_) => {
                    let node = node_opt.unwrap();
                    self.graph.add_edge(node, pass_node);
                    proof {
                        assert(self.vertices@ == pre.vertices@);
                        assert(edge_ints(self.edges()) =~= edge_ints(pre.edges()).push(
                            (node as int, pass_node as int),
                        ));
                        assert(edge_ints(self.edges()) =~= edge_ints(old(self).edges())
                            + p_next.edges);
                        assert forall|k: int| 0 <= k < self.edges().len() implies (
                        #[trigger] self.edges()[k]).0 < self.vertices@.len()
                            && self.edges()[k].1 < self.vertices@.len() && ((self.vertices@[
                            self.edges()[k].0 as int
                        ] is Pass && self.vertices@[self.edges()[k].1 as int] is Resource) || (
                        self.vertices@[self.edges()[k].0 as int] is Resource && self.vertices@[
                            self.edges()[k].1 as int
                        ] is Pass)) by {
                            if k < pre.edges().len() {
                                assert(self.edges()[k] == pre.edges()[k]);
                            } else {
                                assert(self.edges()[k] == (node, pass_node));
                            }
                        }
                        assert(self.inv());
                    }
                },
                PassResource::OnlyOutput(oh) => match oh {
                    Option::Some(h) => {
                        let node = node_opt.unwrap();
                        self.graph.add_edge(pass_node, node);
                        outs_existing.push(VertexHandle { node_index: node, handle: h });
                        proof {
                            assert(self.vertices@ == pre.vertices@);
                            assert(edge_ints(self.edges()) =~= edge_ints(pre.edges()).push(
                                (pass_node as int, node as int),
                            ));
                            assert(edge_ints(self.edges()) =~= edge_ints(old(self).edges())
                                + p_next.edges);
                            assert forall|k: int| 0 <= k < self.edges().len() implies (
                            #[trigger] self.edges()[k]).0 < self.vertices@.len()
                                && self.edges()[k].1 < self.vertices@.len() && ((self.vertices@[
                                self.edges()[k].0 as int
                            ] is Pass && self.vertices@[self.edges()[k].1 as int] is Resource) || (
                            self.vertices@[self.edges()[k].0 as int] is Resource && self.vertices@[
                                self.edges()[k].1 as int
                            ] is Pass)) by {
                                if k < pre.edges().len() {
                                    assert(self.edges()[k] == pre.edges()[k]);
                                } else {
                                    assert(self.edges()[k] == (pass_node, node));
                                }
                            }
                            assert(self.inv());
                            assert(out_pairs(outs_existing@) =~= planned_pairs(
                                p_next.outs_existing,
                            )) by {
                                lemma_out_pairs_push(
                                    outs_existing_pre,
                                    VertexHandle { node_index: node, handle: h },
                                );
                                lemma_planned_pairs_push(
                                    p_pre.outs_existing,
                                    PlannedOutput { node: node as int, rid: h.0 as int },
                                );
                            }
                        }
                    },
                    Option::None => {
                        let u = fresh_uuid();
                        let vh = self.add_resource(Resource::Dynamic(u));
                        let ghost s1 = *self;
                        let th = self.resources.add(
                            Resource::Persistent(Id { global_id: u, string_id: None }),
                            None,
                        );
                        proof {
                            assert(th.0 == vh.handle.0 + 1);
                            assert(self.resource_names() =~= s1.resource_names());
                        }
                        self.resource_vertex_map.insert(th.0, vh.node_index);
                        proof {
                            // The promoted twin's handle is fresh, so the
                            // older vertex and registry links are untouched.
                            assert forall|ii: int| 0 <= ii < self.vertices@.len() implies match
                                #[trigger] self.vertices@[ii] {
                                Vertex::Resource(h) => self.resource_vertex_map@.dom().contains(
                                    h.0,
                                ) && self.resource_vertex_map@[h.0] == ii
                                    && self.resources.entries().dom().contains(h.0),
                                Vertex::Pass(h) => self.pass_vertex_map@.dom().contains(h.0)
                                    && self.pass_vertex_map@[h.0] == ii
                                    && self.passes.entries().dom().contains(h.0)
                                    && self.pipelines.entries().dom().contains(
                                    self.passes.entries()[h.0].pipeline.0,
                                ),
                            } by {
                                assert(s1.vertices@[ii] == self.vertices@[ii]);
                                match s1.vertices@[ii] {
                                    Vertex::Resource(h) => {
                                        assert(s1.resources.entries().dom().contains(h.0));
                                        assert(h.0 < th.0);
                                    },
                                    Vertex::Pass(h) => {},
                                }
                            }
                            assert forall|id: u64| #[trigger]
                                self.resource_vertex_map@.dom().contains(id) implies self
                                .resource_vertex_map@[id] < self.vertices@.len()
                                && self.vertices@[self.resource_vertex_map@[id] as int]
                                is Resource && self.resources.entries().dom().contains(id) by {
                                if id != th.0 {
                                    assert(s1.resource_vertex_map@.dom().contains(id));
                                    assert(s1.resources.entries().dom().contains(id));
                                } else {
                                    assert(self.resource_vertex_map@[id] == vh.node_index);
                                    assert(self.vertices@[vh.node_index as int] == Vertex::Resource(
                                        vh.handle,
                                    ));
                                }
                            }
                            assert(self.inv());
                        }
                        self.graph.add_edge(pass_node, vh.node_index);
                        outs_new.push(vh);
                        proof {
                            let p_pre2 = pass_plan(
                                atts@.take(i2 as int),
                                sres.take(i2 as int),
                                v0,
                                v0 + 1,
                                r0,
                            );
                            assert(vh.handle.0 as int == p_pre2.rnext);
                            assert(th.0 as int == p_pre2.rnext + 1);
                            assert(vh.spec_node_index() == p_pre2.vnext);
                            assert(self.vertices@ =~= old(self).vertices().push(
                                Vertex::Pass(pass_handle),
                            ) + Seq::new(
                                (p_next.vnext - (v0 + 1)) as nat,
                                |k: int| Vertex::Resource(Handle((r0 + 2 * k) as u64)),
                            ));
                            assert(edge_ints(self.edges()) =~= edge_ints(pre.edges()).push(
                                (pass_node as int, vh.node_index as int),
                            ));
                            assert(edge_ints(self.edges()) =~= edge_ints(old(self).edges())
                                + p_next.edges);
                            assert(self.vertices@[vh.node_index as int] == Vertex::Resource(
                                vh.handle,
                            ));
                            assert forall|k: int| 0 <= k < self.edges().len() implies (
                            #[trigger] self.edges()[k]).0 < self.vertices@.len()
                                && self.edges()[k].1 < self.vertices@.len() && ((self.vertices@[
                                self.edges()[k].0 as int
                            ] is Pass && self.vertices@[self.edges()[k].1 as int] is Resource) || (
                            self.vertices@[self.edges()[k].0 as int] is Resource && self.vertices@[
                                self.edges()[k].1 as int
                            ] is Pass)) by {
                                if k < pre.edges().len() {
                                    assert(self.edges()[k] == pre.edges()[k]);
                                    assert(pre.edges()[k].0 < pre.vertices@.len());
                                    assert(pre.edges()[k].1 < pre.vertices@.len());
                                    assert(self.vertices@[self.edges()[k].0 as int]
                                        == pre.vertices@[self.edges()[k].0 as int]);
                                    assert(self.vertices@[self.edges()[k].1 as int]
                                        == pre.vertices@[self.edges()[k].1 as int]);
                                } else {
                                    assert(self.edges()[k] == (pass_node, vh.node_index));
                                }
                            }
                            assert forall|id: u64| #[trigger]
                                self.spec_resources().dom().contains(id) <==> (old(
                                self,
                            ).spec_resources().dom().contains(id) || (r0 <= id
                                < p_next.rnext)) by {
                                if id != vh.handle.0 && id != th.0 {
                                    assert(self.spec_resources().dom().contains(id) == pre
                                        .spec_resources().dom().contains(id));
                                }
                            }
                            assert forall|id: u64| #[trigger]
                                self.resource_vertex_map@.dom().contains(id) <==> (old(
                                self,
                            ).resource_vertices().dom().contains(id) || (r0 <= id
                                < p_next.rnext)) by {
                                if id != vh.handle.0 && id != th.0 {
                                    assert(self.resource_vertex_map@.dom().contains(id) == pre
                                        .resource_vertex_map@.dom().contains(id));
                                }
                            }
                            assert forall|id: u64|
                                r0 <= id < p_next.rnext implies (#[trigger] self
                                .resource_vertex_map@[id]) as int == v0 + 1 + ((id - r0) / 2) by {
                                if id != vh.handle.0 && id != th.0 {
                                    assert(pre.resource_vertex_map@[id] as int == v0 + 1 + ((id
                                        - r0) / 2));
                                    assert(self.resource_vertex_map@[id]
                                        == pre.resource_vertex_map@[id]);
                                } else {
                                    assert(self.resource_vertex_map@[id] == vh.node_index);
                                    assert((vh.handle.0 - r0) / 2 == p_pre2.vnext - (v0 + 1));
                                    assert((th.0 - r0) / 2 == p_pre2.vnext - (v0 + 1));
                                }
                            }
                            assert forall|k: int|
                                0 <= k < p_next.vnext - (v0 + 1) implies (#[trigger] self.spec_resources()[((r0 + 2 * k) as u64)]) is Dynamic
                                && (self.spec_resources()[((r0 + 2 * k + 1) as u64)] matches Resource::Persistent(id)
                                && id.string_id is None && id.global_id == self.spec_resources()[((r0 + 2 * k) as u64)]->Dynamic_0) by {
                                let d = ((r0 + 2 * k) as u64);
                                let t = ((r0 + 2 * k + 1) as u64);
                                if k < p_pre2.vnext - (v0 + 1) {
                                    assert(d != vh.handle.0 && d != th.0);
                                    assert(t != vh.handle.0 && t != th.0);
                                    assert(pre.spec_resources()[d] is Dynamic);
                                    assert(self.spec_resources()[d] == pre.spec_resources()[d]);
                                    assert(self.spec_resources()[t] == pre.spec_resources()[t]);
                                } else {
                                    assert(d == vh.handle.0);
                                    assert(t == th.0);
                                    assert(self.spec_resources()[d] == Resource::Dynamic(u));
                                    assert(self.spec_resources()[t] == Resource::Persistent(
                                        Id { global_id: u, string_id: None },
                                    ));
                                }
                            }
                            assert(out_pairs(outs_new@) =~= planned_pairs(p_next.outs_new)) by {
                                lemma_out_pairs_push(outs_new_pre, vh);
                                lemma_planned_pairs_push(
                                    p_pre2.outs_new,
                                    PlannedOutput { node: p_pre2.vnext, rid: p_pre2.rnext },
                                );
                            }
                        }
                    },
                },
                PassResource::InputAndOutput(h) => {
                    let node = node_opt.unwrap();
                    self.graph.add_edge(node, pass_node);
                    outs_existing.push(VertexHandle { node_index: node, handle: h });
                    proof {
                        assert(self.vertices@ == pre.vertices@);
                        assert(edge_ints(self.edges()) =~= edge_ints(pre.edges()).push(
                            (node as int, pass_node as int),
                        ));
                        assert(edge_ints(self.edges()) =~= edge_ints(old(self).edges())
                            + p_next.edges);
                        assert forall|k: int| 0 <= k < self.edges().len() implies (
                        #[trigger] self.edges()[k]).0 < self.vertices@.len()
                            && self.edges()[k].1 < self.vertices@.len() && ((self.vertices@[
                            self.edges()[k].0 as int
                        ] is Pass && self.vertices@[self.edges()[k].1 as int] is Resource) || (
                        self.vertices@[self.edges()[k].0 as int] is Resource && self.vertices@[
                            self.edges()[k].1 as int
                        ] is Pass)) by {
                            if k < pre.edges().len() {
                                assert(self.edges()[k] == pre.edges()[k]);
                            } else {
                                assert(self.edges()[k] == (node, pass_node));
                            }
                        }
                        assert(self.inv());
                        assert(out_pairs(outs_existing@) =~= planned_pairs(p_next.outs_existing))
                            by {
                            lemma_out_pairs_push(
                                outs_existing_pre,
                                VertexHandle { node_index: node, handle: h },
                            );
                            lemma_planned_pairs_push(
                                p_pre.outs_existing,
                                PlannedOutput { node: node as int, rid: h.0 as int },
                            );
                        }
                    }
                },
            }
            proof {
                let p_pre2 = pass_plan(atts@.take(i2 as int), sres.take(i2 as int), v0, v0 + 1, r0);
                match a {
                    PassResource::OnlyOutput(oh) => {
                        if oh is None {
                            assert forall|id: u64| #[trigger]
                                old(self).spec_resources().dom().contains(id) implies self
                                .spec_resources()[id] == old(self).spec_resources()[id] by {
                                assert(id < r0);
                                assert(pre.spec_resources()[id] == old(self).spec_resources()[id]);
                                assert(self.spec_resources()[id] == pre.spec_resources()[id]);
                            }
                            assert forall|id: u64| #[trigger]
                                old(self).resource_vertices().dom().contains(id) implies self
                                .resource_vertex_map@[id] == old(self).resource_vertices()[id] by {
                                assert(id < r0);
                                assert(self.resource_vertex_map@[id]
                                    == pre.resource_vertex_map@[id]);
                            }
                        } else {
                            assert(self.resources == pre.resources);
                            assert(self.resource_vertex_map@ == pre.resource_vertex_map@);
                        }
                    },
                    _ => {
                        assert(self.resources == pre.resources);
                        assert(self.resource_vertex_map@ == pre.resource_vertex_map@);
                    },
                }
                if !(a matches PassResource::OnlyOutput(oh) && oh is None) {
                    assert(out_pairs(outs_new@) =~= planned_pairs(p_next.outs_new)) by {
                        assert(outs_new@ == outs_new_pre);
                        assert(p_next.outs_new == p_pre2.outs_new);
                    }
                }
                if !(a matches PassResource::OnlyOutput(_) || a matches
                    PassResource::InputAndOutput(_)) {
                    assert(out_pairs(outs_existing@) =~= planned_pairs(p_next.outs_existing)) by {
                        assert(outs_existing@ == outs_existing_pre);
                        assert(p_next.outs_existing == p_pre2.outs_existing);
                    }
                }
                if a matches PassResource::OnlyOutput(oh) && oh is None {
                    assert(out_pairs(outs_existing@) =~= planned_pairs(p_next.outs_existing)) by {
                        assert(outs_existing@ == outs_existing_pre);
                        assert(p_next.outs_existing == p_pre2.outs_existing);
                    }
                }
            }
            i2 = i2 + 1;
        }
        proof {
            assert(atts@.take(n_atts as int) =~= atts@);
            assert(sres.take(n_atts as int) =~= sres);
        }
        let ghost plan_full = pass_plan(atts@, sres, v0, v0 + 1, r0);
        let ghost exist_final = outs_existing@;
        let ghost new_final = outs_new@;
        let mut outs = outs_existing;
        outs.append(&mut outs_new);
        proof {
            assert(outs@ == exist_final + new_final);
            assert(out_pairs(outs@) =~= planned_pairs(plan_full.outs_existing) + planned_pairs(
                plan_full.outs_new,
            )) by {
                assert(out_pairs(exist_final) =~= planned_pairs(plan_full.outs_existing));
                assert(out_pairs(new_final) =~= planned_pairs(plan_full.outs_new));
                assert forall|k: int| 0 <= k < outs@.len() implies out_pairs(outs@)[k] == (
                planned_pairs(plan_full.outs_existing) + planned_pairs(plan_full.outs_new))[k] by {
                    if k < exist_final.len() {
                        assert(outs@[k] == exist_final[k]);
                        assert(out_pairs(exist_final)[k] == planned_pairs(
                            plan_full.outs_existing,
                        )[k]);
                    } else {
                        assert(outs@[k] == new_final[k - exist_final.len()]);
                        assert(out_pairs(new_final)[k - exist_final.len()] == planned_pairs(
                            plan_full.outs_new,
                        )[k - exist_final.len()]);
                    }
                }
            }
        }
        Result::Ok((VertexHandle { node_index: pass_node, handle: pass_handle }, outs))
    }

    /// What a well-formed graph guarantees its readers: every edge connects
    /// a resource vertex and a pass vertex within bounds, every pass vertex
    /// is registered together with its pipeline, and every resource vertex
    /// is registered.
    pub proof fn lemma_graph_wf(&self)
        requires
            self.inv(),
        ensures
            forall|k: int|
                0 <= k < self.edges().len() ==> (#[trigger] self.edges()[k]).0
                    < self.vertices().len() && self.edges()[k].1 < self.vertices().len() && ((
                self.vertices()[self.edges()[k].0 as int] is Pass && self.vertices()[
                    self.edges()[k].1 as int
                ] is Resource) || (self.vertices()[self.edges()[k].0 as int] is Resource
                    && self.vertices()[self.edges()[k].1 as int] is Pass)),
            forall|i: int|
                0 <= i < self.vertices().len() ==> match #[trigger] self.vertices()[i] {
                    Vertex::Resource(h) => self.spec_resources().dom().contains(h.0),
                    Vertex::Pass(h) => self.spec_passes().dom().contains(h.0)
                        && self.spec_pipelines().dom().contains(
                        self.spec_passes()[h.0].pipeline.0,
                    ),
                },
    {
    }

    /// How many vertices the graph has.
    pub fn vertex_count(&self) -> (r: usize)
        ensures
            r == self.vertices().len(),
    {
        self.vertices.len()
    }

    /// The vertex tag at node index `i`.
    pub fn vertex_at(&self, i: usize) -> (v: Vertex)
        requires
            i < self.vertices().len(),
        ensures
            v == self.vertices()[i as int],
    {
        self.vertices[i]
    }

    /// All edges, as (source node, target node) pairs in insertion order.
    pub fn edge_list(&self) -> (r: Vec<(usize, usize)>)
        ensures
            r@ == self.edges(),
    {
        graph_edge_list(&self.graph.forward_graph)
    }

    /// The registered pass under `h`.
    pub fn get_pass(&self, h: &Handle) -> (r: Option<&RenderPassBuilder>)
        ensures
            match r {
                Option::Some(p) => self.spec_passes().dom().contains(h.0) && *p
                    == self.spec_passes()[h.0],
                Option::None => !self.spec_passes().dom().contains(h.0),
            },
    {
        self.passes.get_from_handle(h)
    }

    /// The registered pipeline under `h`.
    pub fn get_pipeline(&self, h: &Handle) -> (r: Option<&PipelineInfo>)
        ensures
            match r {
                Option::Some(p) => self.spec_pipelines().dom().contains(h.0) && *p
                    == self.spec_pipelines()[h.0],
                Option::None => !self.spec_pipelines().dom().contains(h.0),
            },
    {
        self.pipelines.get_from_handle(h)
    }

    /// The registered resource under `h`.
    pub fn get_resource(&self, h: &Handle) -> (r: Option<&Resource>)
        ensures
            match r {
                Option::Some(p) => self.spec_resources().dom().contains(h.0) && *p
                    == self.spec_resources()[h.0],
                Option::None => !self.spec_resources().dom().contains(h.0),
            },
    {
        self.resources.get_from_handle(h)
    }

    /// What the diagnostics projection shows for vertex `i`: the registered
    /// name when there is one, else the resource's generated id, else the
    /// pass's handle value.
    pub open spec fn spec_label_ok(&self, i: int, l: VertexLabel) -> bool {
        match self.vertices()[i] {
            Vertex::Resource(h) => {
                if self.resource_labels().dom().contains(h.0) {
                    l matches VertexLabel::Named(s) && s@ == self.resource_labels()[h.0]
                } else if self.spec_resources().dom().contains(h.0) {
                    match self.spec_resources()[h.0] {
                        Resource::Persistent(id) => match id.string_id {
                            Option::Some(s) => l matches VertexLabel::Named(t) && t@ == s@,
                            Option::None => l == VertexLabel::Generated(id.global_id),
                        },
                        Resource::Dynamic(u) => l == VertexLabel::Generated(u),
                    }
                } else {
                    true
                }
            },
            Vertex::Pass(h) => {
                if self.pass_labels().dom().contains(h.0) {
                    l matches VertexLabel::Named(s) && s@ == self.pass_labels()[h.0]
                } else {
                    l == VertexLabel::Anonymous(h.0)
                }
            },
        }
    }

    /// A pure string-labelled projection of the graph for diagnostics: one
    /// label per vertex (the name if registered, else the generated id) and
    /// the edge list. It has no bearing on compiled behaviour.
    pub fn string_graph(&self) -> (r: (Vec<VertexLabel>, Vec<(usize, usize)>))
        requires
            self.inv(),
        ensures
            r.1@ == self.edges(),
            r.0@.len() == self.vertices().len(),
            forall|i: int| 0 <= i < r.0@.len() ==> self.spec_label_ok(i, #[trigger] r.0@[i]),
    {
        let mut labels: Vec<VertexLabel> = Vec::new();
        let n = self.vertices.len();
        let mut i: usize = 0;
        while i < n
            invariant
                i <= n,
                n == self.vertices@.len(),
                self.inv(),
                labels@.len() == i,
                forall|j: int| 0 <= j < i ==> self.spec_label_ok(j, #[trigger] labels@[j]),
            decreases n - i,
        {
            let label = match self.vertices[i] {
                Vertex::Resource(h) => {
                    match self.resources.get_string_from_handle(&h) {
                        Option::Some(s) => VertexLabel::Named(s),
                        Option::None => {
                            match self.resources.get_from_handle(&h) {
                                Option::Some(resource) => match resource {
                                    Resource::Persistent(id) => match &id.string_id {
                                        Option::Some(s) => VertexLabel::Named(s.clone()),
                                        Option::None => VertexLabel::Generated(id.global_id),
                                    },
                                    Resource::Dynamic(u) => VertexLabel::Generated(*u),
                                },
                                Option::None => {
                                    proof {
                                        assert(false);
                                    }
                                    VertexLabel::Anonymous(0)
                                },
                            }
                        },
                    }
                },
                Vertex::Pass(h) => {
                    match self.passes.get_string_from_handle(&h) {
                        Option::Some(s) => VertexLabel::Named(s),
                        Option::None => VertexLabel::Anonymous(h.0),
                    }
                },
            };
            labels.push(label);
            i = i + 1;
        }
        let edge_vec = graph_edge_list(&self.graph.forward_graph);
        (labels, edge_vec)
    }

    /// The edge-reversed twin's value; the compile order is a function of
    /// it, which makes compilation deterministic for a given graph.
    pub closed spec fn reverse_twin(&self) -> petgraph::graph::Graph<
        u64,
        (),
        petgraph::Directed,
        u32,
    > {
        self.graph.reverse_graph
    }

    /// A topological ordering for compilation, computed on the
    /// edge-reversed twin and then reversed, so that every producer pass
    /// comes before the resources it writes and every resource before the
    /// passes that consume it. `Err` exactly when the graph has a cycle,
    /// carrying a node that participates in one. The order is stable: it is
    /// the reversal of [`toposort_of`] on the edge-reversed twin, so the
    /// same graph always compiles in the same order.
    pub fn compile_order(&self) -> (r: Result<Vec<usize>, usize>)
        requires
            self.inv(),
        ensures
            match r {
                Result::Ok(order) => valid_topo_order(
                    order@,
                    self.vertices().len() as int,
                    self.edges(),
                ) && !has_cycle(self.vertices().len() as int, self.edges()) && (toposort_of(
                    self.reverse_twin(),
                ) matches Result::Ok(rev) && order@ == rev.reverse()),
                Result::Err(i) => has_cycle(self.vertices().len() as int, self.edges()) && i
                    < self.vertices().len() && toposort_of(self.reverse_twin()) == Result::<
                    Seq<usize>,
                    usize,
                >::Err(i),
            },
    {
        let ghost n = self.vertices@.len() as int;
        proof {
            assert(graph_nodes(self.graph.reverse_graph).len() == n) by {
                assert(self.vertices@.map_values(|v: Vertex| v.vid()).len()
                    == self.vertices@.len());
            }
            lemma_cycle_flip(n, self.edges());
        }
        match graph_toposort(&self.graph.reverse_graph) {
            Result::Ok(rev_order) => {
                let m = rev_order.len();
                let mut out: Vec<usize> = Vec::new();
                let mut k: usize = 0;
                while k < m
                    invariant
                        k <= m,
                        m == rev_order@.len(),
                        out@.len() == k,
                        forall|j: int| 0 <= j < k ==> #[trigger] out@[j] == rev_order@[m - 1 - j],
                    decreases m - k,
                {
                    out.push(rev_order[m - 1 - k]);
                    k = k + 1;
                }
                proof {
                    let order = out@;
                    let rev = rev_order@;
                    let fwd = self.edges();
                    let flipped = flip_edges(fwd);
                    assert(valid_topo_order(rev, n, flipped));
                    assert(order.len() == n);
                    assert forall|i: int| 0 <= i < order.len() implies (#[trigger] order[i])
                        < n by {
                        assert(order[i] == rev[m - 1 - i]);
                    }
                    assert forall|i: int, j: int|
                        0 <= i < order.len() && 0 <= j < order.len() && i != j implies #[trigger] order[i] != #[trigger] order[j] by {
                        assert(order[i] == rev[m - 1 - i]);
                        assert(order[j] == rev[m - 1 - j]);
                    }
                    assert forall|i: int, j: int|
                        0 <= i < order.len() && 0 <= j < order.len() && #[trigger] edge_in(
                            fwd,
                            order[i] as int,
                            order[j] as int,
                        ) implies i < j by {
                        lemma_edge_in_flip(fwd, order[j] as int, order[i] as int);
                        assert(edge_in(flipped, order[j] as int, order[i] as int));
                        assert(order[i] == rev[m - 1 - i]);
                        assert(order[j] == rev[m - 1 - j]);
                        assert(edge_in(flipped, rev[m - 1 - j] as int, rev[m - 1 - i] as int));
                        assert(m - 1 - j < m - 1 - i);
                    }
                    assert(valid_topo_order(order, n, fwd));
                    assert(order =~= rev.reverse());
                }
                Result::Ok(out)
            },
            Result::Err(i) => Result::Err(i),
        }
    }
}

} // verus!
