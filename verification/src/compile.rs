//! The compiler: consumes a finished dependency graph, derives a
//! producer-before-consumer execution order, and emits a linear plan of
//! create-or-reuse and execute operations for a command-encoding backend.
//!
//! Walking the order, a resource vertex with no producing pass is a graph
//! source: it must be bound externally, else compilation fails naming it. A
//! pass vertex materializes its pipeline (and the shader modules and layout
//! it needs) exactly once, memoized by handle, creates its not-yet-available
//! output resources, and executes. A cycle is a fatal authoring error and is
//! reported before any operation is planned.

use vstd::prelude::*;

verus! {

use crate::graph::RenderGraph;
use crate::graph::Vertex;
use crate::graph::edge_in;
use crate::graph::has_cycle;
use crate::graph::valid_topo_order;
use crate::graph::PipelineInfo;
use crate::pass::RenderPassBuilder;
use crate::registry::Handle;

/// Why a graph cannot be compiled.
#[derive(Debug, Copy, Clone, PartialEq, Eq, Structural)]
pub enum CompileError {
    /// A pass depends, directly or transitively, on its own output.
    CycleDetected,
    /// The named resource has no producing pass and no external binding.
    UnsatisfiedDependency(Handle),
}

/// One step of the compiled plan.
#[derive(Debug, Copy, Clone, PartialEq, Eq, Structural)]
pub enum RenderOp {
    /// Bind the externally supplied resource.
    UseExternalResource(Handle),
    /// Allocate the resource through the resource layer.
    CreateResource(Handle),
    /// Compile the shader module.
    CreateShaderModule(Handle),
    /// Create the pipeline layout of the pipeline.
    CreatePipelineLayout(Handle),
    /// Create the pipeline.
    CreatePipeline(Handle),
    /// Encode and run the pass.
    ExecutePass(Handle),
}

/// A read-only snapshot of the graph, for stating what compilation emits.
#[verifier::ext_equal]
pub struct GraphModel {
    pub vertices: Seq<Vertex>,
    pub edges: Seq<(usize, usize)>,
    pub passes: Map<u64, RenderPassBuilder>,
    pub pipelines: Map<u64, PipelineInfo>,
}

/// The snapshot of `g`.
pub open spec fn model_of(g: &RenderGraph) -> GraphModel {
    GraphModel {
        vertices: g.vertices(),
        edges: g.edges(),
        passes: g.spec_passes(),
        pipelines: g.spec_pipelines(),
    }
}

/// Vertex `ix` has at least one incoming edge.
pub open spec fn has_incoming(edges: Seq<(usize, usize)>, ix: int) -> bool {
    exists|k: int| 0 <= k < edges.len() && (#[trigger] edges[k]).1 == ix
}

/// The compiler's running state: the plan so far and what is already
/// materialized.
#[verifier::ext_equal]
pub struct CompileState {
    pub ops: Seq<RenderOp>,
    pub available: Set<int>,
    pub shaders_done: Set<u64>,
    pub pipelines_done: Set<u64>,
}

impl CompileState {
    pub open spec fn init() -> CompileState {
        CompileState {
            ops: Seq::empty(),
            available: Set::empty(),
            shaders_done: Set::empty(),
            pipelines_done: Set::empty(),
        }
    }
}

/// Materialize `pipeline` unless already done: its shader modules first
/// (each at most once), then its layout, then the pipeline itself.
pub open spec fn materialize_pipeline(
    st: CompileState,
    pipeline: Handle,
    pinfo: PipelineInfo,
) -> CompileState {
    if st.pipelines_done.contains(pipeline.0) {
        st
    } else {
        let st1 = if st.shaders_done.contains(pinfo.vertex_shader.0) {
            st
        } else {
            CompileState {
                ops: st.ops.push(RenderOp::CreateShaderModule(pinfo.vertex_shader)),
                shaders_done: st.shaders_done.insert(pinfo.vertex_shader.0),
                available: st.available,
                pipelines_done: st.pipelines_done,
            }
        };
        let st2 = match pinfo.fragment_shader {
            Option::Some(fs) => if st1.shaders_done.contains(fs.0) {
                st1
            } else {
                CompileState {
                    ops: st1.ops.push(RenderOp::CreateShaderModule(fs)),
                    shaders_done: st1.shaders_done.insert(fs.0),
                    available: st1.available,
                    pipelines_done: st1.pipelines_done,
                }
            },
            Option::None => st1,
        };
        CompileState {
            ops: st2.ops.push(RenderOp::CreatePipelineLayout(pipeline)).push(
                RenderOp::CreatePipeline(pipeline),
            ),
            pipelines_done: st2.pipelines_done.insert(pipeline.0),
            available: st2.available,
            shaders_done: st2.shaders_done,
        }
    }
}

/// Make the not-yet-available outputs of the pass at vertex `ix` available,
/// in edge insertion order: an externally bound resource is used as
/// supplied, any other is allocated through the resource layer.
pub open spec fn outputs_state(
    edges: Seq<(usize, usize)>,
    ix: int,
    vertices: Seq<Vertex>,
    ext: Seq<u64>,
    st0: CompileState,
) -> CompileState
    decreases edges.len(),
{
    if edges.len() == 0 {
        st0
    } else {
        let p = outputs_state(edges.drop_last(), ix, vertices, ext, st0);
        let e = edges.last();
        if e.0 == ix && !p.available.contains(e.1 as int) {
            let h = Handle(vertices[e.1 as int].vid());
            let op = if ext.contains(h.0) {
                RenderOp::UseExternalResource(h)
            } else {
                RenderOp::CreateResource(h)
            };
            CompileState {
                ops: p.ops.push(op),
                available: p.available.insert(e.1 as int),
                shaders_done: p.shaders_done,
                pipelines_done: p.pipelines_done,
            }
        } else {
            p
        }
    }
}

/// Process one vertex of the compile order.
pub open spec fn vertex_step(
    g: GraphModel,
    ext: Seq<u64>,
    st: CompileState,
    ix: int,
) -> Result<CompileState, CompileError> {
    match g.vertices[ix] {
        Vertex::Resource(h) => if has_incoming(g.edges, ix) {
            Result::Ok(st)
        } else if ext.contains(h.0) {
            Result::Ok(
                CompileState {
                    ops: st.ops.push(RenderOp::UseExternalResource(h)),
                    available: st.available.insert(ix),
                    shaders_done: st.shaders_done,
                    pipelines_done: st.pipelines_done,
                },
            )
        } else {
            Result::Err(CompileError::UnsatisfiedDependency(h))
        },
        Vertex::Pass(h) => {
            let pass = g.passes[h.0];
            let pipeline = pass.pipeline;
            let st1 = materialize_pipeline(st, pipeline, g.pipelines[pipeline.0]);
            let st2 = outputs_state(g.edges, ix, g.vertices, ext, st1);
            Result::Ok(
                CompileState {
                    ops: st2.ops.push(RenderOp::ExecutePass(h)),
                    available: st2.available,
                    shaders_done: st2.shaders_done,
                    pipelines_done: st2.pipelines_done,
                },
            )
        },
    }
}

/// The whole compilation along `order`: fold `vertex_step`, stopping at the
/// first error.
pub open spec fn compile_spec(g: GraphModel, ext: Seq<u64>, order: Seq<usize>) -> Result<
    CompileState,
    CompileError,
>
    decreases order.len(),
{
    if order.len() == 0 {
        Result::Ok(CompileState::init())
    } else {
        match compile_spec(g, ext, order.drop_last()) {
            Result::Ok(st) => vertex_step(g, ext, st, order.last() as int),
            Result::Err(e) => Result::Err(e),
        }
    }
}

/// `h` is a resource vertex with no producing pass and no external binding.
pub open spec fn unbound_source(g: GraphModel, ext: Seq<u64>, h: Handle) -> bool {
    exists|ix: int|
        0 <= ix < g.vertices.len() && g.vertices[ix] == Vertex::Resource(h) && !has_incoming(
            g.edges,
            ix,
        ) && !ext.contains(h.0)
}

/// The pass handles executed by a plan, in order.
pub open spec fn pass_sequence(ops: Seq<RenderOp>) -> Seq<Handle>
    decreases ops.len(),
{
    if ops.len() == 0 {
        Seq::empty()
    } else {
        let p = pass_sequence(ops.drop_last());
        match ops.last() {
            RenderOp::ExecutePass(h) => p.push(h),
            _ => p,
        }
    }
}

/// The pass vertices among `order`, as handles, in order.
pub open spec fn pass_handles(vertices: Seq<Vertex>, order: Seq<usize>) -> Seq<Handle>
    decreases order.len(),
{
    if order.len() == 0 {
        Seq::empty()
    } else {
        let p = pass_handles(vertices, order.drop_last());
        match vertices[order.last() as int] {
            Vertex::Pass(h) => p.push(h),
            Vertex::Resource(_) => p,
        }
    }
}

proof fn lemma_to_set_push(s: Seq<u64>, x: u64)
    ensures
        s.push(x).to_set() =~= s.to_set().insert(x),
{
    assert forall|y: u64| s.push(x).to_set().contains(y) implies s.to_set().insert(x).contains(
        y,
    ) by {
        let j = choose|j: int| 0 <= j < s.push(x).len() && s.push(x)[j] == y;
        if j < s.len() {
            assert(s[j] == y);
        } else {
            assert(y == x);
        }
    }
    assert forall|y: u64| s.to_set().insert(x).contains(y) implies s.push(x).to_set().contains(
        y,
    ) by {
        if y == x {
            assert(s.push(x)[s.len() as int] == y);
        } else {
            let j = choose|j: int| 0 <= j < s.len() && s[j] == y;
            assert(s.push(x)[j] == y);
        }
    }
}

proof fn lemma_pass_sequence_push_other(ops: Seq<RenderOp>, op: RenderOp)
    requires
        !(op is ExecutePass),
    ensures
        pass_sequence(ops.push(op)) == pass_sequence(ops),
{
    assert(ops.push(op).drop_last() =~= ops);
    assert(ops.push(op).last() == op);
}

proof fn lemma_pass_sequence_push_exec(ops: Seq<RenderOp>, h: Handle)
    ensures
        pass_sequence(ops.push(RenderOp::ExecutePass(h))) == pass_sequence(ops).push(h),
{
    assert(ops.push(RenderOp::ExecutePass(h)).drop_last() =~= ops);
    assert(ops.push(RenderOp::ExecutePass(h)).last() == RenderOp::ExecutePass(h));
}

proof fn lemma_materialize_passes(st: CompileState, pipeline: Handle, pinfo: PipelineInfo)
    ensures
        pass_sequence(materialize_pipeline(st, pipeline, pinfo).ops) == pass_sequence(st.ops),
{
    if !st.pipelines_done.contains(pipeline.0) {
        let st1 = if st.shaders_done.contains(pinfo.vertex_shader.0) {
            st
        } else {
            CompileState {
                ops: st.ops.push(RenderOp::CreateShaderModule(pinfo.vertex_shader)),
                shaders_done: st.shaders_done.insert(pinfo.vertex_shader.0),
                available: st.available,
                pipelines_done: st.pipelines_done,
            }
        };
        lemma_pass_sequence_push_other(st.ops, RenderOp::CreateShaderModule(pinfo.vertex_shader));
        let st2 = match pinfo.fragment_shader {
            Option::Some(fs) => if st1.shaders_done.contains(fs.0) {
                st1
            } else {
                CompileState {
                    ops: st1.ops.push(RenderOp::CreateShaderModule(fs)),
                    shaders_done: st1.shaders_done.insert(fs.0),
                    available: st1.available,
                    pipelines_done: st1.pipelines_done,
                }
            },
            Option::None => st1,
        };
        match pinfo.fragment_shader {
            Option::Some(fs) => {
                lemma_pass_sequence_push_other(st1.ops, RenderOp::CreateShaderModule(fs));
            },
            Option::None => {},
        }
        lemma_pass_sequence_push_other(st2.ops, RenderOp::CreatePipelineLayout(pipeline));
        lemma_pass_sequence_push_other(
            st2.ops.push(RenderOp::CreatePipelineLayout(pipeline)),
            RenderOp::CreatePipeline(pipeline),
        );
    }
}

proof fn lemma_outputs_state_passes(
    edges: Seq<(usize, usize)>,
    ix: int,
    vertices: Seq<Vertex>,
    ext: Seq<u64>,
    st0: CompileState,
)
    ensures
        pass_sequence(outputs_state(edges, ix, vertices, ext, st0).ops) == pass_sequence(st0.ops),
    decreases edges.len(),
{
    if edges.len() > 0 {
        lemma_outputs_state_passes(edges.drop_last(), ix, vertices, ext, st0);
        let p = outputs_state(edges.drop_last(), ix, vertices, ext, st0);
        let e = edges.last();
        if e.0 == ix && !p.available.contains(e.1 as int) {
            let h = Handle(vertices[e.1 as int].vid());
            if ext.contains(h.0) {
                lemma_pass_sequence_push_other(p.ops, RenderOp::UseExternalResource(h));
            } else {
                lemma_pass_sequence_push_other(p.ops, RenderOp::CreateResource(h));
            }
        }
    }
}

/// Law: a compiled plan executes exactly the pass vertices of the compile
/// order, in that order; materialization steps never reorder or drop a
/// pass. Together with the order being topological, every producing pass
/// executes before each pass that consumes one of its outputs.
pub proof fn lemma_pass_sequence_matches_order(g: GraphModel, ext: Seq<u64>, order: Seq<usize>)
    requires
        compile_spec(g, ext, order) is Ok,
    ensures
        pass_sequence(compile_spec(g, ext, order)->Ok_0.ops) == pass_handles(g.vertices, order),
    decreases order.len(),
{
    if order.len() > 0 {
        let prefix = order.drop_last();
        let st = compile_spec(g, ext, prefix)->Ok_0;
        lemma_pass_sequence_matches_order(g, ext, prefix);
        let ix = order.last() as int;
        match g.vertices[ix] {
            Vertex::Resource(h) => {
                if !has_incoming(g.edges, ix) && ext.contains(h.0) {
                    lemma_pass_sequence_push_other(st.ops, RenderOp::UseExternalResource(h));
                }
            },
            Vertex::Pass(h) => {
                let pass = g.passes[h.0];
                let st1 = materialize_pipeline(st, pass.pipeline, g.pipelines[pass.pipeline.0]);
                lemma_materialize_passes(st, pass.pipeline, g.pipelines[pass.pipeline.0]);
                lemma_outputs_state_passes(g.edges, ix, g.vertices, ext, st1);
                let st2 = outputs_state(g.edges, ix, g.vertices, ext, st1);
                lemma_pass_sequence_push_exec(st2.ops, h);
            },
        }
    }
}

/// Structural well-formedness of a graph snapshot: every edge stays in
/// bounds and connects a resource vertex and a pass vertex.
pub open spec fn graph_wf(g: GraphModel) -> bool {
    forall|k: int|
        0 <= k < g.edges.len() ==> (#[trigger] g.edges[k]).0 < g.vertices.len() && g.edges[k].1
            < g.vertices.len() && ((g.vertices[g.edges[k].0 as int] is Pass && g.vertices[
            g.edges[k].1 as int
        ] is Resource) || (g.vertices[g.edges[k].0 as int] is Resource && g.vertices[
            g.edges[k].1 as int
        ] is Pass))
}

/// A well-formed builder graph has a well-formed snapshot.
pub proof fn lemma_model_wf(graph: &RenderGraph)
    requires
        graph.inv(),
    ensures
        graph_wf(model_of(graph)),
{
    graph.lemma_graph_wf();
}

/// When the whole order compiles, so does every prefix.
pub proof fn lemma_compile_prefix_ok(g: GraphModel, ext: Seq<u64>, order: Seq<usize>, m: int)
    requires
        0 <= m <= order.len(),
        compile_spec(g, ext, order) is Ok,
    ensures
        compile_spec(g, ext, order.take(m)) is Ok,
    decreases order.len() - m,
{
    if m == order.len() {
        assert(order.take(m) =~= order);
    } else {
        lemma_compile_prefix_ok(g, ext, order, m + 1);
        assert(order.take(m + 1).drop_last() =~= order.take(m));
    }
}

proof fn lemma_outputs_state_available(
    edges: Seq<(usize, usize)>,
    ix: int,
    vertices: Seq<Vertex>,
    ext: Seq<u64>,
    st0: CompileState,
)
    ensures
        st0.available.subset_of(outputs_state(edges, ix, vertices, ext, st0).available),
        forall|k: int|
            0 <= k < edges.len() && (#[trigger] edges[k]).0 == ix ==> outputs_state(
                edges,
                ix,
                vertices,
                ext,
                st0,
            ).available.contains(edges[k].1 as int),
    decreases edges.len(),
{
    if edges.len() > 0 {
        lemma_outputs_state_available(edges.drop_last(), ix, vertices, ext, st0);
        let p = outputs_state(edges.drop_last(), ix, vertices, ext, st0);
        let result = outputs_state(edges, ix, vertices, ext, st0);
        assert forall|k: int|
            0 <= k < edges.len() && (#[trigger] edges[k]).0 == ix implies result
            .available.contains(edges[k].1 as int) by {
            if k < edges.len() - 1 {
                assert(edges.drop_last()[k] == edges[k]);
                assert(p.available.contains(edges[k].1 as int));
            }
        }
    }
}

/// A compile step never loses availability.
proof fn lemma_step_monotone(g: GraphModel, ext: Seq<u64>, st: CompileState, ix: int)
    requires
        vertex_step(g, ext, st, ix) is Ok,
    ensures
        st.available.subset_of(vertex_step(g, ext, st, ix)->Ok_0.available),
{
    match g.vertices[ix] {
        Vertex::Resource(_) => {},
        Vertex::Pass(h) => {
            let pass = g.passes[h.0];
            let st1 = materialize_pipeline(st, pass.pipeline, g.pipelines[pass.pipeline.0]);
            assert(st1.available == st.available);
            lemma_outputs_state_available(g.edges, ix, g.vertices, ext, st1);
        },
    }
}

/// A topological order of all `n` nodes reaches every node.
proof fn lemma_topo_order_onto(order: Seq<usize>, n: int, edges: Seq<(usize, usize)>, v: int)
    requires
        valid_topo_order(order, n, edges),
        0 <= v < n,
    ensures
        exists|j: int| 0 <= j < order.len() && order[j] == v,
{
    let ints = order.map_values(|u: usize| u as int);
    assert(ints.no_duplicates());
    ints.unique_seq_to_set();
    vstd::set_lib::lemma_int_range(0, n);
    let range = vstd::set_lib::set_int_range(0, n);
    assert(ints.to_set().subset_of(range)) by {
        assert forall|x: int| ints.to_set().contains(x) implies range.contains(x) by {
            let j = choose|j: int| 0 <= j < ints.len() && ints[j] == x;
            assert(order[j] < n);
        }
    }
    if !ints.to_set().contains(v) {
        assert(ints.to_set().subset_of(range.remove(v)));
        vstd::set_lib::lemma_len_subset(ints.to_set(), range.remove(v));
        assert(range.remove(v).len() == n - 1);
        assert(false);
    }
    let j = choose|j: int| 0 <= j < ints.len() && ints[j] == v;
    assert(order[j] == v);
}

/// The walk's availability invariant: after any compiled prefix, every
/// output of every pass already executed is available, and so is every
/// resource vertex already walked.
proof fn lemma_available_invariant(g: GraphModel, ext: Seq<u64>, order: Seq<usize>, m: int)
    requires
        graph_wf(g),
        valid_topo_order(order, g.vertices.len() as int, g.edges),
        0 <= m <= order.len(),
        compile_spec(g, ext, order.take(m)) is Ok,
    ensures
        ({
            let avail = compile_spec(g, ext, order.take(m))->Ok_0.available;
            &&& forall|j: int, k: int|
                #![trigger order[j], g.edges[k]]
                0 <= j < m && g.vertices[order[j] as int] is Pass && 0 <= k < g.edges.len()
                    && g.edges[k].0 == order[j] ==> avail.contains(g.edges[k].1 as int)
            &&& forall|j: int|
                0 <= j < m && (#[trigger] g.vertices[order[j] as int]) is Resource
                    ==> avail.contains(order[j] as int)
        }),
    decreases m,
{
    if m > 0 {
        assert(order.take(m).drop_last() =~= order.take(m - 1));
        assert(order.take(m).last() == order[m - 1]);
        let prev = compile_spec(g, ext, order.take(m - 1));
        assert(prev is Ok);
        lemma_available_invariant(g, ext, order, m - 1);
        let st = prev->Ok_0;
        let ix = order[m - 1] as int;
        lemma_step_monotone(g, ext, st, ix);
        let avail = compile_spec(g, ext, order.take(m))->Ok_0.available;
        match g.vertices[ix] {
            Vertex::Pass(h) => {
                let pass = g.passes[h.0];
                let st1 = materialize_pipeline(st, pass.pipeline, g.pipelines[pass.pipeline.0]);
                lemma_outputs_state_available(g.edges, ix, g.vertices, ext, st1);
            },
            Vertex::Resource(h) => {
                if has_incoming(g.edges, ix) {
                    // Some producing pass ran earlier in the order and made
                    // this resource available.
                    let k = choose|k: int|
                        0 <= k < g.edges.len() && (#[trigger] g.edges[k]).1 == ix;
                    let q = g.edges[k].0;
                    assert(g.vertices[q as int] is Pass);
                    lemma_topo_order_onto(
                        order,
                        g.vertices.len() as int,
                        g.edges,
                        q as int,
                    );
                    let jq = choose|jq: int| 0 <= jq < order.len() && order[jq] == q;
                    assert(edge_in(g.edges, order[jq] as int, order[m - 1] as int));
                    assert(jq < m - 1);
                    assert(st.available.contains(g.edges[k].1 as int));
                    assert(avail.contains(ix));
                } else {
                    // A source: compilation succeeded, so it was externally
                    // bound and marked available at its own step.
                    assert(ext.contains(h.0));
                }
            },
        }
        assert forall|j: int, k: int|
            #![trigger order[j], g.edges[k]]
            0 <= j < m && g.vertices[order[j] as int] is Pass && 0 <= k < g.edges.len()
                && g.edges[k].0 == order[j] implies avail.contains(g.edges[k].1 as int) by {
            if j < m - 1 {
                assert(st.available.contains(g.edges[k].1 as int));
            }
        }
        assert forall|j: int|
            0 <= j < m && (#[trigger] g.vertices[order[j] as int]) is Resource implies avail
            .contains(order[j] as int) by {
            if j < m - 1 {
                assert(st.available.contains(order[j] as int));
            }
        }
    }
}

/// Law: in a successfully compiled plan, every resource a pass consumes is
/// available before the pass executes: at the pass's position in the order,
/// the source vertex of each of its incoming edges is already in the
/// available set, created by an earlier-ordered producer or bound
/// externally.
pub proof fn lemma_pass_inputs_available(
    g: GraphModel,
    ext: Seq<u64>,
    order: Seq<usize>,
    m: int,
    k: int,
)
    requires
        graph_wf(g),
        valid_topo_order(order, g.vertices.len() as int, g.edges),
        compile_spec(g, ext, order) is Ok,
        0 <= m < order.len(),
        g.vertices[order[m] as int] is Pass,
        0 <= k < g.edges.len(),
        g.edges[k].1 == order[m],
    ensures
        compile_spec(g, ext, order.take(m))->Ok_0.available.contains(g.edges[k].0 as int),
{
    lemma_compile_prefix_ok(g, ext, order, m);
    lemma_available_invariant(g, ext, order, m);
    let r = g.edges[k].0;
    assert(g.vertices[r as int] is Resource);
    lemma_topo_order_onto(order, g.vertices.len() as int, g.edges, r as int);
    let jr = choose|jr: int| 0 <= jr < order.len() && order[jr] == r;
    assert(edge_in(g.edges, order[jr] as int, order[m] as int));
    assert(jr < m);
}

/// The compiled plan: the topological vertex order used and the operations
/// to perform, in order.
#[derive(Debug)]
pub struct CompiledGraph {
    pub order: Vec<usize>,
    pub ops: Vec<RenderOp>,
}

/// `true` exactly when `x` occurs in `v`.
fn contains_u64(v: &Vec<u64>, x: u64) -> (r: bool)
    ensures
        r == v@.contains(x),
{
    let mut i: usize = 0;
    let n = v.len();
    while i < n
        invariant
            i <= n,
            n == v@.len(),
            forall|j: int| 0 <= j < i ==> v@[j] != x,
        decreases n - i,
    {
        if v[i] == x {
            return true;
        }
        i = i + 1;
    }
    false
}

/// `true` exactly when a handle with value `x` occurs in `v`.
fn contains_handle(v: &Vec<Handle>, x: u64) -> (r: bool)
    ensures
        r == v@.map_values(|h: Handle| h.0).contains(x),
{
    let ghost ids = v@.map_values(|h: Handle| h.0);
    let mut i: usize = 0;
    let n = v.len();
    while i < n
        invariant
            i <= n,
            n == v@.len(),
            ids == v@.map_values(|h: Handle| h.0),
            forall|j: int| 0 <= j < i ==> ids[j] != x,
        decreases n - i,
    {
        if v[i].0 == x {
            assert(ids[i as int] == x);
            return true;
        }
        i = i + 1;
    }
    false
}

impl CompiledGraph {
    /// Compile `graph` with the resources of `external` bound by the
    /// caller. On success the plan's operations are exactly what
    /// [`compile_spec`] derives from the graph along the returned
    /// topological order, and that order is stable: it is a function of the
    /// graph's edge-reversed twin, so the same graph and bindings always
    /// compile to the same plan. A cycle fails with `CycleDetected` before
    /// any operation is planned; a resource vertex with no producer and no
    /// external binding fails with `UnsatisfiedDependency` naming it, and
    /// compilation succeeds whenever neither fault exists.
    #[verifier::loop_isolation(false)]
    #[verifier::rlimit(100)]
    pub fn compile(graph: &RenderGraph, external: &Vec<Handle>) -> (r: Result<
        CompiledGraph,
        CompileError,
    >)
        requires
            graph.inv(),
        ensures
            ({
                let g = model_of(graph);
                let ext = external@.map_values(|h: Handle| h.0);
                let n = g.vertices.len() as int;
                &&& (has_cycle(n, g.edges) <==> r == Result::<CompiledGraph, CompileError>::Err(
                    CompileError::CycleDetected,
                ))
                &&& (r matches Result::Err(CompileError::UnsatisfiedDependency(h)) ==> !has_cycle(
                    n,
                    g.edges,
                ) && unbound_source(g, ext, h))
                &&& (!has_cycle(n, g.edges) && (forall|ix: int|
                    0 <= ix < n && (#[trigger] g.vertices[ix]) is Resource && !has_incoming(
                        g.edges,
                        ix,
                    ) ==> ext.contains(g.vertices[ix]->Resource_0.0)) ==> r is Ok)
                &&& (r matches Result::Ok(cg) ==> {
                    &&& valid_topo_order(cg.order@, n, g.edges)
                    &&& (crate::graph::toposort_of(graph.reverse_twin()) matches Result::Ok(rev)
                        && cg.order@ == rev.reverse())
                    &&& compile_spec(g, ext, cg.order@) matches Result::Ok(st) && st.ops
                        == cg.ops@
                })
            }),
    {
        let ghost g = model_of(graph);
        let ghost ext = external@.map_values(|h: Handle| h.0);
        let n = graph.vertex_count();
        let edges = graph.edge_list();
        proof {
            graph.lemma_graph_wf();
        }

        let order = match graph.compile_order() {
            Result::Ok(o) => o,
            Result::Err(_) => {
                return Result::Err(CompileError::CycleDetected);
            },
        };

        let mut ops: Vec<RenderOp> = Vec::new();
        let mut available: Vec<bool> = Vec::new();
        let mut k0: usize = 0;
        while k0 < n
            invariant
                k0 <= n,
                available@.len() == k0,
                forall|j: int| 0 <= j < k0 ==> !(#[trigger] available@[j]),
            decreases n - k0,
        {
            available.push(false);
            k0 = k0 + 1;
        }
        let mut shaders_done: Vec<u64> = Vec::new();
        let mut pipelines_done: Vec<u64> = Vec::new();

        proof {
            assert(bools_set(available@) =~= Set::<int>::empty());
            assert(shaders_done@.to_set() =~= Set::<u64>::empty());
            assert(pipelines_done@.to_set() =~= Set::<u64>::empty());
            assert(order@.take(0) =~= Seq::<usize>::empty());
        }

        let m = order.len();
        let mut i: usize = 0;
        while i < m
            invariant
                i <= m,
                m == order@.len(),
                available@.len() == n,
                compile_spec(g, ext, order@.take(i as int)) == Result::<
                    CompileState,
                    CompileError,
                >::Ok(
                    CompileState {
                        ops: ops@,
                        available: bools_set(available@),
                        shaders_done: shaders_done@.to_set(),
                        pipelines_done: pipelines_done@.to_set(),
                    },
                ),
            decreases m - i,
        {
            let ghost st_pre = CompileState {
                ops: ops@,
                available: bools_set(available@),
                shaders_done: shaders_done@.to_set(),
                pipelines_done: pipelines_done@.to_set(),
            };
            let ix = order[i];
            match graph.vertex_at(ix) {
                Vertex::Resource(h) => {
                    let mut producer_found = false;
                    let ne = edges.len();
                    let mut k: usize = 0;
                    while k < ne
                        invariant
                            k <= ne,
                            ne == edges@.len(),
                            edges@ == g.edges,
                            producer_found == exists|j: int|
                                0 <= j < k && (#[trigger] g.edges[j]).1 == ix,
                        decreases ne - k,
                    {
                        if edges[k].1 == ix {
                            producer_found = true;
                        }
                        k = k + 1;
                    }
                    if producer_found {
                        // Produced by an earlier-ordered pass; nothing to plan.
                    } else if contains_handle(external, h.0) {
                        ops.push(RenderOp::UseExternalResource(h));
                        available[ix] = true;
                        proof {
                            assert(bools_set(available@) =~= st_pre.available.insert(ix as int));
                        }
                    } else {
                        proof {
                            let ixi = ix as int;
                            assert(0 <= ixi < g.vertices.len());
                            assert(g.vertices[ixi] == Vertex::Resource(h));
                            assert(!has_incoming(g.edges, ixi));
                            assert(!ext.contains(h.0));
                            assert(unbound_source(g, ext, h));
                        }
                        return Result::Err(CompileError::UnsatisfiedDependency(h));
                    }
                },
                Vertex::Pass(h) => {
                    let pass = match graph.get_pass(&h) {
                        Option::Some(p) => p,
                        Option::None => {
                            // Unreachable: a well-formed graph registers
                            // every pass vertex.
                            proof {
                                assert(false);
                            }
                            return Result::Err(CompileError::CycleDetected);
                        },
                    };
                    let pipeline = pass.pipeline;
                    let pinfo = match graph.get_pipeline(&pipeline) {
                        Option::Some(p) => p,
                        Option::None => {
                            // Unreachable: a well-formed graph registers
                            // every pass's pipeline.
                            proof {
                                assert(false);
                            }
                            return Result::Err(CompileError::CycleDetected);
                        },
                    };
                    if !contains_u64(&pipelines_done, pipeline.0) {
                        if !contains_u64(&shaders_done, pinfo.vertex_shader.0) {
                            ops.push(RenderOp::CreateShaderModule(pinfo.vertex_shader));
                            let ghost sd = shaders_done@;
                            shaders_done.push(pinfo.vertex_shader.0);
                            proof {
                                lemma_to_set_push(sd, pinfo.vertex_shader.0);
                            }
                        }
                        match pinfo.fragment_shader {
                            Option::Some(fs) => {
                                if !contains_u64(&shaders_done, fs.0) {
                                    ops.push(RenderOp::CreateShaderModule(fs));
                                    let ghost sd = shaders_done@;
                                    shaders_done.push(fs.0);
                                    proof {
                                        lemma_to_set_push(sd, fs.0);
                                    }
                                }
                            },
                            Option::None => {},
                        }
                        ops.push(RenderOp::CreatePipelineLayout(pipeline));
                        ops.push(RenderOp::CreatePipeline(pipeline));
                        let ghost pd = pipelines_done@;
                        pipelines_done.push(pipeline.0);
                        proof {
                            lemma_to_set_push(pd, pipeline.0);
                        }
                    }
                    let ghost st_mat = CompileState {
                        ops: ops@,
                        available: bools_set(available@),
                        shaders_done: shaders_done@.to_set(),
                        pipelines_done: pipelines_done@.to_set(),
                    };
                    proof {
                        assert(st_mat == materialize_pipeline(
                            st_pre,
                            pipeline,
                            g.pipelines[pipeline.0],
                        ));
                        assert(g.edges.take(0) =~= Seq::<(usize, usize)>::empty());
                    }
                    let ne = edges.len();
                    let mut k: usize = 0;
                    while k < ne
                        invariant
                            k <= ne,
                            ne == edges@.len(),
                            edges@ == g.edges,
                            available@.len() == n,
                            ix < n,
                            outputs_state(
                                g.edges.take(k as int),
                                ix as int,
                                g.vertices,
                                ext,
                                st_mat,
                            ) == (CompileState {
                                ops: ops@,
                                available: bools_set(available@),
                                shaders_done: shaders_done@.to_set(),
                                pipelines_done: pipelines_done@.to_set(),
                            }),
                        decreases ne - k,
                    {
                        let ghost st_k = CompileState {
                            ops: ops@,
                            available: bools_set(available@),
                            shaders_done: shaders_done@.to_set(),
                            pipelines_done: pipelines_done@.to_set(),
                        };
                        let e = edges[k];
                        if e.0 == ix {
                            if !available[e.1] {
                                match graph.vertex_at(e.1) {
                                    Vertex::Resource(rh) => {
                                        if contains_handle(external, rh.0) {
                                            ops.push(RenderOp::UseExternalResource(rh));
                                        } else {
                                            ops.push(RenderOp::CreateResource(rh));
                                        }
                                    },
                                    Vertex::Pass(_) => {
                                        proof {
                                            assert(edge_in(g.edges, ix as int, e.1 as int));
                                            assert(false);
                                        }
                                    },
                                }
                                available[e.1] = true;
                                proof {
                                    assert(bools_set(available@) =~= st_k.available.insert(
                                        e.1 as int,
                                    ));
                                }
                            }
                        }
                        proof {
                            assert(g.edges.take(k + 1).drop_last() =~= g.edges.take(k as int));
                            assert(g.edges.take(k + 1).last() == g.edges[k as int]);
                        }
                        k = k + 1;
                    }
                    proof {
                        assert(g.edges.take(ne as int) =~= g.edges);
                    }
                    ops.push(RenderOp::ExecutePass(h));
                },
            }
            proof {
                assert(order@.take(i + 1).drop_last() =~= order@.take(i as int));
                assert(order@.take(i + 1).last() == order@[i as int]);
            }
            i = i + 1;
        }
        proof {
            assert(order@.take(m as int) =~= order@);
        }
        Result::Ok(CompiledGraph { order, ops })
    }

    /// The pass handles the plan executes, in order.
    pub fn pass_sequence(&self) -> (r: Vec<Handle>)
        ensures
            r@ == pass_sequence(self.ops@),
    {
        let mut out: Vec<Handle> = Vec::new();
        let n = self.ops.len();
        let mut i: usize = 0;
        proof {
            assert(self.ops@.take(0) =~= Seq::<RenderOp>::empty());
        }
        while i < n
            invariant
                i <= n,
                n == self.ops@.len(),
                out@ == pass_sequence(self.ops@.take(i as int)),
            decreases n - i,
        {
            proof {
                assert(self.ops@.take(i + 1).drop_last() =~= self.ops@.take(i as int));
                assert(self.ops@.take(i + 1).last() == self.ops@[i as int]);
            }
            match self.ops[i] {
                RenderOp::ExecutePass(h) => {
                    out.push(h);
                },
                _ => {},
            }
            i = i + 1;
        }
        proof {
            assert(self.ops@.take(n as int) =~= self.ops@);
        }
        out
    }

    /// How many brand-new resource allocations the plan performs.
    pub fn allocation_count(&self) -> (r: usize)
        ensures
            r as int == count_allocations(self.ops@),
    {
        let mut count: usize = 0;
        let n = self.ops.len();
        let mut i: usize = 0;
        proof {
            assert(self.ops@.take(0) =~= Seq::<RenderOp>::empty());
        }
        while i < n
            invariant
                i <= n,
                n == self.ops@.len(),
                count as int == count_allocations(self.ops@.take(i as int)),
                count <= i,
            decreases n - i,
        {
            proof {
                assert(self.ops@.take(i + 1).drop_last() =~= self.ops@.take(i as int));
                assert(self.ops@.take(i + 1).last() == self.ops@[i as int]);
            }
            match self.ops[i] {
                RenderOp::CreateResource(_) => {
                    count = count + 1;
                },
                _ => {},
            }
            i = i + 1;
        }
        proof {
            assert(self.ops@.take(n as int) =~= self.ops@);
        }
        count
    }
}

/// How many `CreateResource` operations a plan contains.
pub open spec fn count_allocations(ops: Seq<RenderOp>) -> int
    decreases ops.len(),
{
    if ops.len() == 0 {
        0
    } else {
        count_allocations(ops.drop_last()) + if ops.last() is CreateResource {
            1int
        } else {
            0int
        }
    }
}

/// The node indices whose flag is set.
pub open spec fn bools_set(v: Seq<bool>) -> Set<int> {
    Set::new(|i: int| 0 <= i < v.len() && v[i])
}

} // verus!

