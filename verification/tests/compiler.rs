use frame_graph::CompileError;
use frame_graph::CompiledGraph;
use frame_graph::Handle;
use frame_graph::PassResource;
use frame_graph::PipelineLayoutBuilder;
use frame_graph::RenderGraph;
use frame_graph::RenderOp;
use frame_graph::RenderPassBuilder;
use frame_graph::Resource;
use frame_graph::ShaderRepresentation;
use frame_graph::ShaderStage;

fn graph_with_pipeline() -> (RenderGraph, Handle) {
    let mut graph = RenderGraph::new();
    let shader = graph.add_shader(
        ShaderRepresentation::shader().add_stage(ShaderStage::Vertex).finish(),
        None,
    );
    let pipeline = graph.add_pipeline(PipelineLayoutBuilder::layout(), shader, None, None);
    (graph, pipeline)
}

#[test]
fn cycle_is_a_fatal_compilation_error() {
    // Pass A outputs R and consumes S; pass B consumes R and outputs S.
    let (mut graph, pipeline) = graph_with_pipeline();
    let r = graph.add_resource(Resource::persistent_with_name("R"));
    let s = graph.add_resource(Resource::persistent_with_name("S"));
    graph
        .add_render_pass(
            RenderPassBuilder::render_pass(pipeline)
                .label("A")
                .add_colour_attachment(PassResource::OnlyOutput(Some(r.handle)))
                .set_vertex_buffer(PassResource::OnlyInput(s.handle)),
        )
        .unwrap();
    graph
        .add_render_pass(
            RenderPassBuilder::render_pass(pipeline)
                .label("B")
                .add_colour_attachment(PassResource::OnlyOutput(Some(s.handle)))
                .set_vertex_buffer(PassResource::OnlyInput(r.handle)),
        )
        .unwrap();

    let result = CompiledGraph::compile(&graph, &Vec::new());
    assert_eq!(result.unwrap_err(), CompileError::CycleDetected);
}

#[test]
fn unsatisfied_external_input_names_the_resource() {
    let (mut graph, pipeline) = graph_with_pipeline();
    let input = graph.add_resource(Resource::persistent_with_name("missing_input"));
    graph
        .add_render_pass(
            RenderPassBuilder::render_pass(pipeline)
                .add_colour_attachment(PassResource::OnlyInput(input.handle))
                .add_colour_attachment(PassResource::OnlyOutput(None)),
        )
        .unwrap();

    let result = CompiledGraph::compile(&graph, &Vec::new());
    assert_eq!(
        result.unwrap_err(),
        CompileError::UnsatisfiedDependency(input.handle)
    );

    // Supplying the binding and retrying succeeds.
    let retried = CompiledGraph::compile(&graph, &vec![input.handle]);
    assert!(retried.is_ok());
}

#[test]
fn externally_bound_scenario_compiles_without_allocations() {
    // Resources {Surface, Texture}; one pass P with input Texture and
    // input-output Surface; both bound externally.
    let (mut graph, pipeline) = graph_with_pipeline();
    let surface = graph.add_resource(Resource::persistent_with_name("Surface"));
    let texture = graph.add_resource(Resource::persistent_with_name("Texture"));
    let (pass, _) = graph
        .add_render_pass(
            RenderPassBuilder::render_pass(pipeline)
                .label("P")
                .add_colour_attachment(PassResource::OnlyInput(texture.handle))
                .add_colour_attachment(PassResource::InputAndOutput(surface.handle)),
        )
        .unwrap();

    let compiled = CompiledGraph::compile(&graph, &vec![texture.handle, surface.handle]).unwrap();
    assert_eq!(compiled.pass_sequence(), vec![pass.handle]);
    assert_eq!(compiled.allocation_count(), 0);
}

#[test]
fn producer_runs_before_consumer_with_one_allocation() {
    // Pass A allocates a brand-new output X; pass B consumes X.
    let (mut graph, pipeline) = graph_with_pipeline();
    let (pass_a, outputs) = graph
        .add_render_pass(
            RenderPassBuilder::render_pass(pipeline)
                .label("A")
                .add_colour_attachment(PassResource::OnlyOutput(None)),
        )
        .unwrap();
    let x = outputs[0];
    let (pass_b, _) = graph
        .add_render_pass(
            RenderPassBuilder::render_pass(pipeline)
                .label("B")
                .add_colour_attachment(PassResource::OnlyInput(x.handle)),
        )
        .unwrap();

    let compiled = CompiledGraph::compile(&graph, &Vec::new()).unwrap();
    assert_eq!(compiled.pass_sequence(), vec![pass_a.handle, pass_b.handle]);
    assert_eq!(compiled.allocation_count(), 1);
    assert!(compiled.ops.contains(&RenderOp::CreateResource(x.handle)));
}

#[test]
fn pipelines_and_shaders_are_materialized_once() {
    // Two passes sharing one pipeline: its shader module, layout and
    // pipeline are each created exactly once.
    let (mut graph, pipeline) = graph_with_pipeline();
    graph
        .add_render_pass(
            RenderPassBuilder::render_pass(pipeline)
                .add_colour_attachment(PassResource::OnlyOutput(None)),
        )
        .unwrap();
    graph
        .add_render_pass(
            RenderPassBuilder::render_pass(pipeline)
                .add_colour_attachment(PassResource::OnlyOutput(None)),
        )
        .unwrap();

    let compiled = CompiledGraph::compile(&graph, &Vec::new()).unwrap();
    let mut pipelines = 0;
    let mut layouts = 0;
    let mut shaders = 0;
    let mut executes = 0;
    for op in compiled.ops.iter() {
        match op {
            RenderOp::CreatePipeline(_) => pipelines += 1,
            RenderOp::CreatePipelineLayout(_) => layouts += 1,
            RenderOp::CreateShaderModule(_) => shaders += 1,
            RenderOp::ExecutePass(_) => executes += 1,
            _ => {}
        }
    }
    assert_eq!(pipelines, 1);
    assert_eq!(layouts, 1);
    assert_eq!(shaders, 1);
    assert_eq!(executes, 2);
}

#[test]
fn empty_graph_compiles_to_an_empty_plan() {
    let graph = RenderGraph::new();
    let compiled = CompiledGraph::compile(&graph, &Vec::new()).unwrap();
    assert_eq!(compiled.ops.len(), 0);
    assert_eq!(compiled.order.len(), 0);
}
