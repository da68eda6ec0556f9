use frame_graph::HandleMap;
use frame_graph::PassResource;
use frame_graph::PipelineLayoutBuilder;
use frame_graph::RenderGraph;
use frame_graph::RenderGraphResult;
use frame_graph::RenderPassBuilder;
use frame_graph::Resource;
use frame_graph::ShaderRepresentation;
use frame_graph::ShaderStage;
use frame_graph::VertexLabel;
use frame_graph::VisibilityBuilder;
use frame_graph::WgslBuilder;

fn graph_with_pipeline() -> (RenderGraph, frame_graph::Handle) {
    let mut graph = RenderGraph::new();
    let shader = graph.add_shader(
        ShaderRepresentation::shader().add_stage(ShaderStage::Vertex).finish(),
        Some("default_shader"),
    );
    let pipeline = graph.add_pipeline(
        PipelineLayoutBuilder::layout().label("Render Pipeline Layout"),
        shader,
        Some(shader),
        Some("render_pipeline"),
    );
    (graph, pipeline)
}

#[test]
fn handle_map_lookup_is_last_write_wins() {
    let mut map: HandleMap<u32> = HandleMap::new();
    let first = map.add(1, Some("name".to_string()));
    let second = map.add(2, Some("name".to_string()));
    assert_ne!(first, second);
    assert_eq!(*map.get_from_string(&"name".to_string()).unwrap(), 2);
    assert_eq!(*map.get_from_handle(&first).unwrap(), 1);
    assert_eq!(map.get_string_from_handle(&second).unwrap(), "name".to_string());
    assert!(map.get_from_string(&"other".to_string()).is_none());
}

#[test]
fn only_output_none_allocates_a_fresh_vertex() {
    let (mut graph, pipeline) = graph_with_pipeline();
    let existing = graph.add_resource(Resource::persistent_with_name("existing"));
    let before = graph.vertex_count();

    let (pass, outputs) = graph
        .add_render_pass(
            RenderPassBuilder::render_pass(pipeline)
                .add_colour_attachment(PassResource::OnlyOutput(None)),
        )
        .unwrap();

    assert_eq!(outputs.len(), 1);
    // The output vertex is brand new: not the pass vertex, and above every
    // vertex that existed before.
    assert!(outputs[0].node_index() >= before);
    assert_ne!(outputs[0].node_index(), pass.node_index());
    assert_ne!(outputs[0].handle, existing.handle);
}

#[test]
fn output_naming_an_existing_resource_reuses_its_vertex() {
    let (mut graph, pipeline) = graph_with_pipeline();
    let target = graph.add_resource(Resource::persistent_with_name("target"));
    let before = graph.vertex_count();

    let (_, outputs) = graph
        .add_render_pass(
            RenderPassBuilder::render_pass(pipeline)
                .add_colour_attachment(PassResource::OnlyOutput(Some(target.handle))),
        )
        .unwrap();

    assert_eq!(outputs.len(), 1);
    assert_eq!(outputs[0].node_index(), target.node_index());
    assert_eq!(outputs[0].handle, target.handle);
    // Only the pass vertex was added.
    assert_eq!(graph.vertex_count(), before + 1);

    let (_, outputs2) = graph
        .add_render_pass(
            RenderPassBuilder::render_pass(pipeline)
                .add_colour_attachment(PassResource::InputAndOutput(target.handle)),
        )
        .unwrap();
    assert_eq!(outputs2[0].node_index(), target.node_index());
}

#[test]
fn fresh_output_is_promoted_to_a_persistent_twin() {
    let (mut graph, pipeline) = graph_with_pipeline();
    let (_, outputs) = graph
        .add_render_pass(
            RenderPassBuilder::render_pass(pipeline)
                .add_colour_attachment(PassResource::OnlyOutput(None)),
        )
        .unwrap();
    let dynamic_handle = outputs[0].handle;
    let twin_handle = frame_graph::Handle(dynamic_handle.0 + 1);

    // The registry holds the dynamic resource and, right after it, its
    // promoted persistent twin: same generated id, no name.
    let generated = match graph.get_resource(&dynamic_handle).unwrap() {
        Resource::Dynamic(u) => *u,
        Resource::Persistent(_) => panic!("fresh output must be dynamic"),
    };
    match graph.get_resource(&twin_handle).unwrap() {
        Resource::Persistent(id) => {
            assert_eq!(id.global_id, generated);
            assert!(id.string_id.is_none());
        }
        Resource::Dynamic(_) => panic!("twin must be persistent"),
    }

    // A later pass can reference the output through the twin without
    // threading the dynamic handle; it resolves to the same vertex.
    let (consumer, _) = graph
        .add_render_pass(
            RenderPassBuilder::render_pass(pipeline)
                .add_colour_attachment(PassResource::OnlyInput(twin_handle)),
        )
        .unwrap();
    let edges = graph.edge_list();
    assert!(edges.contains(&(outputs[0].node_index(), consumer.node_index())));
}

#[test]
fn outputs_list_existing_resources_before_fresh_ones() {
    let (mut graph, pipeline) = graph_with_pipeline();
    let a = graph.add_resource(Resource::persistent_with_name("a"));
    let b = graph.add_resource(Resource::persistent_with_name("b"));
    let (_, outputs) = graph
        .add_render_pass(
            RenderPassBuilder::render_pass(pipeline)
                .add_colour_attachment(PassResource::OnlyOutput(None))
                .add_colour_attachment(PassResource::OnlyOutput(Some(a.handle)))
                .set_depth_stencil_attachment(PassResource::InputAndOutput(b.handle)),
        )
        .unwrap();
    assert_eq!(outputs.len(), 3);
    assert_eq!(outputs[0].handle, a.handle);
    assert_eq!(outputs[1].handle, b.handle);
    assert!(outputs[2].node_index() > b.node_index());
}

#[test]
fn unknown_attachment_resource_is_rejected() {
    let (mut graph, pipeline) = graph_with_pipeline();
    let mut other_graph = RenderGraph::new();
    let foreign = other_graph.add_resource(Resource::persistent_without_name());

    let result = graph.add_render_pass(
        RenderPassBuilder::render_pass(pipeline)
            .add_colour_attachment(PassResource::OnlyInput(foreign.handle)),
    );
    assert_eq!(result.unwrap_err(), RenderGraphResult::ResourceDoesNotExist);
}

#[test]
fn unknown_pipeline_is_rejected() {
    let mut graph = RenderGraph::new();
    let mut other_graph = RenderGraph::new();
    let shader = other_graph.add_shader(ShaderRepresentation::shader(), None);
    let pipeline = other_graph.add_pipeline(
        PipelineLayoutBuilder::layout(),
        shader,
        None,
        None,
    );
    let result = graph.add_render_pass(RenderPassBuilder::render_pass(pipeline));
    assert_eq!(result.unwrap_err(), RenderGraphResult::PipelineDoesNotExist);
}

#[test]
fn string_graph_uses_names_where_registered() {
    let (mut graph, pipeline) = graph_with_pipeline();
    let named = graph.add_resource(Resource::persistent_with_name("Surface"));
    let (_, _outputs) = graph
        .add_render_pass(
            RenderPassBuilder::render_pass(pipeline)
                .label("Triangle Pass")
                .add_colour_attachment(PassResource::InputAndOutput(named.handle)),
        )
        .unwrap();

    let (labels, edges) = graph.string_graph();
    assert_eq!(labels.len(), graph.vertex_count());
    assert_eq!(labels[named.node_index()], VertexLabel::Named("Surface".to_string()));
    assert!(labels.contains(&VertexLabel::Named("Triangle Pass".to_string())));
    // One consume edge: Surface -> pass.
    assert_eq!(edges.len(), 1);
}

#[test]
fn pass_builder_records_attachments_in_declaration_order() {
    let builder = RenderPassBuilder::render_pass(frame_graph::Handle(7))
        .label("pass")
        .add_colour_attachment(PassResource::OnlyOutput(None))
        .set_depth_stencil_attachment(PassResource::OnlyOutput(None))
        .set_vertex_buffer(PassResource::OnlyInput(frame_graph::Handle(1)))
        .set_index_buffer(PassResource::OnlyInput(frame_graph::Handle(2)));
    let attachments = builder.all_attachments();
    assert_eq!(attachments.len(), 4);
    assert_eq!(attachments[0], PassResource::OnlyOutput(None));
    assert_eq!(attachments[2], PassResource::OnlyInput(frame_graph::Handle(1)));
    assert!(attachments[0].is_output() && attachments[0].is_new_resource());
    assert!(attachments[2].is_input() && !attachments[2].is_output());
    assert_eq!(attachments[3].resource_handle(), Some(frame_graph::Handle(2)));
}

#[test]
fn visibility_and_binding_group_builders() {
    let visibility = VisibilityBuilder::visibility().vertex().fragment();
    assert!(visibility.vertex && visibility.fragment && !visibility.compute);

    let layout = frame_graph::BindGroupLayoutBuilder::binding()
        .label("group")
        .add_binding(visibility)
        .add_binding(VisibilityBuilder::visibility().compute())
        .build();
    assert_eq!(layout.entries.len(), 2);
    assert_eq!(layout.entries[0].binding, 0);
    assert_eq!(layout.entries[1].binding, 1);
    assert!(layout.entries[1].visibility.compute);
}

#[test]
fn wgsl_builder_keeps_its_source() {
    let wgsl = WgslBuilder::from_buffer("fn vs_main() {}");
    assert_eq!(wgsl.source(), "fn vs_main() {}");
}
