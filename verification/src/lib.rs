//! Scheduling and resource-identity core of a graphics-frame orchestrator.
//!
//! The crate provides, bottom up:
//! - a stable-identity handle arena with O(1) insert, remove and lookup;
//! - a lifetime cache that reference-counts resources and defers their
//!   destruction by a lifetime-class-specific delay;
//! - a named registry mapping generated handles, names and paths to objects;
//! - a frame-graph builder that declares passes and resources and links them
//!   into a dependency graph of resource and pass vertices;
//! - a compiler that derives a producer-before-consumer execution order from
//!   the finished graph and emits a linear plan of create/execute operations.

mod arena;
mod compile;
mod graph;
mod graph_resource;
mod ids;
mod lifetime;
mod manager;
mod pass;
mod pipeline;
mod registry;
mod shader;

pub use arena::ArenaOp;
pub use arena::ElementHandle;
pub use arena::SparseSet;
pub use arena::arena_live_set;
pub use arena::inserted_not_removed;
pub use arena::lemma_arena_contains_iff_inserted;
pub use compile::CompileError;
pub use compile::CompileState;
pub use compile::CompiledGraph;
pub use compile::GraphModel;
pub use compile::RenderOp;
pub use compile::bools_set;
pub use compile::compile_spec;
pub use compile::count_allocations;
pub use compile::graph_wf;
pub use compile::has_incoming;
pub use compile::lemma_compile_prefix_ok;
pub use compile::lemma_model_wf;
pub use compile::lemma_pass_inputs_available;
pub use compile::lemma_pass_sequence_matches_order;
pub use compile::materialize_pipeline;
pub use compile::model_of;
pub use compile::outputs_state;
pub use compile::pass_handles;
pub use compile::pass_sequence;
pub use compile::unbound_source;
pub use compile::vertex_step;
pub use graph::PassPlan;
pub use graph::PipelineInfo;
pub use graph::PlannedOutput;
pub use graph::RenderGraph;
pub use graph::RenderGraphResult;
pub use graph::Vertex;
pub use graph::VertexHandle;
pub use graph::VertexLabel;
pub use graph::all_resolvable;
pub use graph::edge_in;
pub use graph::edge_ints;
pub use graph::flip_edges;
pub use graph::graph_edges;
pub use graph::graph_nodes;
pub use graph::has_cycle;
pub use graph::is_cycle;
pub use graph::lemma_cycle_flip;
pub use graph::lemma_edge_in_flip;
pub use graph::lemma_output_vertex_allocation;
pub use graph::out_pairs;
pub use graph::pass_plan;
pub use graph::planned_pairs;
pub use graph::spec_resolve;
pub use graph::toposort_of;
pub use graph::valid_topo_order;
pub use graph_resource::Id;
pub use graph_resource::Resource;
pub use lifetime::CacheOp;
pub use lifetime::ResourceLifetime;
pub use lifetime::ResourceReferenceManager;
pub use lifetime::apply_cache_ops;
pub use lifetime::count_activates;
pub use lifetime::count_deactivates;
pub use lifetime::deadline_elapsed;
pub use lifetime::deadline_le;
pub use lifetime::drain;
pub use lifetime::lemma_drain_pending_unregistered;
pub use lifetime::lemma_drain_submap;
pub use lifetime::lemma_reactivation_prevents_destruction;
pub use lifetime::lemma_reference_count_is_activations_minus_deactivations;
pub use lifetime::lemma_upkeep_bounded_by_quota;
pub use lifetime::spec_deadline;
pub use lifetime::spec_delay;
pub use lifetime::upkeep_spec;
pub use manager::RESOURCES_TO_DESTROY_PER_UPKEEP;
pub use manager::ResourceHandle;
pub use manager::ResourceHandler;
pub use manager::ResourceManager;
pub use manager::ResourceMetaData;
pub use manager::lemma_remove_keys_dom;
pub use manager::remove_keys;
pub use manager::uuid_lookup;
pub use pass::PassResource;
pub use pass::RenderPassBuilder;
pub use pass::opt_attachment;
pub use pipeline::BindGroupEntry;
pub use pipeline::BindGroupLayoutBuilder;
pub use pipeline::BindingGroupLayout;
pub use pipeline::PipelineLayout;
pub use pipeline::PipelineLayoutBuilder;
pub use pipeline::VisibilityBuilder;
pub use registry::Handle;
pub use registry::HandleMap;
pub use registry::name_lookup;
pub use shader::ShaderRepresentation;
pub use shader::ShaderStage;
pub use shader::ShaderStageInputs;
pub use shader::WgslBuilder;
