//! Shader declarations: which stages a shader has and which resources each
//! stage reads, plus a WGSL source holder for the backend to compile.

use vstd::prelude::*;

verus! {

use crate::registry::Handle;

broadcast use vstd::string::to_string_from_display_ensures_for_str;

/// A programmable pipeline stage.
#[derive(Debug, Copy, Clone, PartialEq, Eq, Structural, Hash)]
pub enum ShaderStage {
    Vertex,
    Fragment,
    Compute,
}

/// A shader as declared for the graph: its stages, in declaration order,
/// each with the resources that stage reads.
#[derive(Debug, Clone)]
pub struct ShaderRepresentation {
    stages: Vec<(ShaderStage, Vec<Handle>)>,
}

/// An in-progress stage declaration; `finish` appends it to the shader.
#[derive(Debug, Clone)]
pub struct ShaderStageInputs {
    stage: ShaderStage,
    inputs: Vec<Handle>,
    representation: ShaderRepresentation,
}

impl ShaderRepresentation {
    /// The declared stages with their input resources.
    pub closed spec fn spec_stages(&self) -> Seq<(ShaderStage, Seq<Handle>)> {
        self.stages@.map_values(|p: (ShaderStage, Vec<Handle>)| (p.0, p.1@))
    }

    /// Start declaring a shader with no stages.
    pub fn shader() -> (r: ShaderRepresentation)
        ensures
            r.spec_stages() == Seq::<(ShaderStage, Seq<Handle>)>::empty(),
    {
        let r = ShaderRepresentation { stages: Vec::new() };
        proof {
            assert(r.spec_stages() =~= Seq::<(ShaderStage, Seq<Handle>)>::empty());
        }
        r
    }

    /// Begin declaring stage `stage` of this shader.
    pub fn add_stage(self, stage: ShaderStage) -> (r: ShaderStageInputs)
        ensures
            r.spec_stage() == stage,
            r.spec_inputs() == Seq::<Handle>::empty(),
            r.spec_representation() == self,
    {
        ShaderStageInputs { stage, inputs: Vec::new(), representation: self }
    }
}

impl ShaderStageInputs {
    pub closed spec fn spec_stage(&self) -> ShaderStage {
        self.stage
    }

    pub closed spec fn spec_inputs(&self) -> Seq<Handle> {
        self.inputs@
    }

    pub closed spec fn spec_representation(&self) -> ShaderRepresentation {
        self.representation
    }

    /// Add a resource this stage reads.
    pub fn add_input(self, input: Handle) -> (r: ShaderStageInputs)
        ensures
            r.spec_stage() == self.spec_stage(),
            r.spec_inputs() == self.spec_inputs().push(input),
            r.spec_representation() == self.spec_representation(),
    {
        let mut inputs = self.inputs;
        inputs.push(input);
        ShaderStageInputs { inputs, ..self }
    }

    /// Append the declared stage to the shader. A stage declared twice
    /// appears twice, in declaration order.
    pub fn finish(self) -> (r: ShaderRepresentation)
        ensures
            r.spec_stages() == self.spec_representation().spec_stages().push(
                (self.spec_stage(), self.spec_inputs()),
            ),
    {
        let mut representation = self.representation;
        let ghost stages0 = representation.spec_stages();
        representation.stages.push((self.stage, self.inputs));
        proof {
            assert(representation.spec_stages() =~= stages0.push(
                (self.stage, representation.stages@.last().1@),
            ));
        }
        representation
    }
}

/// Holder of WGSL shader source text, handed to the backend's shader-module
/// compiler unchanged.
#[derive(Debug, Clone)]
pub struct WgslBuilder {
    source: String,
}

impl WgslBuilder {
    /// The held source text.
    pub closed spec fn spec_source(&self) -> Seq<char> {
        self.source@
    }

    /// Wrap WGSL source held in a string buffer.
    pub fn from_buffer(source: &str) -> (r: WgslBuilder)
        ensures
            r.spec_source() == source@,
    {
        WgslBuilder { source: source.to_string() }
    }

    /// The held source text.
    pub fn source(&self) -> (r: &String)
        ensures
            r@ == self.spec_source(),
    {
        &self.source
    }
}

} // verus!
