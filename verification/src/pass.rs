//! Render-pass declaration: which resources a pass reads and writes, in
//! declaration order, plus the pipeline it runs.

use vstd::prelude::*;

verus! {

use crate::registry::Handle;

broadcast use vstd::string::to_string_from_display_ensures_for_str;

/// One attachment of a pass. `OnlyOutput(None)` asks the builder to allocate
/// a brand-new resource for the output; `OnlyOutput(Some(h))` and
/// `InputAndOutput(h)` write into the existing resource `h`.
#[derive(Debug, Copy, Clone, PartialEq, Eq, Structural)]
pub enum PassResource {
    OnlyInput(Handle),
    OnlyOutput(Option<Handle>),
    InputAndOutput(Handle),
}

impl PassResource {
    /// The pass writes this attachment.
    pub fn is_output(&self) -> (r: bool)
        ensures
            r == (self is OnlyOutput || self is InputAndOutput),
    {
        match self {
            PassResource::OnlyOutput(_) => true,
            PassResource::InputAndOutput(_) => true,
            PassResource::OnlyInput(_) => false,
        }
    }

    /// The pass reads this attachment.
    pub fn is_input(&self) -> (r: bool)
        ensures
            r == (self is OnlyInput || self is InputAndOutput),
    {
        match self {
            PassResource::OnlyOutput(_) => false,
            PassResource::InputAndOutput(_) => true,
            PassResource::OnlyInput(_) => true,
        }
    }

    /// The attachment asks for a brand-new resource allocation.
    pub fn is_new_resource(&self) -> (r: bool)
        ensures
            r == (*self == PassResource::OnlyOutput(None)),
    {
        if let PassResource::OnlyOutput(resource) = *self {
            resource.is_none()
        } else {
            false
        }
    }

    /// The existing resource this attachment refers to, if any.
    pub fn resource_handle(&self) -> (r: Option<Handle>)
        ensures
            r == self.spec_resource_handle(),
    {
        match *self {
            PassResource::OnlyOutput(resource) => resource,
            PassResource::OnlyInput(resource) => Some(resource),
            PassResource::InputAndOutput(resource) => Some(resource),
        }
    }

    /// Specification twin of [`Self::resource_handle`].
    pub open spec fn spec_resource_handle(&self) -> Option<Handle> {
        match *self {
            PassResource::OnlyOutput(resource) => resource,
            PassResource::OnlyInput(resource) => Some(resource),
            PassResource::InputAndOutput(resource) => Some(resource),
        }
    }
}

/// Declaration of one render pass: its pipeline, an optional label and its
/// attachments. Attachment declaration order is fixed: colour attachments in
/// the order they were added, then the depth/stencil attachment, the vertex
/// buffer and the index buffer; this order determines edge insertion order
/// in the graph and so keeps builds reproducible.
#[derive(Debug, Clone)]
pub struct RenderPassBuilder {
    pub label: Option<String>,
    pub colour_attachments: Vec<PassResource>,
    pub depth_stencil: Option<PassResource>,
    pub vertex_buffer: Option<PassResource>,
    pub index_buffer: Option<PassResource>,
    pub pipeline: Handle,
}

/// An optional attachment as a zero- or one-element sequence.
pub open spec fn opt_attachment(a: Option<PassResource>) -> Seq<PassResource> {
    match a {
        Option::Some(p) => seq![p],
        Option::None => Seq::empty(),
    }
}

impl RenderPassBuilder {
    /// All attachments, in declaration order.
    pub open spec fn attachments(&self) -> Seq<PassResource> {
        self.colour_attachments@ + opt_attachment(self.depth_stencil) + opt_attachment(
            self.vertex_buffer,
        ) + opt_attachment(self.index_buffer)
    }

    /// Start declaring a pass that runs `pipeline`.
    pub fn render_pass(pipeline: Handle) -> (r: RenderPassBuilder)
        ensures
            r.label is None,
            r.colour_attachments@ == Seq::<PassResource>::empty(),
            r.depth_stencil is None,
            r.vertex_buffer is None,
            r.index_buffer is None,
            r.pipeline == pipeline,
    {
        RenderPassBuilder {
            label: None,
            colour_attachments: Vec::new(),
            depth_stencil: None,
            vertex_buffer: None,
            index_buffer: None,
            pipeline,
        }
    }

    /// Label the pass; the label also names the pass in its registry.
    pub fn label(self, label: &str) -> (r: RenderPassBuilder)
        ensures
            r.label matches Some(s) && s@ == label@,
            r.colour_attachments == self.colour_attachments,
            r.depth_stencil == self.depth_stencil,
            r.vertex_buffer == self.vertex_buffer,
            r.index_buffer == self.index_buffer,
            r.pipeline == self.pipeline,
    {
        RenderPassBuilder { label: Some(label.to_string()), ..self }
    }

    /// Append a colour attachment.
    pub fn add_colour_attachment(self, attachment: PassResource) -> (r: RenderPassBuilder)
        ensures
            r.colour_attachments@ == self.colour_attachments@.push(attachment),
            r.label == self.label,
            r.depth_stencil == self.depth_stencil,
            r.vertex_buffer == self.vertex_buffer,
            r.index_buffer == self.index_buffer,
            r.pipeline == self.pipeline,
    {
        let mut colour_attachments = self.colour_attachments;
        colour_attachments.push(attachment);
        RenderPassBuilder { colour_attachments, ..self }
    }

    /// Set the depth/stencil attachment.
    pub fn set_depth_stencil_attachment(self, depth_stencil: PassResource) -> (r:
        RenderPassBuilder)
        ensures
            r.depth_stencil == Some(depth_stencil),
            r.label == self.label,
            r.colour_attachments == self.colour_attachments,
            r.vertex_buffer == self.vertex_buffer,
            r.index_buffer == self.index_buffer,
            r.pipeline == self.pipeline,
    {
        RenderPassBuilder { depth_stencil: Some(depth_stencil), ..self }
    }

    /// Set the vertex buffer attachment.
    pub fn set_vertex_buffer(self, vertex_buffer: PassResource) -> (r: RenderPassBuilder)
        ensures
            r.vertex_buffer == Some(vertex_buffer),
            r.label == self.label,
            r.colour_attachments == self.colour_attachments,
            r.depth_stencil == self.depth_stencil,
            r.index_buffer == self.index_buffer,
            r.pipeline == self.pipeline,
    {
        RenderPassBuilder { vertex_buffer: Some(vertex_buffer), ..self }
    }

    /// Set the index buffer attachment.
    pub fn set_index_buffer(self, index_buffer: PassResource) -> (r: RenderPassBuilder)
        ensures
            r.index_buffer == Some(index_buffer),
            r.label == self.label,
            r.colour_attachments == self.colour_attachments,
            r.depth_stencil == self.depth_stencil,
            r.vertex_buffer == self.vertex_buffer,
            r.pipeline == self.pipeline,
    {
        RenderPassBuilder { index_buffer: Some(index_buffer), ..self }
    }

    /// All attachments, in declaration order, as a vector.
    pub fn all_attachments(&self) -> (r: Vec<PassResource>)
        ensures
            r@ == self.attachments(),
    {
        let mut out: Vec<PassResource> = Vec::new();
        let mut i: usize = 0;
        let n = self.colour_attachments.len();
        while i < n
            invariant
                i <= n,
                n == self.colour_attachments@.len(),
                out@ == self.colour_attachments@.take(i as int),
            decreases n - i,
        {
            out.push(self.colour_attachments[i]);
            proof {
                assert(out@ =~= self.colour_attachments@.take(i + 1));
            }
            i = i + 1;
        }
        proof {
            assert(self.colour_attachments@.take(n as int) =~= self.colour_attachments@);
        }
        if let Some(a) = self.depth_stencil {
            out.push(a);
        }
        if let Some(a) = self.vertex_buffer {
            out.push(a);
        }
        if let Some(a) = self.index_buffer {
            out.push(a);
        }
        proof {
            assert(out@ =~= self.attachments());
        }
        out
    }
}

} // verus!
