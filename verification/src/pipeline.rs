//! Pipeline-layout declarations: which shader stages may see each binding,
//! and how bindings are grouped. The backend-specific binding types are
//! supplied by the caller at materialization time; the graph core records
//! the layout's shape.

use vstd::prelude::*;

verus! {

broadcast use vstd::string::to_string_from_display_ensures_for_str;

/// Which shader stages a binding is visible to.
#[derive(Debug, Copy, Clone, PartialEq, Eq, Structural)]
pub struct VisibilityBuilder {
    pub vertex: bool,
    pub fragment: bool,
    pub compute: bool,
}

impl VisibilityBuilder {
    /// Visible to no stage.
    pub fn visibility() -> (r: VisibilityBuilder)
        ensures
            r == (VisibilityBuilder { vertex: false, fragment: false, compute: false }),
    {
        VisibilityBuilder { vertex: false, fragment: false, compute: false }
    }

    /// Also visible to the vertex stage.
    pub fn vertex(self) -> (r: VisibilityBuilder)
        ensures
            r == (VisibilityBuilder { vertex: true, ..self }),
    {
        VisibilityBuilder { vertex: true, ..self }
    }

    /// Also visible to the fragment stage.
    pub fn fragment(self) -> (r: VisibilityBuilder)
        ensures
            r == (VisibilityBuilder { fragment: true, ..self }),
    {
        VisibilityBuilder { fragment: true, ..self }
    }

    /// Also visible to the compute stage.
    pub fn compute(self) -> (r: VisibilityBuilder)
        ensures
            r == (VisibilityBuilder { compute: true, ..self }),
    {
        VisibilityBuilder { compute: true, ..self }
    }
}

/// One entry of a built binding-group layout: its index within the group and
/// its visibility.
#[derive(Debug, Copy, Clone, PartialEq, Eq, Structural)]
pub struct BindGroupEntry {
    pub binding: u32,
    pub visibility: VisibilityBuilder,
}

/// A built binding-group layout.
#[derive(Debug, Clone)]
pub struct BindingGroupLayout {
    pub label: Option<String>,
    pub entries: Vec<BindGroupEntry>,
}

/// Declares the bindings of one binding group, in order; building assigns
/// each binding its index.
#[derive(Debug, Clone)]
pub struct BindGroupLayoutBuilder {
    label: Option<String>,
    bindings: Vec<VisibilityBuilder>,
}

impl BindGroupLayoutBuilder {
    pub closed spec fn spec_label(&self) -> Option<String> {
        self.label
    }

    pub closed spec fn spec_bindings(&self) -> Seq<VisibilityBuilder> {
        self.bindings@
    }

    /// Start declaring a binding group.
    pub fn binding() -> (r: BindGroupLayoutBuilder)
        ensures
            r.spec_label() is None,
            r.spec_bindings() == Seq::<VisibilityBuilder>::empty(),
    {
        BindGroupLayoutBuilder { label: None, bindings: Vec::new() }
    }

    /// Append a binding with the given stage visibility.
    pub fn add_binding(self, visibility: VisibilityBuilder) -> (r: BindGroupLayoutBuilder)
        ensures
            r.spec_label() == self.spec_label(),
            r.spec_bindings() == self.spec_bindings().push(visibility),
    {
        let mut bindings = self.bindings;
        bindings.push(visibility);
        BindGroupLayoutBuilder { bindings, ..self }
    }

    /// Label the group.
    pub fn label(self, label: &str) -> (r: BindGroupLayoutBuilder)
        ensures
            r.spec_label() matches Some(s) && s@ == label@,
            r.spec_bindings() == self.spec_bindings(),
    {
        BindGroupLayoutBuilder { label: Some(label.to_string()), ..self }
    }

    /// Build the layout: binding `i` of the group gets index `i`, in
    /// declaration order.
    pub fn build(self) -> (r: BindingGroupLayout)
        requires
            self.spec_bindings().len() <= u32::MAX,
        ensures
            r.label == self.spec_label(),
            r.entries@.len() == self.spec_bindings().len(),
            forall|i: int|
                0 <= i < r.entries@.len() ==> #[trigger] r.entries@[i] == (BindGroupEntry {
                    binding: i as u32,
                    visibility: self.spec_bindings()[i],
                }),
    {
        let mut entries: Vec<BindGroupEntry> = Vec::new();
        let mut i: usize = 0;
        let n = self.bindings.len();
        while i < n
            invariant
                i <= n,
                n == self.bindings@.len(),
                n <= u32::MAX,
                entries@.len() == i,
                forall|j: int|
                    0 <= j < i ==> #[trigger] entries@[j] == (BindGroupEntry {
                        binding: j as u32,
                        visibility: self.bindings@[j],
                    }),
            decreases n - i,
        {
            entries.push(BindGroupEntry { binding: i as u32, visibility: self.bindings[i] });
            i = i + 1;
        }
        BindingGroupLayout { label: self.label, entries }
    }
}

/// A built pipeline layout: an optional label and an optional binding group.
#[derive(Debug, Clone)]
pub struct PipelineLayout {
    pub label: Option<String>,
    pub binding_group: Option<BindingGroupLayout>,
}

/// Declares a pipeline layout.
#[derive(Debug, Clone)]
pub struct PipelineLayoutBuilder {
    label: Option<String>,
    bind_group: Option<BindGroupLayoutBuilder>,
}

impl PipelineLayoutBuilder {
    pub closed spec fn spec_label(&self) -> Option<String> {
        self.label
    }

    pub closed spec fn spec_bind_group(&self) -> Option<BindGroupLayoutBuilder> {
        self.bind_group
    }

    /// Start declaring a pipeline layout.
    pub fn layout() -> (r: PipelineLayoutBuilder)
        ensures
            r.spec_label() is None,
            r.spec_bind_group() is None,
    {
        PipelineLayoutBuilder { label: None, bind_group: None }
    }

    /// Label the layout.
    pub fn label(self, label: &str) -> (r: PipelineLayoutBuilder)
        ensures
            r.spec_label() matches Some(s) && s@ == label@,
            r.spec_bind_group() == self.spec_bind_group(),
    {
        PipelineLayoutBuilder { label: Some(label.to_string()), ..self }
    }

    /// Attach the binding group.
    pub fn bind_group(self, bind_group: BindGroupLayoutBuilder) -> (r: PipelineLayoutBuilder)
        ensures
            r.spec_label() == self.spec_label(),
            r.spec_bind_group() == Some(bind_group),
    {
        PipelineLayoutBuilder { bind_group: Some(bind_group), ..self }
    }

    /// Build the layout, building the binding group if one was attached.
    pub fn build(self) -> (r: PipelineLayout)
        requires
            self.spec_bind_group() matches Some(g) ==> g.spec_bindings().len() <= u32::MAX,
        ensures
            r.label == self.spec_label(),
            r.binding_group is Some <==> self.spec_bind_group() is Some,
    {
        let binding_group = match self.bind_group {
            Option::Some(builder) => Some(builder.build()),
            Option::None => None,
        };
        PipelineLayout { label: self.label, binding_group }
    }
}

} // verus!
