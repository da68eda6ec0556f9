//! Resource identity for the frame graph: a resource is either Persistent,
//! carrying a stable identity (and optionally a name) so it can be referenced
//! across passes and frames, or Dynamic, an anonymous frame-local resource
//! allocated fresh during graph building.

use vstd::prelude::*;

verus! {

use crate::ids::fresh_uuid;

broadcast use vstd::string::to_string_from_display_ensures_for_str;

/// Stable identity of a persistent resource: a generated global id plus an
/// optional human-readable name.
#[derive(Debug, Clone)]
pub struct Id {
    pub global_id: u128,
    pub string_id: Option<String>,
}

impl Id {
    /// A fresh anonymous identity.
    pub fn new() -> (r: Id)
        ensures
            r.string_id is None,
    {
        Id { global_id: fresh_uuid(), string_id: None }
    }

    /// A fresh identity carrying `name`.
    pub fn new_with_name(name: &str) -> (r: Id)
        ensures
            r.string_id matches Some(s) && s@ == name@,
    {
        Id { global_id: fresh_uuid(), string_id: Some(name.to_string()) }
    }
}

/// A frame-graph resource: persistent with a stable identity, or dynamic and
/// frame-local.
#[derive(Debug, Clone)]
pub enum Resource {
    Persistent(Id),
    Dynamic(u128),
}

impl Resource {
    /// A persistent resource named `id`.
    pub fn persistent_with_name(id: &str) -> (r: Resource)
        ensures
            r matches Resource::Persistent(i) && i.string_id matches Some(s) && s@ == id@,
    {
        Resource::Persistent(Id::new_with_name(id))
    }

    /// An anonymous persistent resource.
    pub fn persistent_without_name() -> (r: Resource)
        ensures
            r matches Resource::Persistent(i) && i.string_id is None,
    {
        Resource::Persistent(Id::new())
    }

    /// Assert that this resource is persistent; calling it on a dynamic
    /// resource is a programmer error, so the precondition excludes it.
    pub fn require_persistent(&self)
        requires
            self is Persistent,
    {
    }

    /// Assert that this resource is dynamic; calling it on a persistent
    /// resource is a programmer error, so the precondition excludes it.
    pub fn require_dynamic(&self)
        requires
            self is Dynamic,
    {
    }

    /// The same resource under a persistent identity: a dynamic resource is
    /// promoted to an unnamed persistent one keeping its generated id.
    pub fn into_persistent(&self) -> (r: Resource)
        ensures
            r is Persistent,
            match *self {
                Resource::Persistent(ref id) => r->Persistent_0.global_id == id.global_id
                    && r->Persistent_0.string_id == id.string_id,
                Resource::Dynamic(u) => r->Persistent_0.global_id == u
                    && r->Persistent_0.string_id is None,
            },
    {
        match self {
            Resource::Persistent(id) => Resource::Persistent(
                Id { global_id: id.global_id, string_id: id.string_id.clone() },
            ),
            Resource::Dynamic(u) => Resource::Persistent(
                Id { global_id: *u, string_id: None },
            ),
        }
    }
}

} // verus!
