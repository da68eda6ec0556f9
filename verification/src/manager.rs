//! Resource manager: the registry tying together the handle arena, the
//! lifetime cache and the lookup maps (by generated uuid, by name, by source
//! path), parameterized over a user-supplied handler that materializes and
//! destroys the actual resources.
//!
//! Checked-out references are explicit tokens: `create` and the lookup
//! functions activate the resource and hand back a [`ResourceHandle`];
//! `clone_handle` takes another reference and `release` gives one back.
//! Forgetting to release a token leaks the reference, exactly as holding a
//! checked-out reference forever would.

use vstd::prelude::*;

verus! {

use std::collections::HashMap;
use crate::arena::ElementHandle;
use crate::arena::SparseSet;
use crate::ids::fresh_uuid;
use crate::lifetime::ResourceLifetime;
use crate::lifetime::ResourceReferenceManager;
use crate::lifetime::upkeep_spec;

broadcast use vstd::string::to_string_from_display_ensures_for_str;

/// How many resources one `ResourceManager::upkeep` call may destroy.
pub const RESOURCES_TO_DESTROY_PER_UPKEEP: usize = 10;

/// Identity and policy of one logical resource, created once per resource.
#[derive(Debug, Clone)]
pub struct ResourceMetaData {
    pub uuid: u128,
    pub lifetime: ResourceLifetime,
    pub name: Option<String>,
    pub path: Option<String>,
}

impl ResourceMetaData {
    /// Anonymous metadata with a freshly generated uuid.
    pub fn new(lifetime: ResourceLifetime) -> (r: ResourceMetaData)
        ensures
            r.lifetime == lifetime,
            r.name is None,
            r.path is None,
    {
        ResourceMetaData { uuid: fresh_uuid(), lifetime, name: None, path: None }
    }

    /// Named metadata with a freshly generated uuid.
    pub fn new_with_name(name: &str, lifetime: ResourceLifetime) -> (r: ResourceMetaData)
        ensures
            r.lifetime == lifetime,
            r.name matches Some(s) && s@ == name@,
            r.path is None,
    {
        ResourceMetaData { uuid: fresh_uuid(), lifetime, name: Some(name.to_string()), path: None }
    }
}

/// Materializes and destroys the actual resource objects; implemented by the
/// user of the manager (for example, by the graphics backend's texture
/// layer).
pub trait ResourceHandler<R> {
    fn create(&mut self, meta_data: &ResourceMetaData) -> R;

    fn destroy(&mut self, resource: R);
}

/// A checked-out reference to a resource. Each live token accounts for one
/// reference in the lifetime cache; give it back with
/// [`ResourceManager::release`].
#[derive(Debug)]
pub struct ResourceHandle<R> {
    resource_handle: ElementHandle,
    _resource_phantom: core::marker::PhantomData<R>,
}

impl<R> ResourceHandle<R> {
    /// The arena handle this token refers to.
    pub closed spec fn spec_handle(&self) -> int {
        self.resource_handle.0 as int
    }

    /// The arena handle this token refers to.
    pub fn element_handle(&self) -> (r: ElementHandle)
        ensures
            r.0 as int == self.spec_handle(),
    {
        self.resource_handle
    }
}

/// The handle a name (or path) resolves to: the last binding wins.
pub open spec fn uuid_lookup(names: Seq<(Seq<char>, u128)>, s: Seq<char>) -> Option<u128>
    decreases names.len(),
{
    if names.len() == 0 {
        Option::None
    } else if names.last().0 == s {
        Option::Some(names.last().1)
    } else {
        uuid_lookup(names.drop_last(), s)
    }
}

/// `m` with the keys of `s` removed, in order.
pub open spec fn remove_keys<V>(m: Map<int, V>, s: Seq<int>) -> Map<int, V>
    decreases s.len(),
{
    if s.len() == 0 {
        m
    } else {
        remove_keys(m, s.drop_last()).remove(s.last())
    }
}

/// Removing keys removes exactly the keys that occur in the sequence.
pub proof fn lemma_remove_keys_dom<V>(m: Map<int, V>, s: Seq<int>)
    ensures
        forall|x: int| #[trigger]
            remove_keys(m, s).dom().contains(x) <==> (m.dom().contains(x) && !s.contains(x)),
    decreases s.len(),
{
    if s.len() > 0 {
        lemma_remove_keys_dom(m, s.drop_last());
        assert forall|x: int| #[trigger]
            remove_keys(m, s).dom().contains(x) <==> (m.dom().contains(x) && !s.contains(x)) by {
            let prev = remove_keys(m, s.drop_last());
            assert(remove_keys(m, s) == prev.remove(s.last()));
            assert(prev.dom().contains(x) <==> (m.dom().contains(x) && !s.drop_last().contains(
                x,
            )));
            if s.contains(x) {
                let j = choose|j: int| 0 <= j < s.len() && s[j] == x;
                if j < s.len() - 1 {
                    assert(s.drop_last()[j] == x);
                    assert(s.drop_last().contains(x));
                }
            }
            if s.drop_last().contains(x) {
                let j = choose|j: int| 0 <= j < s.drop_last().len() && s.drop_last()[j] == x;
                assert(s[j] == x);
            }
            if x == s.last() {
                assert(s[s.len() - 1] == x);
            }
        }
    }
}

/// Search `entries` for `key`, later bindings shadowing earlier ones.
fn lookup_binding(entries: &Vec<(String, u128)>, key: &String) -> (r: Option<u128>)
    ensures
        r == uuid_lookup(
            entries@.map_values(|p: (String, u128)| (p.0@, p.1)),
            key@,
        ),
{
    let ghost names = entries@.map_values(|p: (String, u128)| (p.0@, p.1));
    let mut i = entries.len();
    proof {
        assert(names.take(i as int) =~= names);
    }
    loop
        invariant
            i <= entries@.len(),
            names == entries@.map_values(|p: (String, u128)| (p.0@, p.1)),
            uuid_lookup(names, key@) == uuid_lookup(names.take(i as int), key@),
        ensures
            i <= entries@.len(),
            match uuid_lookup(names, key@) {
                Option::Some(u) => i > 0 && names[i - 1].0 == key@ && names[i - 1].1 == u,
                Option::None => i == 0,
            },
        decreases i,
    {
        if i == 0 {
            proof {
                assert(names.take(0) =~= Seq::<(Seq<char>, u128)>::empty());
            }
            break;
        }
        let entry = &entries[i - 1];
        proof {
            assert(names.take(i as int).drop_last() =~= names.take(i - 1));
            assert(names.take(i as int).last() == names[i - 1]);
        }
        if entry.0 == *key {
            break;
        }
        i = i - 1;
    }
    if i == 0 {
        None
    } else {
        Some(entries[i - 1].1)
    }
}

/// Registry of resources of type `R`, materialized through handler `H`.
pub struct ResourceManager<R, H: ResourceHandler<R>> {
    last_resource_id: usize,
    resource_id_map: HashMap<u128, ElementHandle>,
    name_id_map: Vec<(String, u128)>,
    path_id_map: Vec<(String, u128)>,
    resources: SparseSet<R>,
    reference_manager: ResourceReferenceManager,
    pub handler: H,
}

impl<R, H: ResourceHandler<R>> ResourceManager<R, H> {
    /// The stored resources, by arena handle.
    pub closed spec fn stored(&self) -> Map<int, R> {
        self.resources@
    }

    /// The lifetime cache.
    pub closed spec fn cache(&self) -> ResourceReferenceManager {
        self.reference_manager
    }

    /// uuid -> arena handle.
    pub closed spec fn id_map(&self) -> Map<u128, int> {
        Map::new(
            |u: u128| self.resource_id_map@.dom().contains(u),
            |u: u128| self.resource_id_map@[u].0 as int,
        )
    }

    /// The name bindings, in the order they were added.
    pub closed spec fn names(&self) -> Seq<(Seq<char>, u128)> {
        self.name_id_map@.map_values(|p: (String, u128)| (p.0@, p.1))
    }

    /// The path bindings, in the order they were added.
    pub closed spec fn paths(&self) -> Seq<(Seq<char>, u128)> {
        self.path_id_map@.map_values(|p: (String, u128)| (p.0@, p.1))
    }

    /// How many resource ids have been handed out.
    pub closed spec fn ids_used(&self) -> int {
        self.last_resource_id as int
    }

    /// Maximum resource count, fixed at construction.
    pub closed spec fn capacity(&self) -> int {
        self.resources.capacity()
    }

    pub closed spec fn inv(&self) -> bool {
        &&& self.resources.inv()
        &&& self.reference_manager.inv()
        &&& self.reference_manager.capacity() == self.resources.capacity()
        &&& self.resources.capacity() <= usize::MAX
        &&& self.last_resource_id <= self.resources.capacity()
        &&& forall|h: int| #[trigger]
            self.stored().dom().contains(h) ==> 1 <= h <= self.last_resource_id
        &&& forall|h: int| #[trigger]
            self.cache().refs().dom().contains(h) ==> 1 <= h <= self.last_resource_id
    }

    /// A token for `uuid` can be checked out: the uuid is known, its resource
    /// is still registered, and its reference count has room to grow.
    pub open spec fn lookup_ok(&self, uuid: u128) -> bool {
        &&& self.id_map().dom().contains(uuid)
        &&& self.cache().registered(self.id_map()[uuid])
        &&& self.cache().count(self.id_map()[uuid]) < u64::MAX
    }

    /// Create a manager that can hold at most `max_resources` resources,
    /// destroying them through `handler`.
    pub fn new(max_resources: usize, handler: H) -> (m: ResourceManager<R, H>)
        requires
            max_resources < usize::MAX,
        ensures
            m.inv(),
            m.capacity() == max_resources,
            m.ids_used() == 0,
            m.stored() == Map::<int, R>::empty(),
            m.cache().refs() =~= Map::<int, (int, ResourceLifetime)>::empty(),
            m.cache().queue() == Seq::<(int, Option<u64>)>::empty(),
            m.cache().pending() == Seq::<int>::empty(),
            m.cache().spec_quota() == RESOURCES_TO_DESTROY_PER_UPKEEP,
            m.id_map() =~= Map::<u128, int>::empty(),
            m.names() == Seq::<(Seq<char>, u128)>::empty(),
            m.paths() == Seq::<(Seq<char>, u128)>::empty(),
    {
        let m = ResourceManager {
            last_resource_id: 0,
            resource_id_map: HashMap::new(),
            name_id_map: Vec::new(),
            path_id_map: Vec::new(),
            resources: SparseSet::new(max_resources),
            reference_manager: ResourceReferenceManager::new(
                max_resources,
                RESOURCES_TO_DESTROY_PER_UPKEEP,
            ),
            handler,
        };
        proof {
            assert(m.names() =~= Seq::<(Seq<char>, u128)>::empty());
            assert(m.paths() =~= Seq::<(Seq<char>, u128)>::empty());
        }
        m
    }

    /// Register a new resource for `meta_resource`: materialize it through
    /// the handler, store it under a fresh arena handle, bind the uuid (and
    /// name and path, when given; later bindings shadow earlier ones), and
    /// check out a first reference to it.
    pub fn create(&mut self, meta_resource: &ResourceMetaData) -> (r: ResourceHandle<R>)
        requires
            old(self).inv(),
            old(self).ids_used() + 1 < old(self).capacity(),
        ensures
            final(self).inv(),
            final(self).capacity() == old(self).capacity(),
            final(self).ids_used() == old(self).ids_used() + 1,
            r.spec_handle() == old(self).ids_used() + 1,
            !old(self).stored().dom().contains(r.spec_handle()),
            !old(self).cache().registered(r.spec_handle()),
            final(self).stored().dom() =~= old(self).stored().dom().insert(r.spec_handle()),
            forall|g: int| #[trigger]
                old(self).stored().dom().contains(g) ==> final(self).stored()[g] == old(
                    self,
                ).stored()[g],
            final(self).cache().refs() =~= old(self).cache().refs().insert(
                r.spec_handle(),
                (1int, meta_resource.lifetime),
            ),
            final(self).cache().queue() == old(self).cache().queue(),
            final(self).cache().pending() == old(self).cache().pending(),
            final(self).cache().spec_quota() == old(self).cache().spec_quota(),
            final(self).id_map() =~= old(self).id_map().insert(
                meta_resource.uuid,
                r.spec_handle(),
            ),
            final(self).names() == match meta_resource.name {
                Option::Some(n) => old(self).names().push((n@, meta_resource.uuid)),
                Option::None => old(self).names(),
            },
            final(self).paths() == match meta_resource.path {
                Option::Some(p) => old(self).paths().push((p@, meta_resource.uuid)),
                Option::None => old(self).paths(),
            },
    {
        self.last_resource_id = self.last_resource_id + 1;
        let resource_id = ElementHandle(self.last_resource_id);
        self.resource_id_map.insert(meta_resource.uuid, resource_id);
        let object = self.handler.create(meta_resource);
        proof {
            assert(!self.stored().dom().contains(resource_id.0 as int)) by {
                if self.stored().dom().contains(resource_id.0 as int) {
                    assert(old(self).stored().dom().contains(resource_id.0 as int));
                }
            }
        }
        self.resources.push(resource_id, object);

        if let Some(name) = &meta_resource.name {
            let ghost names0 = self.names();
            self.name_id_map.push((name.clone(), meta_resource.uuid));
            proof {
                assert(self.names() =~= names0.push(
                    (self.name_id_map@.last().0@, meta_resource.uuid),
                ));
            }
        }

        if let Some(path) = &meta_resource.path {
            let ghost paths0 = self.paths();
            self.path_id_map.push((path.clone(), meta_resource.uuid));
            proof {
                assert(self.paths() =~= paths0.push(
                    (self.path_id_map@.last().0@, meta_resource.uuid),
                ));
            }
        }

        proof {
            assert(!self.cache().refs().dom().contains(resource_id.0 as int)) by {
                if self.cache().refs().dom().contains(resource_id.0 as int) {
                    assert(old(self).cache().refs().dom().contains(resource_id.0 as int));
                }
            }
        }
        let ghost cache_pre = old(self).cache();
        self.reference_manager.create(resource_id, meta_resource.lifetime);
        proof {
            let h = resource_id.0 as int;
            let target = cache_pre.refs().insert(h, (1int, meta_resource.lifetime));
            assert forall|g: int| #[trigger] self.cache().refs().dom().contains(g)
                == target.dom().contains(g) && (target.dom().contains(g)
                ==> self.cache().refs()[g] == target[g]) by {
                if g != h {
                    assert(self.cache().refs().dom().contains(g) == cache_pre.refs().dom().contains(
                        g,
                    ));
                    if cache_pre.refs().dom().contains(g) {
                        assert(self.cache().refs()[g] == cache_pre.refs()[g]);
                    }
                } else {
                    assert(self.cache().refs().dom().contains(h));
                    assert(self.cache().refs()[h] == (1int, meta_resource.lifetime));
                }
            }
            assert(self.cache().refs() =~= target);
            assert forall|g: int| #[trigger] self.cache().refs().dom().contains(g) implies 1 <= g
                <= self.last_resource_id by {
                if g != resource_id.0 as int {
                    assert(old(self).cache().refs().dom().contains(g));
                }
            }
            assert forall|g: int| #[trigger] self.stored().dom().contains(g) implies 1 <= g
                <= self.last_resource_id by {
                if g != resource_id.0 as int {
                    assert(old(self).stored().dom().contains(g));
                }
            }
        }
        ResourceHandle { resource_handle: resource_id, _resource_phantom: core::marker::PhantomData }
    }

    /// Check out a reference to the resource bound to `uuid`. `None` when the
    /// uuid is unknown, the resource was already destroyed, or its reference
    /// count cannot grow.
    pub fn get_from_uuid(&mut self, uuid: u128) -> (r: Option<ResourceHandle<R>>)
        requires
            old(self).inv(),
        ensures
            final(self).inv(),
            r is Some <==> old(self).lookup_ok(uuid),
            match r {
                Option::Some(token) => {
                    &&& token.spec_handle() == old(self).id_map()[uuid]
                    &&& final(self).cache().refs() =~= old(self).cache().refs().insert(
                        token.spec_handle(),
                        (
                            old(self).cache().count(token.spec_handle()) + 1,
                            old(self).cache().lifetime_of(token.spec_handle()),
                        ),
                    )
                },
                Option::None => final(self).cache().refs() == old(self).cache().refs(),
            },
            final(self).capacity() == old(self).capacity(),
            final(self).ids_used() == old(self).ids_used(),
            final(self).stored() == old(self).stored(),
            final(self).id_map() == old(self).id_map(),
            final(self).names() == old(self).names(),
            final(self).paths() == old(self).paths(),
            final(self).cache().queue() == old(self).cache().queue(),
            final(self).cache().pending() == old(self).cache().pending(),
            final(self).cache().spec_quota() == old(self).cache().spec_quota(),
    {
        let handle = match self.resource_id_map.get(&uuid) {
            Option::Some(h) => *h,
            Option::None => {
                return None;
            },
        };
        match self.reference_manager.reference_count(handle) {
            Option::Some(c) => {
                if c == u64::MAX {
                    return None;
                }
            },
            Option::None => {
                return None;
            },
        }
        self.reference_manager.activate(handle);
        proof {
            assert forall|g: int| #[trigger] self.cache().refs().dom().contains(g) implies 1 <= g
                <= self.last_resource_id by {
                assert(old(self).cache().refs().dom().contains(g));
            }
            assert(self.stored() == old(self).stored());
            assert forall|g: int| #[trigger] self.stored().dom().contains(g) implies 1 <= g
                <= self.last_resource_id by {
                assert(old(self).stored().dom().contains(g));
            }
        }
        Some(
            ResourceHandle {
                resource_handle: handle,
                _resource_phantom: core::marker::PhantomData,
            },
        )
    }

    /// Check out a reference to the resource of `resource`'s uuid.
    pub fn get(&mut self, resource: &ResourceMetaData) -> (r: Option<ResourceHandle<R>>)
        requires
            old(self).inv(),
        ensures
            final(self).inv(),
            r is Some <==> old(self).lookup_ok(resource.uuid),
            match r {
                Option::Some(token) => token.spec_handle() == old(self).id_map()[resource.uuid]
                    && final(self).cache().refs() =~= old(self).cache().refs().insert(
                    token.spec_handle(),
                    (
                        old(self).cache().count(token.spec_handle()) + 1,
                        old(self).cache().lifetime_of(token.spec_handle()),
                    ),
                ),
                Option::None => final(self).cache().refs() == old(self).cache().refs(),
            },
            final(self).capacity() == old(self).capacity(),
            final(self).ids_used() == old(self).ids_used(),
            final(self).stored() == old(self).stored(),
            final(self).id_map() == old(self).id_map(),
            final(self).names() == old(self).names(),
            final(self).paths() == old(self).paths(),
            final(self).cache().queue() == old(self).cache().queue(),
            final(self).cache().pending() == old(self).cache().pending(),
            final(self).cache().spec_quota() == old(self).cache().spec_quota(),
    {
        self.get_from_uuid(resource.uuid)
    }

    /// Check out a reference to the resource registered under `name`;
    /// `None` when no live binding resolves.
    pub fn get_from_name(&mut self, name: &String) -> (r: Option<ResourceHandle<R>>)
        requires
            old(self).inv(),
        ensures
            final(self).inv(),
            match uuid_lookup(old(self).names(), name@) {
                Option::Some(uuid) => {
                    &&& (r is Some <==> old(self).lookup_ok(uuid))
                    &&& (r matches Some(token) ==> token.spec_handle() == old(self).id_map()[uuid]
                        && final(self).cache().refs() =~= old(self).cache().refs().insert(
                        token.spec_handle(),
                        (
                            old(self).cache().count(token.spec_handle()) + 1,
                            old(self).cache().lifetime_of(token.spec_handle()),
                        ),
                    ))
                },
                Option::None => r is None,
            },
            r is None ==> final(self).cache().refs() == old(self).cache().refs(),
            final(self).capacity() == old(self).capacity(),
            final(self).ids_used() == old(self).ids_used(),
            final(self).stored() == old(self).stored(),
            final(self).id_map() == old(self).id_map(),
            final(self).names() == old(self).names(),
            final(self).paths() == old(self).paths(),
            final(self).cache().queue() == old(self).cache().queue(),
            final(self).cache().pending() == old(self).cache().pending(),
            final(self).cache().spec_quota() == old(self).cache().spec_quota(),
    {
        match lookup_binding(&self.name_id_map, name) {
            Option::Some(uuid) => self.get_from_uuid(uuid),
            Option::None => None,
        }
    }

    /// Check out a reference to the resource registered under `path`;
    /// `None` when no live binding resolves.
    pub fn get_from_path(&mut self, path: &String) -> (r: Option<ResourceHandle<R>>)
        requires
            old(self).inv(),
        ensures
            final(self).inv(),
            match uuid_lookup(old(self).paths(), path@) {
                Option::Some(uuid) => {
                    &&& (r is Some <==> old(self).lookup_ok(uuid))
                    &&& (r matches Some(token) ==> token.spec_handle() == old(self).id_map()[uuid]
                        && final(self).cache().refs() =~= old(self).cache().refs().insert(
                        token.spec_handle(),
                        (
                            old(self).cache().count(token.spec_handle()) + 1,
                            old(self).cache().lifetime_of(token.spec_handle()),
                        ),
                    ))
                },
                Option::None => r is None,
            },
            r is None ==> final(self).cache().refs() == old(self).cache().refs(),
            final(self).capacity() == old(self).capacity(),
            final(self).ids_used() == old(self).ids_used(),
            final(self).stored() == old(self).stored(),
            final(self).id_map() == old(self).id_map(),
            final(self).names() == old(self).names(),
            final(self).paths() == old(self).paths(),
            final(self).cache().queue() == old(self).cache().queue(),
            final(self).cache().pending() == old(self).cache().pending(),
            final(self).cache().spec_quota() == old(self).cache().spec_quota(),
    {
        match lookup_binding(&self.path_id_map, path) {
            Option::Some(uuid) => self.get_from_uuid(uuid),
            Option::None => None,
        }
    }

    /// Take another reference to the resource `handle` refers to. `None`
    /// when the resource was already destroyed or its count cannot grow.
    pub fn clone_handle(&mut self, handle: &ResourceHandle<R>) -> (r: Option<ResourceHandle<R>>)
        requires
            old(self).inv(),
        ensures
            final(self).inv(),
            r is Some <==> (old(self).cache().registered(handle.spec_handle()) && old(
                self,
            ).cache().count(handle.spec_handle()) < u64::MAX),
            match r {
                Option::Some(token) => token.spec_handle() == handle.spec_handle() && final(self).cache().refs() =~= old(self).cache().refs().insert(
                    handle.spec_handle(),
                    (
                        old(self).cache().count(handle.spec_handle()) + 1,
                        old(self).cache().lifetime_of(handle.spec_handle()),
                    ),
                ),
                Option::None => final(self).cache().refs() == old(self).cache().refs(),
            },
            final(self).capacity() == old(self).capacity(),
            final(self).ids_used() == old(self).ids_used(),
            final(self).stored() == old(self).stored(),
            final(self).id_map() == old(self).id_map(),
            final(self).names() == old(self).names(),
            final(self).paths() == old(self).paths(),
            final(self).cache().queue() == old(self).cache().queue(),
            final(self).cache().pending() == old(self).cache().pending(),
            final(self).cache().spec_quota() == old(self).cache().spec_quota(),
    {
        let element = handle.element_handle();
        match self.reference_manager.reference_count(element) {
            Option::Some(c) => {
                if c == u64::MAX {
                    return None;
                }
            },
            Option::None => {
                return None;
            },
        }
        self.reference_manager.activate(element);
        proof {
            assert forall|g: int| #[trigger] self.cache().refs().dom().contains(g) implies 1 <= g
                <= self.last_resource_id by {
                assert(old(self).cache().refs().dom().contains(g));
            }
            assert(self.stored() == old(self).stored());
            assert forall|g: int| #[trigger] self.stored().dom().contains(g) implies 1 <= g
                <= self.last_resource_id by {
                assert(old(self).stored().dom().contains(g));
            }
        }
        Some(
            ResourceHandle {
                resource_handle: element,
                _resource_phantom: core::marker::PhantomData,
            },
        )
    }

    /// Give back a checked-out reference at time `now`. When the last
    /// reference goes, the resource is queued for eviction after its
    /// lifetime class's delay. Releasing a token whose resource was already
    /// destroyed is a no-op.
    pub fn release(&mut self, handle: ResourceHandle<R>, now: u64)
        requires
            old(self).inv(),
        ensures
            final(self).inv(),
            old(self).cache().registered(handle.spec_handle()) && old(self).cache().count(
                handle.spec_handle(),
            ) >= 1 ==> {
                &&& final(self).cache().refs() =~= old(self).cache().refs().insert(
                    handle.spec_handle(),
                    (
                        old(self).cache().count(handle.spec_handle()) - 1,
                        old(self).cache().lifetime_of(handle.spec_handle()),
                    ),
                )
                &&& (old(self).cache().count(handle.spec_handle()) == 1 ==> exists|i: int|
                    0 <= i <= old(self).cache().queue().len() && final(self).cache().queue() == old(
                        self,
                    ).cache().queue().insert(
                        i,
                        (
                            handle.spec_handle(),
                            crate::lifetime::spec_deadline(
                                now,
                                old(self).cache().lifetime_of(handle.spec_handle()),
                            ),
                        ),
                    ))
                &&& (old(self).cache().count(handle.spec_handle()) != 1 ==> final(self).cache().queue() == old(self).cache().queue())
            },
            !(old(self).cache().registered(handle.spec_handle()) && old(self).cache().count(
                handle.spec_handle(),
            ) >= 1) ==> final(self).cache().refs() == old(self).cache().refs() && final(self).cache().queue() == old(self).cache().queue(),
            final(self).capacity() == old(self).capacity(),
            final(self).ids_used() == old(self).ids_used(),
            final(self).stored() == old(self).stored(),
            final(self).id_map() == old(self).id_map(),
            final(self).names() == old(self).names(),
            final(self).paths() == old(self).paths(),
            final(self).cache().pending() == old(self).cache().pending(),
            final(self).cache().spec_quota() == old(self).cache().spec_quota(),
    {
        let element = handle.element_handle();
        match self.reference_manager.reference_count(element) {
            Option::Some(c) => {
                if c >= 1 {
                    self.reference_manager.deactivate(element, now);
                    proof {
                        assert forall|g: int| #[trigger] self.cache().refs().dom().contains(
                            g,
                        ) implies 1 <= g <= self.last_resource_id by {
                            assert(old(self).cache().refs().dom().contains(g));
                        }
                        assert(self.stored() == old(self).stored());
                        assert forall|g: int| #[trigger] self.stored().dom().contains(
                            g,
                        ) implies 1 <= g <= self.last_resource_id by {
                            assert(old(self).stored().dom().contains(g));
                        }
                    }
                }
            },
            Option::None => {},
        }
    }

    /// The resource object `handle` refers to, or `None` when it was already
    /// destroyed.
    pub fn resource(&self, handle: &ResourceHandle<R>) -> (r: Option<&R>)
        requires
            self.inv(),
        ensures
            match r {
                Option::Some(v) => self.stored().dom().contains(handle.spec_handle()) && *v
                    == self.stored()[handle.spec_handle()],
                Option::None => !self.stored().dom().contains(handle.spec_handle()),
            },
    {
        self.resources.get(handle.element_handle())
    }

    /// Run one upkeep tick at time `now`: collect at most the per-call quota
    /// of resources whose eviction deadline has elapsed and which were not
    /// reactivated, remove them from storage, and destroy them through the
    /// handler.
    pub fn upkeep(&mut self, now: u64)
        requires
            old(self).inv(),
        ensures
            final(self).inv(),
            ({
                let (state, taken) = upkeep_spec(
                    old(self).cache().refs(),
                    old(self).cache().queue(),
                    old(self).cache().pending(),
                    now,
                    old(self).cache().spec_quota(),
                );
                &&& final(self).cache().refs() =~= state.0
                &&& final(self).cache().queue() == state.1
                &&& final(self).cache().pending() == state.2
                &&& final(self).stored() =~= remove_keys(old(self).stored(), taken)
            }),
            final(self).capacity() == old(self).capacity(),
            final(self).ids_used() == old(self).ids_used(),
            final(self).id_map() == old(self).id_map(),
            final(self).names() == old(self).names(),
            final(self).paths() == old(self).paths(),
            final(self).cache().spec_quota() == old(self).cache().spec_quota(),
    {
        proof {
            crate::lifetime::lemma_drain_submap(
                old(self).cache().refs(),
                old(self).cache().queue(),
                old(self).cache().pending(),
                now,
            );
        }
        let destroyed = self.reference_manager.upkeep(now);
        let ghost taken = destroyed@.map_values(|e: ElementHandle| e.0 as int);
        let ghost cache_mid = self.reference_manager;
        proof {
            assert forall|h: int| #[trigger] self.cache().refs().dom().contains(h) implies 1 <= h
                <= self.last_resource_id by {
                assert(old(self).cache().refs().dom().contains(h));
            }
            assert(self.stored() =~= remove_keys(old(self).stored(), taken.take(0)));
        }
        let mut i: usize = 0;
        let n = destroyed.len();
        while i < n
            invariant
                i <= n,
                n == destroyed@.len(),
                taken == destroyed@.map_values(|e: ElementHandle| e.0 as int),
                self.resources.inv(),
                self.reference_manager == cache_mid,
                cache_mid.inv(),
                cache_mid.capacity() == self.resources.capacity(),
                self.resources.capacity() == old(self).capacity(),
                self.last_resource_id == old(self).last_resource_id,
                self.last_resource_id <= self.resources.capacity(),
                self.resource_id_map@ == old(self).resource_id_map@,
                self.name_id_map@ == old(self).name_id_map@,
                self.path_id_map@ == old(self).path_id_map@,
                forall|h: int| #[trigger]
                    self.stored().dom().contains(h) ==> 1 <= h <= self.last_resource_id,
                forall|h: int| #[trigger]
                    cache_mid.refs().dom().contains(h) ==> 1 <= h <= self.last_resource_id,
                self.stored() =~= remove_keys(old(self).stored(), taken.take(i as int)),
            decreases n - i,
        {
            let ghost pre_stored = self.stored();
            let h = destroyed[i];
            let (_, removed) = self.resources.remove(h);
            if let Some(object) = removed {
                self.handler.destroy(object);
            }
            proof {
                assert(taken.take(i + 1).drop_last() =~= taken.take(i as int));
                assert(taken.take(i + 1).last() == taken[i as int]);
                assert(self.stored() =~= pre_stored.remove(h.0 as int));
                assert(self.stored() =~= remove_keys(old(self).stored(), taken.take(i + 1)));
            }
            i = i + 1;
        }
        proof {
            assert(taken.take(n as int) =~= taken);
        }
    }

    /// Tear the manager down: destroy every still-stored resource through
    /// the handler, whatever its lifetime class; `Forever` resources are
    /// destroyed only here. The lookup maps and the lifetime cache keep
    /// their (now stale) entries; the manager is meant to be dropped next.
    pub fn teardown(&mut self)
        requires
            old(self).inv(),
        ensures
            final(self).inv(),
            final(self).stored() =~= Map::<int, R>::empty(),
            final(self).capacity() == old(self).capacity(),
            final(self).ids_used() == old(self).ids_used(),
            final(self).cache() == old(self).cache(),
            final(self).id_map() == old(self).id_map(),
            final(self).names() == old(self).names(),
            final(self).paths() == old(self).paths(),
    {
        let handles = self.resources.get_all_elements();
        let ghost taken = handles@.map_values(|e: ElementHandle| e.0 as int);
        proof {
            assert(self.stored() =~= remove_keys(old(self).stored(), taken.take(0)));
        }
        let n = handles.len();
        let mut i: usize = 0;
        while i < n
            invariant
                i <= n,
                n == handles@.len(),
                taken == handles@.map_values(|e: ElementHandle| e.0 as int),
                forall|h: ElementHandle| #[trigger]
                    handles@.contains(h) <==> old(self).stored().dom().contains(h.0 as int),
                self.resources.inv(),
                self.resources.capacity() == old(self).capacity(),
                self.reference_manager == old(self).reference_manager,
                self.last_resource_id == old(self).last_resource_id,
                self.last_resource_id <= self.resources.capacity(),
                self.resource_id_map@ == old(self).resource_id_map@,
                self.name_id_map@ == old(self).name_id_map@,
                self.path_id_map@ == old(self).path_id_map@,
                forall|h: int| #[trigger]
                    self.stored().dom().contains(h) ==> 1 <= h <= self.last_resource_id,
                self.stored() =~= remove_keys(old(self).stored(), taken.take(i as int)),
            decreases n - i,
        {
            let ghost pre_stored = self.stored();
            let h = handles[i];
            let (_, removed) = self.resources.remove(h);
            if let Some(object) = removed {
                self.handler.destroy(object);
            }
            proof {
                assert(taken.take(i + 1).drop_last() =~= taken.take(i as int));
                assert(taken.take(i + 1).last() == taken[i as int]);
                assert(self.stored() =~= pre_stored.remove(h.0 as int));
                assert(self.stored() =~= remove_keys(old(self).stored(), taken.take(i + 1)));
            }
            i = i + 1;
        }
        proof {
            assert(taken.take(n as int) =~= taken);
            lemma_remove_keys_dom(old(self).stored(), taken);
            assert forall|x: int| !(#[trigger] self.stored().dom().contains(x)) by {
                if old(self).stored().dom().contains(x) {
                    let h = ElementHandle(x as usize);
                    assert(handles@.contains(h));
                    let j = choose|j: int| 0 <= j < handles@.len() && handles@[j] == h;
                    assert(taken[j] == x);
                    assert(taken.contains(x));
                }
            }
            assert(self.stored() =~= Map::<int, R>::empty());
            assert forall|h: int| #[trigger] self.cache().refs().dom().contains(h) implies 1 <= h
                <= self.last_resource_id by {
                assert(old(self).cache().refs().dom().contains(h));
            }
        }
    }
}

} // verus!
