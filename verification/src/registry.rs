//! Named registry: a handle-keyed map with lookup by generated handle and by
//! user-supplied name, used for every kind of long-lived graph object
//! (shaders, pipelines, passes, resources).
//!
//! Handles are drawn from a per-registry counter, so a registry never hands
//! out the same handle twice. Name collisions are last-write-wins: a later
//! `add` under an existing name shadows the earlier entry for name lookup.

use vstd::prelude::*;

verus! {

use std::collections::HashMap;

/// Opaque identifier issued by a [`HandleMap`], unique within its registry
/// for the registry's whole lifetime.
#[derive(Debug, Copy, Clone, PartialEq, Eq, Structural, Hash)]
pub struct Handle(pub u64);

/// The handle a name resolves to: the last binding of `s` in `names` wins.
pub open spec fn name_lookup(names: Seq<(Seq<char>, u64)>, s: Seq<char>) -> Option<u64>
    decreases names.len(),
{
    if names.len() == 0 {
        Option::None
    } else if names.last().0 == s {
        Option::Some(names.last().1)
    } else {
        name_lookup(names.drop_last(), s)
    }
}

/// Registry of objects of type `T`, keyed by generated [`Handle`] and
/// optionally by a string name.
pub struct HandleMap<T> {
    next_id: u64,
    handle_map: HashMap<u64, T>,
    string_map: Vec<(String, u64)>,
    handle_to_string_map: HashMap<u64, String>,
}

impl<T> HandleMap<T> {
    /// The registered objects, by handle value.
    pub closed spec fn entries(&self) -> Map<u64, T> {
        self.handle_map@
    }

    /// The name bindings, in the order they were added.
    pub closed spec fn names(&self) -> Seq<(Seq<char>, u64)> {
        self.string_map@.map_values(|p: (String, u64)| (p.0@, p.1))
    }

    /// The name each handle was registered under, if any.
    pub closed spec fn labels(&self) -> Map<u64, Seq<char>> {
        Map::new(
            |h: u64| self.handle_to_string_map@.dom().contains(h),
            |h: u64| self.handle_to_string_map@[h]@,
        )
    }

    /// The next handle value to be issued.
    pub closed spec fn next(&self) -> u64 {
        self.next_id
    }

    pub open spec fn inv(&self) -> bool {
        &&& forall|h: u64| #[trigger] self.entries().dom().contains(h) ==> h < self.next()
        &&& forall|i: int| 0 <= i < self.names().len() ==> (#[trigger] self.names()[i]).1
            < self.next()
    }

    /// Create an empty registry.
    pub fn new() -> (m: HandleMap<T>)
        ensures
            m.inv(),
            m.next() == 0,
            m.entries() == Map::<u64, T>::empty(),
            m.names() == Seq::<(Seq<char>, u64)>::empty(),
            m.labels() =~= Map::<u64, Seq<char>>::empty(),
    {
        let m = HandleMap {
            next_id: 0,
            handle_map: HashMap::new(),
            string_map: Vec::new(),
            handle_to_string_map: HashMap::new(),
        };
        assert(m.names() =~= Seq::<(Seq<char>, u64)>::empty());
        m
    }

    /// Register `object` under a fresh handle, optionally bound to a name.
    /// The returned handle is distinct from every handle the registry has
    /// issued before.
    pub fn add(&mut self, object: T, string_id: Option<String>) -> (h: Handle)
        requires
            old(self).inv(),
            old(self).next() < u64::MAX,
        ensures
            final(self).inv(),
            h.0 == old(self).next(),
            !old(self).entries().dom().contains(h.0),
            final(self).next() == old(self).next() + 1,
            final(self).entries() == old(self).entries().insert(h.0, object),
            match string_id {
                Option::Some(s) => final(self).names() == old(self).names().push((s@, h.0))
                    && final(self).labels() =~= old(self).labels().insert(h.0, s@),
                Option::None => final(self).names() == old(self).names() && final(self).labels()
                    =~= old(self).labels(),
            },
    {
        let handle = Handle(self.next_id);
        self.next_id = self.next_id + 1;
        self.handle_map.insert(handle.0, object);
        match string_id {
            Option::Some(id) => {
                let ghost names0 = self.names();
                self.string_map.push((id.clone(), handle.0));
                self.handle_to_string_map.insert(handle.0, id);
                proof {
                    assert(self.names() =~= names0.push((
                        self.string_map@.last().0@,
                        handle.0,
                    )));
                }
            },
            Option::None => {},
        }
        proof {
            assert forall|g: u64| #[trigger] self.entries().dom().contains(g) implies g
                < self.next_id by {
                if g != handle.0 {
                    assert(old(self).entries().dom().contains(g));
                }
            }
            assert forall|i: int| 0 <= i < self.names().len() implies (#[trigger] self.names()[i]).1
                < self.next_id by {
                if i < old(self).names().len() {
                    assert(old(self).names()[i] == self.names()[i]);
                }
            }
        }
        handle
    }

    /// The object registered under `handle`, or `None` for a handle the
    /// registry never issued.
    pub fn get_from_handle(&self, handle: &Handle) -> (r: Option<&T>)
        ensures
            match r {
                Option::Some(v) => self.entries().dom().contains(handle.0) && *v
                    == self.entries()[handle.0],
                Option::None => !self.entries().dom().contains(handle.0),
            },
    {
        self.handle_map.get(&handle.0)
    }

    /// The object registered under name `string_id`, or `None` when no
    /// live binding of that name exists. The most recent binding wins.
    pub fn get_from_string(&self, string_id: &String) -> (r: Option<&T>)
        ensures
            match r {
                Option::Some(v) => {
                    &&& name_lookup(self.names(), string_id@) matches Option::Some(id)
                    &&& self.entries().dom().contains(
                        name_lookup(self.names(), string_id@)->0,
                    )
                    &&& *v == self.entries()[name_lookup(self.names(), string_id@)->0]
                },
                Option::None => match name_lookup(self.names(), string_id@) {
                    Option::Some(id) => !self.entries().dom().contains(id),
                    Option::None => true,
                },
            },
    {
        let mut i = self.string_map.len();
        proof {
            assert(self.names().take(i as int) =~= self.names());
        }
        loop
            invariant
                i <= self.string_map@.len(),
                name_lookup(self.names(), string_id@) == name_lookup(
                    self.names().take(i as int),
                    string_id@,
                ),
            ensures
                i <= self.string_map@.len(),
                match name_lookup(self.names(), string_id@) {
                    Option::Some(id) => i > 0 && self.names()[i - 1].0 == string_id@
                        && self.names()[i - 1].1 == id,
                    Option::None => i == 0,
                },
            decreases i,
        {
            if i == 0 {
                proof {
                    assert(self.names().take(0) =~= Seq::<(Seq<char>, u64)>::empty());
                }
                break;
            }
            let entry = &self.string_map[i - 1];
            proof {
                assert(self.names().take(i as int).drop_last() =~= self.names().take(i - 1));
                assert(self.names().take(i as int).last() == self.names()[i - 1]);
            }
            if entry.0 == *string_id {
                break;
            }
            i = i - 1;
        }
        if i == 0 {
            None
        } else {
            let id = self.string_map[i - 1].1;
            self.handle_map.get(&id)
        }
    }

    /// The name `handle` was registered under, if any.
    pub fn get_string_from_handle(&self, handle: &Handle) -> (r: Option<String>)
        ensures
            match r {
                Option::Some(s) => self.labels().dom().contains(handle.0) && s@
                    == self.labels()[handle.0],
                Option::None => !self.labels().dom().contains(handle.0),
            },
    {
        match self.handle_to_string_map.get(&handle.0) {
            Option::Some(s) => Some(s.clone()),
            Option::None => None,
        }
    }
}

} // verus!
