//! Lifetime cache: reference counting with tiered, time-delayed eviction.
//!
//! A resource whose reference count reaches zero is not destroyed at once; it
//! is queued for destruction after a delay fixed by its lifetime class, so
//! that rapid release/re-acquire churn does not destroy resources that are
//! about to be used again. `upkeep` pops the queue entries whose deadline has
//! elapsed, skips any that were reactivated meanwhile, and returns at most a
//! fixed per-call quota of handles for actual destruction, buffering the
//! excess for later calls.
//!
//! Time is carried as a plain tick count (the caller chooses the unit; the
//! default delays below read it as seconds), so the cache itself never reads
//! a clock.

use vstd::prelude::*;

verus! {

use crate::arena::ElementHandle;
use crate::arena::SparseSet;

/// How long a resource lasts after all references to it run out.
#[derive(Debug, Copy, Clone, PartialEq, Eq, Structural, Hash)]
pub enum ResourceLifetime {
    /// Destroyed at the first upkeep after release.
    Immediate,
    /// The resource is unlikely to be loaded again.
    Short,
    /// The resource may be loaded again.
    Medium,
    /// We expect the resource to be loaded again.
    Long,
    /// Never destroyed until the owning cache is torn down.
    Forever,
}

/// Destruction delay in ticks for each lifetime class; `None` means the
/// resource is never auto-evicted.
pub open spec fn spec_delay(lifetime: ResourceLifetime) -> Option<u64> {
    match lifetime {
        ResourceLifetime::Immediate => Some(0u64),
        ResourceLifetime::Short => Some(3u64),
        ResourceLifetime::Medium => Some(60u64),
        ResourceLifetime::Long => Some(300u64),
        ResourceLifetime::Forever => None,
    }
}

/// The eviction deadline for a resource released at `now`: `now + delay`, or
/// `None` ("never") for the `Forever` class or when the sum does not fit.
pub open spec fn spec_deadline(now: u64, lifetime: ResourceLifetime) -> Option<u64> {
    match spec_delay(lifetime) {
        Option::None => Option::None,
        Option::Some(d) => if now + d <= u64::MAX {
            Some((now + d) as u64)
        } else {
            Option::None
        },
    }
}

/// Queue order on deadlines: entries without a deadline sort after every
/// entry that has one.
pub open spec fn deadline_le(a: Option<u64>, b: Option<u64>) -> bool {
    match b {
        Option::None => true,
        Option::Some(tb) => a is Some && a->0 <= tb,
    }
}

/// A deadline has elapsed at `now`; "never" deadlines never elapse.
pub open spec fn deadline_elapsed(t: Option<u64>, now: u64) -> bool {
    t is Some && t->0 <= now
}

#[derive(Debug, Copy, Clone)]
struct RefEntry {
    reference_count: u64,
    lifetime: ResourceLifetime,
}

#[derive(Debug, Copy, Clone)]
struct QueueEntry {
    handle: ElementHandle,
    deletion_time: Option<u64>,
}

/// The first phase of `upkeep`, as a recursive specification: pop queue
/// entries whose deadline has elapsed at `now`; an entry whose handle is
/// still registered with a zero reference count is unregistered and becomes
/// pending destruction, any other entry is stale and is dropped.
pub open spec fn drain(
    refs: Map<int, (int, ResourceLifetime)>,
    queue: Seq<(int, Option<u64>)>,
    pending: Seq<int>,
    now: u64,
) -> (Map<int, (int, ResourceLifetime)>, Seq<(int, Option<u64>)>, Seq<int>)
    decreases queue.len(),
{
    if queue.len() > 0 && deadline_elapsed(queue[0].1, now) {
        let h = queue[0].0;
        if refs.dom().contains(h) && refs[h].0 == 0 {
            drain(refs.remove(h), queue.drop_first(), pending.push(h), now)
        } else {
            drain(refs, queue.drop_first(), pending, now)
        }
    } else {
        (refs, queue, pending)
    }
}

/// The whole of `upkeep`, as a specification: drain the queue, then return
/// the first `quota` pending handles, keeping the rest pending.
pub open spec fn upkeep_spec(
    refs: Map<int, (int, ResourceLifetime)>,
    queue: Seq<(int, Option<u64>)>,
    pending: Seq<int>,
    now: u64,
    quota: int,
) -> ((Map<int, (int, ResourceLifetime)>, Seq<(int, Option<u64>)>, Seq<int>), Seq<int>) {
    let (refs2, queue2, pending2) = drain(refs, queue, pending, now);
    let k = if quota <= pending2.len() {
        quota
    } else {
        pending2.len() as int
    };
    ((refs2, queue2, pending2.skip(k)), pending2.take(k))
}

/// Reference-counting cache with tiered, time-delayed eviction.
pub struct ResourceReferenceManager {
    all_resources: SparseSet<RefEntry>,
    inactive_resources: Vec<QueueEntry>,
    pending_destruction: Vec<ElementHandle>,
    quota: usize,
}

impl ResourceReferenceManager {
    /// The registered resources: handle -> (reference count, lifetime class).
    pub closed spec fn refs(&self) -> Map<int, (int, ResourceLifetime)> {
        Map::new(
            |h: int| self.all_resources@.dom().contains(h),
            |h: int|
                (
                    self.all_resources@[h].reference_count as int,
                    self.all_resources@[h].lifetime,
                ),
        )
    }

    /// The eviction queue: (handle, deadline) in deadline order.
    pub closed spec fn queue(&self) -> Seq<(int, Option<u64>)> {
        self.inactive_resources@.map_values(|q: QueueEntry| (q.handle.0 as int, q.deletion_time))
    }

    /// Handles already unregistered and awaiting return from `upkeep`.
    pub closed spec fn pending(&self) -> Seq<int> {
        self.pending_destruction@.map_values(|e: ElementHandle| e.0 as int)
    }

    pub open spec fn registered(&self, h: int) -> bool {
        self.refs().dom().contains(h)
    }

    pub open spec fn count(&self, h: int) -> int {
        self.refs()[h].0
    }

    pub open spec fn lifetime_of(&self, h: int) -> ResourceLifetime {
        self.refs()[h].1
    }

    /// Largest handle value the cache accepts, fixed at construction.
    pub closed spec fn capacity(&self) -> int {
        self.all_resources.capacity()
    }

    /// Most handles one `upkeep` call may return, fixed at construction.
    pub closed spec fn spec_quota(&self) -> int {
        self.quota as int
    }

    pub closed spec fn inv(&self) -> bool {
        &&& self.all_resources.inv()
        &&& forall|i: int, j: int|
            0 <= i < j < self.queue().len() ==> deadline_le(
                #[trigger] self.queue()[i].1,
                #[trigger] self.queue()[j].1,
            )
    }

    /// Create an empty cache for handles below `capacity`, returning at most
    /// `quota` destroyable handles per `upkeep` call.
    pub fn new(capacity: usize, quota: usize) -> (m: ResourceReferenceManager)
        requires
            capacity < usize::MAX,
        ensures
            m.inv(),
            m.capacity() == capacity,
            m.spec_quota() == quota,
            m.refs() =~= Map::<int, (int, ResourceLifetime)>::empty(),
            m.queue() == Seq::<(int, Option<u64>)>::empty(),
            m.pending() == Seq::<int>::empty(),
    {
        let m = ResourceReferenceManager {
            all_resources: SparseSet::new(capacity),
            inactive_resources: Vec::new(),
            pending_destruction: Vec::new(),
            quota,
        };
        assert(m.queue() =~= Seq::<(int, Option<u64>)>::empty());
        assert(m.pending() =~= Seq::<int>::empty());
        m
    }

    /// Register `resource` if it is unseen, then activate it. Re-registering
    /// a known handle keeps its recorded lifetime class and only increments
    /// its reference count.
    pub fn create(&mut self, resource: ElementHandle, lifetime: ResourceLifetime)
        requires
            old(self).inv(),
            resource.0 < old(self).capacity(),
            old(self).registered(resource.0 as int) ==> old(self).count(resource.0 as int)
                < u64::MAX,
        ensures
            final(self).inv(),
            final(self).capacity() == old(self).capacity(),
            final(self).spec_quota() == old(self).spec_quota(),
            final(self).registered(resource.0 as int),
            final(self).count(resource.0 as int) == if old(self).registered(resource.0 as int) {
                old(self).count(resource.0 as int) + 1
            } else {
                1int
            },
            final(self).lifetime_of(resource.0 as int) == if old(self).registered(
                resource.0 as int,
            ) {
                old(self).lifetime_of(resource.0 as int)
            } else {
                lifetime
            },
            forall|g: int|
                g != resource.0 as int ==> #[trigger] final(self).refs().dom().contains(g) == old(
                    self,
                ).refs().dom().contains(g),
            forall|g: int|
                g != resource.0 as int && old(self).refs().dom().contains(g)
                    ==> #[trigger] final(self).refs()[g] == old(self).refs()[g],
            final(self).queue() == old(self).queue(),
            final(self).pending() == old(self).pending(),
    {
        if !self.all_resources.contains(resource) {
            self.all_resources.push(
                resource,
                RefEntry { reference_count: 0, lifetime },
            );
            proof {
                assert(self.queue() == old(self).queue());
                assert(self.count(resource.0 as int) == 0);
                assert(self.inv());
            }
        }
        self.activate(resource);
    }

    /// Increment the reference count of `resource`, which must have been
    /// registered by `create`.
    pub fn activate(&mut self, resource: ElementHandle)
        requires
            old(self).inv(),
            old(self).registered(resource.0 as int),
            old(self).count(resource.0 as int) < u64::MAX,
        ensures
            final(self).inv(),
            final(self).capacity() == old(self).capacity(),
            final(self).spec_quota() == old(self).spec_quota(),
            final(self).refs() =~= old(self).refs().insert(
                resource.0 as int,
                (old(self).count(resource.0 as int) + 1, old(self).lifetime_of(resource.0 as int)),
            ),
            final(self).queue() == old(self).queue(),
            final(self).pending() == old(self).pending(),
    {
        let entry = self.all_resources.get_mut(resource);
        entry.reference_count = entry.reference_count + 1;
        proof {
            assert(self.queue() == old(self).queue());
            assert(self.refs() =~= old(self).refs().insert(
                resource.0 as int,
                (old(self).count(resource.0 as int) + 1, old(self).lifetime_of(resource.0 as int)),
            ));
        }
    }

    /// Decrement the reference count of `resource`. On reaching zero, insert
    /// exactly one eviction entry with deadline `now + delay(lifetime)` into
    /// the queue, keeping the queue ordered by deadline.
    pub fn deactivate(&mut self, resource: ElementHandle, now: u64)
        requires
            old(self).inv(),
            old(self).registered(resource.0 as int),
            old(self).count(resource.0 as int) >= 1,
        ensures
            final(self).inv(),
            final(self).capacity() == old(self).capacity(),
            final(self).spec_quota() == old(self).spec_quota(),
            final(self).refs() =~= old(self).refs().insert(
                resource.0 as int,
                (old(self).count(resource.0 as int) - 1, old(self).lifetime_of(resource.0 as int)),
            ),
            final(self).pending() == old(self).pending(),
            old(self).count(resource.0 as int) == 1 ==> exists|i: int|
                0 <= i <= old(self).queue().len() && final(self).queue() == old(
                    self,
                ).queue().insert(
                    i,
                    (
                        resource.0 as int,
                        spec_deadline(now, old(self).lifetime_of(resource.0 as int)),
                    ),
                ),
            old(self).count(resource.0 as int) != 1 ==> final(self).queue() == old(self).queue(),
    {
        let entry = self.all_resources.get_mut(resource);
        entry.reference_count = entry.reference_count - 1;
        let lifetime = entry.lifetime;
        let now_zero = entry.reference_count == 0;
        proof {
            assert(self.queue() == old(self).queue());
            assert(self.refs() =~= old(self).refs().insert(
                resource.0 as int,
                (old(self).count(resource.0 as int) - 1, old(self).lifetime_of(resource.0 as int)),
            ));
        }

        if now_zero {
            let deadline = deadline_for(now, lifetime);
            self.queue_insert(QueueEntry { handle: resource, deletion_time: deadline });
        }
    }

    /// Insert `entry` into the deadline-ordered queue, before the first
    /// entry with a strictly later deadline.
    fn queue_insert(&mut self, entry: QueueEntry)
        requires
            old(self).inv(),
        ensures
            final(self).inv(),
            final(self).capacity() == old(self).capacity(),
            final(self).spec_quota() == old(self).spec_quota(),
            final(self).refs() == old(self).refs(),
            final(self).pending() == old(self).pending(),
            exists|i: int|
                0 <= i <= old(self).queue().len() && final(self).queue() == old(
                    self,
                ).queue().insert(i, (entry.handle.0 as int, entry.deletion_time)),
    {
        let mut i: usize = 0;
        let n = self.inactive_resources.len();
        loop
            invariant
                i <= n,
                n == self.inactive_resources@.len(),
                *self == *old(self),
                forall|j: int|
                    0 <= j < i ==> deadline_le(#[trigger] self.queue()[j].1, entry.deletion_time),
            ensures
                i <= n,
                *self == *old(self),
                forall|j: int|
                    0 <= j < i ==> deadline_le(#[trigger] self.queue()[j].1, entry.deletion_time),
                i < n ==> deadline_le(entry.deletion_time, self.queue()[i as int].1),
            decreases n - i,
        {
            if i >= n {
                break;
            }
            let t = self.inactive_resources[i].deletion_time;
            let fits = match t {
                Option::Some(tq) => match entry.deletion_time {
                    Option::Some(te) => tq <= te,
                    Option::None => true,
                },
                Option::None => false,
            };
            if !fits {
                break;
            }
            i = i + 1;
        }
        self.inactive_resources.insert(i, entry);
        proof {
            let q0 = old(self).queue();
            let q1 = self.queue();
            assert(q1 =~= q0.insert(i as int, (entry.handle.0 as int, entry.deletion_time)));
            assert forall|a: int, b: int| 0 <= a < b < q1.len() implies deadline_le(
                q1[a].1,
                q1[b].1,
            ) by {
                if a < i && b > i {
                    assert(q1[a] == q0[a]);
                    assert(q1[b] == q0[b - 1]);
                } else if a == i && b > i {
                    assert(q1[b] == q0[b - 1]);
                    if i < q0.len() {
                        assert(deadline_le(entry.deletion_time, q0[i as int].1));
                    }
                } else if b == i {
                    assert(q1[a] == q0[a]);
                }
            }
        }
    }

    /// The per-call quota never goes negative: it is a machine word.
    pub proof fn lemma_quota_nonneg(&self)
        ensures
            self.spec_quota() >= 0,
    {
    }

    /// Whether `resource` is currently registered.
    pub fn is_registered(&self, resource: ElementHandle) -> (r: bool)
        requires
            self.inv(),
        ensures
            r == self.registered(resource.0 as int),
    {
        self.all_resources.contains(resource)
    }

    /// The reference count of `resource`, or `None` when it is not
    /// registered.
    pub fn reference_count(&self, resource: ElementHandle) -> (r: Option<u64>)
        requires
            self.inv(),
        ensures
            match r {
                Option::Some(c) => self.registered(resource.0 as int) && c as int == self.count(
                    resource.0 as int,
                ),
                Option::None => !self.registered(resource.0 as int),
            },
    {
        match self.all_resources.get(resource) {
            Option::Some(e) => Some(e.reference_count),
            Option::None => None,
        }
    }

    /// Pop every queue entry whose deadline has elapsed at `now`, discarding
    /// entries for handles that were reactivated (or already destroyed), and
    /// return at most `quota` handles for destruction by the caller; excess
    /// handles stay buffered and are returned by later calls.
    pub fn upkeep(&mut self, now: u64) -> (r: Vec<ElementHandle>)
        requires
            old(self).inv(),
        ensures
            final(self).inv(),
            final(self).capacity() == old(self).capacity(),
            final(self).spec_quota() == old(self).spec_quota(),
            ({
                let (state, taken) = upkeep_spec(
                    old(self).refs(),
                    old(self).queue(),
                    old(self).pending(),
                    now,
                    old(self).spec_quota(),
                );
                &&& final(self).refs() =~= state.0
                &&& final(self).queue() == state.1
                &&& final(self).pending() == state.2
                &&& r@.map_values(|e: ElementHandle| e.0 as int) == taken
            }),
            r@.len() <= old(self).spec_quota(),
    {
        loop
            invariant
                self.inv(),
                self.capacity() == old(self).capacity(),
                self.spec_quota() == old(self).spec_quota(),
                drain(self.refs(), self.queue(), self.pending(), now) == drain(
                    old(self).refs(),
                    old(self).queue(),
                    old(self).pending(),
                    now,
                ),
            ensures
                self.inv(),
                self.capacity() == old(self).capacity(),
                self.spec_quota() == old(self).spec_quota(),
                drain(self.refs(), self.queue(), self.pending(), now) == drain(
                    old(self).refs(),
                    old(self).queue(),
                    old(self).pending(),
                    now,
                ),
                self.queue().len() == 0 || !deadline_elapsed(self.queue()[0].1, now),
            decreases self.queue().len(),
        {
            if self.inactive_resources.len() == 0 {
                break;
            }
            let head = self.inactive_resources[0];
            let is_elapsed = match head.deletion_time {
                Option::Some(t) => t <= now,
                Option::None => false,
            };
            if !is_elapsed {
                break;
            }
            let ghost pre = *self;
            let _ = self.inactive_resources.remove(0);
            let destroyable = match self.all_resources.get(head.handle) {
                Option::Some(e) => e.reference_count == 0,
                Option::None => false,
            };
            if destroyable {
                let _ = self.all_resources.remove(head.handle);
                self.pending_destruction.push(head.handle);
                proof {
                    assert(self.queue() =~= pre.queue().drop_first());
                    assert(self.pending() =~= pre.pending().push(head.handle.0 as int));
                    assert(self.refs() =~= pre.refs().remove(head.handle.0 as int));
                    assert(drain(pre.refs(), pre.queue(), pre.pending(), now) == drain(
                        self.refs(),
                        self.queue(),
                        self.pending(),
                        now,
                    ));
                }
            } else {
                proof {
                    assert(self.queue() =~= pre.queue().drop_first());
                    assert(self.refs() =~= pre.refs());
                    assert(self.pending() == pre.pending());
                    assert(drain(pre.refs(), pre.queue(), pre.pending(), now) == drain(
                        self.refs(),
                        self.queue(),
                        self.pending(),
                        now,
                    ));
                }
            }
        }

        let ghost mid = *self;
        proof {
            assert(drain(mid.refs(), mid.queue(), mid.pending(), now) == (
                mid.refs(),
                mid.queue(),
                mid.pending(),
            ));
        }

        let mut out: Vec<ElementHandle> = Vec::new();
        loop
            invariant
                self.inv(),
                self.capacity() == old(self).capacity(),
                self.spec_quota() == old(self).spec_quota(),
                self.refs() == mid.refs(),
                self.queue() == mid.queue(),
                out@.len() <= self.quota,
                out@.map_values(|e: ElementHandle| e.0 as int) + self.pending() == mid.pending(),
            ensures
                self.inv(),
                self.capacity() == old(self).capacity(),
                self.spec_quota() == old(self).spec_quota(),
                self.refs() == mid.refs(),
                self.queue() == mid.queue(),
                out@.len() <= self.quota,
                out@.map_values(|e: ElementHandle| e.0 as int) + self.pending() == mid.pending(),
                out@.len() == self.quota || self.pending().len() == 0,
            decreases self.quota - out@.len(),
        {
            if out.len() >= self.quota || self.pending_destruction.len() == 0 {
                break;
            }
            let h = self.pending_destruction.remove(0);
            out.push(h);
            proof {
                assert(out@.map_values(|e: ElementHandle| e.0 as int) + self.pending()
                    =~= mid.pending());
            }
        }

        proof {
            let k = if self.spec_quota() <= mid.pending().len() {
                self.spec_quota()
            } else {
                mid.pending().len() as int
            };
            let outm = out@.map_values(|e: ElementHandle| e.0 as int);
            assert(outm.len() == out@.len());
            if out@.len() < self.spec_quota() {
                assert(self.pending().len() == 0);
                assert(outm =~= mid.pending());
                assert(outm =~= mid.pending().take(k));
                assert(self.pending() =~= mid.pending().skip(k));
            } else {
                assert(outm =~= mid.pending().take(k));
                assert(self.pending() =~= mid.pending().skip(k));
            }
        }
        out
    }
}

/// The eviction deadline for a resource released at `now`.
fn deadline_for(now: u64, lifetime: ResourceLifetime) -> (r: Option<u64>)
    ensures
        r == spec_deadline(now, lifetime),
{
    let delay: Option<u64> = match lifetime {
        ResourceLifetime::Immediate => Some(0),
        ResourceLifetime::Short => Some(3),
        ResourceLifetime::Medium => Some(60),
        ResourceLifetime::Long => Some(300),
        ResourceLifetime::Forever => None,
    };
    match delay {
        Option::Some(d) => {
            if now <= u64::MAX - d {
                Some(now + d)
            } else {
                None
            }
        },
        Option::None => None,
    }
}

/// Law: a handle that was reactivated (its reference count is positive)
/// while its eviction entry was still queued is not destroyed by the queue
/// drain: it stays registered with its count unchanged and never becomes
/// pending destruction.
pub proof fn lemma_reactivation_prevents_destruction(
    refs: Map<int, (int, ResourceLifetime)>,
    queue: Seq<(int, Option<u64>)>,
    pending: Seq<int>,
    now: u64,
    h: int,
)
    requires
        refs.dom().contains(h),
        refs[h].0 > 0,
        !pending.contains(h),
    ensures
        ({
            let (refs2, queue2, pending2) = drain(refs, queue, pending, now);
            &&& refs2.dom().contains(h)
            &&& refs2[h] == refs[h]
            &&& !pending2.contains(h)
        }),
    decreases queue.len(),
{
    if queue.len() > 0 && deadline_elapsed(queue[0].1, now) {
        let g = queue[0].0;
        if refs.dom().contains(g) && refs[g].0 == 0 {
            assert(g != h);
            assert(!pending.push(g).contains(h));
            lemma_reactivation_prevents_destruction(
                refs.remove(g),
                queue.drop_first(),
                pending.push(g),
                now,
                h,
            );
        } else {
            lemma_reactivation_prevents_destruction(refs, queue.drop_first(), pending, now, h);
        }
    }
}

/// Law: one `upkeep` call returns at most `quota` handles, and every
/// destroyable handle it does not return stays buffered for the next call:
/// the drained pending list splits exactly into the returned handles
/// followed by the handles left pending.
pub proof fn lemma_upkeep_bounded_by_quota(
    refs: Map<int, (int, ResourceLifetime)>,
    queue: Seq<(int, Option<u64>)>,
    pending: Seq<int>,
    now: u64,
    quota: int,
)
    requires
        quota >= 0,
    ensures
        ({
            let (state, taken) = upkeep_spec(refs, queue, pending, now, quota);
            &&& taken.len() <= quota
            &&& taken + state.2 == drain(refs, queue, pending, now).2
        }),
{
    let (state, taken) = upkeep_spec(refs, queue, pending, now, quota);
    let pending2 = drain(refs, queue, pending, now).2;
    let k = if quota <= pending2.len() {
        quota
    } else {
        pending2.len() as int
    };
    assert(taken + state.2 =~= pending2);
}

/// Draining the eviction queue only unregisters resources: every entry that
/// survives keeps its count and lifetime, and the handles that became
/// pending were registered with a zero count.
pub proof fn lemma_drain_submap(
    refs: Map<int, (int, ResourceLifetime)>,
    queue: Seq<(int, Option<u64>)>,
    pending: Seq<int>,
    now: u64,
)
    ensures
        ({
            let (refs2, queue2, pending2) = drain(refs, queue, pending, now);
            &&& forall|h: int| #[trigger]
                refs2.dom().contains(h) ==> refs.dom().contains(h) && refs2[h] == refs[h]
            &&& forall|i: int|
                0 <= i < pending2.len() ==> pending.contains(#[trigger] pending2[i]) || (
                refs.dom().contains(pending2[i]) && refs[pending2[i]].0 == 0)
        }),
    decreases queue.len(),
{
    if queue.len() > 0 && deadline_elapsed(queue[0].1, now) {
        let h = queue[0].0;
        if refs.dom().contains(h) && refs[h].0 == 0 {
            lemma_drain_submap(refs.remove(h), queue.drop_first(), pending.push(h), now);
            let result = drain(refs, queue, pending, now);
            assert(result == drain(refs.remove(h), queue.drop_first(), pending.push(h), now));
            let refs2 = result.0;
            let pending2 = result.2;
            assert forall|g: int| #[trigger] refs2.dom().contains(g) implies refs.dom().contains(g)
                && refs2[g] == refs[g] by {
                assert(refs.remove(h).dom().contains(g));
                assert(refs2[g] == refs.remove(h)[g]);
            }
            assert forall|i: int| 0 <= i < pending2.len() implies pending.contains(
                #[trigger] pending2[i],
            ) || (refs.dom().contains(pending2[i]) && refs[pending2[i]].0 == 0) by {
                if pending.push(h).contains(pending2[i]) {
                    let j = choose|j: int|
                        0 <= j < pending.push(h).len() && pending.push(h)[j] == pending2[i];
                    if j < pending.len() {
                        assert(pending[j] == pending2[i]);
                        assert(pending.contains(pending2[i]));
                    } else {
                        assert(pending2[i] == h);
                    }
                } else {
                    assert(refs.remove(h).dom().contains(pending2[i]));
                }
            }
        } else {
            lemma_drain_submap(refs, queue.drop_first(), pending, now);
            let result = drain(refs, queue, pending, now);
            assert(result == drain(refs, queue.drop_first(), pending, now));
        }
    }
}

/// Draining preserves the separation of pending handles from registered
/// ones: when no handle pending destruction is still registered (true of a
/// fresh cache and kept by every operation of a caller that never registers
/// a drained handle again, as the resource manager's ever-fresh ids
/// guarantee), the same holds after the drain. With
/// [`lemma_reactivation_prevents_destruction`], a reactivated handle is
/// then never among the handles destruction returns.
pub proof fn lemma_drain_pending_unregistered(
    refs: Map<int, (int, ResourceLifetime)>,
    queue: Seq<(int, Option<u64>)>,
    pending: Seq<int>,
    now: u64,
)
    requires
        forall|i: int| 0 <= i < pending.len() ==> !refs.dom().contains(#[trigger] pending[i]),
    ensures
        ({
            let (refs2, queue2, pending2) = drain(refs, queue, pending, now);
            forall|i: int|
                0 <= i < pending2.len() ==> !refs2.dom().contains(#[trigger] pending2[i])
        }),
    decreases queue.len(),
{
    if queue.len() > 0 && deadline_elapsed(queue[0].1, now) {
        let h = queue[0].0;
        if refs.dom().contains(h) && refs[h].0 == 0 {
            assert forall|i: int|
                0 <= i < pending.push(h).len() implies !refs.remove(h).dom().contains(
                #[trigger] pending.push(h)[i],
            ) by {
                if i < pending.len() {
                    assert(pending.push(h)[i] == pending[i]);
                }
            }
            lemma_drain_pending_unregistered(refs.remove(h), queue.drop_first(), pending.push(h), now);
            let result = drain(refs, queue, pending, now);
            assert(result == drain(refs.remove(h), queue.drop_first(), pending.push(h), now));
        } else {
            lemma_drain_pending_unregistered(refs, queue.drop_first(), pending, now);
            let result = drain(refs, queue, pending, now);
            assert(result == drain(refs, queue.drop_first(), pending, now));
        }
    }
}

/// One reference-count mutation, for stating laws about call sequences.
pub enum CacheOp {
    Activate(usize),
    Deactivate(usize, u64),
}

/// How many operations in `ops` activate handle `h`.
pub open spec fn count_activates(ops: Seq<CacheOp>, h: usize) -> int
    decreases ops.len(),
{
    if ops.len() == 0 {
        0
    } else {
        count_activates(ops.drop_last(), h) + if ops.last() == CacheOp::Activate(h) {
            1int
        } else {
            0int
        }
    }
}

/// How many operations in `ops` deactivate handle `h`.
pub open spec fn count_deactivates(ops: Seq<CacheOp>, h: usize) -> int
    decreases ops.len(),
{
    if ops.len() == 0 {
        0
    } else {
        count_deactivates(ops.drop_last(), h) + if ops.last() is Deactivate
            && ops.last()->Deactivate_0 == h {
            1int
        } else {
            0int
        }
    }
}

/// The registered-resources map after applying `ops`, exactly as the
/// `activate` and `deactivate` contracts change it: each call on a
/// registered handle adjusts that handle's count by one and keeps its
/// lifetime class; a call on an unregistered handle is excluded by those
/// functions' preconditions and changes nothing here.
pub open spec fn apply_cache_ops(
    refs: Map<int, (int, ResourceLifetime)>,
    ops: Seq<CacheOp>,
) -> Map<int, (int, ResourceLifetime)>
    decreases ops.len(),
{
    if ops.len() == 0 {
        refs
    } else {
        let prev = apply_cache_ops(refs, ops.drop_last());
        match ops.last() {
            CacheOp::Activate(g) => if prev.dom().contains(g as int) {
                prev.insert(g as int, (prev[g as int].0 + 1, prev[g as int].1))
            } else {
                prev
            },
            CacheOp::Deactivate(g, _) => if prev.dom().contains(g as int) {
                prev.insert(g as int, (prev[g as int].0 - 1, prev[g as int].1))
            } else {
                prev
            },
        }
    }
}

/// Law: after N `activate` and M `deactivate` calls, a registered handle's
/// reference count has changed by exactly N - M, and its lifetime class is
/// unchanged.
pub proof fn lemma_reference_count_is_activations_minus_deactivations(
    refs: Map<int, (int, ResourceLifetime)>,
    ops: Seq<CacheOp>,
    h: usize,
)
    requires
        refs.dom().contains(h as int),
    ensures
        apply_cache_ops(refs, ops).dom().contains(h as int),
        apply_cache_ops(refs, ops)[h as int].0 == refs[h as int].0 + count_activates(ops, h)
            - count_deactivates(ops, h),
        apply_cache_ops(refs, ops)[h as int].1 == refs[h as int].1,
    decreases ops.len(),
{
    if ops.len() > 0 {
        lemma_reference_count_is_activations_minus_deactivations(refs, ops.drop_last(), h);
    }
}

} // verus!
