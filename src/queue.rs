//! Bounded queues, topics and the registry that owns them.
use vstd::prelude::*;

use crossbeam_queue::ArrayQueue;
use dashmap::DashSet;

verus! {

/// Largest capacity a queue can be created with.
pub const MAX_QUEUE_CAPACITY: usize = 0x7fff_ffff;

#[verifier::external_type_specification]
#[verifier::external_body]
#[verifier::reject_recursive_types(T)]
pub struct ExArrayQueue<T>(ArrayQueue<T>);

#[verifier::external_type_specification]
#[verifier::external_body]
#[verifier::reject_recursive_types(K)]
#[verifier::reject_recursive_types(S)]
pub struct ExDashSet<K, S>(DashSet<K, S>);

/// The payloads a ring holds, oldest first.
pub uninterp spec fn ring_items(q: ArrayQueue<Vec<u8>>) -> Seq<Seq<u8>>;

/// The capacity a ring was created with.
pub uninterp spec fn ring_capacity(q: ArrayQueue<Vec<u8>>) -> nat;

/// The names a set holds.
pub uninterp spec fn set_items(s: DashSet<String>) -> Set<Seq<char>>;

/// Relies on `ArrayQueue::new`: an empty ring of `cap` slots. It panics on
/// a zero capacity and where `cap + 1` rounded up to a power of two
/// overflows `usize`, which the bound rules out even for a 32-bit `usize`.
#[verifier::external_body]
fn ring_new(cap: usize) -> (r: ArrayQueue<Vec<u8>>)
    requires
        0 < cap <= MAX_QUEUE_CAPACITY,
    ensures
        ring_items(r) == Seq::<Seq<u8>>::empty(),
        ring_capacity(r) == cap,
{
    ArrayQueue::new(cap)
}

/// Relies on `ArrayQueue::push_mut`: appends at the tail unless the ring
/// holds `capacity` items, and hands the value back then.
#[verifier::external_body]
fn ring_push(q: &mut ArrayQueue<Vec<u8>>, v: Vec<u8>) -> (r: Result<(), Vec<u8>>)
    ensures
        ring_capacity(*final(q)) == ring_capacity(*old(q)),
        ring_items(*old(q)).len() < ring_capacity(*old(q)) ==> r is Ok && ring_items(*final(q))
            == ring_items(*old(q)).push(v@),
        ring_items(*old(q)).len() >= ring_capacity(*old(q)) ==> (r matches Err(w) && w == v
            && ring_items(*final(q)) == ring_items(*old(q))),
{
    q.push_mut(v)
}

/// Relies on `ArrayQueue::pop_mut`: takes the item at the head, if any.
#[verifier::external_body]
fn ring_pop(q: &mut ArrayQueue<Vec<u8>>) -> (r: Option<Vec<u8>>)
    ensures
        ring_capacity(*final(q)) == ring_capacity(*old(q)),
        ring_items(*old(q)).len() == 0 ==> r is None && ring_items(*final(q)) == ring_items(
            *old(q),
        ),
        ring_items(*old(q)).len() > 0 ==> (r matches Some(v) && v@ == ring_items(*old(q))[0]
            && ring_items(*final(q)) == ring_items(*old(q)).drop_first()),
{
    q.pop_mut()
}

/// Relies on `ArrayQueue::len`: the number of items held.
#[verifier::external_body]
fn ring_len(q: &ArrayQueue<Vec<u8>>) -> (r: usize)
    ensures
        r == ring_items(*q).len(),
{
    q.len()
}

/// Relies on `ArrayQueue::capacity`: the capacity given at creation.
#[verifier::external_body]
fn ring_cap(q: &ArrayQueue<Vec<u8>>) -> (r: usize)
    ensures
        r == ring_capacity(*q),
{
    q.capacity()
}

/// Relies on `DashSet::new`: an empty set.
#[verifier::external_body]
fn set_new() -> (r: DashSet<String>)
    ensures
        set_items(r) == Set::<Seq<char>>::empty(),
{
    DashSet::new()
}

/// Relies on `DashSet::insert`: adds the key; a key already there stays once.
#[verifier::external_body]
fn set_insert(s: &mut DashSet<String>, k: String)
    ensures
        set_items(*final(s)) == set_items(*old(s)).insert(k@),
{
    s.insert(k);
}

/// Relies on `DashSet::remove`: takes the key out, if it is there.
#[verifier::external_body]
fn set_remove(s: &mut DashSet<String>, k: &str)
    ensures
        set_items(*final(s)) == set_items(*old(s)).remove(k@),
{
    s.remove(k);
}

/// Relies on `DashSet::iter`: visits each key once, in an order that
/// depends on the hasher.
#[verifier::external_body]
fn set_list(s: &DashSet<String>) -> (r: Vec<String>)
    ensures
        forall|i: int| 0 <= i < r@.len() ==> set_items(*s).contains(#[trigger] r@[i]@),
        forall|k: Seq<char>|
            set_items(*s).contains(k) ==> exists|i: int| 0 <= i < r@.len() && #[trigger] r@[i]@ == k,
        forall|i: int, j: int| 0 <= i < j < r@.len() ==> r@[i]@ != r@[j]@,
{
    s.iter().map(|k| k.key().clone()).collect()
}

/// Every payload is at most `u32::MAX` bytes long.
pub open spec fn payloads_fit(items: Seq<Seq<u8>>) -> bool {
    forall|j: int| 0 <= j < items.len() ==> (#[trigger] items[j]).len() <= u32::MAX
}

/// A named, bounded FIFO of byte payloads.
pub struct Queue {
    pub name: String,
    mem: ArrayQueue<Vec<u8>>,
}

impl Queue {
    /// The queue's name.
    pub closed spec fn spec_name(&self) -> String {
        self.name
    }

    /// The payloads held, oldest first.
    pub closed spec fn items(&self) -> Seq<Seq<u8>> {
        ring_items(self.mem)
    }

    /// The capacity fixed at creation.
    pub closed spec fn cap(&self) -> nat {
        ring_capacity(self.mem)
    }

    /// Occupancy never exceeds the capacity, which is positive, and every
    /// payload fits a `bytes` field.
    pub open spec fn wf(&self) -> bool {
        &&& 0 < self.cap() <= MAX_QUEUE_CAPACITY
        &&& self.items().len() <= self.cap()
        &&& payloads_fit(self.items())
    }

    /// An empty queue named `name` with room for `cap` payloads.
    pub fn new(name: String, cap: usize) -> (r: Queue)
        requires
            0 < cap <= MAX_QUEUE_CAPACITY,
        ensures
            r.wf(),
            r.spec_name() == name,
            r.cap() == cap,
            r.items() == Seq::<Seq<u8>>::empty(),
    {
        Queue { name, mem: ring_new(cap) }
    }

    /// Appends `val` unless the queue is full; a full queue hands it back.
    pub fn push(&mut self, val: Vec<u8>) -> (r: Result<(), Vec<u8>>)
        requires
            old(self).wf(),
            val@.len() <= u32::MAX,
        ensures
            final(self).wf(),
            final(self).spec_name() == old(self).spec_name(),
            final(self).cap() == old(self).cap(),
            old(self).items().len() < old(self).cap() ==> r is Ok && final(self).items() == old(
                self,
            ).items().push(val@),
            old(self).items().len() == old(self).cap() ==> (r matches Err(w) && w == val
                && final(self).items() == old(self).items()),
    {
        let r = ring_push(&mut self.mem, val);
        assert(payloads_fit(self.items())) by {
            let s = self.items();
            assert forall|j: int| 0 <= j < s.len() implies (#[trigger] s[j]).len() <= u32::MAX by {
                if j < old(self).items().len() {
                    assert(s[j] == old(self).items()[j]);
                }
            }
        }
        r
    }

    /// Takes the oldest payload, if any.
    pub fn pop(&mut self) -> (r: Option<Vec<u8>>)
        requires
            old(self).wf(),
        ensures
            final(self).wf(),
            final(self).spec_name() == old(self).spec_name(),
            final(self).cap() == old(self).cap(),
            old(self).items().len() == 0 ==> r is None && final(self).items() == old(self).items(),
            old(self).items().len() > 0 ==> (r matches Some(v) && v@ == old(self).items()[0]
                && final(self).items() == old(self).items().drop_first()),
    {
        let r = ring_pop(&mut self.mem);
        assert(payloads_fit(self.items())) by {
            let s = self.items();
            assert forall|j: int| 0 <= j < s.len() implies (#[trigger] s[j]).len() <= u32::MAX by {
                assert(s[j] == old(self).items()[j + 1]);
            }
        }
        r
    }

    /// The number of payloads held.
    pub fn len(&self) -> (r: usize)
        ensures
            r == self.items().len(),
    {
        ring_len(&self.mem)
    }

    /// The capacity fixed at creation.
    pub fn capacity(&self) -> (r: usize)
        ensures
            r == self.cap(),
    {
        ring_cap(&self.mem)
    }
}

/// A named routing entity: the set of queue names it fans out to.
pub struct Topic {
    pub name: String,
    bound_queues: DashSet<String>,
}

impl Topic {
    /// The topic's name.
    pub closed spec fn spec_name(&self) -> String {
        self.name
    }

    /// The names of the queues bound to this topic.
    pub closed spec fn bound(&self) -> Set<Seq<char>> {
        set_items(self.bound_queues)
    }

    /// A topic named `name` with no queue bound.
    pub fn new(name: String) -> (r: Topic)
        ensures
            r.spec_name() == name,
            r.bound() == Set::<Seq<char>>::empty(),
    {
        Topic { name, bound_queues: set_new() }
    }

    /// Binds the queue named `queue_name`; binding twice is binding once.
    pub fn bind(&mut self, queue_name: String)
        ensures
            final(self).spec_name() == old(self).spec_name(),
            final(self).bound() == old(self).bound().insert(queue_name@),
    {
        set_insert(&mut self.bound_queues, queue_name);
    }

    /// Unbinds the queue named `queue_name`.
    pub fn unbind(&mut self, queue_name: &str)
        ensures
            final(self).spec_name() == old(self).spec_name(),
            final(self).bound() == old(self).bound().remove(queue_name@),
    {
        set_remove(&mut self.bound_queues, queue_name);
    }

    /// The bound queue names, each once, in no particular order.
    pub fn bound_names(&self) -> (r: Vec<String>)
        ensures
            forall|i: int| 0 <= i < r@.len() ==> self.bound().contains(#[trigger] r@[i]@),
            forall|k: Seq<char>|
                self.bound().contains(k) ==> exists|i: int| 0 <= i < r@.len() && #[trigger] r@[i]@ == k,
            forall|i: int, j: int| 0 <= i < j < r@.len() ==> r@[i]@ != r@[j]@,
    {
        set_list(&self.bound_queues)
    }
}

/// What a queue is to its users: its capacity and its payloads, oldest first.
pub struct QueueState {
    pub capacity: nat,
    pub items: Seq<Seq<u8>>,
}

/// What the registry holds: each topic's bound queue names and each
/// queue's state, by name.
pub struct Broker {
    pub topics: Map<Seq<char>, Set<Seq<char>>>,
    pub queues: Map<Seq<char>, QueueState>,
}

impl Queue {
    pub open spec fn state(&self) -> QueueState {
        QueueState { capacity: self.cap(), items: self.items() }
    }
}

/// Every queue of `b` has a positive capacity and holds at most that many
/// payloads, each of which fits a `bytes` field.
pub open spec fn occupancy_bounded(b: Broker) -> bool {
    forall|k: Seq<char>|
        #[trigger] b.queues.contains_key(k) ==> 0 < b.queues[k].capacity && b.queues[k].items.len()
            <= b.queues[k].capacity && payloads_fit(b.queues[k].items)
}

/// The name-indexed store of topics and queues; a name identifies at most
/// one topic and at most one queue.
pub struct Registry {
    topics: Vec<Topic>,
    queues: Vec<Queue>,
    model: Ghost<Broker>,
}

impl Registry {
    /// The topics and queues held, by name.
    pub closed spec fn view(&self) -> Broker {
        self.model@
    }

    pub closed spec fn wf(&self) -> bool {
        &&& forall|i: int, j: int|
            0 <= i < self.topics@.len() && 0 <= j < self.topics@.len() && i != j
                ==> #[trigger] self.topics@[i].spec_name()@ != #[trigger] self.topics@[j].spec_name()@
        &&& forall|i: int|
            0 <= i < self.topics@.len() ==> self.model@.topics.contains_key(
                #[trigger] self.topics@[i].spec_name()@,
            ) && self.model@.topics[self.topics@[i].spec_name()@] == self.topics@[i].bound()
        &&& forall|k: Seq<char>|
            #[trigger] self.model@.topics.contains_key(k) ==> exists|i: int|
                0 <= i < self.topics@.len() && self.topics@[i].spec_name()@ == k
        &&& forall|i: int, j: int|
            0 <= i < self.queues@.len() && 0 <= j < self.queues@.len() && i != j
                ==> #[trigger] self.queues@[i].spec_name()@ != #[trigger] self.queues@[j].spec_name()@
        &&& forall|i: int|
            0 <= i < self.queues@.len() ==> (#[trigger] self.queues@[i]).wf()
                && self.model@.queues.contains_key(self.queues@[i].spec_name()@)
                && self.model@.queues[self.queues@[i].spec_name()@] == self.queues@[i].state()
        &&& forall|k: Seq<char>|
            #[trigger] self.model@.queues.contains_key(k) ==> exists|i: int|
                0 <= i < self.queues@.len() && self.queues@[i].spec_name()@ == k
    }

    /// An empty registry.
    pub fn new() -> (r: Registry)
        ensures
            r.wf(),
            r.view().topics == Map::<Seq<char>, Set<Seq<char>>>::empty(),
            r.view().queues == Map::<Seq<char>, QueueState>::empty(),
    {
        Registry {
            topics: Vec::new(),
            queues: Vec::new(),
            model: Ghost(
                Broker {
                    topics: Map::<Seq<char>, Set<Seq<char>>>::empty(),
                    queues: Map::<Seq<char>, QueueState>::empty(),
                },
            ),
        }
    }

    fn find_topic(&self, name: &String) -> (r: Option<usize>)
        requires
            self.wf(),
        ensures
            r matches Some(i) ==> i < self.topics@.len() && self.topics@[i as int].spec_name()@
                == name@,
            r is None ==> !self.view().topics.contains_key(name@),
    {
        let mut i: usize = 0;
        while i < self.topics.len()
            invariant
                i <= self.topics@.len(),
                forall|j: int| 0 <= j < i ==> #[trigger] self.topics@[j].spec_name()@ != name@,
            decreases self.topics@.len() - i,
        {
            if self.topics[i].name == *name {
                return Some(i);
            }
            i = i + 1;
        }
        None
    }

    fn find_queue(&self, name: &String) -> (r: Option<usize>)
        requires
            self.wf(),
        ensures
            r matches Some(i) ==> i < self.queues@.len() && self.queues@[i as int].spec_name()@
                == name@,
            r is None ==> !self.view().queues.contains_key(name@),
    {
        let mut i: usize = 0;
        while i < self.queues.len()
            invariant
                i <= self.queues@.len(),
                forall|j: int| 0 <= j < i ==> #[trigger] self.queues@[j].spec_name()@ != name@,
            decreases self.queues@.len() - i,
        {
            if self.queues[i].name == *name {
                return Some(i);
            }
            i = i + 1;
        }
        None
    }

    /// The topic named `name`, if there is one.
    pub fn get_topic(&self, name: &str) -> (r: Option<&Topic>)
        requires
            self.wf(),
        ensures
            r is Some <==> self.view().topics.contains_key(name@),
            r matches Some(t) ==> t.spec_name()@ == name@ && t.bound() == self.view().topics[name@],
    {
        match self.find_topic(&name.to_owned()) {
            Some(i) => Some(&self.topics[i]),
            None => None,
        }
    }

    /// The queue named `name`, if there is one.
    pub fn get_queue(&self, name: &str) -> (r: Option<&Queue>)
        requires
            self.wf(),
        ensures
            r is Some <==> self.view().queues.contains_key(name@),
            r matches Some(q) ==> q.wf() && q.spec_name()@ == name@ && q.state() == self.view().queues[name@],
    {
        match self.find_queue(&name.to_owned()) {
            Some(i) => Some(&self.queues[i]),
            None => None,
        }
    }

    /// Creates the topic `name` with no queue bound, unless it exists.
    pub fn create_topic(&mut self, name: String)
        requires
            old(self).wf(),
        ensures
            final(self).wf(),
            final(self).view().queues == old(self).view().queues,
            final(self).view().topics == (if old(self).view().topics.contains_key(name@) {
                old(self).view().topics
            } else {
                old(self).view().topics.insert(name@, Set::<Seq<char>>::empty())
            }),
    {
        if self.find_topic(&name).is_some() {
            return;
        }
        let ghost key = name@;
        let ghost old_topics = self.topics@;
        self.topics.push(Topic::new(name));
        self.model = Ghost(
            Broker { topics: self.model@.topics.insert(key, Set::empty()), queues: self.model@.queues },
        );
        assert forall|k: Seq<char>| #[trigger] self.model@.topics.contains_key(k) implies exists|i: int|
            0 <= i < self.topics@.len() && self.topics@[i].spec_name()@ == k by {
            if k == key {
                assert(self.topics@[old_topics.len() as int].spec_name()@ == k);
            } else {
                let i = choose|i: int| 0 <= i < old_topics.len() && old_topics[i].spec_name()@ == k;
                assert(self.topics@[i].spec_name()@ == k);
            }
        }
    }

    /// Creates the empty queue `name` of capacity `cap`, unless a queue of
    /// that name exists: that one keeps its own capacity.
    pub fn create_queue(&mut self, name: String, cap: usize)
        requires
            old(self).wf(),
            0 < cap <= MAX_QUEUE_CAPACITY,
        ensures
            final(self).wf(),
            final(self).view().topics == old(self).view().topics,
            final(self).view().queues == (if old(self).view().queues.contains_key(name@) {
                old(self).view().queues
            } else {
                old(self).view().queues.insert(
                    name@,
                    QueueState { capacity: cap as nat, items: Seq::empty() },
                )
            }),
    {
        if self.find_queue(&name).is_some() {
            return;
        }
        let ghost key = name@;
        let ghost old_queues = self.queues@;
        self.queues.push(Queue::new(name, cap));
        self.model = Ghost(
            Broker {
                topics: self.model@.topics,
                queues: self.model@.queues.insert(
                    key,
                    QueueState { capacity: cap as nat, items: Seq::empty() },
                ),
            },
        );
        assert forall|k: Seq<char>| #[trigger] self.model@.queues.contains_key(k) implies exists|i: int|
            0 <= i < self.queues@.len() && self.queues@[i].spec_name()@ == k by {
            if k == key {
                assert(self.queues@[old_queues.len() as int].spec_name()@ == k);
            } else {
                let i = choose|i: int| 0 <= i < old_queues.len() && old_queues[i].spec_name()@ == k;
                assert(self.queues@[i].spec_name()@ == k);
            }
        }
    }

    /// Binds queue name `queue` to the topic `topic`; `false`, with nothing
    /// changed, where there is no such topic.
    pub fn bind_queue(&mut self, topic: &str, queue: String) -> (r: bool)
        requires
            old(self).wf(),
        ensures
            final(self).wf(),
            r == old(self).view().topics.contains_key(topic@),
            final(self).view().queues == old(self).view().queues,
            final(self).view().topics == (if r {
                old(self).view().topics.insert(
                    topic@,
                    old(self).view().topics[topic@].insert(queue@),
                )
            } else {
                old(self).view().topics
            }),
    {
        match self.find_topic(&topic.to_owned()) {
            None => false,
            Some(i) => {
                let ghost key = topic@;
                let ghost old_topics = self.topics@;
                let ghost qname = queue@;
                self.topics[i].bind(queue);
                self.model = Ghost(
                    Broker {
                        topics: self.model@.topics.insert(
                            key,
                            self.model@.topics[key].insert(qname),
                        ),
                        queues: self.model@.queues,
                    },
                );
                assert forall|j: int| 0 <= j < self.topics@.len() implies #[trigger] self.topics@[j].spec_name()@
                    == old_topics[j].spec_name()@ by {}
                assert forall|k: Seq<char>| #[trigger] self.model@.topics.contains_key(k) implies exists|j: int|
                    0 <= j < self.topics@.len() && self.topics@[j].spec_name()@ == k by {
                    let j = choose|j: int| 0 <= j < old_topics.len() && old_topics[j].spec_name()@ == k;
                    assert(self.topics@[j].spec_name()@ == k);
                }
                true
            },
        }
    }

    /// Appends `v` to the queue `queue` where it exists and has room; says
    /// whether it did. Otherwise nothing changes.
    pub fn push(&mut self, queue: &str, v: Vec<u8>) -> (r: bool)
        requires
            old(self).wf(),
            v@.len() <= u32::MAX,
        ensures
            final(self).wf(),
            final(self).view().topics == old(self).view().topics,
            r == (old(self).view().queues.contains_key(queue@)
                && old(self).view().queues[queue@].items.len() < old(self).view().queues[queue@].capacity),
            final(self).view().queues == (if r {
                old(self).view().queues.insert(
                    queue@,
                    QueueState {
                        capacity: old(self).view().queues[queue@].capacity,
                        items: old(self).view().queues[queue@].items.push(v@),
                    },
                )
            } else {
                old(self).view().queues
            }),
    {
        match self.find_queue(&queue.to_owned()) {
            None => false,
            Some(i) => {
                let ghost key = queue@;
                let ghost old_queues = self.queues@;
                let ghost vv = v@;
                proof {
                    assert(self.queues@[i as int].wf());
                }
                let pushed = self.queues[i].push(v).is_ok();
                if pushed {
                    self.model = Ghost(
                        Broker {
                            topics: self.model@.topics,
                            queues: self.model@.queues.insert(
                                key,
                                QueueState {
                                    capacity: self.model@.queues[key].capacity,
                                    items: self.model@.queues[key].items.push(vv),
                                },
                            ),
                        },
                    );
                }
                assert(self.model@.queues[key] == self.queues@[i as int].state());
                assert forall|j: int| 0 <= j < self.queues@.len() implies #[trigger] self.queues@[j].spec_name()@
                    == old_queues[j].spec_name()@ by {}
                assert forall|k: Seq<char>| #[trigger] self.model@.queues.contains_key(k) implies exists|j: int|
                    0 <= j < self.queues@.len() && self.queues@[j].spec_name()@ == k by {
                    let j = choose|j: int| 0 <= j < old_queues.len() && old_queues[j].spec_name()@ == k;
                    assert(self.queues@[j].spec_name()@ == k);
                }
                pushed
            },
        }
    }

    /// Takes the oldest payload of the queue `queue`, if it exists and holds
    /// one. Otherwise nothing changes.
    pub fn pop(&mut self, queue: &str) -> (r: Option<Vec<u8>>)
        requires
            old(self).wf(),
        ensures
            final(self).wf(),
            final(self).view().topics == old(self).view().topics,
            r is Some == (old(self).view().queues.contains_key(queue@)
                && old(self).view().queues[queue@].items.len() > 0),
            r matches Some(v) ==> v@ == old(self).view().queues[queue@].items[0] && v@.len() <= u32::MAX,
            final(self).view().queues == (if r is Some {
                old(self).view().queues.insert(
                    queue@,
                    QueueState {
                        capacity: old(self).view().queues[queue@].capacity,
                        items: old(self).view().queues[queue@].items.drop_first(),
                    },
                )
            } else {
                old(self).view().queues
            }),
    {
        match self.find_queue(&queue.to_owned()) {
            None => None,
            Some(i) => {
                let ghost key = queue@;
                let ghost old_queues = self.queues@;
                proof {
                    assert(self.queues@[i as int].wf());
                }
                let r = self.queues[i].pop();
                if r.is_some() {
                    self.model = Ghost(
                        Broker {
                            topics: self.model@.topics,
                            queues: self.model@.queues.insert(
                                key,
                                QueueState {
                                    capacity: self.model@.queues[key].capacity,
                                    items: self.model@.queues[key].items.drop_first(),
                                },
                            ),
                        },
                    );
                }
                assert(self.model@.queues[key] == self.queues@[i as int].state());
                assert forall|j: int| 0 <= j < self.queues@.len() implies #[trigger] self.queues@[j].spec_name()@
                    == old_queues[j].spec_name()@ by {}
                assert forall|k: Seq<char>| #[trigger] self.model@.queues.contains_key(k) implies exists|j: int|
                    0 <= j < self.queues@.len() && self.queues@[j].spec_name()@ == k by {
                    let j = choose|j: int| 0 <= j < old_queues.len() && old_queues[j].spec_name()@ == k;
                    assert(self.queues@[j].spec_name()@ == k);
                }
                r
            },
        }
    }
}

/// No queue ever holds more payloads than its capacity, which is positive.
pub proof fn lemma_occupancy_bounded(r: &Registry)
    requires
        r.wf(),
    ensures
        occupancy_bounded(r.view()),
{
    assert forall|k: Seq<char>| #[trigger] r.view().queues.contains_key(k) implies 0
        < r.view().queues[k].capacity && r.view().queues[k].items.len()
        <= r.view().queues[k].capacity && payloads_fit(r.view().queues[k].items) by {
        let i = choose|i: int| 0 <= i < r.queues@.len() && r.queues@[i].spec_name()@ == k;
        assert(r.queues@[i].wf());
    }
}

/// Payloads leave a queue in the order they were pushed. Take two payloads
/// at positions `i < j`: a push keeps both where they are; a pop either
/// moves both one place forward, or, when `i` is the head, hands out the
/// payload at `i` while the one at `j` stays queued. So a consumer that
/// sees both sees the earlier push first.
pub proof fn lemma_fifo_order(items: Seq<Seq<u8>>, v: Seq<u8>, i: int, j: int)
    requires
        0 <= i < j < items.len(),
    ensures
        items.push(v)[i] == items[i] && items.push(v)[j] == items[j],
        i > 0 ==> items.drop_first()[i - 1] == items[i] && items.drop_first()[j - 1] == items[j],
        i == 0 ==> items[0] == items[i] && items.drop_first()[j - 1] == items[j],
{
}

} // verus!
