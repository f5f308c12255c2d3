//! One handler per opcode: each reads its request fields, enforces
//! leadership, updates the registry and writes the reply body.
use vstd::prelude::*;

use crate::cluster::Cluster;
use crate::protocol::{
    be16, be32, bytes_field, get_bytes, get_str, get_u32, put_bytes, put_status, put_str, put_u32,
    str_field, take_bytes, take_str, take_u32, Status,
};
use crate::queue::{Broker, QueueState, Registry, MAX_QUEUE_CAPACITY};

verus! {

/// Capacity of the queue created on a topic's behalf or by a consumer.
pub const DEFAULT_QUEUE_CAPACITY: usize = 1024;

/// The wire form of a reply status.
pub open spec fn status_field(st: Status) -> Seq<u8> {
    be16(st.spec_code())
}

/// `Redirect` with the leader's address.
pub open spec fn redirect_reply(c: Cluster, topic: Seq<char>) -> Seq<u8> {
    status_field(Status::Redirect) + str_field(c.leader(topic).addr@)
}

/// Whether this node leads `topic`.
pub open spec fn leads(c: Cluster, topic: Seq<char>) -> bool {
    c.leader(topic).id@ == c.me.id@
}

/// `qs` with an empty queue `name` of the default capacity, unless it holds one.
pub open spec fn with_queue(qs: Map<Seq<char>, QueueState>, name: Seq<char>) -> Map<
    Seq<char>,
    QueueState,
> {
    if qs.contains_key(name) {
        qs
    } else {
        qs.insert(name, QueueState { capacity: DEFAULT_QUEUE_CAPACITY as nat, items: Seq::empty() })
    }
}

/// `b` where topic `t` exists, and a queue `t` exists and is bound to it.
pub open spec fn with_default_route(b: Broker, t: Seq<char>) -> Broker {
    let bound = if b.topics.contains_key(t) {
        b.topics[t]
    } else {
        Set::<Seq<char>>::empty()
    };
    Broker { topics: b.topics.insert(t, bound.insert(t)), queues: with_queue(b.queues, t) }
}

/// Each queue named in `names` that has room gets `p` appended.
pub open spec fn fan_out(qs: Map<Seq<char>, QueueState>, names: Set<Seq<char>>, p: Seq<u8>) -> Map<
    Seq<char>,
    QueueState,
> {
    Map::new(
        |k: Seq<char>| qs.contains_key(k),
        |k: Seq<char>|
            if names.contains(k) && qs[k].items.len() < qs[k].capacity {
                QueueState { capacity: qs[k].capacity, items: qs[k].items.push(p) }
            } else {
                qs[k]
            },
    )
}

/// Reply to `Metadata`: `Ok | u32 1 | u32 0 | str leader_addr`.
pub open spec fn metadata_reply(c: Cluster, body: Seq<u8>) -> Seq<u8> {
    match take_str(body) {
        None => status_field(Status::BadRequest),
        Some((t, _)) => status_field(Status::Success) + be32(1) + be32(0) + str_field(
            c.leader(t).addr@,
        ),
    }
}

/// Reply to `CreateTopic` and the registry after it.
pub open spec fn create_topic_effect(c: Cluster, b: Broker, body: Seq<u8>) -> (Seq<u8>, Broker) {
    match take_str(body) {
        None => (status_field(Status::BadRequest), b),
        Some((t, _)) => if !leads(c, t) {
            (redirect_reply(c, t), b)
        } else if b.topics.contains_key(t) {
            (status_field(Status::ResourceExists), b)
        } else {
            (status_field(Status::Success), with_default_route(b, t))
        },
    }
}

/// Reply to `CreateQueue` and the registry after it.
pub open spec fn create_queue_effect(b: Broker, body: Seq<u8>) -> (Seq<u8>, Broker) {
    match take_str(body) {
        None => (status_field(Status::BadRequest), b),
        Some((q, rest)) => match take_u32(rest) {
            None => (status_field(Status::BadRequest), b),
            Some((cap, _)) => if b.queues.contains_key(q) {
                (status_field(Status::ResourceExists), b)
            } else if cap == 0 || cap > MAX_QUEUE_CAPACITY {
                (status_field(Status::BadRequest), b)
            } else {
                (
                    status_field(Status::Success),
                    Broker {
                        topics: b.topics,
                        queues: b.queues.insert(
                            q,
                            QueueState { capacity: cap as nat, items: Seq::empty() },
                        ),
                    },
                )
            },
        },
    }
}

/// Reply to `BindQueue` and the registry after it.
pub open spec fn bind_queue_effect(c: Cluster, b: Broker, body: Seq<u8>) -> (Seq<u8>, Broker) {
    match take_str(body) {
        None => (status_field(Status::BadRequest), b),
        Some((t, rest)) => match take_str(rest) {
            None => (status_field(Status::BadRequest), b),
            Some((q, _)) => if !leads(c, t) {
                (redirect_reply(c, t), b)
            } else if !b.topics.contains_key(t) || !b.queues.contains_key(q) {
                (status_field(Status::NotFound), b)
            } else {
                (
                    status_field(Status::Success),
                    Broker { topics: b.topics.insert(t, b.topics[t].insert(q)), queues: b.queues },
                )
            },
        },
    }
}

/// Reply to `Produce` and the registry after it: the payload goes to every
/// bound queue with room; full ones are skipped.
pub open spec fn produce_effect(c: Cluster, b: Broker, body: Seq<u8>) -> (Seq<u8>, Broker) {
    match take_str(body) {
        None => (status_field(Status::BadRequest), b),
        Some((t, rest)) => match take_bytes(rest) {
            None => (status_field(Status::BadRequest), b),
            Some((p, _)) => if !leads(c, t) {
                (redirect_reply(c, t), b)
            } else {
                let b1 = with_default_route(b, t);
                (
                    status_field(Status::Success),
                    Broker { topics: b1.topics, queues: fan_out(b1.queues, b1.topics[t], p) },
                )
            },
        },
    }
}

/// The queue name and timeout of a `Consume` request; a missing timeout is 0.
pub open spec fn consume_request(body: Seq<u8>) -> Option<(Seq<char>, u32)> {
    match take_str(body) {
        None => None,
        Some((q, rest)) => Some(
            (
                q,
                match take_u32(rest) {
                    Some((t, _)) => t,
                    None => 0,
                },
            ),
        ),
    }
}

/// Reply to a `Consume` of queue `q` once the queue exists: the oldest
/// payload, `Empty` when there is none and no wait is left, and nothing yet
/// when there is none and a wait is left.
pub open spec fn consume_reply(qs: Map<Seq<char>, QueueState>, q: Seq<char>, wait: bool) -> Seq<u8> {
    if qs[q].items.len() > 0 {
        status_field(Status::Success) + bytes_field(qs[q].items[0])
    } else if wait {
        Seq::empty()
    } else {
        status_field(Status::Empty)
    }
}

/// Queue `q` after a consume takes from it.
pub open spec fn consume_queues(qs: Map<Seq<char>, QueueState>, q: Seq<char>) -> Map<
    Seq<char>,
    QueueState,
> {
    if qs[q].items.len() > 0 {
        qs.insert(q, QueueState { capacity: qs[q].capacity, items: qs[q].items.drop_first() })
    } else {
        qs
    }
}

/// What a consumer still waits for: queue name and timeout in milliseconds.
pub struct Wait {
    pub queue: String,
    pub timeout_ms: u32,
}

/// Appends `Redirect | str leader_addr` for `topic`.
fn put_redirect(c: &Cluster, topic: &String, out: &mut Vec<u8>)
    requires
        c.wf(),
    ensures
        final(out)@ == old(out)@ + redirect_reply(*c, topic@),
{
    let leader = c.leader_of(topic.as_str());
    put_status(out, Status::Redirect);
    let _ = put_str(out, leader.addr.as_str());
}

/// `Metadata`: where the leader of a topic is. Any node answers.
pub fn handle_metadata(body: &mut &[u8], cluster: &Cluster, out: &mut Vec<u8>)
    requires
        cluster.wf(),
    ensures
        final(out)@ == old(out)@ + metadata_reply(*cluster, old(body)@),
{
    let topic = match get_str(body) {
        Some(t) => t,
        None => {
            put_status(out, Status::BadRequest);
            return ;
        },
    };
    put_status(out, Status::Success);
    put_u32(out, 1);
    let leader = cluster.leader_of(topic.as_str());
    put_u32(out, 0);
    let _ = put_str(out, leader.addr.as_str());
    assert(final(out)@ =~= old(out)@ + metadata_reply(*cluster, old(body)@));
}

/// `CreateTopic`: on the leader, creates the topic with its default queue
/// bound, or answers `ResourceExists`; elsewhere redirects.
pub fn handle_create_topic(
    body: &mut &[u8],
    cluster: &Cluster,
    registry: &mut Registry,
    out: &mut Vec<u8>,
)
    requires
        cluster.wf(),
        old(registry).wf(),
    ensures
        final(registry).wf(),
        final(out)@ == old(out)@ + create_topic_effect(*cluster, old(registry).view(), old(body)@).0,
        final(registry).view() == create_topic_effect(*cluster, old(registry).view(), old(body)@).1,
{
    let topic = match get_str(body) {
        Some(t) => t,
        None => {
            put_status(out, Status::BadRequest);
            return ;
        },
    };
    if !cluster.is_leader(topic.as_str()) {
        put_redirect(cluster, &topic, out);
        return ;
    }
    if registry.get_topic(topic.as_str()).is_some() {
        put_status(out, Status::ResourceExists);
        return ;
    }
    let ghost b0 = registry.view();
    registry.create_topic(topic.clone());
    registry.create_queue(topic.clone(), DEFAULT_QUEUE_CAPACITY);
    let ghost t = topic@;
    registry.bind_queue(topic.as_str(), topic.clone());
    assert(registry.view().topics =~= with_default_route(b0, t).topics);
    put_status(out, Status::Success);
}

/// `CreateQueue`: creates a queue of the requested capacity on this node,
/// or answers `ResourceExists`. A capacity of 0, or over
/// `MAX_QUEUE_CAPACITY`, is `BadRequest`.
pub fn handle_create_queue(body: &mut &[u8], registry: &mut Registry, out: &mut Vec<u8>)
    requires
        old(registry).wf(),
    ensures
        final(registry).wf(),
        final(out)@ == old(out)@ + create_queue_effect(old(registry).view(), old(body)@).0,
        final(registry).view() == create_queue_effect(old(registry).view(), old(body)@).1,
{
    let queue = match get_str(body) {
        Some(q) => q,
        None => {
            put_status(out, Status::BadRequest);
            return ;
        },
    };
    let cap = match get_u32(body) {
        Some(c) => c,
        None => {
            put_status(out, Status::BadRequest);
            return ;
        },
    };
    if registry.get_queue(queue.as_str()).is_some() {
        put_status(out, Status::ResourceExists);
        return ;
    }
    if cap == 0 || cap as usize > MAX_QUEUE_CAPACITY {
        put_status(out, Status::BadRequest);
        return ;
    }
    registry.create_queue(queue, cap as usize);
    put_status(out, Status::Success);
}

/// `BindQueue`: on the leader, binds a local queue to a known topic, or
/// answers `NotFound`; elsewhere redirects.
pub fn handle_bind_queue(
    body: &mut &[u8],
    cluster: &Cluster,
    registry: &mut Registry,
    out: &mut Vec<u8>,
)
    requires
        cluster.wf(),
        old(registry).wf(),
    ensures
        final(registry).wf(),
        final(out)@ == old(out)@ + bind_queue_effect(*cluster, old(registry).view(), old(body)@).0,
        final(registry).view() == bind_queue_effect(*cluster, old(registry).view(), old(body)@).1,
{
    let topic = match get_str(body) {
        Some(t) => t,
        None => {
            put_status(out, Status::BadRequest);
            return ;
        },
    };
    let queue = match get_str(body) {
        Some(q) => q,
        None => {
            put_status(out, Status::BadRequest);
            return ;
        },
    };
    if !cluster.is_leader(topic.as_str()) {
        put_redirect(cluster, &topic, out);
        return ;
    }
    if registry.get_topic(topic.as_str()).is_none() || registry.get_queue(queue.as_str()).is_none() {
        put_status(out, Status::NotFound);
        return ;
    }
    registry.bind_queue(topic.as_str(), queue);
    put_status(out, Status::Success);
}

/// `Read`: the opcode is reserved and always refused.
pub fn handle_read(_body: &mut &[u8], _cluster: &Cluster, _registry: &Registry, out: &mut Vec<u8>)
    ensures
        final(out)@ == old(out)@ + status_field(Status::BadRequest),
{
    put_status(out, Status::BadRequest);
}

/// Some of the first `n` names is `k`.
pub open spec fn seen(names: Seq<String>, n: int, k: Seq<char>) -> bool {
    exists|j: int| 0 <= j < n && (#[trigger] names[j])@ == k
}

/// Queue `k` of `qs` exists and has room for one more payload.
pub open spec fn has_room(qs: Map<Seq<char>, QueueState>, k: Seq<char>) -> bool {
    qs.contains_key(k) && qs[k].items.len() < qs[k].capacity
}

/// The queues that a `Produce` of `body` appends to.
pub open spec fn produce_targets(c: Cluster, b: Broker, body: Seq<u8>) -> Set<Seq<char>> {
    match take_str(body) {
        None => Set::empty(),
        Some((t, rest)) => match take_bytes(rest) {
            None => Set::empty(),
            Some((p, _)) => if !leads(c, t) {
                Set::empty()
            } else {
                let b1 = with_default_route(b, t);
                Set::new(|k: Seq<char>| b1.topics[t].contains(k) && has_room(b1.queues, k))
            },
        },
    }
}

/// `Produce`: on the leader, creates the topic and its default queue where
/// missing, then appends the payload to every bound queue with room; full
/// queues are skipped and the reply is `Ok` all the same. Elsewhere
/// redirects. Returns the names of the queues that took the payload, each
/// once, so that their waiting consumers can be woken.
pub fn handle_produce(
    body: &mut &[u8],
    cluster: &Cluster,
    registry: &mut Registry,
    out: &mut Vec<u8>,
) -> (woken: Vec<String>)
    requires
        cluster.wf(),
        old(registry).wf(),
    ensures
        final(registry).wf(),
        final(out)@ == old(out)@ + produce_effect(*cluster, old(registry).view(), old(body)@).0,
        final(registry).view() == produce_effect(*cluster, old(registry).view(), old(body)@).1,
        forall|i: int|
            0 <= i < woken@.len() ==> produce_targets(*cluster, old(registry).view(), old(body)@).contains(
                #[trigger] woken@[i]@,
            ),
        forall|k: Seq<char>|
            #[trigger] produce_targets(*cluster, old(registry).view(), old(body)@).contains(k)
                ==> seen(woken@, woken@.len() as int, k),
        forall|i: int, j: int| 0 <= i < j < woken@.len() ==> woken@[i]@ != woken@[j]@,
{
    let topic = match get_str(body) {
        Some(t) => t,
        None => {
            put_status(out, Status::BadRequest);
            return Vec::new();
        },
    };
    let data = match get_bytes(body) {
        Some(d) => d,
        None => {
            put_status(out, Status::BadRequest);
            return Vec::new();
        },
    };
    if !cluster.is_leader(topic.as_str()) {
        put_redirect(cluster, &topic, out);
        return Vec::new();
    }
    let ghost b0 = registry.view();
    let ghost t = topic@;
    registry.create_topic(topic.clone());
    registry.create_queue(topic.clone(), DEFAULT_QUEUE_CAPACITY);
    registry.bind_queue(topic.as_str(), topic.clone());
    let ghost b1 = with_default_route(b0, t);
    assert(registry.view().topics =~= b1.topics);
    let names = match registry.get_topic(topic.as_str()) {
        Some(tp) => tp.bound_names(),
        None => Vec::new(),
    };
    let ghost q1 = registry.view().queues;
    let ghost bound = b1.topics[t];
    let mut woken: Vec<String> = Vec::new();
    let mut i: usize = 0;
    while i < names.len()
        invariant
            registry.wf(),
            registry.view().topics == b1.topics,
            data@.len() <= u32::MAX,
            i <= names@.len(),
            forall|j: int| 0 <= j < names@.len() ==> bound.contains(#[trigger] names@[j]@),
            forall|k: Seq<char>| #[trigger] bound.contains(k) ==> seen(names@, names@.len() as int, k),
            forall|a: int, c: int| 0 <= a < c < names@.len() ==> names@[a]@ != names@[c]@,
            registry.view().queues.dom() == q1.dom(),
            forall|k: Seq<char>|
                #[trigger] q1.contains_key(k) ==> registry.view().queues[k] == (if seen(
                    names@,
                    i as int,
                    k,
                ) && has_room(q1, k) {
                    QueueState { capacity: q1[k].capacity, items: q1[k].items.push(data@) }
                } else {
                    q1[k]
                }),
            forall|w: int| 0 <= w < woken@.len() ==> seen(names@, i as int, #[trigger] woken@[w]@) && has_room(q1, woken@[w]@),
            forall|k: Seq<char>| seen(names@, i as int, k) && #[trigger] has_room(q1, k) ==> seen(woken@, woken@.len() as int, k),
            forall|a: int, c: int| 0 <= a < c < woken@.len() ==> woken@[a]@ != woken@[c]@,
        decreases names@.len() - i,
    {
        let ghost before = registry.view().queues;
        let ghost k0 = names@[i as int]@;
        let ghost old_woken = woken@;
        assert(!seen(names@, i as int, k0));
        let pushed = registry.push(names[i].as_str(), vstd::slice::slice_to_vec(data.as_slice()));
        proof {
            if q1.contains_key(k0) {
                assert(before[k0] == q1[k0]);
            }
        }
        if pushed {
            woken.push(names[i].clone());
        }
        i = i + 1;
        proof {
            assert forall|k: Seq<char>| seen(names@, i as int, k) == (seen(names@, i - 1, k) || k == k0) by {
                if k == k0 {
                    assert(names@[i - 1]@ == k);
                }
                if seen(names@, i as int, k) && k != k0 {
                    let j = choose|j: int| 0 <= j < i && (#[trigger] names@[j])@ == k;
                    assert(j < i - 1);
                }
            }
            assert forall|k: Seq<char>| #[trigger] q1.contains_key(k) implies registry.view().queues[k] == (if seen(
                names@,
                i as int,
                k,
            ) && has_room(q1, k) {
                QueueState { capacity: q1[k].capacity, items: q1[k].items.push(data@) }
            } else {
                q1[k]
            }) by {}
            assert forall|w: int| 0 <= w < woken@.len() implies seen(names@, i as int, #[trigger] woken@[w]@) && has_room(q1, woken@[w]@) by {
                if w < woken@.len() - 1 || !pushed {
                } else {
                    assert(names@[i - 1]@ == woken@[w]@);
                }
            }
            assert forall|k: Seq<char>| seen(names@, i as int, k) && #[trigger] has_room(q1, k) implies seen(woken@, woken@.len() as int, k) by {
                if k == k0 {
                    assert(pushed);
                    assert(woken@[woken@.len() - 1]@ == k);
                } else {
                    assert(seen(names@, i - 1, k));
                    assert(seen(old_woken, old_woken.len() as int, k));
                    let w = choose|w: int| 0 <= w < old_woken.len() && (#[trigger] old_woken[w])@ == k;
                    assert(woken@[w]@ == k);
                }
            }
            assert forall|a: int, c: int| 0 <= a < c < woken@.len() implies woken@[a]@ != woken@[c]@ by {
                if pushed && c == woken@.len() - 1 {
                    assert(seen(names@, i - 1, woken@[a]@));
                }
            }
        }
    }
    proof {
        assert forall|k: Seq<char>| seen(names@, names@.len() as int, k) == bound.contains(k) by {
            if seen(names@, names@.len() as int, k) {
                let j = choose|j: int| 0 <= j < names@.len() && (#[trigger] names@[j])@ == k;
            }
        }
        assert(registry.view().queues =~= fan_out(q1, bound, data@));
        let targets = produce_targets(*cluster, b0, old(body)@);
        assert(targets =~= Set::new(|k: Seq<char>| bound.contains(k) && has_room(q1, k)));
    }
    put_status(out, Status::Success);
    woken
}

/// Whether queue `q` of `qs` holds a payload.
pub open spec fn has_payload(qs: Map<Seq<char>, QueueState>, q: Seq<char>) -> bool {
    qs.contains_key(q) && qs[q].items.len() > 0
}

/// `Consume`: creates the queue where missing, then takes its oldest
/// payload. An empty queue answers `Empty` at once when the timeout is 0;
/// with a positive timeout nothing is written and the returned `Wait` asks
/// the caller to wait for a push, then to finish with `consume_ready`.
pub fn handle_consume(
    body: &mut &[u8],
    cluster: &Cluster,
    registry: &mut Registry,
    out: &mut Vec<u8>,
) -> (r: Option<Wait>)
    requires
        old(registry).wf(),
    ensures
        final(registry).wf(),
        final(registry).view().topics == old(registry).view().topics,
        (match consume_request(old(body)@) {
            None => final(out)@ == old(out)@ + status_field(Status::BadRequest)
                && final(registry).view() == old(registry).view() && r is None,
            Some((q, t)) => {
                let qs = with_queue(old(registry).view().queues, q);
                &&& final(out)@ == old(out)@ + consume_reply(qs, q, t > 0)
                &&& final(registry).view().queues == consume_queues(qs, q)
                &&& r is Some <==> (qs[q].items.len() == 0 && t > 0)
                &&& r matches Some(w) ==> w.queue@ == q && w.timeout_ms == t
            },
        }),
{
    let queue = match get_str(body) {
        Some(q) => q,
        None => {
            put_status(out, Status::BadRequest);
            return None;
        },
    };
    let timeout_ms = match get_u32(body) {
        Some(t) => t,
        None => 0,
    };
    registry.create_queue(queue.clone(), DEFAULT_QUEUE_CAPACITY);
    match registry.pop(queue.as_str()) {
        Some(v) => {
            put_status(out, Status::Success);
            put_bytes(out, v.as_slice());
            None
        },
        None => {
            if timeout_ms == 0 {
                put_status(out, Status::Empty);
                None
            } else {
                Some(Wait { queue, timeout_ms })
            }
        },
    }
}

/// Finishes a waiting `Consume` of queue `queue`: the oldest payload if
/// there is one; else `Empty` once the wait has timed out; else nothing is
/// written and `false` says to keep waiting.
pub fn consume_ready(registry: &mut Registry, queue: &str, timed_out: bool, out: &mut Vec<u8>) -> (done: bool)
    requires
        old(registry).wf(),
    ensures
        final(registry).wf(),
        final(registry).view().topics == old(registry).view().topics,
        done == (has_payload(old(registry).view().queues, queue@) || timed_out),
        has_payload(old(registry).view().queues, queue@) ==> final(out)@ == old(out)@
            + consume_reply(old(registry).view().queues, queue@, false)
            && final(registry).view().queues == consume_queues(old(registry).view().queues, queue@),
        !has_payload(old(registry).view().queues, queue@) ==> final(registry).view() == old(registry).view()
            && final(out)@ == old(out)@ + (if timed_out { status_field(Status::Empty) } else { Seq::empty() }),
{
    match registry.pop(queue) {
        Some(v) => {
            put_status(out, Status::Success);
            put_bytes(out, v.as_slice());
            true
        },
        None => {
            if timed_out {
                put_status(out, Status::Empty);
            }
            assert(final(out)@ =~= old(out)@ + (if timed_out { status_field(Status::Empty) } else { Seq::empty() }));
            timed_out
        },
    }
}

/// A `CreateTopic` answered `Ok` or `ResourceExists` leaves the topic in
/// the registry, so `get_topic` finds it; a `CreateQueue` answered so leaves
/// the queue there, so `get_queue` finds it.
pub proof fn lemma_created_is_found(c: Cluster, b: Broker, body: Seq<u8>)
    ensures
        ({
            let (reply, b1) = create_topic_effect(c, b, body);
            (reply == status_field(Status::Success) || reply == status_field(Status::ResourceExists))
                ==> (take_str(body) matches Some((t, _)) && b1.topics.contains_key(t))
        }),
        ({
            let (reply, b1) = create_queue_effect(b, body);
            (reply == status_field(Status::Success) || reply == status_field(Status::ResourceExists))
                ==> (take_str(body) matches Some((q, _)) && b1.queues.contains_key(q))
        }),
{
    assert(status_field(Status::Success) != status_field(Status::BadRequest)) by {
        assert(status_field(Status::Success)[1] != status_field(Status::BadRequest)[1]);
    }
    assert(status_field(Status::ResourceExists) != status_field(Status::BadRequest)) by {
        assert(status_field(Status::ResourceExists)[1] != status_field(Status::BadRequest)[1]);
    }
    match take_str(body) {
        None => {},
        Some((t, _)) => {
            if !leads(c, t) {
                let r = redirect_reply(c, t);
                assert(r[1] == status_field(Status::Redirect)[1]);
                assert(r != status_field(Status::Success) && r != status_field(Status::ResourceExists)) by {
                    assert(r[1] != status_field(Status::Success)[1]);
                    assert(r[1] != status_field(Status::ResourceExists)[1]);
                }
            }
        },
    }
}

/// `CreateTopic` that answered `Ok`, sent again, answers `ResourceExists`
/// and changes nothing.
pub proof fn lemma_create_topic_twice(c: Cluster, b: Broker, body: Seq<u8>)
    requires
        create_topic_effect(c, b, body).0 == status_field(Status::Success),
    ensures
        create_topic_effect(c, create_topic_effect(c, b, body).1, body) == (
            status_field(Status::ResourceExists),
            create_topic_effect(c, b, body).1,
        ),
{
    assert(status_field(Status::Success) != status_field(Status::BadRequest)) by {
        assert(status_field(Status::Success)[1] != status_field(Status::BadRequest)[1]);
    }
    assert(status_field(Status::Success) != status_field(Status::ResourceExists)) by {
        assert(status_field(Status::Success)[1] != status_field(Status::ResourceExists)[1]);
    }
    match take_str(body) {
        None => {},
        Some((t, _)) => {
            if !leads(c, t) {
                let r = redirect_reply(c, t);
                assert(r[1] == status_field(Status::Redirect)[1]);
                assert(r != status_field(Status::Success)) by {
                    assert(r[1] != status_field(Status::Success)[1]);
                }
            }
        },
    }
}

/// `BindQueue` sent twice leaves the registry as sending it once does.
pub proof fn lemma_bind_queue_twice(c: Cluster, b: Broker, body: Seq<u8>)
    ensures
        bind_queue_effect(c, bind_queue_effect(c, b, body).1, body).1 == bind_queue_effect(
            c,
            b,
            body,
        ).1,
{
    match take_str(body) {
        None => {},
        Some((t, rest)) => match take_str(rest) {
            None => {},
            Some((q, _)) => {
                if leads(c, t) && b.topics.contains_key(t) && b.queues.contains_key(q) {
                    let b1 = bind_queue_effect(c, b, body).1;
                    assert(b1.topics[t].insert(q) =~= b1.topics[t]);
                    assert(b1.topics.insert(t, b1.topics[t].insert(q)) =~= b1.topics);
                }
            },
        },
    }
}

} // verus!
