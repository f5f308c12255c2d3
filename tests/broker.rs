use quique::client::{parse_reply, redirect_step, request_frame, ClientStep};
use quique::cluster::{Cluster, Node};
use quique::handler::{
    consume_ready, handle_bind_queue, handle_consume, handle_create_queue, handle_create_topic,
    handle_metadata, handle_produce, handle_read,
};
use quique::protocol::{put_bytes, put_str, put_u32, Header, Op, ProtoError, Status, MAGIC, VERSION};
use quique::queue::{Queue, Registry, Topic};
use quique::server::{dispatch, frame_reply, next_frame, Followup};

fn node(id: &str, addr: &str) -> Node {
    Node { id: id.to_string(), addr: addr.to_string() }
}

fn single() -> Cluster {
    Cluster::new("node-a", vec![node("node-a", "127.0.0.1:7001")]).unwrap()
}

fn pair(me: &str) -> Cluster {
    Cluster::new(me, vec![node("node-a", "127.0.0.1:7001"), node("node-b", "127.0.0.1:7002")]).unwrap()
}

fn status_bytes(st: Status) -> Vec<u8> {
    st.code().to_be_bytes().to_vec()
}

fn ok_payload(p: &[u8]) -> Vec<u8> {
    let mut v = status_bytes(Status::Success);
    v.extend_from_slice(&(p.len() as u32).to_be_bytes());
    v.extend_from_slice(p);
    v
}

fn str_body(parts: &[&str]) -> Vec<u8> {
    let mut b = Vec::new();
    for p in parts {
        put_str(&mut b, p).unwrap();
    }
    b
}

fn create_topic(c: &Cluster, r: &mut Registry, t: &str) -> Vec<u8> {
    let body = str_body(&[t]);
    let mut cur: &[u8] = &body;
    let mut out = Vec::new();
    handle_create_topic(&mut cur, c, r, &mut out);
    out
}

fn create_queue(r: &mut Registry, q: &str, cap: u32) -> Vec<u8> {
    let mut body = str_body(&[q]);
    put_u32(&mut body, cap);
    let mut cur: &[u8] = &body;
    let mut out = Vec::new();
    handle_create_queue(&mut cur, r, &mut out);
    out
}

fn bind(c: &Cluster, r: &mut Registry, t: &str, q: &str) -> Vec<u8> {
    let body = str_body(&[t, q]);
    let mut cur: &[u8] = &body;
    let mut out = Vec::new();
    handle_bind_queue(&mut cur, c, r, &mut out);
    out
}

fn produce(c: &Cluster, r: &mut Registry, t: &str, p: &[u8]) -> (Vec<u8>, Vec<String>) {
    let mut body = str_body(&[t]);
    put_bytes(&mut body, p);
    let mut cur: &[u8] = &body;
    let mut out = Vec::new();
    let woken = handle_produce(&mut cur, c, r, &mut out);
    (out, woken)
}

fn consume(c: &Cluster, r: &mut Registry, q: &str, timeout: u32) -> (Vec<u8>, Option<(String, u32)>) {
    let mut body = str_body(&[q]);
    put_u32(&mut body, timeout);
    let mut cur: &[u8] = &body;
    let mut out = Vec::new();
    let w = handle_consume(&mut cur, c, r, &mut out);
    (out, w.map(|w| (w.queue, w.timeout_ms)))
}

#[test]
fn queue_is_fifo_and_bounded() {
    let mut q = Queue::new("q".to_string(), 2);
    assert_eq!(q.capacity(), 2);
    assert_eq!(q.push(b"a".to_vec()), Ok(()));
    assert_eq!(q.push(b"b".to_vec()), Ok(()));
    assert_eq!(q.push(b"c".to_vec()), Err(b"c".to_vec()));
    assert_eq!(q.len(), 2);
    assert_eq!(q.pop(), Some(b"a".to_vec()));
    assert_eq!(q.push(b"d".to_vec()), Ok(()));
    assert_eq!(q.pop(), Some(b"b".to_vec()));
    assert_eq!(q.pop(), Some(b"d".to_vec()));
    assert_eq!(q.pop(), None);
    assert_eq!(q.len(), 0);
}

#[test]
fn topic_binding_is_a_set() {
    let mut t = Topic::new("t".to_string());
    t.bind("q1".to_string());
    t.bind("q1".to_string());
    t.bind("q2".to_string());
    let mut names = t.bound_names();
    names.sort();
    assert_eq!(names, vec!["q1".to_string(), "q2".to_string()]);
    t.unbind("q1");
    assert_eq!(t.bound_names(), vec!["q2".to_string()]);
}

#[test]
fn registry_get_or_create_keeps_first_capacity() {
    let mut r = Registry::new();
    assert!(r.get_queue("q").is_none());
    r.create_queue("q".to_string(), 3);
    r.create_queue("q".to_string(), 9);
    assert_eq!(r.get_queue("q").unwrap().capacity(), 3);
    r.create_topic("t".to_string());
    r.create_topic("t".to_string());
    assert!(r.get_topic("t").unwrap().bound_names().is_empty());
    assert!(r.bind_queue("t", "q".to_string()));
    assert!(!r.bind_queue("u", "q".to_string()));
    assert!(r.push("q", b"x".to_vec()));
    assert!(!r.push("nope", b"x".to_vec()));
    assert_eq!(r.pop("q"), Some(b"x".to_vec()));
    assert_eq!(r.pop("q"), None);
}

#[test]
fn single_node_produce_consume() {
    let c = single();
    let mut r = Registry::new();
    assert_eq!(create_topic(&c, &mut r, "t1"), status_bytes(Status::Success));
    assert_eq!(produce(&c, &mut r, "t1", b"hello").0, status_bytes(Status::Success));
    assert_eq!(consume(&c, &mut r, "t1", 0).0, ok_payload(b"hello"));
    assert_eq!(consume(&c, &mut r, "t1", 0).0, status_bytes(Status::Empty));
}

#[test]
fn fan_out_to_bound_queues() {
    let c = single();
    let mut r = Registry::new();
    assert_eq!(create_topic(&c, &mut r, "t1"), status_bytes(Status::Success));
    assert_eq!(create_queue(&mut r, "q2", 8), status_bytes(Status::Success));
    assert_eq!(bind(&c, &mut r, "t1", "q2"), status_bytes(Status::Success));
    let (reply, mut woken) = produce(&c, &mut r, "t1", b"x");
    assert_eq!(reply, status_bytes(Status::Success));
    woken.sort();
    assert_eq!(woken, vec!["q2".to_string(), "t1".to_string()]);
    assert_eq!(consume(&c, &mut r, "t1", 0).0, ok_payload(b"x"));
    assert_eq!(consume(&c, &mut r, "q2", 0).0, ok_payload(b"x"));
}

#[test]
fn redirect_to_leader() {
    let a = pair("node-a");
    let b = pair("node-b");
    let t = (0..1000)
        .map(|i| format!("t{}", i))
        .find(|t| a.leader_of(t).id == "node-b")
        .unwrap();
    let mut ra = Registry::new();
    let mut rb = Registry::new();
    let reply = create_topic(&a, &mut ra, &t);
    let (st, payload) = parse_reply(&reply).unwrap();
    assert_eq!(st, Status::Redirect);
    let next = match redirect_step(0, st, &payload) {
        ClientStep::Follow(addr) => addr,
        _ => panic!("expected a redirect"),
    };
    assert_eq!(next, "127.0.0.1:7002");
    assert!(ra.get_topic(&t).is_none());
    assert_eq!(create_topic(&b, &mut rb, &t), status_bytes(Status::Success));
    assert!(rb.get_topic(&t).is_some());
}

#[test]
fn blocking_consume_is_finished_by_a_produce() {
    let c = single();
    let mut r = Registry::new();
    create_topic(&c, &mut r, "t3");
    let (out, wait) = consume(&c, &mut r, "q3", 500);
    assert!(out.is_empty());
    assert_eq!(wait, Some(("q3".to_string(), 500)));
    assert_eq!(bind(&c, &mut r, "t3", "q3"), status_bytes(Status::Success));
    let (_, woken) = produce(&c, &mut r, "t3", b"z");
    assert!(woken.contains(&"q3".to_string()));
    let mut out = Vec::new();
    assert!(consume_ready(&mut r, "q3", false, &mut out));
    assert_eq!(out, ok_payload(b"z"));
}

#[test]
fn waiting_consume_times_out_empty() {
    let c = single();
    let mut r = Registry::new();
    let (out, wait) = consume(&c, &mut r, "empty", 200);
    assert!(out.is_empty());
    assert_eq!(wait, Some(("empty".to_string(), 200)));
    let mut out = Vec::new();
    assert!(!consume_ready(&mut r, "empty", false, &mut out));
    assert!(out.is_empty());
    assert!(consume_ready(&mut r, "empty", true, &mut out));
    assert_eq!(out, status_bytes(Status::Empty));
}

#[test]
fn consume_with_zero_timeout_never_waits() {
    let c = single();
    let mut r = Registry::new();
    let (out, wait) = consume(&c, &mut r, "fresh", 0);
    assert_eq!(out, status_bytes(Status::Empty));
    assert!(wait.is_none());
    assert_eq!(r.get_queue("fresh").unwrap().capacity(), 1024);
    let body = str_body(&["fresh"]);
    let mut cur: &[u8] = &body;
    let mut out = Vec::new();
    assert!(handle_consume(&mut cur, &c, &mut r, &mut out).is_none());
    assert_eq!(out, status_bytes(Status::Empty));
}

#[test]
fn backpressure_drops_on_full_queue() {
    let c = single();
    let mut r = Registry::new();
    assert_eq!(create_queue(&mut r, "small", 2), status_bytes(Status::Success));
    assert_eq!(create_topic(&c, &mut r, "tS"), status_bytes(Status::Success));
    assert_eq!(bind(&c, &mut r, "tS", "small"), status_bytes(Status::Success));
    for p in [b"a", b"b", b"c"] {
        assert_eq!(produce(&c, &mut r, "tS", p).0, status_bytes(Status::Success));
    }
    assert_eq!(consume(&c, &mut r, "small", 0).0, ok_payload(b"a"));
    assert_eq!(consume(&c, &mut r, "small", 0).0, ok_payload(b"b"));
    assert_eq!(consume(&c, &mut r, "small", 0).0, status_bytes(Status::Empty));
    assert_eq!(consume(&c, &mut r, "tS", 0).0, ok_payload(b"a"));
}

#[test]
fn full_queue_is_skipped_while_others_receive() {
    let c = single();
    let mut r = Registry::new();
    create_topic(&c, &mut r, "t");
    create_queue(&mut r, "one", 1);
    bind(&c, &mut r, "t", "one");
    produce(&c, &mut r, "t", b"1");
    let (reply, woken) = produce(&c, &mut r, "t", b"2");
    assert_eq!(reply, status_bytes(Status::Success));
    assert_eq!(woken, vec!["t".to_string()]);
    assert_eq!(r.get_queue("one").unwrap().len(), 1);
    assert_eq!(r.get_queue("t").unwrap().len(), 2);
}

#[test]
fn empty_payload_is_delivered_as_empty() {
    let c = single();
    let mut r = Registry::new();
    assert_eq!(produce(&c, &mut r, "t0", b"").0, status_bytes(Status::Success));
    assert_eq!(consume(&c, &mut r, "t0", 0).0, ok_payload(b""));
}

#[test]
fn create_topic_twice_is_resource_exists() {
    let c = single();
    let mut r = Registry::new();
    assert_eq!(create_topic(&c, &mut r, "t"), status_bytes(Status::Success));
    produce(&c, &mut r, "t", b"kept");
    assert_eq!(create_topic(&c, &mut r, "t"), status_bytes(Status::ResourceExists));
    assert_eq!(r.get_queue("t").unwrap().len(), 1);
    assert_eq!(r.get_topic("t").unwrap().bound_names(), vec!["t".to_string()]);
}

#[test]
fn create_queue_statuses() {
    let mut r = Registry::new();
    assert_eq!(create_queue(&mut r, "q", 0), status_bytes(Status::BadRequest));
    assert!(r.get_queue("q").is_none());
    assert_eq!(create_queue(&mut r, "q", 4), status_bytes(Status::Success));
    assert_eq!(create_queue(&mut r, "q", 8), status_bytes(Status::ResourceExists));
    assert_eq!(r.get_queue("q").unwrap().capacity(), 4);
    let body = str_body(&["q2"]);
    let mut cur: &[u8] = &body;
    let mut out = Vec::new();
    handle_create_queue(&mut cur, &mut r, &mut out);
    assert_eq!(out, status_bytes(Status::BadRequest));
}

#[test]
fn bind_twice_equals_once_and_unknowns_are_not_found() {
    let c = single();
    let mut r = Registry::new();
    create_topic(&c, &mut r, "t");
    create_queue(&mut r, "q", 4);
    assert_eq!(bind(&c, &mut r, "t", "q"), status_bytes(Status::Success));
    let mut once = r.get_topic("t").unwrap().bound_names();
    once.sort();
    assert_eq!(bind(&c, &mut r, "t", "q"), status_bytes(Status::Success));
    let mut twice = r.get_topic("t").unwrap().bound_names();
    twice.sort();
    assert_eq!(once, twice);
    assert_eq!(bind(&c, &mut r, "nope", "q"), status_bytes(Status::NotFound));
    assert_eq!(bind(&c, &mut r, "t", "nope"), status_bytes(Status::NotFound));
}

#[test]
fn missing_fields_are_bad_requests() {
    let c = single();
    let mut r = Registry::new();
    let mut out = Vec::new();
    let mut cur: &[u8] = &[0, 9];
    handle_create_topic(&mut cur, &c, &mut r, &mut out);
    assert_eq!(out, status_bytes(Status::BadRequest));
    let body = str_body(&["t"]);
    let mut cur: &[u8] = &body;
    let mut out = Vec::new();
    handle_produce(&mut cur, &c, &mut r, &mut out);
    assert_eq!(out, status_bytes(Status::BadRequest));
    assert!(r.get_topic("t").is_none());
    let mut out = Vec::new();
    let mut cur: &[u8] = &[];
    handle_read(&mut cur, &c, &r, &mut out);
    assert_eq!(out, status_bytes(Status::BadRequest));
}

#[test]
fn metadata_names_the_leader_address() {
    let a = pair("node-a");
    let body = str_body(&["orders"]);
    let mut cur: &[u8] = &body;
    let mut out = Vec::new();
    handle_metadata(&mut cur, &a, &mut out);
    let leader = a.leader_of("orders");
    let mut expected = status_bytes(Status::Success);
    expected.extend_from_slice(&[0, 0, 0, 1, 0, 0, 0, 0]);
    put_str(&mut expected, &leader.addr).unwrap();
    assert_eq!(out, expected);
}

#[test]
fn frames_wait_for_the_whole_body() {
    let mut buf = request_frame(Op::Produce, b"abcdef");
    let full = buf.clone();
    buf.truncate(20);
    let kept = buf.clone();
    assert_eq!(next_frame(&mut buf), Ok(None));
    assert_eq!(buf, kept);
    let mut buf = full.clone();
    buf.extend_from_slice(&[0x51, 0x42]);
    let (h, body) = next_frame(&mut buf).unwrap().unwrap();
    assert_eq!(h.op, Op::Produce);
    assert_eq!(h.body_len, 6);
    assert_eq!(body, b"abcdef".to_vec());
    assert_eq!(buf, vec![0x51, 0x42]);
    let mut bad = full.clone();
    bad[4] = 3;
    assert_eq!(next_frame(&mut bad), Err(ProtoError::InvalidVersion(3)));
    assert_eq!(bad, {
        let mut f = full.clone();
        f[4] = 3;
        f
    });
}

#[test]
fn replies_echo_op_and_stream() {
    let req = Header { magic: MAGIC, version: VERSION, op: Op::Consume, flags: 5, stream_id: 42, body_len: 3 };
    let frame = frame_reply(&req, &vec![0, 11]);
    assert_eq!(frame, vec![0x51, 0x42, 0x55, 0x53, 1, 3, 0, 0, 0, 0, 0, 42, 0, 0, 0, 2, 0, 11]);
}

#[test]
fn dispatch_routes_by_opcode() {
    let c = single();
    let mut r = Registry::new();
    let mut out = Vec::new();
    assert!(matches!(dispatch(Op::CreateTopic, &str_body(&["t"]), &c, &mut r, &mut out), Followup::Reply));
    assert_eq!(out, status_bytes(Status::Success));
    let mut body = str_body(&["t"]);
    put_bytes(&mut body, b"p");
    let mut out = Vec::new();
    match dispatch(Op::Produce, &body, &c, &mut r, &mut out) {
        Followup::Wake(names) => assert_eq!(names, vec!["t".to_string()]),
        _ => panic!("expected wake"),
    }
    let mut body = str_body(&["other"]);
    put_u32(&mut body, 10);
    let mut out = Vec::new();
    assert!(matches!(dispatch(Op::Consume, &body, &c, &mut r, &mut out), Followup::Wait(_)));
    assert!(out.is_empty());
    let mut out = Vec::new();
    assert!(matches!(dispatch(Op::Read, &[], &c, &mut r, &mut out), Followup::Reply));
    assert_eq!(out, status_bytes(Status::BadRequest));
}

#[test]
fn client_follows_at_most_five_redirects() {
    let mut payload = Vec::new();
    put_str(&mut payload, "127.0.0.1:7002").unwrap();
    assert!(matches!(redirect_step(0, Status::Success, &payload), ClientStep::Done));
    assert!(matches!(redirect_step(4, Status::Redirect, &payload), ClientStep::Follow(_)));
    assert!(matches!(redirect_step(5, Status::Redirect, &payload), ClientStep::TooManyRedirects));
    assert!(matches!(redirect_step(0, Status::Redirect, &[0]), ClientStep::BadRedirect));
    assert_eq!(parse_reply(&[0, 11, 7]), Some((Status::Empty, vec![7])));
    assert_eq!(parse_reply(&[0]), None);
    assert_eq!(parse_reply(&[0, 1]), None);
}
