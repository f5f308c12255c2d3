use quique::cluster::{Cluster, Node};

fn node(id: &str, addr: &str) -> Node {
    Node { id: id.to_string(), addr: addr.to_string() }
}

fn members() -> Vec<Node> {
    vec![node("node-a", "127.0.0.1:7001"), node("node-b", "127.0.0.1:7002"), node("node-c", "127.0.0.1:7003")]
}

fn rank(id: &str, topic: &str) -> u64 {
    seahash::hash(format!("{}:{}", id, topic).as_bytes())
}

#[test]
fn leader_is_the_highest_seahash_rank() {
    let c = Cluster::new("node-a", members()).unwrap();
    for t in ["t1", "orders", "", "ünï"] {
        let leader = c.leader_of(t);
        let best = members()
            .into_iter()
            .max_by_key(|n| rank(&n.id, t))
            .unwrap();
        assert_eq!(leader.id, best.id);
        for n in members() {
            assert!(rank(&n.id, t) <= rank(&leader.id, t));
        }
    }
}

#[test]
fn every_node_agrees_on_the_leader() {
    let a = Cluster::new("node-a", members()).unwrap();
    let b = Cluster::new("node-b", members()).unwrap();
    let c = Cluster::new("node-c", members()).unwrap();
    for i in 0..50 {
        let t = format!("topic-{}", i);
        let l = a.leader_of(&t);
        assert_eq!(l.id, b.leader_of(&t).id);
        assert_eq!(l.id, c.leader_of(&t).id);
        let leaders = [a.is_leader(&t), b.is_leader(&t), c.is_leader(&t)];
        assert_eq!(leaders.iter().filter(|x| **x).count(), 1);
    }
}

#[test]
fn cluster_needs_own_id_and_unique_ids() {
    assert!(Cluster::new("node-z", members()).is_none());
    let mut dup = members();
    dup.push(node("node-a", "10.0.0.1:1"));
    assert!(Cluster::new("node-a", dup).is_none());
    let long = vec![node("node-a", &"h".repeat(70000))];
    assert!(Cluster::new("node-a", long).is_none());
    let c = Cluster::new("node-b", members()).unwrap();
    assert_eq!(c.me.addr, "127.0.0.1:7002");
    assert_eq!(c.nodes.len(), 3);
}
