//! The static cluster view and rendezvous-hash leader selection.
use vstd::prelude::*;
use vstd::utf8::*;

use crate::protocol::{put_slice, MAX_STR_LEN};

verus! {

/// What `seahash::hash` returns for the given bytes.
pub uninterp spec fn seahash_of(b: Seq<u8>) -> u64;

/// Relies on `seahash::hash`: a 64-bit hash with fixed seeds, so it is a
/// function of the bytes alone, the same on every node.
#[verifier::external_body]
fn seahash_bytes(b: &[u8]) -> (r: u64)
    ensures
        r == seahash_of(b@),
{
    seahash::hash(b)
}

/// A cluster member: its id and its `host:port` address.
#[derive(Debug, Clone)]
pub struct Node {
    pub id: String,
    pub addr: String,
}

impl Node {
    /// A copy of this node.
    pub fn duplicate(&self) -> (r: Node)
        ensures
            r == *self,
    {
        Node { id: self.id.clone(), addr: self.addr.clone() }
    }
}

/// The bytes hashed to rank node `id` for `topic`: `id ":" topic`.
pub open spec fn rank_key(id: Seq<char>, topic: Seq<char>) -> Seq<u8> {
    encode_utf8(id) + seq![0x3au8] + encode_utf8(topic)
}

/// The rank of node `id` for `topic`.
pub open spec fn score(id: Seq<char>, topic: Seq<char>) -> u64 {
    seahash_of(rank_key(id, topic))
}

/// The index, among the first `n` members, of the first one of highest rank.
pub open spec fn first_max(nodes: Seq<Node>, topic: Seq<char>, n: int) -> int
    decreases n,
{
    if n <= 1 {
        0
    } else {
        let k = first_max(nodes, topic, n - 1);
        if score(nodes[n - 1].id@, topic) > score(nodes[k].id@, topic) {
            n - 1
        } else {
            k
        }
    }
}

/// The index of the leader of `topic` among `nodes`.
pub open spec fn leader_index(nodes: Seq<Node>, topic: Seq<char>) -> int {
    first_max(nodes, topic, nodes.len() as int)
}

/// `i` is a member of highest rank for `topic`, and the first such.
pub open spec fn is_first_max(nodes: Seq<Node>, topic: Seq<char>, n: int, i: int) -> bool {
    &&& 0 <= i < n
    &&& forall|j: int| 0 <= j < n ==> score(#[trigger] nodes[j].id@, topic) <= score(nodes[i].id@, topic)
    &&& forall|j: int| 0 <= j < i ==> score(#[trigger] nodes[j].id@, topic) < score(nodes[i].id@, topic)
}

/// No two members share an id.
pub open spec fn ids_unique(nodes: Seq<Node>) -> bool {
    forall|i: int, j: int|
        0 <= i < nodes.len() && 0 <= j < nodes.len() && i != j ==> #[trigger] nodes[i].id@
            != #[trigger] nodes[j].id@
}

/// Every member's address fits a `str` field.
pub open spec fn addrs_fit(nodes: Seq<Node>) -> bool {
    forall|i: int| 0 <= i < nodes.len() ==> encode_utf8(#[trigger] nodes[i].addr@).len() <= MAX_STR_LEN
}

/// The first index of a member with id `id`, if any.
pub open spec fn has_id(nodes: Seq<Node>, id: Seq<char>, i: int) -> bool {
    &&& 0 <= i < nodes.len()
    &&& nodes[i].id@ == id
}

/// Static snapshot of the membership and of this node's own entry.
#[derive(Debug)]
pub struct Cluster {
    pub me: Node,
    pub nodes: Vec<Node>,
}

impl Cluster {
    /// A membership that is not empty, has unique ids and addresses that fit
    /// a `str` field, and holds `me`.
    pub open spec fn wf(&self) -> bool {
        &&& self.nodes@.len() > 0
        &&& ids_unique(self.nodes@)
        &&& addrs_fit(self.nodes@)
        &&& exists|i: int| 0 <= i < self.nodes@.len() && self.nodes@[i] == self.me
    }

    /// The leader of `topic` in this view.
    pub open spec fn leader(&self, topic: Seq<char>) -> Node {
        self.nodes@[leader_index(self.nodes@, topic)]
    }

    /// The view of `nodes` from the member with id `me_id`. `None` where no
    /// member has that id, two members share an id, or an address is longer
    /// than a `str` field holds.
    pub fn new(me_id: &str, nodes: Vec<Node>) -> (r: Option<Cluster>)
        ensures
            r is Some <==> (ids_unique(nodes@) && addrs_fit(nodes@) && exists|i: int|
                has_id(nodes@, me_id@, i)),
            r matches Some(c) ==> c.wf() && c.nodes@ == nodes@ && c.me.id@ == me_id@,
    {
        let me_name = me_id.to_owned();
        let mut found: Option<usize> = None;
        let mut i: usize = 0;
        while i < nodes.len()
            invariant
                i <= nodes@.len(),
                me_name@ == me_id@,
                ids_unique(nodes@.subrange(0, i as int)),
                forall|k: int| 0 <= k < i ==> encode_utf8(#[trigger] nodes@[k].addr@).len() <= MAX_STR_LEN,
                found matches Some(f) ==> f < i && nodes@[f as int].id@ == me_id@,
                found is None ==> forall|k: int| 0 <= k < i ==> #[trigger] nodes@[k].id@ != me_id@,
            decreases nodes@.len() - i,
        {
            let addr_len = nodes[i].addr.as_str().as_bytes().len();
            assert(addr_len == encode_utf8(nodes@[i as int].addr@).len());
            if addr_len > MAX_STR_LEN {
                assert(!addrs_fit(nodes@)) by {
                    assert(encode_utf8(nodes@[i as int].addr@).len() > MAX_STR_LEN);
                }
                return None;
            }
            let mut j: usize = 0;
            while j < i
                invariant
                    i < nodes@.len(),
                    j <= i,
                    forall|k: int| 0 <= k < j ==> #[trigger] nodes@[k].id@ != nodes@[i as int].id@,
                decreases i - j,
            {
                if nodes[j].id == nodes[i].id {
                    assert(!ids_unique(nodes@)) by {
                        assert(nodes@[j as int].id@ == nodes@[i as int].id@);
                    }
                    return None;
                }
                j = j + 1;
            }
            if found.is_none() {
                let same = nodes[i].id.eq(&me_name);
                if same {
                    found = Some(i);
                }
            }
            i = i + 1;
            assert(forall|k: int| 0 <= k < i ==> encode_utf8(#[trigger] nodes@[k].addr@).len() <= MAX_STR_LEN);
            assert(ids_unique(nodes@.subrange(0, i as int))) by {
                let s = nodes@.subrange(0, i as int);
                assert forall|a: int, b: int|
                    0 <= a < s.len() && 0 <= b < s.len() && a != b implies #[trigger] s[a].id@
                    != #[trigger] s[b].id@ by {
                    let p = nodes@.subrange(0, i - 1);
                    if a < i - 1 && b < i - 1 {
                        assert(s[a] == p[a] && s[b] == p[b]);
                    }
                }
            }
        }
        assert(nodes@.subrange(0, i as int) =~= nodes@);
        match found {
            None => None,
            Some(f) => {
                let me = nodes[f].duplicate();
                assert(has_id(nodes@, me_id@, f as int));
                let c = Cluster { me, nodes };
                assert(c.nodes@[f as int] == c.me);
                Some(c)
            },
        }
    }

    /// The member of highest rank for `topic`, the first one on a tie.
    pub fn leader_of(&self, topic: &str) -> (r: Node)
        requires
            self.wf(),
        ensures
            r == self.leader(topic@),
            encode_utf8(r.addr@).len() <= MAX_STR_LEN,
    {
        proof {
            lemma_first_max(self.nodes@, topic@, self.nodes@.len() as int);
        }
        let mut best: usize = 0;
        let mut best_score: u64 = 0;
        let mut i: usize = 0;
        while i < self.nodes.len()
            invariant
                self.nodes@.len() > 0,
                i <= self.nodes@.len(),
                i == 0 ==> best == 0,
                i > 0 ==> best == first_max(self.nodes@, topic@, i as int) && best < i
                    && best_score == score(self.nodes@[best as int].id@, topic@),
            decreases self.nodes@.len() - i,
        {
            let s = self.rank(i, topic);
            if i == 0 || s > best_score {
                best = i;
                best_score = s;
            }
            i = i + 1;
        }
        self.nodes[best].duplicate()
    }

    /// The rank of member `i` for `topic`.
    fn rank(&self, i: usize, topic: &str) -> (r: u64)
        requires
            i < self.nodes@.len(),
        ensures
            r == score(self.nodes@[i as int].id@, topic@),
    {
        let mut key: Vec<u8> = Vec::new();
        put_slice(&mut key, self.nodes[i].id.as_str().as_bytes());
        key.push(0x3au8);
        put_slice(&mut key, topic.as_bytes());
        assert(key@ =~= rank_key(self.nodes@[i as int].id@, topic@));
        seahash_bytes(key.as_slice())
    }

    /// Whether this node leads `topic`.
    pub fn is_leader(&self, topic: &str) -> (r: bool)
        requires
            self.wf(),
        ensures
            r == (self.leader(topic@).id@ == self.me.id@),
    {
        let leader = self.leader_of(topic);
        leader.id == self.me.id
    }
}

proof fn lemma_first_max(nodes: Seq<Node>, topic: Seq<char>, n: int)
    requires
        1 <= n <= nodes.len(),
    ensures
        is_first_max(nodes, topic, n, first_max(nodes, topic, n)),
    decreases n,
{
    if n > 1 {
        lemma_first_max(nodes, topic, n - 1);
    }
}

/// For every topic exactly one member has the leader's id, and the leader
/// depends on the membership alone: two views of one membership, from
/// whichever node, agree on it.
pub proof fn lemma_leader_unique(c: Cluster, other: Cluster, topic: Seq<char>)
    requires
        c.wf(),
        other.nodes@ == c.nodes@,
    ensures
        is_first_max(c.nodes@, topic, c.nodes@.len() as int, leader_index(c.nodes@, topic)),
        forall|j: int|
            0 <= j < c.nodes@.len() ==> (#[trigger] c.nodes@[j].id@ == c.leader(topic).id@ <==> j
                == leader_index(c.nodes@, topic)),
        other.leader(topic) == c.leader(topic),
{
    lemma_first_max(c.nodes@, topic, c.nodes@.len() as int);
}

} // verus!
