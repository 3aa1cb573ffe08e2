//! The nodes of a cluster, its leader, and the requests that peers send.

use vstd::prelude::*;
use vstd::string::StringExecFns;
use crate::keys::EncodedPubkey;

verus! {

/// A node of the cluster. Its address is kept as text.
pub struct Node {
    pub node_id: EncodedPubkey,
    pub address: String,
    pub key: String,
    pub shard: String,
    pub leader: bool,
}

/// What `set_leader` answers for a node that the cluster does not hold.
pub open spec fn not_in_cluster() -> Seq<char> {
    "The specified node is not in the cluster"@
}

/// A cluster: its nodes and, once one is set, the identity of its leader.
pub struct Cluster {
    pub name: String,
    pub nodes: Vec<Node>,
    pub leader: Option<EncodedPubkey>,
}

/// Whether some node of `nodes` has the identity `id`.
pub open spec fn has_node(nodes: Seq<Node>, id: Seq<char>) -> bool {
    exists|i: int| 0 <= i < nodes.len() && (#[trigger] nodes[i]).node_id.0@ == id
}

/// The place of the first node of `nodes` that has the identity `id`.
pub open spec fn first_node(nodes: Seq<Node>, id: Seq<char>) -> int
    decreases nodes.len(),
{
    if nodes.len() == 0 {
        0
    } else if has_node(nodes.drop_last(), id) {
        first_node(nodes.drop_last(), id)
    } else {
        nodes.len() - 1
    }
}

impl Cluster {
    fn find(&self, id: &EncodedPubkey) -> (place: Option<usize>)
        ensures
            match place {
                Some(p) => has_node(self.nodes@, id.0@) && p == first_node(self.nodes@, id.0@)
                    && p < self.nodes@.len() && self.nodes@[p as int].node_id.0@ == id.0@,
                None => !has_node(self.nodes@, id.0@),
            },
    {
        let mut i: usize = 0;
        while i < self.nodes.len()
            invariant
                0 <= i <= self.nodes@.len(),
                !has_node(self.nodes@.take(i as int), id.0@),
            decreases self.nodes@.len() - i,
        {
            if self.nodes[i].node_id.0 == id.0 {
                proof {
                    lemma_first_node(self.nodes@, id.0@, i as int);
                }
                return Some(i);
            }
            proof {
                let shorter = self.nodes@.take(i as int);
                let longer = self.nodes@.take(i + 1);
                if has_node(longer, id.0@) {
                    let w = choose|w: int|
                        0 <= w < longer.len() && (#[trigger] longer[w]).node_id.0@ == id.0@;
                    if w < i {
                        assert(shorter[w].node_id.0@ == id.0@);
                    }
                }
            }
            i = i + 1;
        }
        proof {
            assert(self.nodes@.take(self.nodes@.len() as int) =~= self.nodes@);
        }
        None
    }

    /// Makes the node `leader_node_id` the leader, if the cluster holds it,
    /// and else changes nothing.
    pub fn set_leader(&mut self, leader_node_id: &EncodedPubkey) -> (res: Result<(), String>)
        ensures
            final(self).name == old(self).name,
            final(self).nodes == old(self).nodes,
            if has_node(old(self).nodes@, leader_node_id.0@) {
                &&& res is Ok
                &&& final(self).leader matches Some(l) && l.0@ == leader_node_id.0@
            } else {
                &&& res matches Err(e) && e@ == not_in_cluster()
                &&& final(self).leader == old(self).leader
            },
    {
        match self.find(leader_node_id) {
            Some(_) => {
                self.leader = Some(EncodedPubkey(leader_node_id.0.clone()));
                Ok(())
            },
            None => Err(String::from_str("The specified node is not in the cluster")),
        }
    }

    /// The leader: the first node that has the identity set as leader, if
    /// one is set and the cluster holds it.
    pub fn get_leader(&self) -> (leader: Option<&Node>)
        ensures
            match self.leader {
                Some(id) => if has_node(self.nodes@, id.0@) {
                    leader matches Some(node) && *node == self.nodes@[first_node(
                        self.nodes@,
                        id.0@,
                    )]
                } else {
                    leader is None
                },
                None => leader is None,
            },
    {
        match &self.leader {
            Some(id) => match self.find(id) {
                Some(p) => Some(&self.nodes[p]),
                None => None,
            },
            None => None,
        }
    }
}

/// A node that has an identity which no node before it has is the first of
/// that identity.
pub proof fn lemma_first_node(nodes: Seq<Node>, id: Seq<char>, at: int)
    requires
        0 <= at < nodes.len(),
        nodes[at].node_id.0@ == id,
        !has_node(nodes.take(at), id),
    ensures
        has_node(nodes, id),
        first_node(nodes, id) == at,
    decreases nodes.len(),
{
    assert(has_node(nodes, id));
    if at == nodes.len() - 1 {
        assert(nodes.drop_last() =~= nodes.take(at));
    } else {
        let front = nodes.drop_last();
        assert(front.take(at) =~= nodes.take(at));
        assert(front[at].node_id.0@ == id);
        lemma_first_node(front, id, at);
    }
}

/// The words of `text`: what stands between its runs of white space.
pub uninterp spec fn words_of(text: Seq<char>) -> Seq<Seq<char>>;

/// Calls `str::split_whitespace` and collects the words. The contract
/// claims that they are a function of the text alone.
#[verifier::external_body]
fn split_words(text: &str) -> (words: Vec<String>)
    ensures
        words@.len() == words_of(text@).len(),
        forall|i: int| 0 <= i < words@.len() ==> (#[trigger] words@[i])@ == words_of(text@)[i],
{
    text.split_whitespace().map(|word| word.to_string()).collect()
}

/// What a peer asks for.
#[derive(Debug, Clone, Copy, PartialEq, Eq, Structural)]
pub enum Request {
    GetNode,
    SetNode,
    Unknown,
}

/// The bytes of `GET_NODE`.
pub open spec fn get_node_tag() -> Seq<u8> {
    seq![71u8, 69u8, 84u8, 95u8, 78u8, 79u8, 68u8, 69u8]
}

/// The bytes of `SET_NODE`.
pub open spec fn set_node_tag() -> Seq<u8> {
    seq![83u8, 69u8, 84u8, 95u8, 78u8, 79u8, 68u8, 69u8]
}

/// Whether `text` starts with `tag`.
pub open spec fn starts_with(text: Seq<u8>, tag: Seq<u8>) -> bool {
    text.len() >= tag.len() && text.take(tag.len() as int) == tag
}

fn has_prefix(text: &[u8], tag: &[u8; 8]) -> (has: bool)
    ensures
        has == starts_with(text@, tag@),
{
    if text.len() < 8 {
        return false;
    }
    let mut i: usize = 0;
    while i < 8
        invariant
            0 <= i <= 8,
            text@.len() >= 8,
            forall|j: int| 0 <= j < i ==> text@[j] == tag@[j],
        decreases 8 - i,
    {
        if text[i] != tag[i] {
            assert(text@.take(8)[i as int] != tag@[i as int]);
            return false;
        }
        i = i + 1;
    }
    assert(text@.take(8) =~= tag@);
    true
}

/// Tells what the request `request` asks for by how it starts.
pub fn classify_request(request: &[u8]) -> (kind: Request)
    ensures
        kind == if starts_with(request@, get_node_tag()) {
            Request::GetNode
        } else if starts_with(request@, set_node_tag()) {
            Request::SetNode
        } else {
            Request::Unknown
        },
{
    let get: [u8; 8] = [71u8, 69u8, 84u8, 95u8, 78u8, 79u8, 68u8, 69u8];
    let set: [u8; 8] = [83u8, 69u8, 84u8, 95u8, 78u8, 79u8, 68u8, 69u8];
    assert(get@ =~= get_node_tag());
    assert(set@ =~= set_node_tag());
    if has_prefix(request, &get) {
        Request::GetNode
    } else if has_prefix(request, &set) {
        Request::SetNode
    } else {
        Request::Unknown
    }
}

/// What a `SET_NODE` request sets.
pub struct NodeUpdate {
    pub address: String,
    pub key: String,
    pub shard: String,
    pub leader: bool,
}

/// Reads a request of the form `SET_NODE <address> <key> <shard> <leader>`:
/// five words, of which the last makes the node a leader exactly when it is
/// `true`. A request of another number of words is refused.
pub fn parse_set_node(request: &str) -> (update: Option<NodeUpdate>)
    ensures
        match update {
            Some(u) => {
                &&& words_of(request@).len() == 5
                &&& u.address@ == words_of(request@)[1]
                &&& u.key@ == words_of(request@)[2]
                &&& u.shard@ == words_of(request@)[3]
                &&& u.leader == (words_of(request@)[4] == "true"@)
            },
            None => words_of(request@).len() != 5,
        },
{
    let words: Vec<String> = split_words(request);
    if words.len() != 5 {
        return None;
    }
    let yes: String = String::from_str("true");
    Some(
        NodeUpdate {
            address: words[1].clone(),
            key: words[2].clone(),
            shard: words[3].clone(),
            leader: words[4] == yes,
        },
    )
}

/// Applies `update` to `node`: all but the node's identity is replaced.
pub fn apply_update(node: &mut Node, update: NodeUpdate)
    ensures
        final(node).node_id == old(node).node_id,
        final(node).address == update.address,
        final(node).key == update.key,
        final(node).shard == update.shard,
        final(node).leader == update.leader,
{
    node.address = update.address;
    node.key = update.key;
    node.shard = update.shard;
    node.leader = update.leader;
}

} // verus!
