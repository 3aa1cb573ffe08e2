//! The consistent hash ring that assigns keys to shard paths.

use std::collections::hash_map::DefaultHasher;
use std::hash::Hasher;
use vstd::prelude::*;
use vstd::string::StringExecFns;
use crate::clock::now;
use crate::decimal::{decimal_text, to_decimal};

verus! {

/// What `DefaultHasher` makes of the text `text`.
pub uninterp spec fn default_hash(text: Seq<char>) -> u64;

/// Feeds `key` to a `DefaultHasher` made by `DefaultHasher::new` and returns
/// what `finish` gives. The contract claims that this is a function of the
/// text alone: all hashers made by `new` are the same.
#[verifier::external_body]
fn hash_text(key: &str) -> (h: u64)
    ensures
        h == default_hash(key@),
{
    let mut hasher = DefaultHasher::new();
    std::hash::Hash::hash(key, &mut hasher);
    hasher.finish()
}

/// The points of a ring as the contracts see them: positions with the node
/// that owns each.
pub type RingPoints = Seq<(u64, Seq<char>)>;

/// Whether the positions of `s` strictly ascend.
pub open spec fn ring_sorted(s: RingPoints) -> bool {
    forall|i: int, j: int| #![trigger s[i], s[j]] 0 <= i < j < s.len() ==> s[i].0 < s[j].0
}

/// The number of points of `s` that lie before the position `h`.
pub open spec fn rank(s: RingPoints, h: u64) -> int
    decreases s.len(),
{
    if s.len() == 0 {
        0
    } else {
        rank(s.drop_last(), h) + if s.last().0 < h {
            1int
        } else {
            0int
        }
    }
}

/// `s` with the position `key` given to `node`: in the place of the point
/// that had the position, or else at its place in ascending order.
pub open spec fn ring_put(s: RingPoints, key: u64, node: Seq<char>) -> RingPoints {
    let at = rank(s, key);
    if 0 <= at < s.len() && s[at].0 == key {
        s.update(at, (key, node))
    } else {
        s.insert(at, (key, node))
    }
}

/// The position of replica `i` of `node`: the hash of the node's name
/// followed by `i` in decimal.
pub open spec fn replica_key(node: Seq<char>, i: nat) -> u64 {
    default_hash(node + decimal_text(i))
}

/// `s` with the replicas `0` to `replicas - 1` of `node` put on it in order.
pub open spec fn with_replicas(s: RingPoints, node: Seq<char>, replicas: nat) -> RingPoints
    decreases replicas,
{
    if replicas == 0 {
        s
    } else {
        ring_put(
            with_replicas(s, node, (replicas - 1) as nat),
            replica_key(node, (replicas - 1) as nat),
            node,
        )
    }
}

/// `s` without the points that `node` owns.
pub open spec fn ring_without(s: RingPoints, node: Seq<char>) -> RingPoints
    decreases s.len(),
{
    if s.len() == 0 {
        Seq::empty()
    } else if s.last().1 == node {
        ring_without(s.drop_last(), node)
    } else {
        ring_without(s.drop_last(), node).push(s.last())
    }
}

/// The node that the position `h` falls to: the owner of the first point at
/// or after `h`, or, where there is none, of the first point of the ring. An
/// empty ring has no node.
pub open spec fn node_for(s: RingPoints, h: u64) -> Option<Seq<char>> {
    if s.len() == 0 {
        None
    } else if rank(s, h) < s.len() {
        Some(s[rank(s, h)].1)
    } else {
        Some(s[0].1)
    }
}

/// In an ascending ring, the place that parts the points before `h` from
/// those at or after it is the rank of `h`.
pub proof fn lemma_rank_is_split(s: RingPoints, h: u64, at: int)
    requires
        0 <= at <= s.len(),
        forall|j: int| 0 <= j < at ==> (#[trigger] s[j]).0 < h,
        forall|j: int| at <= j < s.len() ==> (#[trigger] s[j]).0 >= h,
    ensures
        rank(s, h) == at,
    decreases s.len(),
{
    if s.len() > 0 {
        let front = s.drop_last();
        if at == s.len() {
            assert(s[s.len() - 1].0 < h);
            assert forall|j: int| 0 <= j < at - 1 implies (#[trigger] front[j]).0 < h by {
                assert(s[j].0 < h);
            }
            lemma_rank_is_split(front, h, at - 1);
        } else {
            assert(s[s.len() - 1].0 >= h);
            assert forall|j: int| 0 <= j < at implies (#[trigger] front[j]).0 < h by {
                assert(s[j].0 < h);
            }
            assert forall|j: int| at <= j < front.len() implies (#[trigger] front[j]).0 >= h by {
                assert(s[j].0 >= h);
            }
            lemma_rank_is_split(front, h, at);
        }
    }
}

/// Putting a point keeps an ascending ring ascending.
pub proof fn lemma_ring_put_sorted(s: RingPoints, key: u64, node: Seq<char>, at: int)
    requires
        ring_sorted(s),
        0 <= at <= s.len(),
        forall|j: int| 0 <= j < at ==> (#[trigger] s[j]).0 < key,
        forall|j: int| at <= j < s.len() ==> (#[trigger] s[j]).0 >= key,
    ensures
        rank(s, key) == at,
        ring_sorted(ring_put(s, key, node)),
{
    lemma_rank_is_split(s, key, at);
    let t = ring_put(s, key, node);
    if at < s.len() && s[at].0 == key {
        assert forall|i: int, j: int| 0 <= i < j < t.len() implies (#[trigger] t[i]).0 < (
        #[trigger] t[j]).0 by {
            assert(s[i].0 < s[j].0);
        }
    } else {
        assert forall|i: int, j: int| 0 <= i < j < t.len() implies (#[trigger] t[i]).0 < (
        #[trigger] t[j]).0 by {
            if j < at {
                assert(s[i].0 < s[j].0);
            } else if j == at {
                assert(s[i].0 < key);
            } else if i < at {
                assert(s[i].0 < s[j - 1].0);
            } else if i == at {
                assert(s[j - 1].0 >= key);
                if at < s.len() {
                    assert(s[at].0 >= key);
                    if j - 1 > at {
                        assert(s[at].0 < s[j - 1].0);
                    }
                }
            } else {
                assert(s[i - 1].0 < s[j - 1].0);
            }
        }
    }
}

/// A consistent hash ring: positions on a circle of 64-bit numbers, each
/// owned by a node.
pub struct ConsistentHashRing {
    points: Vec<(u64, String)>,
}

spec fn points_of(points: Seq<(u64, String)>) -> RingPoints {
    Seq::new(points.len(), |i: int| (points[i].0, points[i].1@))
}

impl View for ConsistentHashRing {
    type V = RingPoints;

    closed spec fn view(&self) -> RingPoints {
        points_of(self.points@)
    }
}

impl ConsistentHashRing {
    /// The points are kept in ascending order of their positions.
    #[verifier::type_invariant]
    pub closed spec fn wf(&self) -> bool {
        ring_sorted(points_of(self.points@))
    }

    /// A well-formed ring is ascending.
    pub proof fn lemma_wf_sorted(&self)
        requires
            self.wf(),
        ensures
            ring_sorted(self@),
    {
    }

    /// The empty ring.
    pub fn new() -> (ring: Self)
        ensures
            ring@ == RingPoints::empty(),
    {
        let ring = ConsistentHashRing { points: Vec::new() };
        assert(ring@ =~= RingPoints::empty());
        ring
    }

    /// The number of points on the ring.
    pub fn len(&self) -> (n: usize)
        ensures
            n == self@.len(),
    {
        self.points.len()
    }

    fn place(&self, h: u64) -> (at: usize)
        ensures
            at == rank(self@, h),
            at <= self@.len(),
            forall|j: int| 0 <= j < at ==> (#[trigger] self@[j]).0 < h,
            forall|j: int| at <= j < self@.len() ==> (#[trigger] self@[j]).0 >= h,
    {
        proof {
            use_type_invariant(self);
        }
        let mut at: usize = 0;
        while at < self.points.len() && self.points[at].0 < h
            invariant
                0 <= at <= self.points@.len(),
                ring_sorted(self@),
                forall|j: int| 0 <= j < at ==> (#[trigger] self@[j]).0 < h,
            decreases self.points@.len() - at,
        {
            assert(self@[at as int].0 < h);
            at = at + 1;
        }
        proof {
            assert forall|j: int| at <= j < self@.len() implies (#[trigger] self@[j]).0 >= h by {
                assert(self@[at as int].0 >= h);
                if j > at {
                    assert(self@[at as int].0 < self@[j].0);
                }
            }
            lemma_rank_is_split(self@, h, at as int);
        }
        at
    }

    /// Gives the position `key` to the node `node_id`.
    pub fn put(&mut self, key: u64, node_id: String)
        ensures
            final(self)@ == ring_put(old(self)@, key, node_id@),
    {
        proof {
            use_type_invariant(&*self);
        }
        let ghost before = self@;
        let at: usize = self.place(key);
        let replace: bool = at < self.points.len() && self.points[at].0 == key;
        proof {
            assert(replace ==> before[at as int].0 == key);
            lemma_ring_put_sorted(before, key, node_id@, at as int);
        }
        let mut held: Vec<(u64, String)> = Vec::new();
        core::mem::swap(&mut self.points, &mut held);
        if replace {
            held.remove(at);
        }
        held.insert(at, (key, node_id));
        assert(points_of(held@) =~= ring_put(before, key, node_id@));
        self.points = held;
    }

    /// Puts `replicas` points of the node `node_id` on the ring: replica `i`
    /// stands at the hash of the node's name followed by `i` in decimal.
    pub fn add(&mut self, node_id: &str, replicas: usize)
        ensures
            final(self)@ == with_replicas(old(self)@, node_id@, replicas as nat),
    {
        let mut i: usize = 0;
        while i < replicas
            invariant
                0 <= i <= replicas,
                self@ == with_replicas(old(self)@, node_id@, i as nat),
            decreases replicas - i,
        {
            let name: String = String::from_str(node_id);
            let number: String = to_decimal(i as u64);
            let text: String = name.concat(number.as_str());
            let key: u64 = hash_text(text.as_str());
            self.put(key, String::from_str(node_id));
            i = i + 1;
        }
    }

    /// Takes all points of the node `node_id` off the ring.
    pub fn remove(&mut self, node_id: &str)
        ensures
            final(self)@ == ring_without(old(self)@, node_id@),
    {
        proof {
            use_type_invariant(&*self);
        }
        let ghost before = self@;
        let gone: String = String::from_str(node_id);
        let mut held: Vec<(u64, String)> = Vec::new();
        core::mem::swap(&mut self.points, &mut held);
        let mut kept: Vec<(u64, String)> = Vec::new();
        let n: usize = held.len();
        let mut i: usize = 0;
        while i < n
            invariant
                0 <= i <= n,
                n == held@.len(),
                before == points_of(held@),
                gone@ == node_id@,
                ring_sorted(before),
                points_of(kept@) == ring_without(before.take(i as int), node_id@),
                ring_sorted(points_of(kept@)),
                forall|j: int|
                    0 <= j < kept@.len() && i < n ==> (#[trigger] points_of(kept@)[j]).0
                        < before[i as int].0,
            decreases n - i,
        {
            proof {
                assert(before.take(i + 1).drop_last() =~= before.take(i as int));
                assert(before.take(i + 1).last() == before[i as int]);
                assert(before[i as int] == (held@[i as int].0, held@[i as int].1@));
            }
            let ghost earlier = points_of(kept@);
            if held[i].1 != gone {
                let point: (u64, String) = (held[i].0, held[i].1.clone());
                kept.push(point);
                proof {
                    assert(points_of(kept@) =~= earlier.push(before[i as int]));
                    assert forall|a: int, b: int| 0 <= a < b < kept@.len() implies (
                    #[trigger] points_of(kept@)[a]).0 < (#[trigger] points_of(kept@)[b]).0 by {
                        if b < earlier.len() {
                            assert(earlier[a].0 < earlier[b].0);
                        } else {
                            assert(earlier[a].0 < before[i as int].0);
                        }
                    }
                }
            }
            proof {
                if i + 1 < n {
                    assert(before[i as int].0 < before[i + 1].0);
                    assert forall|j: int| 0 <= j < kept@.len() implies (#[trigger] points_of(
                        kept@,
                    )[j]).0 < before[i + 1].0 by {
                        if j < earlier.len() {
                            assert(points_of(kept@)[j] == earlier[j]);
                            assert(earlier[j].0 < before[i as int].0);
                        }
                    }
                }
            }
            i = i + 1;
        }
        proof {
            assert(before.take(n as int) =~= before);
        }
        self.points = kept;
    }

    /// The node that the position `h` falls to.
    pub fn node_at(&self, h: u64) -> (node: Option<String>)
        ensures
            match (node, node_for(self@, h)) {
                (Some(n), Some(expected)) => n@ == expected,
                (None, None) => true,
                _ => false,
            },
    {
        if self.points.len() == 0 {
            return None;
        }
        let at: usize = self.place(h);
        if at < self.points.len() {
            Some(self.points[at].1.clone())
        } else {
            Some(self.points[0].1.clone())
        }
    }

    /// The node that `key` falls to: the node at the position that `key`
    /// hashes to.
    pub fn get_node(&self, key: &str) -> (node: Option<String>)
        ensures
            match (node, node_for(self@, default_hash(key@))) {
                (Some(n), Some(expected)) => n@ == expected,
                (None, None) => true,
                _ => false,
            },
    {
        let h: u64 = hash_text(key);
        self.node_at(h)
    }
}

/// How the shards of a path are named and sized.
pub struct ShardConfig {
    pub shard_prefix: String,
    pub num_shards_per_path: u16,
    pub shard_size: u32,
}

/// The number of points that each shard gets on the ring.
pub const DEFAULT_REPLICAS: usize = 100;

/// The decimal text of `i`, with zeros in front where it has fewer than
/// three digits.
pub open spec fn padded3(i: nat) -> Seq<char> {
    if i < 10 {
        seq!['0', '0'] + decimal_text(i)
    } else if i < 100 {
        seq!['0'] + decimal_text(i)
    } else {
        decimal_text(i)
    }
}

/// The path of shard `i` under `root`: the root, `/shards/`, the prefix, and
/// the number of the shard in three digits.
pub open spec fn shard_name(root: Seq<char>, prefix: Seq<char>, i: nat) -> Seq<char> {
    root + "/shards/"@ + prefix + padded3(i)
}

/// `s` with the replicas of the first `count` shards under `root` put on
/// it.
pub open spec fn with_shards(s: RingPoints, root: Seq<char>, prefix: Seq<char>, count: nat) -> RingPoints
    decreases count,
{
    if count == 0 {
        s
    } else {
        with_replicas(
            with_shards(s, root, prefix, (count - 1) as nat),
            shard_name(root, prefix, (count - 1) as nat),
            DEFAULT_REPLICAS as nat,
        )
    }
}

/// `s` with the replicas of `count` shards under each of `paths` put on it,
/// path by path.
pub open spec fn with_paths(s: RingPoints, paths: Seq<Seq<char>>, prefix: Seq<char>, count: nat) -> RingPoints
    decreases paths.len(),
{
    if paths.len() == 0 {
        s
    } else {
        with_shards(with_paths(s, paths.drop_last(), prefix, count), paths.last(), prefix, count)
    }
}

/// The texts of `paths`.
pub open spec fn path_texts(paths: Seq<String>) -> Seq<Seq<char>> {
    Seq::new(paths.len(), |i: int| paths[i]@)
}

/// `paths` without the repetitions of a path that came before.
pub open spec fn without_repeats(paths: Seq<Seq<char>>) -> Seq<Seq<char>>
    decreases paths.len(),
{
    if paths.len() == 0 {
        Seq::empty()
    } else if paths.drop_last().contains(paths.last()) {
        without_repeats(paths.drop_last())
    } else {
        without_repeats(paths.drop_last()).push(paths.last())
    }
}

/// What a sequence holds after a push is what it held and what was pushed.
pub proof fn lemma_push_contains<A>(s: Seq<A>, x: A, t: A)
    ensures
        s.push(x).contains(t) <==> (s.contains(t) || x == t),
{
    let longer = s.push(x);
    if s.contains(t) {
        let w = choose|w: int| 0 <= w < s.len() && s[w] == t;
        assert(longer[w] == t);
    }
    if x == t {
        assert(longer[s.len() as int] == t);
    }
    if longer.contains(t) {
        let w = choose|w: int| 0 <= w < longer.len() && longer[w] == t;
        if w < s.len() {
            assert(s[w] == t);
        }
    }
}

fn pad3(i: u16) -> (text: String)
    ensures
        text@ == padded3(i as nat),
{
    let digits: String = to_decimal(i as u64);
    if i < 10 {
        proof {
            reveal_strlit("00");
        }
        let text = String::from_str("00").concat(digits.as_str());
        assert(text@ =~= padded3(i as nat));
        text
    } else if i < 100 {
        proof {
            reveal_strlit("0");
        }
        let text = String::from_str("0").concat(digits.as_str());
        assert(text@ =~= padded3(i as nat));
        text
    } else {
        digits
    }
}

/// The assignment of accounts to shards: the ring of the shards of all
/// paths, and the time at which it was last built. No account has a shard of
/// its own until one is assigned, which nothing here does.
pub struct ShardPath {
    last_reindexed: u128,
    ring: ConsistentHashRing,
}

impl ShardPath {
    /// The points of the ring.
    pub closed spec fn spec_ring(&self) -> RingPoints {
        self.ring@
    }

    /// The ring of the shards.
    pub fn ring(&self) -> (ring: &ConsistentHashRing)
        ensures
            ring@ == self.spec_ring(),
    {
        &self.ring
    }

    /// The index over the shards that `config` describes under each of
    /// `paths`.
    pub fn new(paths: &Vec<String>, config: &ShardConfig) -> (index: Self)
        ensures
            index.spec_ring() == with_paths(
                RingPoints::empty(),
                path_texts(paths@),
                config.shard_prefix@,
                config.num_shards_per_path as nat,
            ),
    {
        let mut index = ShardPath { last_reindexed: now(), ring: ConsistentHashRing::new() };
        index.index_shards(Some(paths), config);
        index
    }

    /// Builds the ring anew over the shards that `config` describes under
    /// each of `paths`. Without paths nothing changes.
    pub fn index_shards(&mut self, paths: Option<&Vec<String>>, config: &ShardConfig)
        ensures
            match paths {
                Some(given) => final(self).spec_ring() == with_paths(
                    RingPoints::empty(),
                    path_texts(given@),
                    config.shard_prefix@,
                    config.num_shards_per_path as nat,
                ),
                None => *final(self) == *old(self),
            },
    {
        match paths {
            None => {},
            Some(given) => {
                let ghost texts = path_texts(given@);
                let ghost prefix = config.shard_prefix@;
                let ghost count = config.num_shards_per_path as nat;
                let mut ring = ConsistentHashRing::new();
                let mut p: usize = 0;
                while p < given.len()
                    invariant
                        0 <= p <= given@.len(),
                        texts == path_texts(given@),
                        prefix == config.shard_prefix@,
                        count == config.num_shards_per_path as nat,
                        ring@ == with_paths(RingPoints::empty(), texts.take(p as int), prefix, count),
                    decreases given@.len() - p,
                {
                    let root: &String = &given[p];
                    let ghost base = ring@;
                    proof {
                        assert(texts.take(p + 1).drop_last() =~= texts.take(p as int));
                        assert(texts.take(p + 1).last() == root@);
                    }
                    let mut i: u16 = 0;
                    while i < config.num_shards_per_path
                        invariant
                            0 <= i <= config.num_shards_per_path,
                            prefix == config.shard_prefix@,
                            ring@ == with_shards(base, root@, prefix, i as nat),
                        decreases config.num_shards_per_path - i,
                    {
                        let shard_path: String = root.clone().concat("/shards/").concat(
                            config.shard_prefix.as_str(),
                        ).concat(pad3(i).as_str());
                        assert(shard_path@ =~= shard_name(root@, prefix, i as nat));
                        ring.add(shard_path.as_str(), DEFAULT_REPLICAS);
                        i = i + 1;
                    }
                    p = p + 1;
                }
                proof {
                    assert(texts.take(given@.len() as int) =~= texts);
                }
                self.ring = ring;
                self.last_reindexed = now();
            },
        }
    }

    /// The shard that the account `account_id`, of two bytes at least, was
    /// assigned: none, as no account is assigned one.
    pub fn get_shard(&mut self, account_id: &[u8]) -> (shard: Option<String>)
        requires
            account_id@.len() >= 2,
        ensures
            shard is None,
            *final(self) == *old(self),
    {
        None
    }

    /// A new index over `paths`, each taken once, for the paths that this
    /// index has accounts under, which are none. Without paths the new index
    /// is empty.
    pub fn rebuild_path(&mut self, paths: Option<Vec<String>>, config: &ShardConfig) -> (index: Self)
        ensures
            *final(self) == *old(self),
            index.spec_ring() == with_paths(
                RingPoints::empty(),
                without_repeats(
                    match paths {
                        Some(given) => path_texts(given@),
                        None => Seq::empty(),
                    },
                ),
                config.shard_prefix@,
                config.num_shards_per_path as nat,
            ),
    {
        let given: Vec<String> = match paths {
            Some(given) => given,
            None => Vec::new(),
        };
        let ghost texts = path_texts(given@);
        let mut once: Vec<String> = Vec::new();
        let mut p: usize = 0;
        while p < given.len()
            invariant
                0 <= p <= given@.len(),
                texts == path_texts(given@),
                path_texts(once@) == without_repeats(texts.take(p as int)),
                forall|t: Seq<char>|
                    path_texts(once@).contains(t) <==> texts.take(p as int).contains(t),
            decreases given@.len() - p,
        {
            let ghost kept = path_texts(once@);
            proof {
                assert(texts.take(p + 1).drop_last() =~= texts.take(p as int));
                assert(texts.take(p + 1).last() == given@[p as int]@);
            }
            let mut seen: bool = false;
            let mut q: usize = 0;
            while q < once.len()
                invariant
                    0 <= q <= once@.len(),
                    p < given@.len(),
                    kept == path_texts(once@),
                    seen == kept.take(q as int).contains(given@[p as int]@),
                decreases once@.len() - q,
            {
                proof {
                    assert(kept.take(q + 1) =~= kept.take(q as int).push(kept[q as int]));
                    assert(kept[q as int] == once@[q as int]@);
                    lemma_push_contains(kept.take(q as int), kept[q as int], given@[p as int]@);
                }
                if once[q] == given[p] {
                    seen = true;
                }
                q = q + 1;
            }
            proof {
                assert(kept.take(kept.len() as int) =~= kept);
            }
            if !seen {
                once.push(given[p].clone());
                assert(path_texts(once@) =~= kept.push(given@[p as int]@));
            }
            proof {
                let now_kept = path_texts(once@);
                assert(texts.take(p + 1) =~= texts.take(p as int).push(given@[p as int]@));
                assert forall|t: Seq<char>| now_kept.contains(t) <==> texts.take(p + 1).contains(
                    t,
                ) by {
                    lemma_push_contains(texts.take(p as int), given@[p as int]@, t);
                    lemma_push_contains(kept, given@[p as int]@, t);
                }
            }
            p = p + 1;
        }
        proof {
            assert(texts.take(given@.len() as int) =~= texts);
        }
        ShardPath::new(&once, config)
    }
}

} // verus!
