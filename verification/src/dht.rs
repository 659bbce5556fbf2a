//! The Kademlia routing table of the DHT: XOR distance, bucket choice,
//! bounded buckets and closest-node lookup.
use vstd::prelude::*;
use vstd::arithmetic::power2::{lemma2_to64, lemma_pow2_adds, lemma_pow2_pos, pow2};
use crate::bencode::BValue;
use crate::text::text_eq;
use crate::tracker::{Peer, PeerView, compact_peer, parse_compact_peers_raw};

verus! {

/// A 20-byte DHT node identifier.
pub type NodeId = [u8; 20];

/// Number of buckets in a routing table (one per bit of an identifier).
pub const NUM_BUCKETS: usize = 160;

/// Capacity of a bucket (the K of Kademlia).
pub const BUCKET_SIZE: usize = 8;

/// A DHT node: its identifier and its address (`ip:port`).
#[derive(Debug, PartialEq, Eq)]
pub struct Node {
    pub id: NodeId,
    pub addr: String,
}

impl Clone for Node {
    fn clone(&self) -> (r: Self)
        ensures
            r == *self,
    {
        Node { id: self.id, addr: self.addr.clone() }
    }
}

/// Big-endian value of a byte string.
pub open spec fn be_value(s: Seq<u8>) -> nat
    decreases s.len(),
{
    if s.len() == 0 {
        0
    } else {
        be_value(s.drop_last()) * 256 + s.last() as nat
    }
}

/// Byte-wise XOR of two identifiers.
pub open spec fn xor_bytes(a: Seq<u8>, b: Seq<u8>) -> Seq<u8> {
    Seq::new(20, |i: int| a[i] ^ b[i])
}

/// The Kademlia XOR distance: the big-endian value of all twenty bytes of
/// the XOR, a number of 160 bits.
pub open spec fn xor_distance(a: Seq<u8>, b: Seq<u8>) -> nat {
    be_value(xor_bytes(a, b))
}

/// Of two byte strings of one length that agree before position `i` and
/// differ there, the one with the smaller byte at `i` has the smaller
/// big-endian value.
proof fn lemma_be_value_first_diff(x: Seq<u8>, y: Seq<u8>, i: int)
    requires
        x.len() == y.len(),
        0 <= i < x.len(),
        forall|j: int| 0 <= j < i ==> x[j] == y[j],
        x[i] < y[i],
    ensures
        be_value(x) < be_value(y),
    decreases x.len(),
{
    let n = x.len() - 1;
    if i == n {
        assert(x.drop_last() =~= y.drop_last());
    } else {
        lemma_be_value_first_diff(x.drop_last(), y.drop_last(), i);
        let bx = be_value(x.drop_last());
        let by = be_value(y.drop_last());
        assert(bx * 256 + x.last() < by * 256 + y.last()) by (nonlinear_arith)
            requires
                bx < by,
                x.last() < 256,
        ;
    }
}

/// A big-endian value of zero has only zero bytes.
proof fn lemma_be_value_zero_bytes(s: Seq<u8>)
    requires
        be_value(s) == 0,
    ensures
        forall|i: int| 0 <= i < s.len() ==> s[i] == 0,
    decreases s.len(),
{
    if s.len() > 0 {
        assert(be_value(s.drop_last()) == 0 && s.last() == 0) by (nonlinear_arith)
            requires
                be_value(s.drop_last()) * 256 + s.last() == 0,
                be_value(s.drop_last()) >= 0,
                s.last() >= 0,
        ;
        lemma_be_value_zero_bytes(s.drop_last());
        assert forall|i: int| 0 <= i < s.len() implies s[i] == 0 by {
            if i < s.len() - 1 {
                assert(s[i] == s.drop_last()[i]);
            }
        }
    }
}

proof fn lemma_be_value_zero(s: Seq<u8>)
    requires
        forall|i: int| 0 <= i < s.len() ==> s[i] == 0,
    ensures
        be_value(s) == 0,
    decreases s.len(),
{
    if s.len() > 0 {
        lemma_be_value_zero(s.drop_last());
    }
}

/// The XOR distance is symmetric, and between two identifiers it is 0
/// exactly when they are the same.
pub proof fn law_xor_distance(a: Seq<u8>, b: Seq<u8>)
    requires
        a.len() == 20,
        b.len() == 20,
    ensures
        xor_distance(a, b) == xor_distance(b, a),
        xor_distance(a, b) == 0 <==> a == b,
{
    assert forall|i: int| 0 <= i < 20 implies #[trigger] xor_bytes(a, b)[i] == xor_bytes(b, a)[i] by {
        let x = a[i];
        let y = b[i];
        assert(x ^ y == y ^ x) by (bit_vector);
    }
    assert(xor_bytes(a, b) =~= xor_bytes(b, a));
    if a == b {
        assert forall|i: int| 0 <= i < 20 implies #[trigger] xor_bytes(a, a)[i] == 0 by {
            let x = a[i];
            assert(x ^ x == 0) by (bit_vector);
        }
        lemma_be_value_zero(xor_bytes(a, a));
    }
    if xor_distance(a, b) == 0 {
        lemma_be_value_zero_bytes(xor_bytes(a, b));
        assert forall|i: int| 0 <= i < 20 implies a[i] == b[i] by {
            let x = a[i];
            let y = b[i];
            assert(xor_bytes(a, b)[i] == 0);
            assert(x ^ y == 0 ==> x == y) by (bit_vector);
        }
        assert(a =~= b);
    }
}

/// Index of the first byte at which two identifiers differ, from `i` on; 20 if none.
pub open spec fn first_diff(a: Seq<u8>, b: Seq<u8>, i: int) -> int
    decreases 20 - i,
{
    if i >= 20 {
        20
    } else if a[i] != b[i] {
        i
    } else {
        first_diff(a, b, i + 1)
    }
}

/// The bucket of a node: eight times the index of the first differing byte
/// plus the leading zero bits of that byte's XOR; 159 for an identical id.
pub open spec fn bucket_of(mine: Seq<u8>, id: Seq<u8>) -> int {
    let f = first_diff(mine, id, 0);
    if f == 20 {
        159
    } else {
        8 * f + (mine[f] ^ id[f]).leading_zeros() as int
    }
}

/// The big-endian value of two byte strings put end to end.
proof fn lemma_be_value_concat(s1: Seq<u8>, s2: Seq<u8>)
    ensures
        be_value(s1 + s2) == be_value(s1) * pow2(8 * s2.len()) + be_value(s2),
    decreases s2.len(),
{
    lemma2_to64();
    if s2.len() == 0 {
        assert(s1 + s2 =~= s1);
        assert(pow2(8 * s2.len()) == 1);
        assert(be_value(s2) == 0);
        assert(be_value(s1) * 1 == be_value(s1));
    } else {
        let d = s2.drop_last();
        assert((s1 + s2).drop_last() =~= s1 + d);
        lemma_be_value_concat(s1, d);
        lemma_pow2_adds(8 * d.len(), 8);
        assert(8 * d.len() + 8 == 8 * s2.len());
        let p = pow2(8 * d.len());
        let v1 = be_value(s1);
        let s = s1 + s2;
        assert(s.len() > 0);
        assert(s.last() == s2.last());
        assert(be_value(s) == be_value(s.drop_last()) * 256 + s.last());
        assert(be_value(s2) == be_value(d) * 256 + s2.last());
        assert(pow2(8 * s2.len()) == p * 256);
        assert((v1 * p + be_value(d)) * 256 + s2.last() == v1 * (p * 256) + (be_value(d) * 256
            + s2.last())) by (nonlinear_arith);
        assert(be_value(s.drop_last()) == v1 * p + be_value(d));
        assert(be_value(s) == v1 * (p * 256) + be_value(s2));
    }
}

/// A big-endian value is below 256 to the power of its length.
proof fn lemma_be_value_lt(s: Seq<u8>)
    ensures
        be_value(s) < pow2(8 * s.len()),
    decreases s.len(),
{
    lemma2_to64();
    if s.len() > 0 {
        let d = s.drop_last();
        lemma_be_value_lt(d);
        lemma_pow2_adds(8 * d.len(), 8);
        assert(8 * d.len() + 8 == 8 * s.len());
        let p = pow2(8 * d.len());
        let v = be_value(d);
        assert(v * 256 + s.last() < p * 256) by (nonlinear_arith)
            requires
                v < p,
                s.last() < 256,
        ;
    }
}

/// A nonzero byte with `l` leading zero bits lies in [2^(7-l), 2^(8-l)).
proof fn lemma_leading_zeros_bounds(v: u8)
    requires
        v != 0,
    ensures
        v.leading_zeros() < 8,
        pow2((7 - v.leading_zeros()) as nat) <= v,
        (v as int) < pow2((8 - v.leading_zeros()) as nat),
{
    vstd::std_specs::bits::axiom_u8_leading_zeros(v);
    let l = v.leading_zeros() as u8;
    let k = (7 - l) as u8;
    let k2 = (8 - l) as u8;
    assert(k < 8 && (v >> k) & 1u8 != 0u8 ==> v >= (1u8 << k)) by (bit_vector);
    assert(1 <= k2 <= 8 && v >> k2 == 0u8 ==> (v as u16) < (1u16 << (k2 as u16))) by (bit_vector);
    vstd::bits::lemma_u8_pow2_no_overflow(k as nat);
    vstd::bits::lemma_u8_shl_is_mul(1u8, k);
    vstd::bits::lemma_u16_pow2_no_overflow(k2 as nat);
    vstd::bits::lemma_u16_shl_is_mul(1u16, k2 as u16);
}

proof fn lemma_first_diff(a: Seq<u8>, b: Seq<u8>, i: int)
    requires
        0 <= i <= 20,
    ensures
        i <= first_diff(a, b, i) <= 20,
        forall|j: int| i <= j < first_diff(a, b, i) ==> a[j] == b[j],
        first_diff(a, b, i) < 20 ==> a[first_diff(a, b, i)] != b[first_diff(a, b, i)],
    decreases 20 - i,
{
    if i < 20 && a[i] == b[i] {
        lemma_first_diff(a, b, i + 1);
    }
}

/// Bucket `r` holds the nodes whose XOR distance to our id has its highest
/// set bit at position `159 - r` (Kademlia): `2^(159-r) <= distance <
/// 2^(160-r)`. The bucket is thus the number of leading zero bits of the
/// 160-bit distance, so that nearer nodes go to higher buckets.
pub proof fn law_bucket_of_distance(a: Seq<u8>, b: Seq<u8>)
    requires
        a.len() == 20,
        b.len() == 20,
        a != b,
    ensures
        0 <= bucket_of(a, b) < 160,
        pow2((159 - bucket_of(a, b)) as nat) <= xor_distance(a, b),
        xor_distance(a, b) < pow2((160 - bucket_of(a, b)) as nat),
{
    lemma_first_diff(a, b, 0);
    let f = first_diff(a, b, 0);
    if f == 20 {
        assert(a =~= b);
    }
    let x = xor_bytes(a, b);
    assert forall|j: int| 0 <= j < f implies #[trigger] x[j] == 0 by {
        let v = a[j];
        assert(v ^ v == 0u8) by (bit_vector);
    }
    let xf = x[f];
    assert(xf != 0) by {
        let v = a[f];
        let w = b[f];
        assert(v ^ w == 0u8 ==> v == w) by (bit_vector);
    }
    let head = x.take(f + 1);
    let tail = x.skip(f + 1);
    assert(x =~= head + tail);
    lemma_be_value_concat(head, tail);
    assert(head.drop_last() =~= x.take(f));
    lemma_be_value_zero(x.take(f));
    assert(be_value(head) == xf);
    lemma_be_value_lt(tail);
    lemma_leading_zeros_bounds(xf);
    let l = xf.leading_zeros() as int;
    let p = pow2(8 * tail.len());
    let r = be_value(tail);
    let lo = pow2((7 - l) as nat);
    let hi = pow2((8 - l) as nat);
    assert(bucket_of(a, b) == 8 * f + l);
    assert(tail.len() == 19 - f);
    lemma_pow2_adds((7 - l) as nat, 8 * tail.len());
    lemma_pow2_adds((8 - l) as nat, 8 * tail.len());
    assert((7 - l) as nat + 8 * tail.len() == (159 - bucket_of(a, b)) as nat);
    assert((8 - l) as nat + 8 * tail.len() == (160 - bucket_of(a, b)) as nat);
    lemma_pow2_pos(8 * tail.len());
    assert(lo * p <= xf * p + r && xf * p + r < hi * p) by (nonlinear_arith)
        requires
            lo <= xf,
            xf < hi,
            0 <= r < p,
    ;
}

fn same_id(a: &NodeId, b: &NodeId) -> (r: bool)
    ensures
        r == (a@ == b@),
{
    let mut i: usize = 0;
    while i < 20
        invariant
            i <= 20,
            forall|j: int| 0 <= j < i ==> a@[j] == b@[j],
        decreases 20 - i,
    {
        if a[i] != b[i] {
            return false;
        }
        i = i + 1;
    }
    assert(a@ =~= b@);
    true
}

/// A bucket of at most eight nodes.
#[derive(Debug, Clone)]
pub struct KBucket {
    pub nodes: Vec<Node>,
}

/// The bucket contents after `insert(node)`: an entry with the same id is
/// dropped, then the node is appended when there is room.
pub open spec fn bucket_after_insert(nodes: Seq<Node>, node: Node) -> Seq<Node> {
    let kept = if exists|p: int| 0 <= p < nodes.len() && nodes[p].id == node.id {
        nodes.remove(first_id_pos(nodes, node.id@))
    } else {
        nodes
    };
    if kept.len() < BUCKET_SIZE {
        kept.push(node)
    } else {
        kept
    }
}

/// Position of the first node with identifier `id` (the length if none).
pub open spec fn first_id_pos(nodes: Seq<Node>, id: Seq<u8>) -> int
    decreases nodes.len(),
{
    if nodes.len() == 0 {
        0
    } else if nodes[0].id@ == id {
        0
    } else {
        1 + first_id_pos(nodes.subrange(1, nodes.len() as int), id)
    }
}

proof fn lemma_first_id_pos(nodes: Seq<Node>, id: Seq<u8>)
    ensures
        0 <= first_id_pos(nodes, id) <= nodes.len(),
        forall|k: int| 0 <= k < first_id_pos(nodes, id) ==> nodes[k].id@ != id,
        first_id_pos(nodes, id) < nodes.len() ==> nodes[first_id_pos(nodes, id)].id@ == id,
    decreases nodes.len(),
{
    if nodes.len() > 0 && nodes[0].id@ != id {
        let t = nodes.subrange(1, nodes.len() as int);
        lemma_first_id_pos(t, id);
        assert forall|k: int| 1 <= k < nodes.len() implies nodes[k] == t[k - 1] by {}
    }
}

/// A bucket holds at most `BUCKET_SIZE` nodes, no two with one identifier.
pub open spec fn bucket_ok(nodes: Seq<Node>) -> bool {
    &&& nodes.len() <= BUCKET_SIZE
    &&& forall|a: int, b: int| 0 <= a < b < nodes.len() ==> nodes[a].id != nodes[b].id
}

/// Inserting into a bucket keeps it bounded with distinct identifiers: a
/// known node moves to the tail with its new address, a new one is appended
/// when there is room and dropped when the bucket is full.
pub proof fn law_bucket_insert(nodes: Seq<Node>, node: Node)
    requires
        bucket_ok(nodes),
    ensures
        bucket_ok(bucket_after_insert(nodes, node)),
        (exists|p: int| 0 <= p < nodes.len() && nodes[p].id == node.id) ==> bucket_after_insert(
            nodes,
            node,
        ) == nodes.remove(first_id_pos(nodes, node.id@)).push(node),
        !(exists|p: int| 0 <= p < nodes.len() && nodes[p].id == node.id) && nodes.len()
            < BUCKET_SIZE ==> bucket_after_insert(nodes, node) == nodes.push(node),
        !(exists|p: int| 0 <= p < nodes.len() && nodes[p].id == node.id) && nodes.len()
            == BUCKET_SIZE ==> bucket_after_insert(nodes, node) == nodes,
{
    lemma_first_id_pos(nodes, node.id@);
    let r = bucket_after_insert(nodes, node);
    if exists|p: int| 0 <= p < nodes.len() && nodes[p].id == node.id {
        let q = choose|p: int| 0 <= p < nodes.len() && nodes[p].id == node.id;
        let f = first_id_pos(nodes, node.id@);
        assert(nodes[q].id@ == node.id@);
        assert(f <= q);
        assert(f < nodes.len());
        assert(nodes[f].id@ == node.id@);
        assert(nodes[f].id =~= node.id);
        let kept = nodes.remove(f);
        assert(kept.len() == nodes.len() - 1);
        assert forall|k: int| 0 <= k < kept.len() implies kept[k].id != node.id by {
            if k < f {
                assert(kept[k] == nodes[k]);
            } else {
                assert(kept[k] == nodes[k + 1]);
            }
        }
        assert(r == kept.push(node));
        assert forall|a: int, b: int| 0 <= a < b < r.len() implies r[a].id != r[b].id by {
            if b == r.len() - 1 {
                assert(r[b] == node);
                assert(r[a] == kept[a]);
            } else {
                let ia = if a < f { a } else { a + 1 };
                let ib = if b < f { b } else { b + 1 };
                assert(kept[a] == nodes[ia]);
                assert(kept[b] == nodes[ib]);
            }
        }
    } else {
        if nodes.len() < BUCKET_SIZE {
            assert forall|a: int, b: int| 0 <= a < b < r.len() implies r[a].id != r[b].id by {
                if b == r.len() - 1 {
                    assert(r[a] == nodes[a]);
                }
            }
        }
    }
}

impl KBucket {
    pub fn new() -> (b: Self)
        ensures
            b.nodes@.len() == 0,
    {
        KBucket { nodes: Vec::with_capacity(BUCKET_SIZE) }
    }

    /// Moves a node to the end of the bucket (the most recently seen place),
    /// dropping its older entry; a new node is dropped when the bucket is full.
    pub fn insert(&mut self, node: Node)
        ensures
            final(self).nodes@ == bucket_after_insert(old(self).nodes@, node),
            bucket_ok(old(self).nodes@) ==> bucket_ok(final(self).nodes@),
    {
        proof {
            lemma_first_id_pos(self.nodes@, node.id@);
            if bucket_ok(self.nodes@) {
                law_bucket_insert(self.nodes@, node);
            }
        }
        let mut pos: usize = 0;
        let mut found = false;
        while pos < self.nodes.len() && !found
            invariant
                pos <= self.nodes@.len(),
                self.nodes@ == old(self).nodes@,
                forall|k: int| 0 <= k < pos ==> self.nodes@[k].id@ != node.id@,
                found ==> pos < self.nodes@.len() && self.nodes@[pos as int].id@ == node.id@,
            decreases self.nodes@.len() - pos + if found { 0int } else { 1int },
        {
            if same_id(&self.nodes[pos].id, &node.id) {
                found = true;
            } else {
                pos = pos + 1;
            }
        }
        if found {
            proof {
                assert(self.nodes@[pos as int].id@ == node.id@);
                if (pos as int) < first_id_pos(self.nodes@, node.id@) {
                } else if (pos as int) > first_id_pos(self.nodes@, node.id@) {
                }
                assert(pos as int == first_id_pos(self.nodes@, node.id@));
                assert(self.nodes@[pos as int].id == node.id);
            }
            self.nodes.remove(pos);
        } else {
            proof {
                assert forall|p: int| 0 <= p < self.nodes@.len() implies self.nodes@[p].id
                    != node.id by {
                    assert(self.nodes@[p].id@ != node.id@);
                }
            }
        }
        if self.nodes.len() < BUCKET_SIZE {
            self.nodes.push(node);
        }
    }
}

impl Default for KBucket {
    fn default() -> (b: Self)
        ensures
            b.nodes@.len() == 0,
    {
        Self::new()
    }
}

/// A routing table: our own id and one bucket per distance class.
#[derive(Debug, Clone)]
pub struct RoutingTable {
    pub my_id: NodeId,
    pub buckets: Vec<KBucket>,
}

/// Every node of every bucket, bucket by bucket.
pub open spec fn all_nodes(buckets: Seq<KBucket>) -> Seq<Node> {
    buckets.map_values(|b: KBucket| b.nodes@).flatten()
}

/// Inserts `x` into a list ordered by distance to `target`, after every entry
/// that is not farther.
pub open spec fn insert_by_distance(s: Seq<Node>, x: Node, target: Seq<u8>) -> Seq<Node>
    decreases s.len(),
{
    if s.len() == 0 {
        seq![x]
    } else if xor_distance(s.last().id@, target) <= xor_distance(x.id@, target) {
        s.push(x)
    } else {
        insert_by_distance(s.drop_last(), x, target).push(s.last())
    }
}

/// Stable sort of a node list by distance to `target`.
pub open spec fn sort_by_distance(s: Seq<Node>, target: Seq<u8>) -> Seq<Node>
    decreases s.len(),
{
    if s.len() == 0 {
        s
    } else {
        insert_by_distance(sort_by_distance(s.drop_last(), target), s.last(), target)
    }
}

/// A list is ordered by distance to `target`.
pub open spec fn ordered_by_distance(s: Seq<Node>, target: Seq<u8>) -> bool {
    forall|i: int, j: int|
        0 <= i < j < s.len() ==> xor_distance(s[i].id@, target) <= xor_distance(s[j].id@, target)
}

proof fn lemma_insert_by_distance(s: Seq<Node>, x: Node, target: Seq<u8>)
    requires
        ordered_by_distance(s, target),
    ensures
        ordered_by_distance(insert_by_distance(s, x, target), target),
        insert_by_distance(s, x, target).to_multiset() == s.to_multiset().insert(x),
        insert_by_distance(s, x, target).len() == s.len() + 1,
    decreases s.len(),
{
    broadcast use vstd::seq_lib::group_to_multiset_ensures;

    if s.len() == 0 {
        assert(seq![x] =~= Seq::<Node>::empty().push(x));
    } else if xor_distance(s.last().id@, target) <= xor_distance(x.id@, target) {
    } else {
        let d = s.drop_last();
        lemma_insert_by_distance(d, x, target);
        let t = insert_by_distance(d, x, target);
        assert(s =~= d.push(s.last()));
        assert forall|i: int, j: int| 0 <= i < j < t.len() + 1 implies xor_distance(
            t.push(s.last())[i].id@,
            target,
        ) <= xor_distance(t.push(s.last())[j].id@, target) by {
            if j == t.len() {
                let m = t.to_multiset();
                assert(m.count(t[i]) > 0);
                assert(t.contains(t[i]));
                if t[i] == x {
                } else {
                    assert(d.to_multiset().count(t[i]) > 0);
                    assert(d.contains(t[i]));
                    let k = choose|k: int| 0 <= k < d.len() && d[k] == t[i];
                    assert(s[k] == d[k]);
                }
            }
        }
    }
}

/// The stable sort by distance is ordered and holds exactly the given nodes.
pub proof fn law_sort_by_distance(s: Seq<Node>, target: Seq<u8>)
    ensures
        ordered_by_distance(sort_by_distance(s, target), target),
        sort_by_distance(s, target).to_multiset() == s.to_multiset(),
        sort_by_distance(s, target).len() == s.len(),
    decreases s.len(),
{
    broadcast use vstd::seq_lib::group_to_multiset_ensures;

    if s.len() > 0 {
        law_sort_by_distance(s.drop_last(), target);
        lemma_insert_by_distance(sort_by_distance(s.drop_last(), target), s.last(), target);
        assert(s =~= s.drop_last().push(s.last()));
    }
}

/// Whether `a` is no farther from `t` than `b` is, comparing the XORs byte by
/// byte from the most significant one.
fn distance_le(a: &NodeId, b: &NodeId, t: &NodeId) -> (r: bool)
    ensures
        r == (xor_distance(a@, t@) <= xor_distance(b@, t@)),
{
    let ghost xa = xor_bytes(a@, t@);
    let ghost xb = xor_bytes(b@, t@);
    let mut i: usize = 0;
    while i < 20
        invariant
            i <= 20,
            xa == xor_bytes(a@, t@),
            xb == xor_bytes(b@, t@),
            forall|j: int| 0 <= j < i ==> xa[j] == xb[j],
        decreases 20 - i,
    {
        let da = a[i] ^ t[i];
        let db = b[i] ^ t[i];
        if da != db {
            proof {
                assert(xa[i as int] == da && xb[i as int] == db);
                if da < db {
                    lemma_be_value_first_diff(xa, xb, i as int);
                } else {
                    lemma_be_value_first_diff(xb, xa, i as int);
                }
            }
            return da < db;
        }
        i = i + 1;
    }
    assert(xa =~= xb);
    true
}

impl RoutingTable {
    /// A routing table with 160 empty buckets.
    pub fn new(my_id: NodeId) -> (t: Self)
        ensures
            t.my_id == my_id,
            t.buckets@.len() == NUM_BUCKETS,
            all_nodes(t.buckets@).len() == 0,
            forall|i: int| 0 <= i < NUM_BUCKETS ==> t.buckets@[i].nodes@.len() == 0,
    {
        let mut buckets: Vec<KBucket> = Vec::with_capacity(NUM_BUCKETS);
        let mut i: usize = 0;
        while i < NUM_BUCKETS
            invariant
                i <= NUM_BUCKETS,
                buckets@.len() == i,
                forall|j: int| 0 <= j < i ==> buckets@[j].nodes@.len() == 0,
            decreases NUM_BUCKETS - i,
        {
            buckets.push(KBucket::new());
            i = i + 1;
        }
        let t = RoutingTable { my_id, buckets };
        proof {
            lemma_flatten_empty(t.buckets@);
        }
        t
    }

    /// XOR distance from our id to `id`: the twenty bytes of the XOR, most
    /// significant first, so that their big-endian value is the distance and
    /// comparing two results compares the distances.
    pub fn distance(&self, id: &NodeId) -> (r: [u8; 20])
        ensures
            r@ == xor_bytes(self.my_id@, id@),
            be_value(r@) == xor_distance(self.my_id@, id@),
    {
        let mut r = [0u8; 20];
        let mut i: usize = 0;
        while i < 20
            invariant
                i <= 20,
                forall|j: int| 0 <= j < i ==> r@[j] == self.my_id@[j] ^ id@[j],
            decreases 20 - i,
        {
            r[i] = self.my_id[i] ^ id[i];
            i = i + 1;
        }
        assert(r@ =~= xor_bytes(self.my_id@, id@));
        r
    }

    /// The bucket in which a node with identifier `id` belongs.
    pub fn bucket_index(&self, id: &NodeId) -> (r: usize)
        ensures
            r == bucket_of(self.my_id@, id@),
            r < NUM_BUCKETS,
    {
        proof {
            lemma_first_diff(self.my_id@, id@, 0);
        }
        let mut i: usize = 0;
        while i < 20
            invariant
                i <= 20,
                forall|j: int| 0 <= j < i ==> self.my_id@[j] == id@[j],
                first_diff(self.my_id@, id@, 0) >= i,
                0 <= first_diff(self.my_id@, id@, 0) <= 20,
                forall|j: int| 0 <= j < first_diff(self.my_id@, id@, 0) ==> self.my_id@[j] == id@[j],
                first_diff(self.my_id@, id@, 0) < 20 ==> self.my_id@[first_diff(self.my_id@, id@, 0)]
                    != id@[first_diff(self.my_id@, id@, 0)],
            decreases 20 - i,
        {
            let x = self.my_id[i] ^ id[i];
            if x != 0 {
                proof {
                    assert(self.my_id@[i as int] != id@[i as int]) by {
                        if self.my_id@[i as int] == id@[i as int] {
                            let v = self.my_id@[i as int];
                            assert(v ^ v == 0u8) by (bit_vector);
                        }
                    }
                    vstd::std_specs::bits::axiom_u8_leading_zeros(x);
                }
                return i * 8 + x.leading_zeros() as usize;
            }
            proof {
                let v = self.my_id@[i as int];
                let w = id@[i as int];
                assert(v ^ w == 0u8 ==> v == w) by (bit_vector);
            }
            i = i + 1;
        }
        159
    }

    /// Adds a node to its bucket; our own id is never stored.
    pub fn insert(&mut self, node: Node)
        requires
            old(self).buckets@.len() == NUM_BUCKETS,
        ensures
            final(self).my_id == old(self).my_id,
            final(self).buckets@.len() == NUM_BUCKETS,
            node.id@ == old(self).my_id@ ==> final(self).buckets@ == old(self).buckets@,
            node.id@ != old(self).my_id@ ==> ({
                let b = bucket_of(old(self).my_id@, node.id@);
                &&& forall|i: int| 0 <= i < NUM_BUCKETS && i != b ==> final(self).buckets@[i] == old(self).buckets@[i]
                &&& final(self).buckets@[b].nodes@ == bucket_after_insert(old(self).buckets@[b].nodes@, node)
            }),
    {
        if same_id(&node.id, &self.my_id) {
            return ;
        }
        let idx = self.bucket_index(&node.id);
        self.buckets[idx].insert(node);
    }

    /// The `k` nodes closest to `target` (all of them if fewer), nearest first;
    /// nodes at equal distance keep their table order.
    pub fn get_closest_nodes(&self, target: &NodeId, k: usize) -> (r: Vec<Node>)
        ensures
            r@ == sort_by_distance(all_nodes(self.buckets@), target@).take(
                if k < all_nodes(self.buckets@).len() { k as int } else { all_nodes(self.buckets@).len() as int },
            ),
    {
        let mut all: Vec<Node> = Vec::new();
        let mut b: usize = 0;
        while b < self.buckets.len()
            invariant
                b <= self.buckets@.len(),
                all@ == all_nodes(self.buckets@.take(b as int)),
            decreases self.buckets@.len() - b,
        {
            let nodes = &self.buckets[b].nodes;
            let ghost before = all@;
            let mut j: usize = 0;
            while j < nodes.len()
                invariant
                    j <= nodes@.len(),
                    all@ == before + nodes@.take(j as int),
                decreases nodes@.len() - j,
            {
                all.push(nodes[j].clone());
                j = j + 1;
                assert(all@ =~= before + nodes@.take(j as int));
            }
            proof {
                assert(nodes@.take(j as int) =~= nodes@);
                let bs = self.buckets@.take(b + 1);
                assert(bs.map_values(|x: KBucket| x.nodes@) =~= self.buckets@.take(b as int).map_values(
                    |x: KBucket| x.nodes@,
                ).push(nodes@));
                self.buckets@.take(b as int).map_values(|x: KBucket| x.nodes@).lemma_flatten_push(nodes@);
            }
            b = b + 1;
        }
        proof {
            assert(self.buckets@.take(b as int) =~= self.buckets@);
        }
        let mut sorted: Vec<Node> = Vec::new();
        let mut i: usize = 0;
        while i < all.len()
            invariant
                i <= all@.len(),
                sorted@ == sort_by_distance(all@.take(i as int), target@),
            decreases all@.len() - i,
        {
            let ghost before = sorted@;
            let x = all[i].clone();
            let xid = x.id;
            sorted.push(x);
            let mut p: usize = sorted.len() - 1;
            let mut done = false;
            proof {
                assert(sorted@.take(p as int) =~= before);
                assert(sorted@.subrange(p + 1, sorted@.len() as int) =~= Seq::<Node>::empty());
                assert(insert_by_distance(before, all@[i as int], target@) + Seq::<Node>::empty()
                    =~= insert_by_distance(before, all@[i as int], target@));
            }
            while p > 0 && !done
                invariant
                    i < all@.len(),
                    p < sorted@.len(),
                    sorted@.len() == before.len() + 1,
                    sorted@[p as int] == all@[i as int],
                    sorted@.take(p as int) == before.take(p as int),
                    xid == all@[i as int].id,
                    done ==> p > 0 && xor_distance(sorted@[p - 1].id@, target@) <= xor_distance(
                        all@[i as int].id@,
                        target@,
                    ),
                    insert_by_distance(before, all@[i as int], target@) == insert_by_distance(
                        sorted@.take(p as int),
                        all@[i as int],
                        target@,
                    ) + sorted@.subrange(p + 1, sorted@.len() as int),
                decreases p + if done { 0int } else { 1int },
            {
                if distance_le(&sorted[p - 1].id, &xid, target) {
                    done = true;
                } else {
                    let ghost old_sorted = sorted@;
                    let ghost x = all@[i as int];
                    let ghost y = old_sorted[p - 1];
                    let moved = sorted.remove(p);
                    sorted.insert(p - 1, moved);
                    proof {
                        assert(sorted@ =~= old_sorted.update(p - 1, x).update(p as int, y));
                        let tp = old_sorted.take(p as int);
                        assert(tp.drop_last() =~= old_sorted.take(p - 1));
                        assert(tp.last() == y);
                        assert(sorted@.take(p - 1) =~= old_sorted.take(p - 1));
                        assert(sorted@.subrange(p as int, sorted@.len() as int) =~= seq![y]
                            + old_sorted.subrange(p + 1, old_sorted.len() as int));
                        assert(insert_by_distance(tp, x, target@) == insert_by_distance(
                            old_sorted.take(p - 1),
                            x,
                            target@,
                        ).push(y));
                        assert(insert_by_distance(old_sorted.take(p - 1), x, target@).push(y)
                            + old_sorted.subrange(p + 1, old_sorted.len() as int) =~= insert_by_distance(
                            old_sorted.take(p - 1),
                            x,
                            target@,
                        ) + (seq![y] + old_sorted.subrange(p + 1, old_sorted.len() as int)));
                        assert(sorted@.take(p - 1) =~= before.take(p - 1)) by {
                            assert(old_sorted.take(p - 1) =~= old_sorted.take(p as int).take(p - 1));
                            assert(before.take(p - 1) =~= before.take(p as int).take(p - 1));
                        }
                    }
                    p = p - 1;
                }
            }
            proof {
                let x = all@[i as int];
                if done {
                    let tp = sorted@.take(p as int);
                    assert(tp.last() == sorted@[p - 1]);
                    assert(tp.push(x) + sorted@.subrange(p + 1, sorted@.len() as int) =~= sorted@);
                } else {
                    assert(sorted@.take(0) =~= Seq::<Node>::empty());
                    assert(seq![x] + sorted@.subrange(1, sorted@.len() as int) =~= sorted@);
                }
            }
            proof {
                assert(all@.take(i + 1).drop_last() =~= all@.take(i as int));
            }
            i = i + 1;
        }
        proof {
            assert(all@.take(i as int) =~= all@);
            law_sort_by_distance(all@, target@);
        }
        let n = if k < sorted.len() { k } else { sorted.len() };
        sorted.truncate(n);
        sorted
    }
}

proof fn lemma_flatten_empty(buckets: Seq<KBucket>)
    requires
        forall|i: int| 0 <= i < buckets.len() ==> buckets[i].nodes@.len() == 0,
    ensures
        all_nodes(buckets).len() == 0,
    decreases buckets.len(),
{
    if buckets.len() > 0 {
        let m = buckets.map_values(|b: KBucket| b.nodes@);
        lemma_flatten_empty(buckets.drop_first());
        assert(m.drop_first() =~= buckets.drop_first().map_values(|b: KBucket| b.nodes@));
    }
}


/// What the DHT node does with a message it receives.
#[derive(Debug, PartialEq, Eq)]
pub enum KrpcAction {
    /// Answer a ping with our id.
    Pong,
    /// Hand a reply (or error) to the query waiting for it, and learn the
    /// replying node when it gave a 20-byte id.
    Deliver(Option<[u8; 20]>),
    /// Nothing to do.
    Ignore,
}

/// Decides what to do with a received KRPC message.
pub fn krpc_action(msg_type: &str, query: Option<&str>, response_id: Option<&[u8]>) -> (r: KrpcAction)
    ensures
        msg_type@ == "q"@ ==> if query matches Some(q) && q@ == "ping"@ {
            r == KrpcAction::Pong
        } else {
            r == KrpcAction::Ignore
        },
        (msg_type@ == "r"@ || msg_type@ == "e"@) ==> (r matches KrpcAction::Deliver(n) && match response_id {
            Some(id) => if id@.len() == 20 {
                n matches Some(x) && x@ == id@
            } else {
                n is None
            },
            None => n is None,
        }),
        !(msg_type@ == "q"@ || msg_type@ == "r"@ || msg_type@ == "e"@) ==> r == KrpcAction::Ignore,
{
    proof {
        reveal_strlit("q");
        reveal_strlit("r");
        reveal_strlit("e");
        assert("r"@[0] != "q"@[0]);
        assert("e"@[0] != "q"@[0]);
    }
    if text_eq(msg_type, "q") {
        match query {
            Some(q) => {
                if text_eq(q, "ping") {
                    KrpcAction::Pong
                } else {
                    KrpcAction::Ignore
                }
            },
            None => KrpcAction::Ignore,
        }
    } else if text_eq(msg_type, "r") || text_eq(msg_type, "e") {
        let node = match response_id {
            Some(id) => {
                if id.len() == 20 {
                    let x = crate::protocol::take20(id, 0);
                    assert(id@.subrange(0, 20) =~= id@);
                    Some(x)
                } else {
                    None
                }
            },
            None => None,
        };
        KrpcAction::Deliver(node)
    } else {
        KrpcAction::Ignore
    }
}

/// The peers of a `get_peers` reply's `values`: each six-byte string is an
/// address and a port; other values are passed over.
pub open spec fn value_peers(values: Seq<BValue>) -> Seq<PeerView>
    decreases values.len(),
{
    if values.len() == 0 {
        Seq::empty()
    } else {
        value_peers(values.drop_last()) + match values.last() {
            BValue::Bytes(b) => if b@.len() == 6 {
                seq![compact_peer(b@, 0)]
            } else {
                Seq::empty()
            },
            _ => Seq::empty(),
        }
    }
}

/// Reads the peers of a `get_peers` reply's `values`.
pub fn peers_from_values(values: &Vec<BValue>) -> (r: Vec<Peer>)
    ensures
        r@.map_values(|p: Peer| p@) == value_peers(values@),
{
    let mut out: Vec<Peer> = Vec::new();
    let mut i: usize = 0;
    while i < values.len()
        invariant
            i <= values@.len(),
            out@.map_values(|p: Peer| p@) == value_peers(values@.take(i as int)),
        decreases values@.len() - i,
    {
        assert(values@.take(i + 1).drop_last() =~= values@.take(i as int));
        let ghost before = out@.map_values(|p: Peer| p@);
        if let BValue::Bytes(b) = &values[i] {
            if b.len() == 6 {
                if let Ok(mut v) = parse_compact_peers_raw(b.as_slice()) {
                    let p = v.remove(0);
                    out.push(p);
                    assert(out@.map_values(|p: Peer| p@) =~= before + seq![compact_peer(b@, 0)]);
                }
            } else {
                assert(out@.map_values(|p: Peer| p@) =~= before + Seq::<PeerView>::empty());
            }
        } else {
            assert(out@.map_values(|p: Peer| p@) =~= before + Seq::<PeerView>::empty());
        }
        i = i + 1;
    }
    assert(values@.take(i as int) =~= values@);
    out
}
} // verus!
