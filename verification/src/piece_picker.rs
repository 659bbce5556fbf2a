//! Rarest-first piece selection.
use vstd::prelude::*;
use crate::bitfield::Bitfield;
use rand::seq::IndexedRandom;

verus! {

/// Whether a bit sequence marks piece `i`.
pub open spec fn marks(bits: Seq<bool>, i: int) -> bool {
    0 <= i < bits.len() && bits[i]
}

/// The bits recorded for the peer at `addr` (its first entry), if any.
pub open spec fn recorded_bits(peers: Seq<(Seq<char>, Seq<bool>)>, addr: Seq<char>) -> Seq<bool> {
    peers[choose|k: int| 0 <= k < peers.len() && peers[k].0 == addr].1
}

/// The known peers as a map from address to recorded bits.
pub open spec fn peer_map(peers: Seq<(Seq<char>, Seq<bool>)>) -> Map<Seq<char>, Seq<bool>> {
    Map::new(
        |a: Seq<char>| exists|j: int| 0 <= j < peers.len() && peers[j].0 == a,
        |a: Seq<char>| recorded_bits(peers, a),
    )
}

/// No address occurs twice.
pub open spec fn distinct_addrs(peers: Seq<(Seq<char>, Seq<bool>)>) -> bool {
    forall|a: int, b: int| 0 <= a < b < peers.len() ==> peers[a].0 != peers[b].0
}

proof fn lemma_recorded_at(peers: Seq<(Seq<char>, Seq<bool>)>, k: int)
    requires
        distinct_addrs(peers),
        0 <= k < peers.len(),
    ensures
        recorded_bits(peers, peers[k].0) == peers[k].1,
{
    let a = peers[k].0;
    let c = choose|j: int| 0 <= j < peers.len() && peers[j].0 == a;
    assert(0 <= c < peers.len() && peers[c].0 == a);
    if c != k {
        if c < k {
            assert(peers[c].0 != peers[k].0);
        } else {
            assert(peers[k].0 != peers[c].0);
        }
    }
}

/// Recording the bits of a peer, as `add_peer_bitfield` does (replace its
/// entry, or append a new one), keeps the addresses distinct and, seen as a
/// map, is an insert: announcing a peer again replaces what it announced
/// before and never counts it twice.
pub proof fn law_record_is_map_insert(
    peers: Seq<(Seq<char>, Seq<bool>)>,
    after: Seq<(Seq<char>, Seq<bool>)>,
    addr: Seq<char>,
    bits: Seq<bool>,
)
    requires
        distinct_addrs(peers),
        (exists|j: int| 0 <= j < peers.len() && peers[j].0 == addr) ==> (exists|j: int|
            0 <= j < peers.len() && peers[j].0 == addr && after == peers.update(j, (addr, bits))),
        (forall|j: int| 0 <= j < peers.len() ==> peers[j].0 != addr) ==> after == peers.push(
            (addr, bits),
        ),
    ensures
        distinct_addrs(after),
        peer_map(after) == peer_map(peers).insert(addr, bits),
{
    let known = exists|j: int| 0 <= j < peers.len() && peers[j].0 == addr;
    let w = if known {
        choose|j: int|
            0 <= j < peers.len() && peers[j].0 == addr && after == peers.update(j, (addr, bits))
    } else {
        peers.len() as int
    };
    assert(0 <= w < after.len() && after[w] == (addr, bits));
    assert(forall|k: int| 0 <= k < after.len() && k != w ==> after[k] == peers[k]);
    assert(forall|k: int| 0 <= k < after.len() && k != w ==> peers[k].0 != addr) by {
        assert forall|k: int| 0 <= k < after.len() && k != w implies peers[k].0 != addr by {
            if known {
                if k < w {
                    assert(peers[k].0 != peers[w].0);
                } else {
                    assert(peers[w].0 != peers[k].0);
                }
            }
        }
    }
    assert forall|a: int, b: int| 0 <= a < b < after.len() implies after[a].0 != after[b].0 by {
        if a != w && b != w {
            assert(peers[a].0 != peers[b].0);
        }
    }
    let m = peer_map(peers).insert(addr, bits);
    assert forall|a: Seq<char>| #[trigger] peer_map(after).dom().contains(a) <==> m.dom().contains(a) by {
        if peer_map(after).dom().contains(a) {
            let k = choose|j: int| 0 <= j < after.len() && after[j].0 == a;
            if k != w {
                assert(peers[k].0 == a);
            }
        }
        if m.dom().contains(a) && a != addr {
            let k = choose|j: int| 0 <= j < peers.len() && peers[j].0 == a;
            assert(k != w);
            assert(after[k].0 == a);
        }
    }
    assert forall|a: Seq<char>| #[trigger] peer_map(after).dom().contains(a) implies peer_map(after)[a]
        == m[a] by {
        let k = choose|j: int| 0 <= j < after.len() && after[j].0 == a;
        lemma_recorded_at(after, k);
        if k != w {
            assert(peers[k].0 == a);
            lemma_recorded_at(peers, k);
        }
    }
    assert(peer_map(after) =~= m);
}

/// Number of peers in the list whose bitfield marks piece `i`.
pub open spec fn holders(peers: Seq<(Seq<char>, Seq<bool>)>, i: int) -> nat
    decreases peers.len(),
{
    if peers.len() == 0 {
        0
    } else {
        holders(peers.drop_last(), i) + if marks(peers.last().1, i) { 1nat } else { 0nat }
    }
}

pub proof fn lemma_holders_push(peers: Seq<(Seq<char>, Seq<bool>)>, x: (Seq<char>, Seq<bool>), i: int)
    ensures
        holders(peers.push(x), i) == holders(peers, i) + if marks(x.1, i) { 1nat } else { 0nat },
{
    assert(peers.push(x).drop_last() =~= peers);
}

pub proof fn lemma_holders_bounds(peers: Seq<(Seq<char>, Seq<bool>)>, i: int, j: int)
    requires
        0 <= j < peers.len(),
    ensures
        holders(peers, i) <= peers.len(),
        marks(peers[j].1, i) ==> holders(peers, i) >= 1,
    decreases peers.len(),
{
    lemma_holders_le_len(peers, i);
    if j < peers.len() - 1 {
        lemma_holders_bounds(peers.drop_last(), i, j);
    }
}

/// Without peer `j`, at most all the other peers hold piece `i`.
pub proof fn lemma_holders_without(peers: Seq<(Seq<char>, Seq<bool>)>, j: int, i: int)
    requires
        0 <= j < peers.len(),
    ensures
        holders(peers, i) - (if marks(peers[j].1, i) { 1int } else { 0int }) <= peers.len() - 1,
    decreases peers.len(),
{
    if j == peers.len() - 1 {
        lemma_holders_le_len(peers.drop_last(), i);
    } else {
        lemma_holders_without(peers.drop_last(), j, i);
    }
}

pub proof fn lemma_holders_le_len(peers: Seq<(Seq<char>, Seq<bool>)>, i: int)
    ensures
        holders(peers, i) <= peers.len(),
    decreases peers.len(),
{
    if peers.len() > 0 {
        lemma_holders_le_len(peers.drop_last(), i);
    }
}

pub proof fn lemma_holders_update(
    peers: Seq<(Seq<char>, Seq<bool>)>,
    j: int,
    x: (Seq<char>, Seq<bool>),
    i: int,
)
    requires
        0 <= j < peers.len(),
    ensures
        holders(peers.update(j, x), i) + (if marks(peers[j].1, i) { 1int } else { 0int })
            == holders(peers, i) + (if marks(x.1, i) { 1int } else { 0int }),
    decreases peers.len(),
{
    if j < peers.len() - 1 {
        assert(peers.update(j, x).drop_last() =~= peers.drop_last().update(j, x));
        lemma_holders_update(peers.drop_last(), j, x, i);
    } else {
        assert(peers.update(j, x).drop_last() =~= peers.drop_last());
    }
}

pub proof fn lemma_holders_remove(peers: Seq<(Seq<char>, Seq<bool>)>, j: int, i: int)
    requires
        0 <= j < peers.len(),
    ensures
        holders(peers.remove(j), i) + (if marks(peers[j].1, i) { 1int } else { 0int })
            == holders(peers, i),
    decreases peers.len(),
{
    if j < peers.len() - 1 {
        assert(peers.remove(j).drop_last() =~= peers.drop_last().remove(j));
        lemma_holders_remove(peers.drop_last(), j, i);
    } else {
        assert(peers.remove(j) =~= peers.drop_last());
    }
}

/// One element of `items`, chosen uniformly at random (`IndexedRandom::choose`
/// of the `rand` crate with the thread-local generator); `None` when `items` is
/// empty. Which element comes back is not stated.
#[verifier::external_body]
fn choose_random(items: &Vec<usize>) -> (r: Option<usize>)
    ensures
        r is None <==> items@.len() == 0,
        r matches Some(x) ==> items@.contains(x),
{
    items.as_slice().choose(&mut rand::rng()).copied()
}

/// Keeps the swarm's piece availability and chooses the next piece to fetch.
#[derive(Debug)]
pub struct PiecePicker {
    /// Number of pieces tracked; `piece_count` returns it, as `piece_total`.
    pub num_pieces: usize,
    /// Number of known peers that have each piece.
    piece_counts: Vec<usize>,
    /// The bitfield of each known peer, keyed by its address, in order of arrival.
    peer_bitfields: Vec<(String, Bitfield)>,
    /// Pieces currently being fetched.
    in_progress: Bitfield,
}

impl PiecePicker {
    /// Number of pieces tracked.
    pub closed spec fn piece_total(&self) -> int {
        self.num_pieces as int
    }

    /// The availability count kept for each piece.
    pub closed spec fn counts(&self) -> Seq<usize> {
        self.piece_counts@
    }

    /// The known peers: address and the pieces its bitfield marks.
    pub closed spec fn peers(&self) -> Seq<(Seq<char>, Seq<bool>)> {
        self.peer_bitfields@.map_values(|p: (String, Bitfield)| (p.0@, p.1@))
    }

    /// The pieces marked as being fetched.
    pub closed spec fn pending(&self) -> Seq<bool> {
        self.in_progress@
    }

    /// The picker's invariant: one count and one in-progress flag per piece,
    /// one entry per peer address, and each count equal to the number of
    /// known peers that have the piece.
    pub open spec fn wf(&self) -> bool {
        &&& self.counts().len() == self.piece_total()
        &&& self.pending().len() == self.piece_total()
        &&& forall|a: int, b: int|
            0 <= a < b < self.peers().len() ==> self.peers()[a].0 != self.peers()[b].0
        &&& forall|i: int| 0 <= i < self.piece_total() ==> self.counts()[i] == holders(self.peers(), i)
    }

    /// A piece that may be fetched from `peer` while `mine` is what we hold:
    /// we lack it, the peer has it, and nobody is fetching it.
    pub open spec fn is_candidate(&self, mine: Seq<bool>, peer: Seq<bool>, i: int) -> bool {
        0 <= i < self.piece_total() && !marks(mine, i) && marks(peer, i) && !marks(self.pending(), i)
    }

    /// Number of pieces tracked (the `num_pieces` field).
    pub fn piece_count(&self) -> (r: usize)
        ensures
            r == self.piece_total(),
    {
        self.num_pieces
    }

    /// Creates a picker for `num_pieces` pieces with no known peers.
    pub fn new(num_pieces: usize) -> (p: Self)
        ensures
            p.wf(),
            p.piece_total() == num_pieces,
            p.peers().len() == 0,
            forall|i: int| 0 <= i < num_pieces ==> !p.pending()[i],
    {
        let p = PiecePicker {
            num_pieces,
            piece_counts: vec![0usize; num_pieces],
            peer_bitfields: Vec::new(),
            in_progress: Bitfield::new(num_pieces),
        };
        assert(p.peers() =~= Seq::empty());
        p
    }

    /// Records that a piece is being fetched.
    pub fn mark_in_progress(&mut self, piece_idx: usize)
        requires
            old(self).wf(),
        ensures
            final(self).wf(),
            final(self).piece_total() == old(self).piece_total(),
            final(self).peers() == old(self).peers(),
            final(self).counts() == old(self).counts(),
            piece_idx < old(self).piece_total() ==> final(self).pending() == old(self).pending().update(
                piece_idx as int,
                true,
            ),
            piece_idx >= old(self).piece_total() ==> final(self).pending() == old(self).pending(),
    {
        self.in_progress.set(piece_idx, true);
        assert(self.peers() =~= old(self).peers());
    }

    /// Records that a piece has been fetched; it is no longer in progress.
    pub fn mark_completed(&mut self, piece_idx: usize)
        requires
            old(self).wf(),
        ensures
            final(self).wf(),
            final(self).piece_total() == old(self).piece_total(),
            final(self).peers() == old(self).peers(),
            final(self).counts() == old(self).counts(),
            piece_idx < old(self).piece_total() ==> final(self).pending() == old(self).pending().update(
                piece_idx as int,
                false,
            ),
            piece_idx >= old(self).piece_total() ==> final(self).pending() == old(self).pending(),
    {
        self.in_progress.set(piece_idx, false);
        assert(self.peers() =~= old(self).peers());
    }

    /// Gives a piece back after a failed fetch; it is no longer in progress.
    pub fn release_piece(&mut self, piece_idx: usize)
        requires
            old(self).wf(),
        ensures
            final(self).wf(),
            final(self).piece_total() == old(self).piece_total(),
            final(self).peers() == old(self).peers(),
            final(self).counts() == old(self).counts(),
            piece_idx < old(self).piece_total() ==> final(self).pending() == old(self).pending().update(
                piece_idx as int,
                false,
            ),
            piece_idx >= old(self).piece_total() ==> final(self).pending() == old(self).pending(),
    {
        self.in_progress.set(piece_idx, false);
        assert(self.peers() =~= old(self).peers());
    }

    /// Position of the peer with address `addr`.
    fn find_peer(&self, addr: &String) -> (r: Option<usize>)
        requires
            self.wf(),
        ensures
            r matches Some(j) ==> j < self.peers().len() && self.peers()[j as int].0 == addr@,
            r is None ==> forall|j: int| 0 <= j < self.peers().len() ==> self.peers()[j].0 != addr@,
    {
        let mut j: usize = 0;
        while j < self.peer_bitfields.len()
            invariant
                j <= self.peer_bitfields@.len(),
                forall|k: int| 0 <= k < j ==> self.peers()[k].0 != addr@,
            decreases self.peer_bitfields@.len() - j,
        {
            if self.peer_bitfields[j].0 == *addr {
                return Some(j);
            }
            j = j + 1;
        }
        None
    }

    /// Records the bitfield of a peer, replacing the one it sent before if any.
    pub fn add_peer_bitfield(&mut self, addr: String, bitfield: Bitfield)
        requires
            old(self).wf(),
        ensures
            final(self).wf(),
            final(self).piece_total() == old(self).piece_total(),
            final(self).pending() == old(self).pending(),
            (exists|j: int|
                0 <= j < old(self).peers().len() && old(self).peers()[j].0 == addr@) ==> (exists|
                j: int|
                0 <= j < old(self).peers().len() && old(self).peers()[j].0 == addr@
                    && final(self).peers() == old(self).peers().update(j, (addr@, bitfield@))),
            (forall|j: int|
                0 <= j < old(self).peers().len() ==> old(self).peers()[j].0 != addr@) ==> final(self).peers() == old(self).peers().push((addr@, bitfield@)),
            peer_map(final(self).peers()) == peer_map(old(self).peers()).insert(addr@, bitfield@),
    {
        let n = self.num_pieces;
        let found = self.find_peer(&addr);
        let ghost peers0 = self.peers();
        if let Some(j) = found {
            let mut i: usize = 0;
            while i < n
                invariant
                    n == self.num_pieces,
                    self.num_pieces == old(self).num_pieces,
                    i <= n,
                    j < peers0.len(),
                    self.peer_bitfields == old(self).peer_bitfields,
                    self.in_progress == old(self).in_progress,
                    peers0 == self.peers(),
                    self.piece_counts@.len() == n,
                    forall|k: int|
                        0 <= k < n ==> self.piece_counts@[k] + (if k < i && marks(peers0[j as int].1, k) {
                            1int
                        } else {
                            0int
                        }) == holders(peers0, k),
                decreases n - i,
            {
                proof {
                    lemma_holders_bounds(peers0, i as int, j as int);
                }
                if self.peer_bitfields[j].1.get(i) {
                    self.piece_counts.set(i, self.piece_counts[i] - 1);
                }
                i = i + 1;
            }
        }
        let ghost mid = self.piece_counts@;
        let ghost bits = bitfield@;
        let ghost entry = (addr@, bitfield@);
        // The record goes in first: replacing the old one, or at the end.
        let slot: usize = match found {
            Some(j) => {
                self.peer_bitfields.set(j, (addr, bitfield));
                j
            },
            None => {
                self.peer_bitfields.push((addr, bitfield));
                self.peer_bitfields.len() - 1
            },
        };
        let total = self.peer_bitfields.len();
        let ghost peers1 = self.peers();
        proof {
            match found {
                Some(j) => {
                    assert(peers1 =~= peers0.update(j as int, entry));
                },
                None => {
                    assert(peers1 =~= peers0.push(entry));
                },
            }
            law_record_is_map_insert(peers0, peers1, entry.0, entry.1);
            assert forall|k: int| 0 <= k < n implies mid[k] < total by {
                match found {
                    Some(j) => {
                        lemma_holders_without(peers0, j as int, k);
                    },
                    None => {
                        lemma_holders_le_len(peers0, k);
                    },
                }
            }
        }
        let mut i: usize = 0;
        while i < n
            invariant
                n == self.num_pieces,
                self.num_pieces == old(self).num_pieces,
                i <= n,
                slot < self.peer_bitfields@.len(),
                self.peer_bitfields@[slot as int].1@ == bits,
                self.peers() == peers1,
                self.in_progress == old(self).in_progress,
                self.piece_counts@.len() == n,
                mid.len() == n,
                forall|k: int| 0 <= k < n ==> mid[k] < total,
                forall|k: int|
                    0 <= k < i ==> self.piece_counts@[k] == mid[k] + (if marks(bits, k) {
                        1int
                    } else {
                        0int
                    }),
                forall|k: int| i <= k < n ==> self.piece_counts@[k] == mid[k],
            decreases n - i,
        {
            let ghost before = self.piece_counts@;
            assert(self.piece_counts@[i as int] == mid[i as int] && mid[i as int] < total);
            if self.peer_bitfields[slot].1.get(i) {
                self.piece_counts.set(i, self.piece_counts[i] + 1);
            }
            proof {
                assert forall|k: int| 0 <= k < i + 1 implies self.piece_counts@[k] == mid[k] + (if marks(
                    bits,
                    k,
                ) {
                    1int
                } else {
                    0int
                }) by {
                    if k != i {
                        assert(self.piece_counts@[k] == before[k]);
                    }
                }
                assert forall|k: int| i + 1 <= k < n implies self.piece_counts@[k] == mid[k] by {
                    assert(self.piece_counts@[k] == before[k]);
                }
            }
            i = i + 1;
        }
        proof {
            assert forall|k: int| 0 <= k < n implies self.counts()[k] == holders(self.peers(), k) by {
                match found {
                    Some(j) => {
                        lemma_holders_update(peers0, j as int, entry, k);
                    },
                    None => {
                        lemma_holders_push(peers0, entry, k);
                    },
                }
            }
        }
    }

    /// Forgets a peer and what it contributed to the counts.
    pub fn remove_peer(&mut self, addr: &str)
        requires
            old(self).wf(),
        ensures
            final(self).wf(),
            final(self).piece_total() == old(self).piece_total(),
            final(self).pending() == old(self).pending(),
            (exists|j: int|
                0 <= j < old(self).peers().len() && old(self).peers()[j].0 == addr@) ==> (exists|
                j: int|
                0 <= j < old(self).peers().len() && old(self).peers()[j].0 == addr@
                    && final(self).peers() == old(self).peers().remove(j)),
            (forall|j: int|
                0 <= j < old(self).peers().len() ==> old(self).peers()[j].0 != addr@) ==> final(self).peers() == old(self).peers(),
    {
        let key = addr.to_owned();
        let found = self.find_peer(&key);
        if let Some(j) = found {
            let ghost peers0 = self.peers();
            let (_, bf) = self.peer_bitfields.remove(j);
            assert(self.peers() =~= peers0.remove(j as int));
            let n = self.num_pieces;
            let mut i: usize = 0;
            while i < n
                invariant
                    n == self.num_pieces,
                    self.num_pieces == old(self).num_pieces,
                    i <= n,
                    j < peers0.len(),
                    bf@ == peers0[j as int].1,
                    self.in_progress == old(self).in_progress,
                    self.peers() == peers0.remove(j as int),
                    self.piece_counts@.len() == n,
                    forall|k: int|
                        0 <= k < n ==> self.piece_counts@[k] + (if k < i && marks(bf@, k) {
                            1int
                        } else {
                            0int
                        }) == holders(peers0, k),
                decreases n - i,
            {
                proof {
                    lemma_holders_bounds(peers0, i as int, j as int);
                }
                if bf.get(i) {
                    self.piece_counts.set(i, self.piece_counts[i] - 1);
                }
                i = i + 1;
            }
            proof {
                assert forall|k: int| 0 <= k < n implies self.counts()[k] == holders(
                    self.peers(),
                    k,
                ) by {
                    lemma_holders_remove(peers0, j as int, k);
                }
                assert forall|a: int, b: int|
                    0 <= a < b < self.peers().len() implies self.peers()[a].0 != self.peers()[b].0 by {
                    let a0 = if a < j { a } else { a + 1 };
                    let b0 = if b < j { b } else { b + 1 };
                    assert(self.peers()[a] == peers0[a0]);
                    assert(self.peers()[b] == peers0[b0]);
                }
            }
        }
    }

    /// The bits sent by the peer with address `addr` (any address if unknown).
    pub open spec fn bits_of_peer(&self, addr: Seq<char>) -> Seq<bool> {
        recorded_bits(self.peers(), addr)
    }

    /// The peer with address `addr` is known.
    pub open spec fn knows(&self, addr: Seq<char>) -> bool {
        exists|j: int| 0 <= j < self.peers().len() && self.peers()[j].0 == addr
    }

    /// `v` lists, in increasing order, exactly the candidate pieces whose
    /// availability is the lowest among all candidates.
    pub open spec fn is_rarest_list(&self, mine: Seq<bool>, peer: Seq<bool>, v: Seq<usize>) -> bool {
        &&& forall|k: int| 0 <= k < v.len() ==> self.is_candidate(mine, peer, v[k] as int)
        &&& forall|k1: int, k2: int| 0 <= k1 < k2 < v.len() ==> v[k1] < v[k2]
        &&& forall|k: int, c: int|
            0 <= k < v.len() && self.is_candidate(mine, peer, c) ==> self.counts()[v[k] as int]
                <= self.counts()[c]
        &&& forall|c: int|
            self.is_candidate(mine, peer, c) && (v.len() == 0 || self.counts()[c] == self.counts()[v[0] as int])
                ==> v.contains(c as usize)
    }

    fn find_peer_str(&self, addr: &str) -> (r: Option<usize>)
        requires
            self.wf(),
        ensures
            r matches Some(j) ==> j < self.peers().len() && self.peers()[j as int].0 == addr@,
            r is None ==> !self.knows(addr@),
    {
        let key = addr.to_owned();
        self.find_peer(&key)
    }

    /// The bitfield recorded for the peer at `addr`, if it is known.
    pub fn peer_bitfield(&self, addr: &str) -> (r: Option<Bitfield>)
        requires
            self.wf(),
        ensures
            r is Some <==> self.knows(addr@),
            r matches Some(b) ==> b@ == recorded_bits(self.peers(), addr@),
    {
        match self.find_peer_str(addr) {
            Some(j) => {
                proof {
                    let c = choose|k: int| 0 <= k < self.peers().len() && self.peers()[k].0 == addr@;
                    assert(c == j as int);
                }
                Some(self.peer_bitfields[j].1.clone())
            },
            None => None,
        }
    }

    /// The candidate pieces for `peer_addr` that the fewest peers have, in increasing
    /// order; `None` when the peer is unknown.
    pub fn rarest_pieces(&self, my_bitfield: &Bitfield, peer_addr: &str) -> (r: Option<Vec<usize>>)
        requires
            self.wf(),
        ensures
            !self.knows(peer_addr@) ==> r is None,
            self.knows(peer_addr@) ==> (r matches Some(v) && self.is_rarest_list(
                my_bitfield@,
                self.bits_of_peer(peer_addr@),
                v@,
            )),
    {
        let j = match self.find_peer_str(peer_addr) {
            Some(j) => j,
            None => return None,
        };
        let ghost pbits = self.peers()[j as int].1;
        proof {
            let jj = choose|k: int| 0 <= k < self.peers().len() && self.peers()[k].0 == peer_addr@;
            assert(jj == j as int);
        }
        let peer_bf = &self.peer_bitfields[j].1;
        assert(peer_bf@ == pbits);
        let mut rarest: Vec<usize> = Vec::new();
        let mut min_count: usize = usize::MAX;
        let mut i: usize = 0;
        while i < self.num_pieces
            invariant
                self.wf(),
                i <= self.num_pieces,
                peer_bf@ == pbits,
                rarest@.len() == 0 ==> min_count == usize::MAX,
                rarest@.len() == 0 <==> (forall|c: int|
                    0 <= c < i ==> !self.is_candidate(my_bitfield@, pbits, c)),
                forall|k: int|
                    0 <= k < rarest@.len() ==> self.is_candidate(my_bitfield@, pbits, rarest@[k] as int)
                        && rarest@[k] < i && self.counts()[rarest@[k] as int] == min_count,
                forall|k1: int, k2: int| 0 <= k1 < k2 < rarest@.len() ==> rarest@[k1] < rarest@[k2],
                forall|c: int|
                    0 <= c < i && self.is_candidate(my_bitfield@, pbits, c) ==> min_count
                        <= self.counts()[c],
                forall|c: int|
                    0 <= c < i && self.is_candidate(my_bitfield@, pbits, c) && self.counts()[c]
                        == min_count ==> rarest@.contains(c as usize),
            decreases self.num_pieces - i,
        {
            let skip = my_bitfield.get(i) || !peer_bf.get(i) || self.in_progress.get(i);
            assert(skip == !self.is_candidate(my_bitfield@, pbits, i as int));
            if !skip {
                let count = self.piece_counts[i];
                if count < min_count {
                    min_count = count;
                    rarest.clear();
                    rarest.push(i);
                    assert(rarest@[0] == i);
                } else if count == min_count {
                    let ghost before = rarest@;
                    rarest.push(i);
                    assert forall|c: int|
                        0 <= c < i + 1 && self.is_candidate(my_bitfield@, pbits, c) && self.counts()[c]
                            == min_count implies rarest@.contains(c as usize) by {
                        if c < i {
                            let k = choose|k: int| 0 <= k < before.len() && before[k] == c as usize;
                            assert(rarest@[k] == c as usize);
                        } else {
                            assert(rarest@[before.len() as int] == i);
                        }
                    }
                }
            }
            proof {
                if rarest@.len() > 0 {
                    assert(self.is_candidate(my_bitfield@, pbits, rarest@[0] as int));
                    assert(rarest@[0] < i + 1);
                }
            }
            i = i + 1;
        }
        proof {
            assert forall|c: int| self.is_candidate(my_bitfield@, pbits, c) && (rarest@.len() == 0
                || self.counts()[c] == self.counts()[rarest@[0] as int]) implies rarest@.contains(
                c as usize,
            ) by {}
        }
        Some(rarest)
    }

    /// Picks the next piece to fetch from `peer_addr`, rarest first: among the
    /// pieces that we lack, that the peer has and that nobody is fetching, one
    /// of those with the lowest availability, chosen at random.
    pub fn pick_next(&self, my_bitfield: &Bitfield, peer_addr: &str) -> (r: Option<usize>)
        requires
            self.wf(),
        ensures
            r is None <==> (!self.knows(peer_addr@) || forall|c: int|
                !self.is_candidate(my_bitfield@, self.bits_of_peer(peer_addr@), c)),
            r matches Some(i) ==> self.is_candidate(my_bitfield@, self.bits_of_peer(peer_addr@), i as int)
                && forall|c: int|
                self.is_candidate(my_bitfield@, self.bits_of_peer(peer_addr@), c)
                    ==> self.counts()[i as int] <= self.counts()[c],
    {
        let rarest = match self.rarest_pieces(my_bitfield, peer_addr) {
            Some(v) => v,
            None => return None,
        };
        let ghost pbits = self.bits_of_peer(peer_addr@);
        let r = choose_random(&rarest);
        proof {
            if r is None {
                assert forall|c: int| !self.is_candidate(my_bitfield@, pbits, c) by {
                    if self.is_candidate(my_bitfield@, pbits, c) {
                        assert(rarest@.contains(c as usize));
                    }
                }
            } else {
                let x = r->0;
                let k = choose|k: int| 0 <= k < rarest@.len() && rarest@[k] == x;
                assert(rarest@[k] == x);
            }
        }
        r
    }

}

} // verus!
