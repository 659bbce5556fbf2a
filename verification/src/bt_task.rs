//! The shared state of one torrent download: the pieces held, the piece
//! picker and the known peers, and the choice of the next peer to contact.
use vstd::prelude::*;
use crate::bitfield::Bitfield;
use crate::peer_registry::{ConnectionState, PeerRegistry, addr_key};
use crate::piece_picker::PiecePicker;
use crate::text::{push_decimal, string_push};
use crate::torrent::{Torrent, pieces_count_of, v2_countable};
use crate::tracker::Peer;

verus! {

/// How many peer connections a torrent keeps at once.
pub const MAX_ACTIVE_PEERS: usize = 50;

/// The state of one torrent download.
#[derive(Debug)]
pub struct BtTaskState {
    pub torrent: Torrent,
    pub bitfield: Bitfield,
    pub picker: PiecePicker,
    pub registry: PeerRegistry,
}

/// The `ip:port` address of a peer.
pub fn peer_address(p: &Peer) -> (r: String)
    ensures
        r@ == addr_key(p@),
{
    let mut key = p.ip.clone();
    string_push(&mut key, ':');
    push_decimal(&mut key, p.port as u64);
    key
}

/// The peer id that a tracker reported, when it is 20 bytes; else zeros.
pub fn peer_id_or_zero(id: &Option<Vec<u8>>) -> (r: [u8; 20])
    ensures
        match id {
            Some(v) => if v@.len() == 20 {
                r@ == v@
            } else {
                r@ == Seq::new(20, |i: int| 0u8)
            },
            None => r@ == Seq::new(20, |i: int| 0u8),
        },
{
    if let Some(v) = id {
        if v.len() == 20 {
            let r = crate::protocol::take20(v.as_slice(), 0);
            assert(v@.subrange(0, 20) =~= v@);
            return r;
        }
    }
    let r = [0u8; 20];
    assert(r@ =~= Seq::new(20, |i: int| 0u8));
    r
}

impl BtTaskState {
    /// The download of `torrent`, with nothing held and no peers: one bit and
    /// one count per piece of the torrent.
    pub fn new(torrent: Torrent) -> (s: Self)
        requires
            torrent.info.pieces is None && torrent.info.meta_version == Some(2u64) ==> v2_countable(
                torrent,
            ),
        ensures
            s.torrent == torrent,
            s.bitfield@.len() == pieces_count_of(torrent),
            forall|i: int| 0 <= i < pieces_count_of(torrent) ==> !s.bitfield@[i],
            s.picker.wf(),
            s.picker.piece_total() == pieces_count_of(torrent),
            s.picker.peers().len() == 0,
            forall|i: int| 0 <= i < pieces_count_of(torrent) ==> !s.picker.pending()[i],
            s.registry.wf(),
            s.registry.entries().len() == 0,
    {
        let num_pieces = torrent.pieces_count();
        BtTaskState {
            torrent,
            bitfield: Bitfield::new(num_pieces),
            picker: PiecePicker::new(num_pieces),
            registry: PeerRegistry::new(),
        }
    }

    /// Takes the pieces held from a saved bitfield: it replaces the current
    /// one, and each of its pieces is no longer pending in the picker.
    pub fn restore(&mut self, saved: Bitfield)
        requires
            old(self).picker.wf(),
        ensures
            final(self).bitfield@ == saved@,
            final(self).picker.wf(),
            final(self).picker.piece_total() == old(self).picker.piece_total(),
            final(self).picker.peers() == old(self).picker.peers(),
            final(self).picker.pending().len() == old(self).picker.pending().len(),
            forall|i: int|
                0 <= i < old(self).picker.pending().len() ==> final(self).picker.pending()[i] == (
                old(self).picker.pending()[i] && !(i < saved@.len() && saved@[i])),
            final(self).registry == old(self).registry,
            final(self).torrent == old(self).torrent,
    {
        self.bitfield = saved;
        let n = self.bitfield.len();
        let ghost p0 = self.picker.pending();
        let mut i: usize = 0;
        while i < n
            invariant
                n == self.bitfield@.len(),
                i <= n,
                self.picker.wf(),
                self.picker.piece_total() == old(self).picker.piece_total(),
                self.picker.peers() == old(self).picker.peers(),
                self.picker.pending().len() == p0.len(),
                p0 == old(self).picker.pending(),
                self.bitfield@ == saved@,
                self.registry == old(self).registry,
                self.torrent == old(self).torrent,
                forall|k: int|
                    0 <= k < p0.len() ==> self.picker.pending()[k] == (p0[k] && !(k < i && k < saved@.len()
                        && saved@[k])),
            decreases n - i,
        {
            if self.bitfield.get(i) {
                self.picker.mark_completed(i);
            }
            i = i + 1;
        }
    }

    /// The next peer to contact (the first one not connected) and, if the
    /// picker can choose one from what that peer is known to hold, a piece
    /// among the rarest of its candidates.
    pub fn pick_work(&self) -> (r: Option<(Option<usize>, Peer)>)
        requires
            self.picker.wf(),
        ensures
            r is None <==> forall|k: int|
                0 <= k < self.registry.entries().len() ==> self.registry.entries()[k].2
                    != ConnectionState::Disconnected,
            r matches Some((piece, p)) ==> {
                let addr = addr_key(p@);
                let pbits = self.picker.bits_of_peer(addr);
                &&& exists|k: int|
                    0 <= k < self.registry.entries().len() && self.registry.entries()[k].2
                        == ConnectionState::Disconnected && p@ == self.registry.entries()[k].1
                        && forall|j: int|
                        0 <= j < k ==> self.registry.entries()[j].2 != ConnectionState::Disconnected
                &&& piece is None <==> (!self.picker.knows(addr) || forall|c: int|
                    !self.picker.is_candidate(self.bitfield@, pbits, c))
                &&& piece matches Some(i) ==> self.picker.is_candidate(self.bitfield@, pbits, i as int)
                    && forall|c: int|
                    self.picker.is_candidate(self.bitfield@, pbits, c) ==> self.picker.counts()[i as int]
                        <= self.picker.counts()[c]
            },
    {
        let peer = match self.registry.get_peer_to_connect() {
            Some(p) => p,
            None => {
                return None;
            },
        };
        let addr = peer_address(&peer);
        let piece = self.picker.pick_next(&self.bitfield, addr.as_str());
        Some((piece, peer))
    }
}

} // verus!
