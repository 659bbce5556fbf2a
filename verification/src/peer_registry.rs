//! The peers discovered for a torrent and the state of our connection to each.
use vstd::prelude::*;
use crate::text::{decimal, push_decimal, str_to_string, string_push};
use crate::tracker::{Peer, PeerView};

verus! {

/// State of our connection to a peer.
#[derive(Debug, Clone, Copy, PartialEq, Eq, Structural)]
pub enum ConnectionState {
    Disconnected,
    Connecting,
    Connected,
    Handshaked,
}

/// A discovered peer with its connection and choke/interest flags.
#[derive(Debug)]
pub struct PeerState {
    pub peer: Peer,
    pub state: ConnectionState,
    pub am_choking: bool,
    pub am_interested: bool,
    pub peer_choking: bool,
    pub peer_interested: bool,
}

/// The key of a peer: `ip:port`.
pub open spec fn addr_key(p: PeerView) -> Seq<char> {
    p.ip + seq![':'] + decimal(p.port as nat)
}

/// One registry entry: key, peer, connection state.
pub type EntryView = (Seq<char>, PeerView, ConnectionState);

/// The entries after adding `peers` in order; a peer whose key is already
/// present is skipped.
pub open spec fn add_all(entries: Seq<EntryView>, peers: Seq<PeerView>) -> Seq<EntryView>
    decreases peers.len(),
{
    if peers.len() == 0 {
        entries
    } else {
        let before = add_all(entries, peers.drop_last());
        let p = peers.last();
        if exists|k: int| 0 <= k < before.len() && before[k].0 == addr_key(p) {
            before
        } else {
            before.push((addr_key(p), p, ConnectionState::Disconnected))
        }
    }
}

/// Registry of discovered peers, keyed by address, in order of discovery.
#[derive(Debug)]
pub struct PeerRegistry {
    peers: Vec<(String, PeerState)>,
}

impl PeerRegistry {
    /// The entries: key, peer and connection state.
    pub closed spec fn entries(&self) -> Seq<EntryView> {
        self.peers@.map_values(|e: (String, PeerState)| (e.0@, e.1.peer@, e.1.state))
    }

    /// One entry per key, and each key is the `ip:port` of its peer.
    pub open spec fn wf(&self) -> bool {
        &&& forall|a: int, b: int|
            0 <= a < b < self.entries().len() ==> self.entries()[a].0 != self.entries()[b].0
        &&& forall|a: int| 0 <= a < self.entries().len() ==> self.entries()[a].0 == addr_key(self.entries()[a].1)
    }

    pub fn new() -> (r: Self)
        ensures
            r.wf(),
            r.entries().len() == 0,
    {
        let r = PeerRegistry { peers: Vec::new() };
        assert(r.entries() =~= Seq::empty());
        r
    }

    fn find(&self, key: &String) -> (r: Option<usize>)
        ensures
            r matches Some(j) ==> j < self.entries().len() && self.entries()[j as int].0 == key@,
            r is None ==> forall|j: int| 0 <= j < self.entries().len() ==> self.entries()[j].0 != key@,
    {
        let mut j: usize = 0;
        while j < self.peers.len()
            invariant
                j <= self.peers@.len(),
                forall|k: int| 0 <= k < j ==> self.entries()[k].0 != key@,
            decreases self.peers@.len() - j,
        {
            if self.peers[j].0 == *key {
                return Some(j);
            }
            j = j + 1;
        }
        None
    }

    /// Adds the peers not yet known (by `ip:port`), each as disconnected and
    /// choked, and returns how many were added.
    pub fn add_peers(&mut self, new_peers: Vec<Peer>) -> (added: usize)
        requires
            old(self).wf(),
        ensures
            final(self).wf(),
            final(self).entries() == add_all(old(self).entries(), new_peers@.map_values(|p: Peer| p@)),
            added == final(self).entries().len() - old(self).entries().len(),
    {
        let ghost views = new_peers@.map_values(|p: Peer| p@);
        let ghost start = self.entries();
        let mut added: usize = 0;
        let mut i: usize = 0;
        while i < new_peers.len()
            invariant
                self.wf(),
                i <= new_peers@.len(),
                views == new_peers@.map_values(|p: Peer| p@),
                self.entries() == add_all(start, views.take(i as int)),
                added == self.entries().len() - start.len(),
                start.len() <= self.entries().len(),
            decreases new_peers@.len() - i,
        {
            let p = new_peers[i].clone();
            let mut key = p.ip.clone();
            string_push(&mut key, ':');
            push_decimal(&mut key, p.port as u64);
            assert(key@ == addr_key(p@));
            let ghost before = self.entries();
            proof {
                assert(views.take(i + 1).drop_last() =~= views.take(i as int));
                assert(views.take(i + 1).last() == p@);
            }
            match self.find(&key) {
                Some(_) => {},
                None => {
                    let st = PeerState {
                        peer: p,
                        state: ConnectionState::Disconnected,
                        am_choking: true,
                        am_interested: false,
                        peer_choking: true,
                        peer_interested: false,
                    };
                    self.peers.push((key, st));
                    proof {
                        assert(self.entries() =~= before.push(
                            (addr_key(views[i as int]), views[i as int], ConnectionState::Disconnected),
                        ));
                        assert(!(exists|k: int| 0 <= k < before.len() && before[k].0 == addr_key(views[i as int])));
                    }
                    assert(self.entries().len() == before.len() + 1);
                    let n = self.peers.len();
                    assert(n == self.entries().len());
                    added = added + 1;
                },
            }
            i = i + 1;
        }
        proof {
            assert(views.take(i as int) =~= views);
        }
        added
    }

    /// The first peer, in order of discovery, that is disconnected.
    pub fn get_peer_to_connect(&self) -> (r: Option<Peer>)
        ensures
            r is None <==> forall|k: int|
                0 <= k < self.entries().len() ==> self.entries()[k].2 != ConnectionState::Disconnected,
            r matches Some(p) ==> exists|k: int|
                0 <= k < self.entries().len() && self.entries()[k].2 == ConnectionState::Disconnected
                    && p@ == self.entries()[k].1 && forall|j: int|
                    0 <= j < k ==> self.entries()[j].2 != ConnectionState::Disconnected,
    {
        let mut j: usize = 0;
        while j < self.peers.len()
            invariant
                j <= self.peers@.len(),
                forall|k: int| 0 <= k < j ==> self.entries()[k].2 != ConnectionState::Disconnected,
            decreases self.peers@.len() - j,
        {
            if self.peers[j].1.state == ConnectionState::Disconnected {
                let p = self.peers[j].1.peer.clone();
                assert(self.entries()[j as int].2 == ConnectionState::Disconnected);
                return Some(p);
            }
            j = j + 1;
        }
        None
    }

    /// Sets the connection state of the peer with key `addr`, if known.
    pub fn update_state(&mut self, addr: &str, state: ConnectionState)
        requires
            old(self).wf(),
        ensures
            final(self).wf(),
            final(self).entries().len() == old(self).entries().len(),
            forall|k: int|
                0 <= k < old(self).entries().len() ==> final(self).entries()[k] == if old(self).entries()[k].0
                    == addr@ {
                    (old(self).entries()[k].0, old(self).entries()[k].1, state)
                } else {
                    old(self).entries()[k]
                },
    {
        let key = str_to_string(addr);
        if let Some(j) = self.find(&key) {
            let ghost before = self.entries();
            self.peers[j].1.state = state;
            proof {
                assert forall|k: int| 0 <= k < before.len() implies self.entries()[k] == if before[k].0
                    == addr@ {
                    (before[k].0, before[k].1, state)
                } else {
                    before[k]
                } by {
                    if k != j {
                        assert(self.peers@[k] == old(self).peers@[k]);
                    }
                }
            }
        }
    }

    /// Number of known peers.
    pub fn peer_count(&self) -> (r: usize)
        ensures
            r == self.entries().len(),
    {
        self.peers.len()
    }
}

impl Default for PeerRegistry {
    fn default() -> (r: Self)
        ensures
            r.wf(),
            r.entries().len() == 0,
    {
        Self::new()
    }
}

} // verus!
