//! Tracker replies: peer lists (compact and dictionary forms), HTTP announce
//! bodies, and the packets of the UDP tracker protocol.
use vstd::prelude::*;
use crate::Error;
use crate::bencode::{
    BValue, alike, bdecode, bencode_decode, dict_get, dict_lookup, lemma_alike_lookup, lemma_alike_parts,
    lossy_string, utf8_lossy,
};
use crate::protocol::{be32, be32_value, copy_from, lemma_be32_value_of, push_all, read_be32};
use crate::text::{decimal, hex_char, hex_char_of, push_decimal, push_str, str_to_string, string_push};
use crate::links::{url_parse, url_parts};
use rand::seq::SliceRandom;

verus! {

/// A peer announced by a tracker.
#[derive(Debug)]
pub struct Peer {
    /// The peer id, when the tracker sent one as a byte string.
    pub id: Option<Vec<u8>>,
    pub ip: String,
    pub port: u16,
}

/// A peer with its bytes and text seen as sequences.
pub struct PeerView {
    pub id: Option<Seq<u8>>,
    pub ip: Seq<char>,
    pub port: u16,
}

impl View for Peer {
    type V = PeerView;

    open spec fn view(&self) -> PeerView {
        PeerView {
            id: match self.id {
                Some(v) => Some(v@),
                None => None,
            },
            ip: self.ip@,
            port: self.port,
        }
    }
}

fn copy_bytes(v: &Vec<u8>) -> (r: Vec<u8>)
    ensures
        r@ == v@,
{
    let r = copy_from(v.as_slice(), 0);
    assert(v@.subrange(0, v@.len() as int) =~= v@);
    r
}

impl Clone for Peer {
    fn clone(&self) -> (r: Self)
        ensures
            r@ == self@,
    {
        let id = match &self.id {
            Some(v) => Some(copy_bytes(v)),
            None => None,
        };
        Peer { id, ip: self.ip.clone(), port: self.port }
    }
}

/// Dotted decimal form of four address bytes.
pub open spec fn dotted_quad(b: Seq<u8>) -> Seq<char> {
    decimal(b[0] as nat) + seq!['.'] + decimal(b[1] as nat) + seq!['.'] + decimal(b[2] as nat)
        + seq!['.'] + decimal(b[3] as nat)
}

/// The `k`-th peer of a compact peer list (six bytes: address, big-endian port).
pub open spec fn compact_peer(b: Seq<u8>, k: int) -> PeerView {
    PeerView {
        id: None,
        ip: dotted_quad(b.subrange(6 * k, 6 * k + 4)),
        port: (b[6 * k + 4] as int * 256 + b[6 * k + 5] as int) as u16,
    }
}

/// Reads a compact peer list: each full group of six bytes is one peer, a
/// shorter tail is ignored.
pub fn parse_compact_peers_raw(bytes: &[u8]) -> (r: Result<Vec<Peer>, Error>)
    ensures
        r matches Ok(v) && v@.len() == bytes@.len() / 6 && forall|k: int|
            0 <= k < v@.len() ==> (#[trigger] v@[k])@ == compact_peer(bytes@, k),
{
    let mut peers: Vec<Peer> = Vec::new();
    let n = bytes.len() / 6;
    let mut k: usize = 0;
    while k < n
        invariant
            n == bytes@.len() / 6,
            k <= n,
            peers@.len() == k,
            forall|j: int| 0 <= j < k ==> (#[trigger] peers@[j])@ == compact_peer(bytes@, j),
        decreases n - k,
    {
        proof {
            let len = bytes.len() as int;
            assert(6 * k + 6 <= len) by (nonlinear_arith)
                requires
                    k < n,
                    n == len / 6,
                    len >= 0,
            ;
        }
        let o = 6 * k;
        let mut ip = String::new();
        push_decimal(&mut ip, bytes[o] as u64);
        string_push(&mut ip, '.');
        push_decimal(&mut ip, bytes[o + 1] as u64);
        string_push(&mut ip, '.');
        push_decimal(&mut ip, bytes[o + 2] as u64);
        string_push(&mut ip, '.');
        push_decimal(&mut ip, bytes[o + 3] as u64);
        let port: u16 = (bytes[o + 4] as u16) * 256 + bytes[o + 5] as u16;
        proof {
            let q = bytes@.subrange(6 * k, 6 * k + 4);
            assert(q[0] == bytes@[o as int] && q[1] == bytes@[o + 1] && q[2] == bytes@[o + 2] && q[3]
                == bytes@[o + 3]);
            assert(ip@ =~= dotted_quad(q));
        }
        peers.push(Peer { id: None, ip, port });
        k = k + 1;
    }
    Ok(peers)
}

/// The peer that a dictionary entry of a peer list describes: it needs an
/// `ip` byte string and a `port` integer (truncated to 16 bits); a byte-string
/// `peer id` is kept.
pub open spec fn dict_peer(v: BValue) -> Option<PeerView> {
    match v {
        BValue::Dict(d) => match (dict_lookup(d@, seq![105u8, 112]), dict_lookup(d@, seq![112u8, 111, 114, 116])) {
            (Some(BValue::Bytes(ip)), Some(BValue::Int(p))) => Some(
                PeerView {
                    id: match dict_lookup(d@, peer_id_key()) {
                        Some(BValue::Bytes(id)) => Some(id@),
                        _ => None,
                    },
                    ip: utf8_lossy(ip@),
                    port: p as u16,
                },
            ),
            _ => None,
        },
        _ => None,
    }
}

/// The key `peer id`.
pub open spec fn peer_id_key() -> Seq<u8> {
    seq![112u8, 101, 101, 114, 32, 105, 100]
}

/// The peers of a dictionary-form peer list, skipping entries that are not
/// complete peer dictionaries.
pub open spec fn list_peers(items: Seq<BValue>) -> Seq<PeerView>
    decreases items.len(),
{
    if items.len() == 0 {
        Seq::empty()
    } else {
        let rest = list_peers(items.drop_last());
        match dict_peer(items.last()) {
            Some(p) => rest.push(p),
            None => rest,
        }
    }
}

fn dict_entry_peer(v: &BValue) -> (r: Option<Peer>)
    ensures
        match dict_peer(*v) {
            Some(p) => r matches Some(q) && q@ == p,
            None => r is None,
        },
{
    match v {
        BValue::Dict(d) => {
            let ip_key: [u8; 2] = [105u8, 112];
            let port_key: [u8; 4] = [112u8, 111, 114, 116];
            let id_key: [u8; 7] = [112u8, 101, 101, 114, 32, 105, 100];
            assert(ip_key@ =~= seq![105u8, 112]);
            assert(port_key@ =~= seq![112u8, 111, 114, 116]);
            assert(id_key@ =~= peer_id_key());
            let ip = match dict_get(d, ip_key.as_slice()) {
                Some(BValue::Bytes(b)) => lossy_string(b.as_slice()),
                _ => return None,
            };
            let port = match dict_get(d, port_key.as_slice()) {
                Some(BValue::Int(p)) => *p as u16,
                _ => return None,
            };
            let id = match dict_get(d, id_key.as_slice()) {
                Some(BValue::Bytes(b)) => Some(copy_bytes(b)),
                _ => None,
            };
            Some(Peer { id, ip, port })
        },
        _ => None,
    }
}

/// The peers of a tracker's `peers` value: a list of peer dictionaries, or a
/// compact byte string.
pub fn parse_peers(peers_val: &BValue) -> (r: Result<Vec<Peer>, Error>)
    ensures
        match *peers_val {
            BValue::List(items) => r matches Ok(v) && v@.len() == list_peers(items@).len()
                && forall|k: int| 0 <= k < v@.len() ==> (#[trigger] v@[k])@ == list_peers(items@)[k],
            BValue::Bytes(b) => r matches Ok(v) && v@.len() == b@.len() / 6 && forall|k: int|
                0 <= k < v@.len() ==> (#[trigger] v@[k])@ == compact_peer(b@, k),
            _ => r matches Err(Error::Protocol(m)) && m@ == "Unknown peers format"@,
        },
{
    match peers_val {
        BValue::List(items) => {
            let mut peers: Vec<Peer> = Vec::new();
            let mut i: usize = 0;
            while i < items.len()
                invariant
                    i <= items@.len(),
                    peers@.len() == list_peers(items@.take(i as int)).len(),
                    forall|k: int|
                        0 <= k < peers@.len() ==> (#[trigger] peers@[k])@ == list_peers(
                            items@.take(i as int),
                        )[k],
                decreases items@.len() - i,
            {
                proof {
                    assert(items@.take(i + 1).drop_last() =~= items@.take(i as int));
                }
                match dict_entry_peer(&items[i]) {
                    Some(p) => {
                        peers.push(p);
                    },
                    None => {},
                }
                i = i + 1;
            }
            proof {
                assert(items@.take(i as int) =~= items@);
            }
            Ok(peers)
        },
        BValue::Bytes(b) => parse_compact_peers_raw(b.as_slice()),
        _ => Err(Error::Protocol(str_to_string("Unknown peers format"))),
    }
}

/// The key `failure reason`.
pub open spec fn failure_reason_key() -> Seq<u8> {
    seq![102u8, 97, 105, 108, 117, 114, 101, 32, 114, 101, 97, 115, 111, 110]
}

/// The key `peers`.
pub open spec fn peers_key() -> Seq<u8> {
    seq![112u8, 101, 101, 114, 115]
}

/// Reads the peers out of a decoded announce reply: a `failure reason` is the
/// tracker's refusal, otherwise the `peers` entry is read; anything else is
/// malformed.
pub fn parse_tracker_response(res_val: &BValue) -> (r: Result<Vec<Peer>, Error>)
    ensures
        match *res_val {
            BValue::Dict(d) => match dict_lookup(d@, failure_reason_key()) {
                Some(BValue::Bytes(reason)) => r matches Err(Error::Protocol(m)) && m@
                    == "Tracker reported failure: "@ + utf8_lossy(reason@),
                _ => match dict_lookup(d@, peers_key()) {
                    Some(p) => match p {
                        BValue::List(items) => r matches Ok(v) && v@.len() == list_peers(items@).len()
                            && forall|k: int| 0 <= k < v@.len() ==> (#[trigger] v@[k])@ == list_peers(items@)[k],
                        BValue::Bytes(b) => r matches Ok(v) && v@.len() == b@.len() / 6 && forall|k: int|
                            0 <= k < v@.len() ==> (#[trigger] v@[k])@ == compact_peer(b@, k),
                        _ => r matches Err(Error::Protocol(m)) && m@ == "Unknown peers format"@,
                    },
                    None => r matches Err(Error::Protocol(m)) && m@
                        == "Invalid tracker response format (missing peers)"@,
                },
            },
            _ => r matches Err(Error::Protocol(m)) && m@ == "Invalid tracker response format (missing peers)"@,
        },
{
    if let BValue::Dict(dict) = res_val {
        let reason_key: [u8; 14] = [102u8, 97, 105, 108, 117, 114, 101, 32, 114, 101, 97, 115, 111, 110];
        let peers_k: [u8; 5] = [112u8, 101, 101, 114, 115];
        assert(reason_key@ =~= failure_reason_key());
        assert(peers_k@ =~= peers_key());
        if let Some(BValue::Bytes(reason)) = dict_get(dict, reason_key.as_slice()) {
            let mut msg = str_to_string("Tracker reported failure: ");
            let text = lossy_string(reason.as_slice());
            push_str(&mut msg, text.as_str());
            return Err(Error::Protocol(msg));
        }
        if let Some(peers) = dict_get(dict, peers_k.as_slice()) {
            return parse_peers(peers);
        }
    }
    Err(Error::Protocol(str_to_string("Invalid tracker response format (missing peers)")))
}

/// The peers of a compact byte string, six bytes each.
pub open spec fn compact_peers(b: Seq<u8>) -> Seq<PeerView> {
    Seq::new((b.len() / 6) as nat, |k: int| compact_peer(b, k))
}

/// What a decoded announce reply says: the peers, or the error that
/// `parse_tracker_response` reports.
pub open spec fn tracker_outcome(v: BValue) -> Result<Seq<PeerView>, Seq<char>> {
    match v {
        BValue::Dict(d) => match dict_lookup(d@, failure_reason_key()) {
            Some(BValue::Bytes(reason)) => Err("Tracker reported failure: "@ + utf8_lossy(reason@)),
            _ => match dict_lookup(d@, peers_key()) {
                Some(BValue::List(items)) => Ok(list_peers(items@)),
                Some(BValue::Bytes(b)) => Ok(compact_peers(b@)),
                Some(_) => Err("Unknown peers format"@),
                None => Err("Invalid tracker response format (missing peers)"@),
            },
        },
        _ => Err("Invalid tracker response format (missing peers)"@),
    }
}

/// A peer dictionary reads the same whatever the order of its entries.
proof fn lemma_dict_peer_alike(a: BValue, b: BValue)
    requires
        alike(a, b),
    ensures
        dict_peer(a) == dict_peer(b),
{
    if let BValue::Dict(da) = a {
        if let BValue::Dict(db) = b {
            lemma_alike_lookup(da, db, seq![105u8, 112]);
            lemma_alike_lookup(da, db, seq![112u8, 111, 114, 116]);
            lemma_alike_lookup(da, db, peer_id_key());
        }
    }
}

/// Lists of alike peer dictionaries give the same peers.
proof fn lemma_list_peers_alike(xs: Seq<BValue>, ys: Seq<BValue>)
    requires
        xs.len() == ys.len(),
        forall|i: int| 0 <= i < xs.len() ==> alike(#[trigger] xs[i], ys[i]),
    ensures
        list_peers(xs) == list_peers(ys),
    decreases xs.len(),
{
    if xs.len() > 0 {
        lemma_list_peers_alike(xs.drop_last(), ys.drop_last());
        lemma_dict_peer_alike(xs.last(), ys.last());
    }
}

/// An announce reply says the same whatever the order of its dictionaries'
/// entries.
pub proof fn law_tracker_reply_ignores_entry_order(a: BValue, b: BValue)
    requires
        alike(a, b),
    ensures
        tracker_outcome(a) == tracker_outcome(b),
{
    if let BValue::Dict(da) = a {
        if let BValue::Dict(db) = b {
            lemma_alike_lookup(da, db, failure_reason_key());
            lemma_alike_lookup(da, db, peers_key());
            if let Some(x) = dict_lookup(da@, peers_key()) {
                let y = dict_lookup(db@, peers_key())->Some_0;
                lemma_alike_parts(x, y, 0);
                if let BValue::List(xs) = x {
                    if let BValue::List(ys) = y {
                        lemma_list_peers_alike(xs@, ys@);
                    }
                }
            }
        }
    }
}

/// Reads the body of an HTTP announce reply: the decoder's error, or what
/// the decoded reply says (see `tracker_outcome`).
pub fn parse_announce_body(body: &[u8]) -> (r: Result<Vec<Peer>, Error>)
    ensures
        match bencode_decode(body@) {
            Err(m) => r matches Err(Error::Protocol(e)) && e@ == "Failed to bdecode tracker response: "@ + m,
            Ok(v) => match tracker_outcome(v) {
                Ok(ps) => r matches Ok(p) && p@.map_values(|q: Peer| q@) == ps,
                Err(m) => r matches Err(Error::Protocol(e)) && e@ == m,
            },
        },
{
    match bdecode(body) {
        Ok(v) => {
            let r = parse_tracker_response(&v);
            proof {
                law_tracker_reply_ignores_entry_order(v, bencode_decode(body@)->Ok_0);
                if let Ok(p) = &r {
                    if let BValue::Dict(d) = v {
                        if let Some(BValue::List(items)) = dict_lookup(d@, peers_key()) {
                            assert(p@.map_values(|q: Peer| q@) =~= list_peers(items@));
                        }
                        if let Some(BValue::Bytes(b)) = dict_lookup(d@, peers_key()) {
                            assert(p@.map_values(|q: Peer| q@) =~= compact_peers(b@));
                        }
                    }
                }
            }
            r
        },
        Err(e) => {
            let mut msg = str_to_string("Failed to bdecode tracker response: ");
            push_str(&mut msg, e.as_str());
            Err(Error::Protocol(msg))
        },
    }
}

/// The magic connection id of a UDP tracker connect request.
pub const UDP_PROTOCOL_ID: u64 = 0x41727101980;

/// Big-endian bytes of a 64-bit integer.
pub open spec fn be64(x: u64) -> Seq<u8> {
    seq![
        (x >> 56u64) as u8,
        (x >> 48u64) as u8,
        (x >> 40u64) as u8,
        (x >> 32u64) as u8,
        (x >> 24u64) as u8,
        (x >> 16u64) as u8,
        (x >> 8u64) as u8,
        x as u8,
    ]
}

/// The 64-bit big-endian integer at offset `i`.
pub open spec fn read_be64(s: Seq<u8>, i: int) -> u64 {
    ((s[i] as u64) << 56u64) | ((s[i + 1] as u64) << 48u64) | ((s[i + 2] as u64) << 40u64) | ((s[i
        + 3] as u64) << 32u64) | ((s[i + 4] as u64) << 24u64) | ((s[i + 5] as u64) << 16u64) | ((s[i
        + 6] as u64) << 8u64) | (s[i + 7] as u64)
}

fn push_be64(buf: &mut Vec<u8>, x: u64)
    ensures
        final(buf)@ == old(buf)@ + be64(x),
{
    buf.push((x >> 56u64) as u8);
    buf.push((x >> 48u64) as u8);
    buf.push((x >> 40u64) as u8);
    buf.push((x >> 32u64) as u8);
    buf.push((x >> 24u64) as u8);
    buf.push((x >> 16u64) as u8);
    buf.push((x >> 8u64) as u8);
    buf.push(x as u8);
    assert(buf@ =~= old(buf)@ + be64(x));
}

fn push_be32(buf: &mut Vec<u8>, x: u32)
    ensures
        final(buf)@ == old(buf)@ + be32(x),
{
    buf.push((x >> 24u32) as u8);
    buf.push((x >> 16u32) as u8);
    buf.push((x >> 8u32) as u8);
    buf.push(x as u8);
    assert(buf@ =~= old(buf)@ + be32(x));
}

fn get_be32(s: &[u8], i: usize) -> (r: u32)
    requires
        i + 4 <= s@.len(),
    ensures
        r == read_be32(s@, i as int),
{
    ((s[i] as u32) << 24u32) | ((s[i + 1] as u32) << 16u32) | ((s[i + 2] as u32) << 8u32) | (s[i
        + 3] as u32)
}

fn get_be64(s: &[u8], i: usize) -> (r: u64)
    requires
        i + 8 <= s@.len(),
    ensures
        r == read_be64(s@, i as int),
{
    ((s[i] as u64) << 56u64) | ((s[i + 1] as u64) << 48u64) | ((s[i + 2] as u64) << 40u64) | ((s[i
        + 3] as u64) << 32u64) | ((s[i + 4] as u64) << 24u64) | ((s[i + 5] as u64) << 16u64) | ((s[i
        + 6] as u64) << 8u64) | (s[i + 7] as u64)
}

/// Number of tries of each UDP exchange (connect, then announce).
pub const UDP_TRIES: u32 = 3;

/// One try of a UDP exchange: its number (from 0) and the transaction id
/// its request carries.
#[derive(Debug, Clone, Copy, PartialEq, Eq, Structural)]
pub struct UdpTry {
    pub attempt: u32,
    pub transaction_id: u32,
}

/// What follows a try: the exchange is done with its result, or the
/// request is sent again as the given try.
#[derive(Debug)]
pub enum UdpNext<T> {
    Done(T),
    Retry(UdpTry),
}

/// How long a try waits for its reply: 5 seconds, doubled at each try.
pub fn udp_timeout_secs(attempt: u32) -> (r: u64)
    requires
        attempt < UDP_TRIES,
    ensures
        r == 5 * pow2(attempt as nat),
{
    proof {
        reveal_with_fuel(pow2, 3);
    }
    if attempt == 0 {
        5
    } else if attempt == 1 {
        10
    } else {
        20
    }
}

/// `2` to the power `n`.
pub open spec fn pow2(n: nat) -> nat
    decreases n,
{
    if n == 0 {
        1
    } else {
        2 * pow2((n - 1) as nat)
    }
}

/// The try after `t` with transaction id `tid`, or the error once all tries
/// are spent.
pub open spec fn next_try_ok<T>(t: UdpTry, tid: u32, r: Result<UdpNext<T>, Error>, spent: Seq<char>) -> bool {
    if t.attempt + 1 < UDP_TRIES {
        r matches Ok(UdpNext::Retry(n)) && n == (UdpTry { attempt: (t.attempt + 1) as u32, transaction_id: tid })
    } else {
        r matches Err(Error::Protocol(m)) && m@ == spent
    }
}

fn next_try<T>(t: &UdpTry, tid: u32, spent: &str) -> (r: Result<UdpNext<T>, Error>)
    requires
        t.attempt < UDP_TRIES,
    ensures
        next_try_ok(*t, tid, r, spent@),
{
    if t.attempt + 1 < UDP_TRIES {
        Ok(UdpNext::Retry(UdpTry { attempt: t.attempt + 1, transaction_id: tid }))
    } else {
        Err(Error::Protocol(str_to_string(spent)))
    }
}

/// One step of the connect exchange, given the reply to try `t` (`None`
/// when none came in time). A reply that does not fit is an error; the
/// tracker's own error is reported; a reply to another request is ignored
/// and the same request is sent again; the matching reply gives the
/// connection id. Without a reply, the request is sent again with the fresh
/// transaction id `fresh_tid`. After the last try the exchange fails.
pub fn udp_connect_step(t: &UdpTry, reply: Option<&[u8]>, fresh_tid: u32) -> (r: Result<UdpNext<u64>, Error>)
    requires
        t.attempt < UDP_TRIES,
    ensures
        match reply {
            None => next_try_ok(*t, fresh_tid, r, "UDP connect failed after retries"@),
            Some(buf) => {
                &&& buf@.len() < 16 ==> (r matches Err(Error::Protocol(m)) && m@
                    == "UDP connect response too short"@)
                &&& buf@.len() >= 16 && read_be32(buf@, 0) == 3 ==> (r matches Err(Error::Protocol(m))
                    && m@ == "UDP tracker error: "@ + utf8_lossy(buf@.subrange(8, buf@.len() as int)))
                &&& buf@.len() >= 16 && read_be32(buf@, 0) == 0 && read_be32(buf@, 4) == t.transaction_id
                    ==> (r matches Ok(UdpNext::Done(c)) && c == read_be64(buf@, 8))
                &&& buf@.len() >= 16 && read_be32(buf@, 0) != 3 && (read_be32(buf@, 0) != 0 || read_be32(
                    buf@,
                    4,
                ) != t.transaction_id) ==> next_try_ok(
                    *t,
                    t.transaction_id,
                    r,
                    "UDP connect failed after retries"@,
                )
            },
        },
{
    match reply {
        None => next_try(t, fresh_tid, "UDP connect failed after retries"),
        Some(buf) => match parse_connect_response(buf, t.transaction_id) {
            Err(e) => Err(e),
            Ok(Some(cid)) => Ok(UdpNext::Done(cid)),
            Ok(None) => next_try(t, t.transaction_id, "UDP connect failed after retries"),
        },
    }
}

/// One step of the announce exchange, given the reply to try `t` (`None`
/// when none came in time): as for the connect exchange, but the matching
/// reply gives the peers, and a try without a reply keeps its transaction id.
pub fn udp_announce_step(t: &UdpTry, reply: Option<&[u8]>) -> (r: Result<UdpNext<Vec<Peer>>, Error>)
    requires
        t.attempt < UDP_TRIES,
    ensures
        match reply {
            None => next_try_ok(*t, t.transaction_id, r, "UDP announce failed after retries"@),
            Some(buf) => {
                &&& buf@.len() < 20 ==> (r matches Err(Error::Protocol(m)) && m@
                    == "UDP announce response too short"@)
                &&& buf@.len() >= 20 && read_be32(buf@, 0) == 3 ==> (r matches Err(Error::Protocol(m))
                    && m@ == "UDP tracker error: "@ + utf8_lossy(buf@.subrange(8, buf@.len() as int)))
                &&& buf@.len() >= 20 && read_be32(buf@, 0) == 1 && read_be32(buf@, 4) == t.transaction_id
                    ==> (r matches Ok(UdpNext::Done(v)) && v@.len() == (buf@.len() - 20) / 6 && forall|k: int|
                    0 <= k < v@.len() ==> (#[trigger] v@[k])@ == compact_peer(
                        buf@.subrange(20, buf@.len() as int),
                        k,
                    ))
                &&& buf@.len() >= 20 && read_be32(buf@, 0) != 3 && (read_be32(buf@, 0) != 1 || read_be32(
                    buf@,
                    4,
                ) != t.transaction_id) ==> next_try_ok(
                    *t,
                    t.transaction_id,
                    r,
                    "UDP announce failed after retries"@,
                )
            },
        },
{
    match reply {
        None => next_try(t, t.transaction_id, "UDP announce failed after retries"),
        Some(buf) => match parse_announce_response(buf, t.transaction_id) {
            Err(e) => Err(e),
            Ok(Some(peers)) => Ok(UdpNext::Done(peers)),
            Ok(None) => next_try(t, t.transaction_id, "UDP announce failed after retries"),
        },
    }
}

/// The 16-byte connect request: protocol id, action 0, transaction id.
pub fn build_connect_request(transaction_id: u32) -> (r: Vec<u8>)
    ensures
        r@ == be64(UDP_PROTOCOL_ID) + be32(0) + be32(transaction_id),
        r@.len() == 16,
{
    let mut buf: Vec<u8> = Vec::with_capacity(16);
    push_be64(&mut buf, UDP_PROTOCOL_ID);
    push_be32(&mut buf, 0);
    push_be32(&mut buf, transaction_id);
    buf
}

/// Reads a reply to a connect request. A reply shorter than 16 bytes, or
/// with action 3 (an error, whose text follows), is an error; a reply for
/// another action or transaction is ignored (`None`); otherwise the
/// connection id is returned.
pub fn parse_connect_response(buf: &[u8], transaction_id: u32) -> (r: Result<Option<u64>, Error>)
    ensures
        buf@.len() < 16 ==> (r matches Err(Error::Protocol(m)) && m@ == "UDP connect response too short"@),
        buf@.len() >= 16 && read_be32(buf@, 0) == 3 ==> (r matches Err(Error::Protocol(m)) && m@
            == "UDP tracker error: "@ + utf8_lossy(buf@.subrange(8, buf@.len() as int))),
        buf@.len() >= 16 && read_be32(buf@, 0) != 3 && (read_be32(buf@, 0) != 0 || read_be32(buf@, 4)
            != transaction_id) ==> r matches Ok(None),
        buf@.len() >= 16 && read_be32(buf@, 0) == 0 && read_be32(buf@, 4) == transaction_id ==> r
            == Ok::<Option<u64>, Error>(Some(read_be64(buf@, 8))),
{
    if buf.len() < 16 {
        return Err(Error::Protocol(str_to_string("UDP connect response too short")));
    }
    let action = get_be32(buf, 0);
    let received_tid = get_be32(buf, 4);
    if action == 3 {
        let rest = copy_from(buf, 8);
        let text = lossy_string(rest.as_slice());
        let mut msg = str_to_string("UDP tracker error: ");
        push_str(&mut msg, text.as_str());
        return Err(Error::Protocol(msg));
    }
    if action != 0 || received_tid != transaction_id {
        return Ok(None);
    }
    Ok(Some(get_be64(buf, 8)))
}

/// The 98-byte announce request of the UDP tracker protocol: event
/// "started", nothing downloaded or uploaded, default address and peer count.
pub open spec fn announce_request_bytes(
    connection_id: u64,
    transaction_id: u32,
    info_hash: Seq<u8>,
    peer_id: Seq<u8>,
    left: u64,
    key: u32,
    port: u16,
) -> Seq<u8> {
    be64(connection_id) + be32(1) + be32(transaction_id) + info_hash + peer_id + be64(0) + be64(left)
        + be64(0) + be32(2) + be32(0) + be32(key) + be32(0xffff_ffff) + seq![
        (port >> 8u16) as u8,
        port as u8,
    ]
}

/// The number that eight bytes at offset `i` write, most significant first.
pub open spec fn be64_value(s: Seq<u8>, i: int) -> int {
    s[i] as int * 0x100000000000000 + s[i + 1] as int * 0x1000000000000 + s[i + 2] as int
        * 0x10000000000 + s[i + 3] as int * 0x100000000 + s[i + 4] as int * 0x1000000 + s[i + 5] as int
        * 0x10000 + s[i + 6] as int * 0x100 + s[i + 7] as int
}

proof fn lemma_be64_value_of(x: u64)
    ensures
        be64_value(be64(x), 0) == x,
{
    let b0 = (x >> 56u64) as u8;
    let b1 = (x >> 48u64) as u8;
    let b2 = (x >> 40u64) as u8;
    let b3 = (x >> 32u64) as u8;
    let b4 = (x >> 24u64) as u8;
    let b5 = (x >> 16u64) as u8;
    let b6 = (x >> 8u64) as u8;
    let b7 = x as u8;
    assert(b0 as int * 0x100000000000000 + b1 as int * 0x1000000000000 + b2 as int * 0x10000000000
        + b3 as int * 0x100000000 + b4 as int * 0x1000000 + b5 as int * 0x10000 + b6 as int * 0x100
        + b7 as int == x as int) by (bit_vector)
        requires
            b0 == (x >> 56u64) as u8,
            b1 == (x >> 48u64) as u8,
            b2 == (x >> 40u64) as u8,
            b3 == (x >> 32u64) as u8,
            b4 == (x >> 24u64) as u8,
            b5 == (x >> 16u64) as u8,
            b6 == (x >> 8u64) as u8,
            b7 == x as u8,
    ;
}

/// The layout of the UDP announce request (BEP 15), field by field, each
/// number written most significant byte first: the connection id at 0, the
/// action 1 (announce) at 8, the transaction id at 12, the info hash at 16,
/// the peer id at 36, then the downloaded count (0) at 56, the bytes `left`
/// at 64, the uploaded count (0) at 72, the event 2 (started) at 80, the
/// address 0 (the sender's) at 84, the key at 88, the wanted peer count -1
/// (the tracker's default) at 92 and the port at 96.
pub proof fn law_announce_request_layout(
    connection_id: u64,
    transaction_id: u32,
    info_hash: Seq<u8>,
    peer_id: Seq<u8>,
    left: u64,
    key: u32,
    port: u16,
)
    requires
        info_hash.len() == 20,
        peer_id.len() == 20,
    ensures
        ({
            let r = announce_request_bytes(connection_id, transaction_id, info_hash, peer_id, left, key, port);
            &&& r.len() == 98
            &&& be64_value(r, 0) == connection_id
            &&& be32_value(r, 8) == 1
            &&& be32_value(r, 12) == transaction_id
            &&& r.subrange(16, 36) == info_hash
            &&& r.subrange(36, 56) == peer_id
            &&& be64_value(r, 56) == 0
            &&& be64_value(r, 64) == left
            &&& be64_value(r, 72) == 0
            &&& be32_value(r, 80) == 2
            &&& be32_value(r, 84) == 0
            &&& be32_value(r, 88) == key
            &&& be32_value(r, 92) == 0xffff_ffff
            &&& r[96] as int * 256 + r[97] as int == port
        }),
{
    let r = announce_request_bytes(connection_id, transaction_id, info_hash, peer_id, left, key, port);
    lemma_be64_value_of(connection_id);
    lemma_be64_value_of(0);
    lemma_be64_value_of(left);
    lemma_be32_value_of(1);
    lemma_be32_value_of(2);
    lemma_be32_value_of(0);
    lemma_be32_value_of(transaction_id);
    lemma_be32_value_of(key);
    lemma_be32_value_of(0xffff_ffff);
    assert(r.subrange(0, 8) =~= be64(connection_id));
    assert(r.subrange(8, 12) =~= be32(1));
    assert(r.subrange(12, 16) =~= be32(transaction_id));
    assert(r.subrange(16, 36) =~= info_hash);
    assert(r.subrange(36, 56) =~= peer_id);
    assert(r.subrange(56, 64) =~= be64(0));
    assert(r.subrange(64, 72) =~= be64(left));
    assert(r.subrange(72, 80) =~= be64(0));
    assert(r.subrange(80, 84) =~= be32(2));
    assert(r.subrange(84, 88) =~= be32(0));
    assert(r.subrange(88, 92) =~= be32(key));
    assert(r.subrange(92, 96) =~= be32(0xffff_ffff));
    assert(be64_value(r, 0) == be64_value(be64(connection_id), 0));
    assert(be64_value(r, 56) == be64_value(be64(0), 0));
    assert(be64_value(r, 64) == be64_value(be64(left), 0));
    assert(be64_value(r, 72) == be64_value(be64(0), 0));
    assert(be32_value(r, 8) == be32_value(be32(1), 0));
    assert(be32_value(r, 12) == be32_value(be32(transaction_id), 0));
    assert(be32_value(r, 80) == be32_value(be32(2), 0));
    assert(be32_value(r, 84) == be32_value(be32(0), 0));
    assert(be32_value(r, 88) == be32_value(be32(key), 0));
    assert(be32_value(r, 92) == be32_value(be32(0xffff_ffff), 0));
    let hi = (port >> 8u16) as u8;
    let lo = port as u8;
    assert(hi as int * 256 + lo as int == port as int) by (bit_vector)
        requires
            hi == (port >> 8u16) as u8,
            lo == port as u8,
    ;
}

/// Each entry of a compact peer list is read from its own six bytes alone:
/// the first four give the address in dotted form, the last two the port,
/// most significant byte first.
pub proof fn law_compact_peer_layout(b: Seq<u8>, k: int)
    requires
        0 <= k,
        6 * k + 6 <= b.len(),
    ensures
        compact_peer(b, k).port as int == b[6 * k + 4] as int * 256 + b[6 * k + 5] as int,
        compact_peer(b, k).ip == dotted_quad(seq![b[6 * k], b[6 * k + 1], b[6 * k + 2], b[6 * k + 3]]),
        compact_peer(b, k).id is None,
        compact_peer(b, k) == compact_peer(b.subrange(6 * k, 6 * k + 6), 0),
{
    assert(b.subrange(6 * k, 6 * k + 4) =~= seq![b[6 * k], b[6 * k + 1], b[6 * k + 2], b[6 * k + 3]]);
    let c = b.subrange(6 * k, 6 * k + 6);
    assert(c.subrange(0, 4) =~= b.subrange(6 * k, 6 * k + 4));
    assert(c[4] == b[6 * k + 4] && c[5] == b[6 * k + 5]);
}

/// Builds the announce request for a connection.
pub fn build_announce_request(
    connection_id: u64,
    transaction_id: u32,
    info_hash: &[u8; 20],
    peer_id: &[u8; 20],
    left: u64,
    key: u32,
    port: u16,
) -> (r: Vec<u8>)
    ensures
        r@ == announce_request_bytes(connection_id, transaction_id, info_hash@, peer_id@, left, key, port),
        r@.len() == 98,
{
    let mut buf: Vec<u8> = Vec::with_capacity(98);
    push_be64(&mut buf, connection_id);
    push_be32(&mut buf, 1);
    push_be32(&mut buf, transaction_id);
    push_all(&mut buf, info_hash.as_slice());
    push_all(&mut buf, peer_id.as_slice());
    push_be64(&mut buf, 0);
    push_be64(&mut buf, left);
    push_be64(&mut buf, 0);
    push_be32(&mut buf, 2);
    push_be32(&mut buf, 0);
    push_be32(&mut buf, key);
    push_be32(&mut buf, 0xffff_ffff);
    buf.push((port >> 8u16) as u8);
    buf.push(port as u8);
    assert(buf@ =~= announce_request_bytes(connection_id, transaction_id, info_hash@, peer_id@, left, key, port));
    buf
}

/// Reads a reply to an announce request. A reply shorter than 20 bytes, or
/// with action 3, is an error; a reply for another action or transaction is
/// ignored (`None`); otherwise the compact peer list after the 20-byte header
/// is returned.
pub fn parse_announce_response(buf: &[u8], transaction_id: u32) -> (r: Result<Option<Vec<Peer>>, Error>)
    ensures
        buf@.len() < 20 ==> (r matches Err(Error::Protocol(m)) && m@ == "UDP announce response too short"@),
        buf@.len() >= 20 && read_be32(buf@, 0) == 3 ==> (r matches Err(Error::Protocol(m)) && m@
            == "UDP tracker error: "@ + utf8_lossy(buf@.subrange(8, buf@.len() as int))),
        buf@.len() >= 20 && read_be32(buf@, 0) != 3 && (read_be32(buf@, 0) != 1 || read_be32(buf@, 4)
            != transaction_id) ==> r matches Ok(None),
        buf@.len() >= 20 && read_be32(buf@, 0) == 1 && read_be32(buf@, 4) == transaction_id ==> (r matches Ok(
            Some(v),
        ) && v@.len() == (buf@.len() - 20) / 6 && forall|k: int|
            0 <= k < v@.len() ==> (#[trigger] v@[k])@ == compact_peer(
                buf@.subrange(20, buf@.len() as int),
                k,
            )),
{
    if buf.len() < 20 {
        return Err(Error::Protocol(str_to_string("UDP announce response too short")));
    }
    let action = get_be32(buf, 0);
    let received_tid = get_be32(buf, 4);
    if action == 3 {
        let rest = copy_from(buf, 8);
        let text = lossy_string(rest.as_slice());
        let mut msg = str_to_string("UDP tracker error: ");
        push_str(&mut msg, text.as_str());
        return Err(Error::Protocol(msg));
    }
    if action != 1 || received_tid != transaction_id {
        return Ok(None);
    }
    let peers_bytes = copy_from(buf, 20);
    match parse_compact_peers_raw(peers_bytes.as_slice()) {
        Ok(v) => Ok(Some(v)),
        Err(e) => Err(e),
    }
}


/// The trackers of a torrent: its `announce` URL, then those of its
/// announce list, tier by tier, each URL once.
pub open spec fn tracker_list(announce: Seq<char>, tiers: Seq<Seq<Seq<char>>>) -> Seq<Seq<char>> {
    add_unique_all(seq![announce], flatten_tiers(tiers))
}

/// The URLs of the tiers, tier after tier.
pub open spec fn flatten_tiers(tiers: Seq<Seq<Seq<char>>>) -> Seq<Seq<char>>
    decreases tiers.len(),
{
    if tiers.len() == 0 {
        Seq::empty()
    } else {
        flatten_tiers(tiers.drop_last()) + tiers.last()
    }
}

/// `urls` followed by those of `more` not already listed, in order.
pub open spec fn add_unique_all(urls: Seq<Seq<char>>, more: Seq<Seq<char>>) -> Seq<Seq<char>>
    decreases more.len(),
{
    if more.len() == 0 {
        urls
    } else {
        let before = add_unique_all(urls, more.drop_last());
        if before.contains(more.last()) {
            before
        } else {
            before.push(more.last())
        }
    }
}

/// The text of a list of strings.
pub open spec fn texts(v: Seq<String>) -> Seq<Seq<char>> {
    v.map_values(|s: String| s@)
}

/// The text of a list of tiers.
pub open spec fn tier_texts(v: Seq<Vec<String>>) -> Seq<Seq<Seq<char>>> {
    v.map_values(|t: Vec<String>| texts(t@))
}

fn contains_text(v: &Vec<String>, t: &String) -> (r: bool)
    ensures
        r == texts(v@).contains(t@),
{
    let mut i: usize = 0;
    while i < v.len()
        invariant
            i <= v@.len(),
            forall|k: int| 0 <= k < i ==> v@[k]@ != t@,
        decreases v@.len() - i,
    {
        if v[i] == *t {
            assert(texts(v@)[i as int] == t@);
            return true;
        }
        i = i + 1;
    }
    proof {
        if texts(v@).contains(t@) {
            let k = choose|k: int| 0 <= k < texts(v@).len() && texts(v@)[k] == t@;
            assert(v@[k]@ == t@);
        }
    }
    false
}

/// The trackers to announce to, before shuffling: the `announce` URL, then
/// the URLs of the announce list not seen yet.
pub fn tracker_urls(announce: &String, announce_list: &Option<Vec<Vec<String>>>) -> (r: Vec<String>)
    ensures
        texts(r@) == match announce_list {
            Some(l) => tracker_list(announce@, tier_texts(l@)),
            None => seq![announce@],
        },
{
    let mut urls: Vec<String> = Vec::new();
    urls.push(announce.clone());
    assert(texts(urls@) =~= seq![announce@]);
    if let Some(list) = announce_list {
        let ghost tiers = tier_texts(list@);
        let mut i: usize = 0;
        while i < list.len()
            invariant
                i <= list@.len(),
                tiers == tier_texts(list@),
                texts(urls@) == add_unique_all(seq![announce@], flatten_tiers(tiers.take(i as int))),
            decreases list@.len() - i,
        {
            let tier = &list[i];
            let ghost flat0 = flatten_tiers(tiers.take(i as int));
            proof {
                assert(tiers.take(i + 1).drop_last() =~= tiers.take(i as int));
                assert(flatten_tiers(tiers.take(i + 1)) == flat0 + texts(tier@));
            }
            let mut j: usize = 0;
            while j < tier.len()
                invariant
                    j <= tier@.len(),
                    texts(urls@) == add_unique_all(seq![announce@], flat0 + texts(tier@).take(j as int)),
                decreases tier@.len() - j,
            {
                proof {
                    assert((flat0 + texts(tier@).take(j + 1)).drop_last() =~= flat0 + texts(tier@).take(j as int));
                    assert((flat0 + texts(tier@).take(j + 1)).last() == tier@[j as int]@);
                }
                if !contains_text(&urls, &tier[j]) {
                    urls.push(tier[j].clone());
                    assert(texts(urls@) =~= add_unique_all(seq![announce@], flat0 + texts(tier@).take(j as int)).push(tier@[j as int]@));
                }
                j = j + 1;
            }
            assert(texts(tier@).take(j as int) =~= texts(tier@));
            i = i + 1;
        }
        assert(tiers.take(i as int) =~= tiers);
    }
    urls
}

/// Shuffles a list of URLs in place (`SliceRandom::shuffle` with the thread
/// generator): the same URLs come out, in an order left to chance.
#[verifier::external_body]
fn shuffle_urls(v: &mut Vec<String>)
    ensures
        texts(final(v)@).to_multiset() == texts(old(v)@).to_multiset(),
{
    v.shuffle(&mut rand::rng())
}

/// The trackers to announce to, in random order.
pub fn announce_order(announce: &String, announce_list: &Option<Vec<Vec<String>>>) -> (r: Vec<String>)
    ensures
        texts(r@).to_multiset() == (match announce_list {
            Some(l) => tracker_list(announce@, tier_texts(l@)),
            None => seq![announce@],
        }).to_multiset(),
{
    let mut urls = tracker_urls(announce, announce_list);
    shuffle_urls(&mut urls);
    urls
}

/// Whether a tracker is reached over UDP (its URL starts with `udp://`).
pub fn is_udp_tracker(url: &str) -> (r: bool)
    ensures
        r == (url@.len() >= 6 && url@.subrange(0, 6) == "udp://"@),
{
    proof {
        reveal_strlit("udp://");
    }
    let prefix = "udp://";
    if url.unicode_len() < 6 {
        return false;
    }
    let mut i: usize = 0;
    while i < 6
        invariant
            i <= 6,
            url@.len() >= 6,
            prefix@ == "udp://"@,
            prefix@.len() == 6,
            forall|k: int| 0 <= k < i ==> url@[k] == prefix@[k],
        decreases 6 - i,
    {
        if url.get_char(i) != prefix.get_char(i) {
            assert(url@.subrange(0, 6)[i as int] != prefix@[i as int]);
            return false;
        }
        i = i + 1;
    }
    assert(url@.subrange(0, 6) =~= prefix@);
    true
}

/// Bytes written as `%xx` escapes, two lower-case hex digits each.
pub open spec fn percent_encoded(b: Seq<u8>) -> Seq<char>
    decreases b.len(),
{
    if b.len() == 0 {
        Seq::empty()
    } else {
        percent_encoded(b.drop_last()) + seq!['%', hex_char((b.last() / 16) as int), hex_char((b.last() % 16) as int)]
    }
}

/// Writes bytes as `%xx` escapes.
pub fn percent_encode(b: &[u8]) -> (r: String)
    ensures
        r@ == percent_encoded(b@),
{
    let mut s = String::new();
    let mut i: usize = 0;
    while i < b.len()
        invariant
            i <= b@.len(),
            s@ == percent_encoded(b@.take(i as int)),
        decreases b@.len() - i,
    {
        let x = b[i];
        string_push(&mut s, '%');
        string_push(&mut s, hex_char_of(x / 16));
        string_push(&mut s, hex_char_of(x % 16));
        proof {
            assert(b@.take(i + 1).drop_last() =~= b@.take(i as int));
            assert(s@ =~= percent_encoded(b@.take(i as int)) + seq!['%', hex_char((x / 16) as int), hex_char((x % 16) as int)]);
        }
        i = i + 1;
    }
    assert(b@.take(i as int) =~= b@);
    s
}

/// What the `url` crate makes of a URL with key-value pairs appended to its
/// query: the URL's text, or the parse error's message.
pub uninterp spec fn url_append(url: Seq<char>, pairs: Seq<(Seq<char>, Seq<char>)>) -> Result<Seq<char>, Seq<char>>;

/// `url::Url::parse(url)`, then `query_pairs_mut().extend_pairs(pairs)`,
/// then `to_string()`; the parse error as its message.
#[verifier::external_body]
fn url_with_pairs(url: &str, pairs: &Vec<(String, String)>) -> (r: Result<String, String>)
    ensures
        match url_append(url@, crate::links::pair_views(pairs@)) {
            Ok(u) => r matches Ok(x) && x@ == u,
            Err(m) => r matches Err(e) && e@ == m,
        },
{
    match url::Url::parse(url) {
        Ok(mut u) => {
            u.query_pairs_mut().extend_pairs(pairs.iter().map(|(k, v)| (k.as_str(), v.as_str())));
            Ok(u.to_string())
        },
        Err(e) => Err(e.to_string()),
    }
}

/// The query pairs of an HTTP announce.
pub open spec fn announce_pairs(port: u16, left: u64) -> Seq<(Seq<char>, Seq<char>)> {
    seq![
        ("port"@, decimal(port as nat)),
        ("uploaded"@, "0"@),
        ("downloaded"@, "0"@),
        ("left"@, decimal(left as nat)),
        ("compact"@, "1"@),
        ("event"@, "started"@),
    ]
}

/// The URL of an HTTP announce: the tracker URL with the announce pairs,
/// then the info hash and peer id escaped byte by byte.
pub open spec fn announce_url_of(url: Seq<char>, port: u16, left: u64, info_hash: Seq<u8>, peer_id: Seq<u8>) -> Result<Seq<char>, Seq<char>> {
    match url_append(url, announce_pairs(port, left)) {
        Ok(u) => Ok(u + "&info_hash="@ + percent_encoded(info_hash) + "&peer_id="@ + percent_encoded(peer_id)),
        Err(m) => Err("Invalid tracker URL: "@ + m),
    }
}

fn text_pair(k: &str, v: String) -> (r: (String, String))
    ensures
        r.0@ == k@,
        r.1@ == v@,
{
    (str_to_string(k), v)
}

/// Builds the URL of an HTTP announce.
pub fn announce_url(url: &str, port: u16, left: u64, info_hash: &[u8; 20], peer_id: &[u8; 20]) -> (r: Result<String, Error>)
    ensures
        match announce_url_of(url@, port, left, info_hash@, peer_id@) {
            Ok(u) => r matches Ok(x) && x@ == u,
            Err(m) => r matches Err(Error::Protocol(e)) && e@ == m,
        },
{
    let mut pairs: Vec<(String, String)> = Vec::new();
    let mut port_s = String::new();
    push_decimal(&mut port_s, port as u64);
    let mut left_s = String::new();
    push_decimal(&mut left_s, left);
    pairs.push(text_pair("port", port_s));
    pairs.push(text_pair("uploaded", str_to_string("0")));
    pairs.push(text_pair("downloaded", str_to_string("0")));
    pairs.push(text_pair("left", left_s));
    pairs.push(text_pair("compact", str_to_string("1")));
    pairs.push(text_pair("event", str_to_string("started")));
    assert(crate::links::pair_views(pairs@) =~= announce_pairs(port, left));
    match url_with_pairs(url, &pairs) {
        Ok(u) => {
            let mut s = u;
            push_str(&mut s, "&info_hash=");
            let h = percent_encode(info_hash.as_slice());
            push_str(&mut s, h.as_str());
            push_str(&mut s, "&peer_id=");
            let p = percent_encode(peer_id.as_slice());
            push_str(&mut s, p.as_str());
            Ok(s)
        },
        Err(m) => {
            let mut e = str_to_string("Invalid tracker URL: ");
            push_str(&mut e, m.as_str());
            Err(Error::Protocol(e))
        },
    }
}

/// The peers of all the trackers that answered, in the order of the
/// answers; the announce fails when none did.
pub open spec fn merged_peers(results: Seq<Result<Vec<Peer>, Error>>) -> Seq<PeerView>
    decreases results.len(),
{
    if results.len() == 0 {
        Seq::empty()
    } else {
        merged_peers(results.drop_last()) + match results.last() {
            Ok(v) => v@.map_values(|p: Peer| p@),
            Err(_) => Seq::empty(),
        }
    }
}

/// Gathers the answers of all trackers.
pub fn merge_announces(results: Vec<Result<Vec<Peer>, Error>>) -> (r: Result<Vec<Peer>, Error>)
    ensures
        (exists|k: int| 0 <= k < results@.len() && results@[k] is Ok) ==> (r matches Ok(v) && v@.map_values(|p: Peer| p@) == merged_peers(results@)),
        !(exists|k: int| 0 <= k < results@.len() && results@[k] is Ok) ==> (r matches Err(Error::Protocol(m)) && m@ == "All tracker announces failed"@),
{
    let mut all: Vec<Peer> = Vec::new();
    let mut success = false;
    let mut i: usize = 0;
    while i < results.len()
        invariant
            i <= results@.len(),
            all@.map_values(|p: Peer| p@) == merged_peers(results@.take(i as int)),
            success == exists|k: int| 0 <= k < i && results@[k] is Ok,
        decreases results@.len() - i,
    {
        assert(results@.take(i + 1).drop_last() =~= results@.take(i as int));
        let ghost before = all@.map_values(|p: Peer| p@);
        if let Ok(peers) = &results[i] {
            let mut j: usize = 0;
            while j < peers.len()
                invariant
                    j <= peers@.len(),
                    all@.map_values(|p: Peer| p@) == before + peers@.take(j as int).map_values(|p: Peer| p@),
                decreases peers@.len() - j,
            {
                let c = peers[j].clone();
                let ghost prev = all@.map_values(|p: Peer| p@);
                all.push(c);
                assert(all@.map_values(|p: Peer| p@) =~= prev.push(peers@[j as int]@));
                assert(peers@.take(j + 1).map_values(|p: Peer| p@) =~= peers@.take(j as int).map_values(
                    |p: Peer| p@,
                ).push(peers@[j as int]@));
                assert(all@.map_values(|p: Peer| p@) =~= before + peers@.take(j + 1).map_values(|p: Peer| p@));
                j = j + 1;
            }
            assert(peers@.take(j as int) =~= peers@);
            success = true;
        } else {
            assert(all@.map_values(|p: Peer| p@) =~= before + Seq::<PeerView>::empty());
        }
        i = i + 1;
    }
    assert(results@.take(i as int) =~= results@);
    if success {
        Ok(all)
    } else {
        Err(Error::Protocol(str_to_string("All tracker announces failed")))
    }
}
/// The server of a UDP tracker: the host and port its URL names (both are
/// required).
pub fn udp_tracker_endpoint(url: &str) -> (r: Result<(String, u16), Error>)
    ensures
        match url_parse(url@) {
            Err(m) => r matches Err(Error::Protocol(e)) && e@ == "Invalid UDP tracker URL: "@ + m,
            Ok(v) => match (v.host, v.port) {
                (None, _) => r matches Err(Error::Protocol(e)) && e@ == "Missing host in UDP tracker URL"@,
                (Some(_), None) => r matches Err(Error::Protocol(e)) && e@
                    == "Missing port in UDP tracker URL"@,
                (Some(h), Some(p)) => r matches Ok((a, b)) && a@ == h && b == p,
            },
        },
{
    let parts = match url_parts(url) {
        Ok(p) => p,
        Err(m) => {
            let mut e = str_to_string("Invalid UDP tracker URL: ");
            push_str(&mut e, m.as_str());
            return Err(Error::Protocol(e));
        },
    };
    let host = match &parts.host {
        Some(h) => h.clone(),
        None => {
            return Err(Error::Protocol(str_to_string("Missing host in UDP tracker URL")));
        },
    };
    match parts.port {
        Some(p) => Ok((host, p)),
        None => Err(Error::Protocol(str_to_string("Missing port in UDP tracker URL"))),
    }
}

} // verus!
