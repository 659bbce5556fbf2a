//! The BitTorrent peer wire protocol: the handshake, the length-prefixed peer
//! messages and the framing codec.
use vstd::prelude::*;
use crate::Error;
use crate::text::{decimal, push_decimal, str_to_string};

verus! {

/// Length of a handshake on the wire.
pub const HANDSHAKE_LEN: usize = 68;

/// Size of the blocks in which pieces are requested (16 KiB).
pub const BLOCK_SIZE: u32 = 16384;

/// A 20-byte peer identifier.
pub type PeerId = [u8; 20];

/// The protocol string `BitTorrent protocol`.
pub open spec fn pstr_spec() -> Seq<u8> {
    seq![66u8, 105, 116, 84, 111, 114, 114, 101, 110, 116, 32, 112, 114, 111, 116, 111, 99, 111, 108]
}

/// The bytes of the protocol string.
pub fn pstr() -> (r: Vec<u8>)
    ensures
        r@ == pstr_spec(),
{
    let r = vec![66u8, 105, 116, 84, 111, 114, 114, 101, 110, 116, 32, 112, 114, 111, 116, 111, 99, 111, 108];
    assert(r@ =~= pstr_spec());
    r
}

/// Big-endian bytes of a 32-bit integer.
pub open spec fn be32(x: u32) -> Seq<u8> {
    seq![(x >> 24u32) as u8, (x >> 16u32) as u8, (x >> 8u32) as u8, x as u8]
}

/// The 32-bit big-endian integer at offset `i`.
pub open spec fn read_be32(s: Seq<u8>, i: int) -> u32 {
    ((s[i] as u32) << 24u32) | ((s[i + 1] as u32) << 16u32) | ((s[i + 2] as u32) << 8u32) | (
    s[i + 3] as u32)
}

pub proof fn lemma_be32_round_trip(x: u32)
    ensures
        read_be32(be32(x), 0) == x,
{
    let b0 = (x >> 24u32) as u8;
    let b1 = (x >> 16u32) as u8;
    let b2 = (x >> 8u32) as u8;
    let b3 = x as u8;
    assert(((b0 as u32) << 24u32) | ((b1 as u32) << 16u32) | ((b2 as u32) << 8u32) | (b3 as u32)
        == x) by (bit_vector)
        requires
            b0 == (x >> 24u32) as u8,
            b1 == (x >> 16u32) as u8,
            b2 == (x >> 8u32) as u8,
            b3 == x as u8,
    ;
}

fn push_be32(buf: &mut Vec<u8>, x: u32)
    ensures
        final(buf)@ == old(buf)@ + be32(x),
{
    buf.push((x >> 24u32) as u8);
    buf.push((x >> 16u32) as u8);
    buf.push((x >> 8u32) as u8);
    buf.push(x as u8);
    assert(buf@ =~= old(buf)@ + be32(x));
}

fn get_be32(s: &[u8], i: usize) -> (r: u32)
    requires
        i + 4 <= s@.len(),
    ensures
        r == read_be32(s@, i as int),
{
    ((s[i] as u32) << 24u32) | ((s[i + 1] as u32) << 16u32) | ((s[i + 2] as u32) << 8u32) | (s[i
        + 3] as u32)
}

pub(crate) fn push_all(buf: &mut Vec<u8>, data: &[u8])
    ensures
        final(buf)@ == old(buf)@ + data@,
{
    let mut i: usize = 0;
    while i < data.len()
        invariant
            i <= data@.len(),
            buf@ == old(buf)@ + data@.subrange(0, i as int),
        decreases data@.len() - i,
    {
        buf.push(data[i]);
        i = i + 1;
        assert(buf@ =~= old(buf)@ + data@.subrange(0, i as int));
    }
    assert(data@.subrange(0, i as int) =~= data@);
}

/// The bytes `data[start..]` as a new vector.
pub(crate) fn copy_from(data: &[u8], start: usize) -> (r: Vec<u8>)
    requires
        start <= data@.len(),
    ensures
        r@ == data@.subrange(start as int, data@.len() as int),
{
    let mut r: Vec<u8> = Vec::new();
    let mut i = start;
    while i < data.len()
        invariant
            start <= i <= data@.len(),
            r@ == data@.subrange(start as int, i as int),
        decreases data@.len() - i,
    {
        r.push(data[i]);
        i = i + 1;
        assert(r@ =~= data@.subrange(start as int, i as int));
    }
    r
}

/// Twenty bytes of `data` starting at `start`.
pub(crate) fn take20(data: &[u8], start: usize) -> (r: [u8; 20])
    requires
        start + 20 <= data@.len(),
    ensures
        r@ == data@.subrange(start as int, start + 20),
{
    let s = start;
    let r = [
        data[s],
        data[s + 1],
        data[s + 2],
        data[s + 3],
        data[s + 4],
        data[s + 5],
        data[s + 6],
        data[s + 7],
        data[s + 8],
        data[s + 9],
        data[s + 10],
        data[s + 11],
        data[s + 12],
        data[s + 13],
        data[s + 14],
        data[s + 15],
        data[s + 16],
        data[s + 17],
        data[s + 18],
        data[s + 19],
    ];
    assert(r@ =~= data@.subrange(start as int, start + 20));
    r
}

/// The opening message of a peer connection.
#[derive(Debug, Clone, PartialEq, Eq)]
pub struct Handshake {
    pub info_hash: [u8; 20],
    pub peer_id: [u8; 20],
}

/// The 68 bytes of a handshake: protocol string, eight reserved zero bytes,
/// info hash, peer id.
pub open spec fn handshake_bytes(info_hash: Seq<u8>, peer_id: Seq<u8>) -> Seq<u8> {
    seq![19u8] + pstr_spec() + Seq::new(8, |i: int| 0u8) + info_hash + peer_id
}

/// Whether `data` opens with the length byte and the protocol string.
pub open spec fn has_protocol_prefix(data: Seq<u8>) -> bool {
    data[0] == 19u8 && data.subrange(1, 20) == pstr_spec()
}

impl Handshake {
    pub fn new(info_hash: [u8; 20], peer_id: [u8; 20]) -> (h: Self)
        ensures
            h.info_hash == info_hash,
            h.peer_id == peer_id,
    {
        Handshake { info_hash, peer_id }
    }

    /// The handshake as sent on the wire.
    pub fn serialize(&self) -> (r: Vec<u8>)
        ensures
            r@ == handshake_bytes(self.info_hash@, self.peer_id@),
            r@.len() == HANDSHAKE_LEN,
    {
        let mut buf: Vec<u8> = Vec::with_capacity(HANDSHAKE_LEN);
        buf.push(19u8);
        let p = pstr();
        push_all(&mut buf, p.as_slice());
        let zeros = [0u8; 8];
        push_all(&mut buf, zeros.as_slice());
        push_all(&mut buf, self.info_hash.as_slice());
        push_all(&mut buf, self.peer_id.as_slice());
        assert(zeros@ =~= Seq::new(8, |i: int| 0u8));
        assert(buf@ =~= handshake_bytes(self.info_hash@, self.peer_id@));
        buf
    }

    /// Reads a handshake from the first 68 bytes of `data`; the reserved bytes
    /// and anything after byte 68 are not looked at.
    pub fn deserialize(data: &[u8]) -> (r: Result<Self, Error>)
        ensures
            data@.len() < HANDSHAKE_LEN ==> (r matches Err(Error::Protocol(m)) && m@
                == "Handshake too short"@),
            data@.len() >= HANDSHAKE_LEN && !has_protocol_prefix(data@) ==> (r matches Err(
                Error::Protocol(m),
            ) && m@ == "Invalid protocol string"@),
            data@.len() >= HANDSHAKE_LEN && has_protocol_prefix(data@) ==> (r matches Ok(h)
                && h.info_hash@ == data@.subrange(28, 48) && h.peer_id@ == data@.subrange(48, 68)),
    {
        if data.len() < HANDSHAKE_LEN {
            return Err(Error::Protocol(str_to_string("Handshake too short")));
        }
        let p = pstr();
        let mut ok = data[0] == 19u8;
        let mut i: usize = 0;
        while i < 19
            invariant
                data@.len() >= HANDSHAKE_LEN,
                p@ == pstr_spec(),
                i <= 19,
                ok == (data@[0] == 19u8 && forall|j: int| 0 <= j < i ==> data@[1 + j] == p@[j]),
            decreases 19 - i,
        {
            if data[1 + i] != p[i] {
                ok = false;
            }
            i = i + 1;
        }
        proof {
            if ok {
                assert(data@.subrange(1, 20) =~= pstr_spec());
            } else if data@[0] == 19u8 {
                let j = choose|j: int| 0 <= j < 19 && data@[1 + j] != p@[j];
                assert(data@.subrange(1, 20)[j] != pstr_spec()[j]);
            }
        }
        if !ok {
            return Err(Error::Protocol(str_to_string("Invalid protocol string")));
        }
        let info_hash = take20(data, 28);
        let peer_id = take20(data, 48);
        Ok(Handshake { info_hash, peer_id })
    }
}

/// Round trip of the handshake: reading back a serialized handshake gives the
/// same info hash and peer id.
pub proof fn law_handshake_round_trip(info_hash: Seq<u8>, peer_id: Seq<u8>)
    requires
        info_hash.len() == 20,
        peer_id.len() == 20,
    ensures
        handshake_bytes(info_hash, peer_id).len() == HANDSHAKE_LEN,
        has_protocol_prefix(handshake_bytes(info_hash, peer_id)),
        handshake_bytes(info_hash, peer_id).subrange(28, 48) == info_hash,
        handshake_bytes(info_hash, peer_id).subrange(48, 68) == peer_id,
        handshake_bytes(info_hash, peer_id)[0] == 19,
        forall|j: int| 20 <= j < 28 ==> handshake_bytes(info_hash, peer_id)[j] == 0,
{
    let b = handshake_bytes(info_hash, peer_id);
    assert(b.subrange(1, 20) =~= pstr_spec());
    assert(b.subrange(28, 48) =~= info_hash);
    assert(b.subrange(48, 68) =~= peer_id);
}

/// A message of the peer wire protocol.
#[derive(Debug, Clone, PartialEq, Eq)]
pub enum PeerMessage {
    KeepAlive,
    Choke,
    Unchoke,
    Interested,
    NotInterested,
    Have(u32),
    Bitfield(Vec<u8>),
    Request { index: u32, begin: u32, length: u32 },
    Piece { index: u32, begin: u32, block: Vec<u8> },
    Cancel { index: u32, begin: u32, length: u32 },
}

/// A peer message with its byte payloads seen as sequences.
pub enum MessageView {
    KeepAlive,
    Choke,
    Unchoke,
    Interested,
    NotInterested,
    Have(u32),
    Bitfield(Seq<u8>),
    Request { index: u32, begin: u32, length: u32 },
    Piece { index: u32, begin: u32, block: Seq<u8> },
    Cancel { index: u32, begin: u32, length: u32 },
}

impl View for PeerMessage {
    type V = MessageView;

    open spec fn view(&self) -> MessageView {
        match self {
            PeerMessage::KeepAlive => MessageView::KeepAlive,
            PeerMessage::Choke => MessageView::Choke,
            PeerMessage::Unchoke => MessageView::Unchoke,
            PeerMessage::Interested => MessageView::Interested,
            PeerMessage::NotInterested => MessageView::NotInterested,
            PeerMessage::Have(i) => MessageView::Have(*i),
            PeerMessage::Bitfield(b) => MessageView::Bitfield(b@),
            PeerMessage::Request { index, begin, length } => MessageView::Request {
                index: *index,
                begin: *begin,
                length: *length,
            },
            PeerMessage::Piece { index, begin, block } => MessageView::Piece {
                index: *index,
                begin: *begin,
                block: block@,
            },
            PeerMessage::Cancel { index, begin, length } => MessageView::Cancel {
                index: *index,
                begin: *begin,
                length: *length,
            },
        }
    }
}

/// The bytes of a message after its length prefix: the id, then the fields.
pub open spec fn payload(m: MessageView) -> Seq<u8> {
    match m {
        MessageView::KeepAlive => Seq::empty(),
        MessageView::Choke => seq![0u8],
        MessageView::Unchoke => seq![1u8],
        MessageView::Interested => seq![2u8],
        MessageView::NotInterested => seq![3u8],
        MessageView::Have(i) => seq![4u8] + be32(i),
        MessageView::Bitfield(b) => seq![5u8] + b,
        MessageView::Request { index, begin, length } => seq![6u8] + be32(index) + be32(begin)
            + be32(length),
        MessageView::Piece { index, begin, block } => seq![7u8] + be32(index) + be32(begin)
            + block,
        MessageView::Cancel { index, begin, length } => seq![8u8] + be32(index) + be32(begin)
            + be32(length),
    }
}

/// The value written in the length prefix (the payload length, truncated to
/// 32 bits as the wire field is).
pub open spec fn length_field(m: MessageView) -> u32 {
    match m {
        MessageView::Bitfield(b) => (1 + (b.len() as u32)) as u32,
        MessageView::Piece { block, .. } => (9 + (block.len() as u32)) as u32,
        _ => payload(m).len() as u32,
    }
}

/// The length prefix of a message can be computed without overflow.
pub open spec fn length_computable(m: MessageView) -> bool {
    match m {
        MessageView::Bitfield(b) => 1 + (b.len() as u32) <= u32::MAX,
        MessageView::Piece { block, .. } => 9 + (block.len() as u32) <= u32::MAX,
        _ => true,
    }
}

/// A message on the wire: length prefix, then payload.
pub open spec fn encoded(m: MessageView) -> Seq<u8> {
    be32(length_field(m)) + payload(m)
}

/// The message that a payload reads as, or `None` for an unknown id.
pub open spec fn parse_payload(d: Seq<u8>) -> Option<MessageView> {
    let id = d[0];
    if id == 0 {
        Some(MessageView::Choke)
    } else if id == 1 {
        Some(MessageView::Unchoke)
    } else if id == 2 {
        Some(MessageView::Interested)
    } else if id == 3 {
        Some(MessageView::NotInterested)
    } else if id == 4 {
        Some(MessageView::Have(read_be32(d, 1)))
    } else if id == 5 {
        Some(MessageView::Bitfield(d.subrange(1, d.len() as int)))
    } else if id == 6 {
        Some(
            MessageView::Request {
                index: read_be32(d, 1),
                begin: read_be32(d, 5),
                length: read_be32(d, 9),
            },
        )
    } else if id == 7 {
        Some(
            MessageView::Piece {
                index: read_be32(d, 1),
                begin: read_be32(d, 5),
                block: d.subrange(9, d.len() as int),
            },
        )
    } else if id == 8 {
        Some(
            MessageView::Cancel {
                index: read_be32(d, 1),
                begin: read_be32(d, 5),
                length: read_be32(d, 9),
            },
        )
    } else {
        None
    }
}

/// A payload holds the id and every fixed field that its id calls for.
pub open spec fn payload_complete(d: Seq<u8>) -> bool {
    &&& d.len() >= 1
    &&& (d[0] == 4 ==> d.len() >= 5)
    &&& (d[0] == 6 || d[0] == 8 ==> d.len() >= 13)
    &&& (d[0] == 7 ==> d.len() >= 9)
}

impl PeerMessage {
    /// Whether `data` is a payload that `deserialize` can read.
    pub fn payload_is_complete(data: &[u8]) -> (r: bool)
        ensures
            r == payload_complete(data@),
    {
        if data.len() < 1 {
            return false;
        }
        let id = data[0];
        if id == 4 {
            data.len() >= 5
        } else if id == 6 || id == 8 {
            data.len() >= 13
        } else if id == 7 {
            data.len() >= 9
        } else {
            true
        }
    }

    /// The message as sent on the wire, length prefix included.
    pub fn serialize(&self) -> (r: Vec<u8>)
        requires
            length_computable(self@),
        ensures
            r@ == encoded(self@),
    {
        let mut buf: Vec<u8> = Vec::new();
        match self {
            PeerMessage::KeepAlive => {
                push_be32(&mut buf, 0);
            },
            PeerMessage::Choke => {
                push_be32(&mut buf, 1);
                buf.push(0u8);
            },
            PeerMessage::Unchoke => {
                push_be32(&mut buf, 1);
                buf.push(1u8);
            },
            PeerMessage::Interested => {
                push_be32(&mut buf, 1);
                buf.push(2u8);
            },
            PeerMessage::NotInterested => {
                push_be32(&mut buf, 1);
                buf.push(3u8);
            },
            PeerMessage::Have(idx) => {
                push_be32(&mut buf, 5);
                buf.push(4u8);
                push_be32(&mut buf, *idx);
            },
            PeerMessage::Bitfield(bits) => {
                let n = bits.len() as u32;
                push_be32(&mut buf, 1 + n);
                buf.push(5u8);
                push_all(&mut buf, bits.as_slice());
            },
            PeerMessage::Request { index, begin, length } => {
                push_be32(&mut buf, 13);
                buf.push(6u8);
                push_be32(&mut buf, *index);
                push_be32(&mut buf, *begin);
                push_be32(&mut buf, *length);
            },
            PeerMessage::Piece { index, begin, block } => {
                let n = block.len() as u32;
                push_be32(&mut buf, 9 + n);
                buf.push(7u8);
                push_be32(&mut buf, *index);
                push_be32(&mut buf, *begin);
                push_all(&mut buf, block.as_slice());
            },
            PeerMessage::Cancel { index, begin, length } => {
                push_be32(&mut buf, 13);
                buf.push(8u8);
                push_be32(&mut buf, *index);
                push_be32(&mut buf, *begin);
                push_be32(&mut buf, *length);
            },
        }
        assert(buf@ =~= encoded(self@));
        buf
    }

    /// Reads a message from its payload (the bytes after the length prefix).
    pub fn deserialize(data: &[u8]) -> (r: Result<Self, Error>)
        requires
            payload_complete(data@),
        ensures
            match parse_payload(data@) {
                Some(v) => r matches Ok(m) && m@ == v,
                None => r matches Err(Error::Protocol(msg)) && msg@ == "Unknown message ID: "@
                    + decimal(data@[0] as nat),
            },
    {
        let id = data[0];
        if id == 0 {
            Ok(PeerMessage::Choke)
        } else if id == 1 {
            Ok(PeerMessage::Unchoke)
        } else if id == 2 {
            Ok(PeerMessage::Interested)
        } else if id == 3 {
            Ok(PeerMessage::NotInterested)
        } else if id == 4 {
            Ok(PeerMessage::Have(get_be32(data, 1)))
        } else if id == 5 {
            Ok(PeerMessage::Bitfield(copy_from(data, 1)))
        } else if id == 6 {
            Ok(
                PeerMessage::Request {
                    index: get_be32(data, 1),
                    begin: get_be32(data, 5),
                    length: get_be32(data, 9),
                },
            )
        } else if id == 7 {
            let index = get_be32(data, 1);
            let begin = get_be32(data, 5);
            Ok(PeerMessage::Piece { index, begin, block: copy_from(data, 9) })
        } else if id == 8 {
            Ok(
                PeerMessage::Cancel {
                    index: get_be32(data, 1),
                    begin: get_be32(data, 5),
                    length: get_be32(data, 9),
                },
            )
        } else {
            let mut msg = str_to_string("Unknown message ID: ");
            push_decimal(&mut msg, id as u64);
            Err(Error::Protocol(msg))
        }
    }
}

/// Round trip of a message: the payload of a serialized message reads back
/// as the same message (a keep-alive has no payload and is read by the codec).
pub proof fn law_message_round_trip(m: MessageView)
    requires
        m != MessageView::KeepAlive,
        length_computable(m),
    ensures
        payload_complete(encoded(m).subrange(4, encoded(m).len() as int)),
        parse_payload(encoded(m).subrange(4, encoded(m).len() as int)) == Some(m),
{
    let e = encoded(m);
    let d = e.subrange(4, e.len() as int);
    assert(d =~= payload(m));
    match m {
        MessageView::Have(i) => {
            lemma_be32_round_trip(i);
            assert(d.subrange(1, 5) =~= be32(i));
        },
        MessageView::Bitfield(b) => {
            assert(d.subrange(1, d.len() as int) =~= b);
        },
        MessageView::Request { index, begin, length } => {
            lemma_be32_round_trip(index);
            lemma_be32_round_trip(begin);
            lemma_be32_round_trip(length);
            assert(d.subrange(1, 5) =~= be32(index));
            assert(d.subrange(5, 9) =~= be32(begin));
            assert(d.subrange(9, 13) =~= be32(length));
        },
        MessageView::Piece { index, begin, block } => {
            lemma_be32_round_trip(index);
            lemma_be32_round_trip(begin);
            assert(d.subrange(1, 5) =~= be32(index));
            assert(d.subrange(5, 9) =~= be32(begin));
            assert(d.subrange(9, d.len() as int) =~= block);
        },
        MessageView::Cancel { index, begin, length } => {
            lemma_be32_round_trip(index);
            lemma_be32_round_trip(begin);
            lemma_be32_round_trip(length);
            assert(d.subrange(1, 5) =~= be32(index));
            assert(d.subrange(5, 9) =~= be32(begin));
            assert(d.subrange(9, 13) =~= be32(length));
        },
        _ => {},
    }
}

/// Length announced by the prefix at the front of a buffer.
pub open spec fn prefix_len(s: Seq<u8>) -> int {
    read_be32(s, 0) as int
}

/// The buffer holds a whole frame with a non-empty payload.
pub open spec fn holds_frame(s: Seq<u8>) -> bool {
    s.len() >= 4 && prefix_len(s) > 0 && s.len() >= 4 + prefix_len(s)
}

/// The payload of the frame at the front of a buffer.
pub open spec fn frame_payload(s: Seq<u8>) -> Seq<u8> {
    s.subrange(4, 4 + prefix_len(s))
}

/// Splits length-prefixed peer messages off a byte stream.
pub struct PeerCodec;

impl PeerCodec {
    /// Takes the next message off the front of `src`. A buffer too short for the
    /// prefix or for the announced payload is left as it is and yields `None`;
    /// a zero length is a keep-alive. A whole frame is removed from the buffer
    /// before its payload is read.
    pub fn decode(&mut self, src: &mut Vec<u8>) -> (r: Result<Option<PeerMessage>, Error>)
        requires
            holds_frame(old(src)@) ==> payload_complete(frame_payload(old(src)@)),
        ensures
            old(src)@.len() < 4 ==> (r matches Ok(None) && final(src)@ == old(src)@),
            old(src)@.len() >= 4 && prefix_len(old(src)@) == 0 ==> (r matches Ok(
                Some(PeerMessage::KeepAlive),
            ) && final(src)@ == old(src)@.subrange(4, old(src)@.len() as int)),
            old(src)@.len() >= 4 && prefix_len(old(src)@) > 0 && old(src)@.len() < 4 + prefix_len(
                old(src)@,
            ) ==> (r matches Ok(None) && final(src)@ == old(src)@),
            holds_frame(old(src)@) ==> final(src)@ == old(src)@.subrange(
                4 + prefix_len(old(src)@),
                old(src)@.len() as int,
            ),
            holds_frame(old(src)@) ==> match parse_payload(frame_payload(old(src)@)) {
                Some(v) => r matches Ok(Some(m)) && m@ == v,
                None => r matches Err(Error::Protocol(_)),
            },
    {
        if src.len() < 4 {
            return Ok(None);
        }
        let length = get_be32(src.as_slice(), 0) as usize;
        if length == 0 {
            let rest = src.split_off(4);
            *src = rest;
            return Ok(Some(PeerMessage::KeepAlive));
        }
        if (src.len() as u64) < 4 + length as u64 {
            return Ok(None);
        }
        let mut frame = src.split_off(4 + length);
        std::mem::swap(src, &mut frame);
        let data = copy_from(frame.as_slice(), 4);
        assert(data@ =~= frame_payload(old(src)@));
        let msg = PeerMessage::deserialize(data.as_slice())?;
        Ok(Some(msg))
    }

    /// Appends the wire form of `item` to `dst`.
    pub fn encode(&mut self, item: PeerMessage, dst: &mut Vec<u8>) -> (r: Result<(), Error>)
        requires
            length_computable(item@),
        ensures
            r is Ok,
            final(dst)@ == old(dst)@ + encoded(item@),
    {
        let serialized = item.serialize();
        push_all(dst, serialized.as_slice());
        Ok(())
    }
}

/// Framing round trip: a buffer that starts with an encoded message (its payload
/// short enough for the 32-bit prefix) decodes to that message and keeps exactly
/// the bytes that followed it.
pub proof fn law_codec_round_trip(m: MessageView, rest: Seq<u8>)
    requires
        payload(m).len() <= u32::MAX,
    ensures
        ({
            let s = encoded(m) + rest;
            &&& s.len() >= 4
            &&& prefix_len(s) == payload(m).len()
            &&& (m == MessageView::KeepAlive ==> prefix_len(s) == 0 && s.subrange(4, s.len() as int) == rest)
            &&& (m != MessageView::KeepAlive ==> {
                &&& holds_frame(s)
                &&& payload_complete(frame_payload(s))
                &&& parse_payload(frame_payload(s)) == Some(m)
                &&& s.subrange(4 + prefix_len(s), s.len() as int) == rest
            })
        }),
{
    let s = encoded(m) + rest;
    let n = payload(m).len();
    assert(length_field(m) as int == n);
    lemma_be32_round_trip(length_field(m));
    assert(s.subrange(0, 4) =~= be32(length_field(m)));
    assert(read_be32(s, 0) == read_be32(be32(length_field(m)), 0));
    if m == MessageView::KeepAlive {
        assert(s.subrange(4, s.len() as int) =~= rest);
    } else {
        law_message_round_trip(m);
        assert(frame_payload(s) =~= encoded(m).subrange(4, encoded(m).len() as int));
        assert(s.subrange(4 + prefix_len(s), s.len() as int) =~= rest);
    }
}

/// The number that four bytes at offset `i` write, most significant first.
pub open spec fn be32_value(s: Seq<u8>, i: int) -> int {
    s[i] as int * 16777216 + s[i + 1] as int * 65536 + s[i + 2] as int * 256 + s[i + 3] as int
}

pub proof fn lemma_be32_value_of(x: u32)
    ensures
        be32_value(be32(x), 0) == x,
{
    let b0 = (x >> 24u32) as u8;
    let b1 = (x >> 16u32) as u8;
    let b2 = (x >> 8u32) as u8;
    let b3 = x as u8;
    assert(b0 as int * 16777216 + b1 as int * 65536 + b2 as int * 256 + b3 as int == x as int)
        by (bit_vector)
        requires
            b0 == (x >> 24u32) as u8,
            b1 == (x >> 16u32) as u8,
            b2 == (x >> 8u32) as u8,
            b3 == x as u8,
    ;
}

pub proof fn lemma_read_be32_value(s: Seq<u8>, i: int)
    requires
        0 <= i,
        i + 4 <= s.len(),
    ensures
        read_be32(s, i) == be32_value(s, i),
{
    let a = s[i];
    let b = s[i + 1];
    let c = s[i + 2];
    let d = s[i + 3];
    assert((((a as u32) << 24u32) | ((b as u32) << 16u32) | ((c as u32) << 8u32) | (d as u32)) as int
        == a as int * 16777216 + b as int * 65536 + c as int * 256 + d as int) by (bit_vector);
}

/// The layout of every message on the wire (BEP 3): four bytes of length,
/// most significant first, counting the id and the fields; the id; then the
/// fields at fixed offsets, each a 32-bit number written most significant
/// byte first: a have carries the piece index at 5; a request, a piece and a
/// cancel carry the index at 5 and the offset in the piece at 9; a request
/// and a cancel carry the length at 13; a piece carries its block from 13
/// and a bitfield its bytes from 5.
pub proof fn law_wire_layout(m: MessageView)
    requires
        payload(m).len() <= u32::MAX,
    ensures
        ({
            let e = encoded(m);
            &&& e.len() >= 4
            &&& be32_value(e, 0) == e.len() - 4
            &&& m is KeepAlive ==> e.len() == 4
            &&& m is Choke ==> e.len() == 5 && e[4] == 0
            &&& m is Unchoke ==> e.len() == 5 && e[4] == 1
            &&& m is Interested ==> e.len() == 5 && e[4] == 2
            &&& m is NotInterested ==> e.len() == 5 && e[4] == 3
            &&& m matches MessageView::Have(i) ==> e.len() == 9 && e[4] == 4 && be32_value(e, 5) == i
            &&& m matches MessageView::Bitfield(b) ==> e[4] == 5 && e.subrange(5, e.len() as int) == b
            &&& m matches MessageView::Request { index, begin, length } ==> e.len() == 17 && e[4] == 6
                && be32_value(e, 5) == index && be32_value(e, 9) == begin && be32_value(e, 13) == length
            &&& m matches MessageView::Piece { index, begin, block } ==> e.len() == 13 + block.len()
                && e[4] == 7 && be32_value(e, 5) == index && be32_value(e, 9) == begin && e.subrange(
                13,
                e.len() as int,
            ) == block
            &&& m matches MessageView::Cancel { index, begin, length } ==> e.len() == 17 && e[4] == 8
                && be32_value(e, 5) == index && be32_value(e, 9) == begin && be32_value(e, 13) == length
        }),
{
    let e = encoded(m);
    let p = payload(m);
    assert(e.subrange(0, 4) =~= be32(length_field(m)));
    assert(e.subrange(4, e.len() as int) =~= p);
    assert(length_field(m) == p.len());
    lemma_be32_value_of(length_field(m));
    assert(be32_value(e, 0) == be32_value(be32(length_field(m)), 0));
    match m {
        MessageView::Have(i) => {
            lemma_be32_value_of(i);
            assert(be32_value(e, 5) == be32_value(be32(i), 0));
        },
        MessageView::Bitfield(b) => {
            assert(e.subrange(5, e.len() as int) =~= b);
        },
        MessageView::Request { index, begin, length } => {
            lemma_be32_value_of(index);
            lemma_be32_value_of(begin);
            lemma_be32_value_of(length);
            assert(be32_value(e, 5) == be32_value(be32(index), 0));
            assert(be32_value(e, 9) == be32_value(be32(begin), 0));
            assert(be32_value(e, 13) == be32_value(be32(length), 0));
        },
        MessageView::Piece { index, begin, block } => {
            lemma_be32_value_of(index);
            lemma_be32_value_of(begin);
            assert(be32_value(e, 5) == be32_value(be32(index), 0));
            assert(be32_value(e, 9) == be32_value(be32(begin), 0));
            assert(e.subrange(13, e.len() as int) =~= block);
        },
        MessageView::Cancel { index, begin, length } => {
            lemma_be32_value_of(index);
            lemma_be32_value_of(begin);
            lemma_be32_value_of(length);
            assert(be32_value(e, 5) == be32_value(be32(index), 0));
            assert(be32_value(e, 9) == be32_value(be32(begin), 0));
            assert(be32_value(e, 13) == be32_value(be32(length), 0));
        },
        _ => {},
    }
}

/// What a received payload reads as (BEP 3): its first byte is the id, and
/// the fields follow at fixed offsets, each a 32-bit number written most
/// significant byte first: a have's piece index at 1; the index at 1 and the
/// offset in the piece at 5 for a request, a piece and a cancel; the length
/// at 9 for a request and a cancel; a piece's block from 9 and a bitfield's
/// bytes from 1. An id above 8 is not a message.
pub proof fn law_payload_fields(d: Seq<u8>)
    requires
        payload_complete(d),
    ensures
        d[0] == 0 ==> parse_payload(d) == Some(MessageView::Choke),
        d[0] == 1 ==> parse_payload(d) == Some(MessageView::Unchoke),
        d[0] == 2 ==> parse_payload(d) == Some(MessageView::Interested),
        d[0] == 3 ==> parse_payload(d) == Some(MessageView::NotInterested),
        d[0] == 4 ==> (parse_payload(d) matches Some(MessageView::Have(i)) && i == be32_value(d, 1)),
        d[0] == 5 ==> (parse_payload(d) matches Some(MessageView::Bitfield(b)) && b == d.subrange(
            1,
            d.len() as int,
        )),
        d[0] == 6 ==> (parse_payload(d) matches Some(MessageView::Request { index, begin, length })
            && index == be32_value(d, 1) && begin == be32_value(d, 5) && length == be32_value(d, 9)),
        d[0] == 7 ==> (parse_payload(d) matches Some(MessageView::Piece { index, begin, block })
            && index == be32_value(d, 1) && begin == be32_value(d, 5) && block == d.subrange(
            9,
            d.len() as int,
        )),
        d[0] == 8 ==> (parse_payload(d) matches Some(MessageView::Cancel { index, begin, length })
            && index == be32_value(d, 1) && begin == be32_value(d, 5) && length == be32_value(d, 9)),
        d[0] > 8 ==> parse_payload(d) is None,
{
    if d[0] == 4 {
        lemma_read_be32_value(d, 1);
    }
    if d[0] == 6 || d[0] == 7 || d[0] == 8 {
        lemma_read_be32_value(d, 1);
        lemma_read_be32_value(d, 5);
    }
    if d[0] == 6 || d[0] == 8 {
        lemma_read_be32_value(d, 9);
    }
}

} // verus!
