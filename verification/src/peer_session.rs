//! The download of pieces from one peer: which piece is being fetched, which
//! blocks are requested, and what arrives; the decisions of the peer loop,
//! apart from the sending and receiving itself.
use vstd::prelude::*;
use crate::Error;
use crate::bitfield::{Bitfield, bits_of, bytes_for};
use crate::hash::{sha1_digest, verify_piece};
use crate::piece_picker::{PiecePicker, marks, recorded_bits};
use crate::protocol::{BLOCK_SIZE, PeerMessage};
use crate::text::str_to_string;
use crate::torrent::{Torrent, v1_piece_hash};

verus! {

/// What a peer connection knows of the piece it fetches.
#[derive(Debug)]
pub struct PeerSession {
    pub current_piece: Option<usize>,
    pub bytes_received: u64,
    pub bytes_requested: u64,
    pub piece_buffer: Vec<u8>,
    /// How many blocks may be requested and not yet received.
    pub pipeline_size: usize,
}

/// What the peer loop is to do after a decision.
#[derive(Debug)]
pub enum SessionAction {
    /// Send a request for a block.
    Request { index: u32, begin: u32, length: u32 },
    /// Hand a verified piece to storage.
    Store { offset: u64, length: u64, data: Vec<u8> },
    /// Report that a piece was verified.
    Verified(usize),
}

pub enum ActionView {
    Request { index: u32, begin: u32, length: u32 },
    Store { offset: u64, length: u64, data: Seq<u8> },
    Verified(usize),
}

impl View for SessionAction {
    type V = ActionView;

    open spec fn view(&self) -> ActionView {
        match self {
            SessionAction::Request { index, begin, length } => ActionView::Request {
                index: *index,
                begin: *begin,
                length: *length,
            },
            SessionAction::Store { offset, length, data } => ActionView::Store {
                offset: *offset,
                length: *length,
                data: data@,
            },
            SessionAction::Verified(i) => ActionView::Verified(*i),
        }
    }
}

/// The views of a list of actions.
pub open spec fn action_views(s: Seq<SessionAction>) -> Seq<ActionView> {
    s.map_values(|a: SessionAction| a@)
}

/// The state of a session: piece, bytes received and requested, buffer.
pub struct SessionState {
    pub current: Option<usize>,
    pub received: u64,
    pub requested: u64,
    pub buffer: Seq<u8>,
}

pub open spec fn state_of(s: PeerSession) -> SessionState {
    SessionState {
        current: s.current_piece,
        received: s.bytes_received,
        requested: s.bytes_requested,
        buffer: s.piece_buffer@,
    }
}

/// No piece under way.
pub open spec fn idle_state() -> SessionState {
    SessionState { current: None, received: 0, requested: 0, buffer: Seq::empty() }
}

/// The length of piece `i` of `count` pieces of `plen` bytes in `total`
/// bytes: the last piece holds what is left.
pub open spec fn piece_len_of(i: int, count: int, plen: int, total: int) -> int {
    if i == count - 1 {
        total - i * plen
    } else {
        plen
    }
}

/// Whether pieces of `plen` bytes cut `total` bytes into `count` pieces,
/// none empty and each short enough for the 32-bit offsets of the wire.
pub open spec fn piece_geometry(count: int, plen: int, total: int) -> bool {
    &&& 0 < plen <= u32::MAX
    &&& count >= 1 ==> (count - 1) * plen < total && total - (count - 1) * plen <= u32::MAX
    &&& total <= u64::MAX
}

/// The length of the next block asked for at `begin` in a piece of `len` bytes.
pub open spec fn block_len(begin: int, len: int) -> int {
    if len - begin < BLOCK_SIZE {
        len - begin
    } else {
        BLOCK_SIZE as int
    }
}

/// The blocks (start, length) asked for from `begin` on, as long as fewer
/// than `max` bytes are outstanding and the piece is not all asked for.
pub open spec fn fill_blocks(begin: int, received: int, len: int, max: int) -> Seq<(int, int)>
    decreases len - begin,
{
    if begin < len && begin - received < max {
        seq![(begin, block_len(begin, len))] + fill_blocks(
            begin + block_len(begin, len),
            received,
            len,
            max,
        )
    } else {
        Seq::empty()
    }
}

/// The bytes asked for once the blocks of `fill_blocks` are asked for.
pub open spec fn fill_end(begin: int, received: int, len: int, max: int) -> int
    decreases len - begin,
{
    if begin < len && begin - received < max {
        fill_end(begin + block_len(begin, len), received, len, max)
    } else {
        begin
    }
}

/// The requests for blocks of piece `index`.
pub open spec fn request_views(index: int, blocks: Seq<(int, int)>) -> Seq<ActionView> {
    blocks.map_values(
        |b: (int, int)| ActionView::Request { index: index as u32, begin: b.0 as u32, length: b.1 as u32 },
    )
}

/// The session once a piece that we now hold is given up.
pub open spec fn after_drop(s: SessionState, mine: Seq<bool>) -> SessionState {
    if s.current matches Some(i) && marks(mine, i as int) {
        idle_state()
    } else {
        s
    }
}

/// Whether the piece under way has all its bytes.
pub open spec fn piece_done(s: SessionState, count: int, plen: int, total: int) -> bool {
    s.current matches Some(i) && s.received >= piece_len_of(i as int, count, plen, total)
}

proof fn lemma_fill_step(begin: int, received: int, len: int, max: int)
    requires
        begin < len,
        begin - received < max,
    ensures
        fill_blocks(begin, received, len, max) == seq![(begin, block_len(begin, len))] + fill_blocks(
            begin + block_len(begin, len),
            received,
            len,
            max,
        ),
        fill_end(begin, received, len, max) == fill_end(begin + block_len(begin, len), received, len, max),
{
}

fn piece_len(i: usize, count: usize, piece_length: u64, total_length: u64) -> (r: u64)
    requires
        i < count,
        piece_geometry(count as int, piece_length as int, total_length as int),
    ensures
        r == piece_len_of(i as int, count as int, piece_length as int, total_length as int),
        0 < r <= u32::MAX,
{
    if i == count - 1 {
        assert(i * piece_length < total_length);
        total_length - i as u64 * piece_length
    } else {
        piece_length
    }
}

impl PeerSession {
    /// A session with no piece under way.
    pub fn new(pipeline_size: usize) -> (s: Self)
        ensures
            state_of(s) == idle_state(),
            s.pipeline_size == pipeline_size,
    {
        PeerSession {
            current_piece: None,
            bytes_received: 0,
            bytes_requested: 0,
            piece_buffer: Vec::new(),
            pipeline_size,
        }
    }

    fn reset(&mut self)
        ensures
            state_of(*final(self)) == idle_state(),
            final(self).pipeline_size == old(self).pipeline_size,
    {
        self.current_piece = None;
        self.bytes_received = 0;
        self.bytes_requested = 0;
        self.piece_buffer = Vec::new();
    }

    /// Moves the download on: a piece that we now hold is given up; a piece
    /// with all its bytes is checked against its SHA-1 hash, stored and
    /// marked when it matches, released when not; without a piece, the picker
    /// chooses one the peer has; then blocks of the piece are requested until
    /// `pipeline_size` blocks are outstanding. The hash lookup's error ends it.
    #[verifier::rlimit(30)]
    pub fn trigger_request(
        &mut self,
        torrent: &Torrent,
        count: usize,
        piece_length: u64,
        total_length: u64,
        my_bitfield: &mut Bitfield,
        picker: &mut PiecePicker,
        peer_addr: &str,
    ) -> (r: Result<Vec<SessionAction>, Error>)
        requires
            old(picker).wf(),
            old(picker).piece_total() == count,
            piece_geometry(count as int, piece_length as int, total_length as int),
            old(self).pipeline_size * BLOCK_SIZE <= u64::MAX,
            old(self).current_piece matches Some(i) ==> i < count && (old(self).bytes_requested
                >= old(self).bytes_received || old(self).bytes_received >= piece_len_of(
                i as int,
                count as int,
                piece_length as int,
                total_length as int,
            )),
        ensures
            final(picker).wf(),
            final(picker).piece_total() == old(picker).piece_total(),
            final(picker).peers() == old(picker).peers(),
            final(picker).counts() == old(picker).counts(),
            final(self).pipeline_size == old(self).pipeline_size,
            ({
                let (c, pl, t) = (count as int, piece_length as int, total_length as int);
                let sa = after_drop(state_of(*old(self)), old(my_bitfield)@);
                let fin = piece_done(sa, c, pl, t);
                let i = sa.current->Some_0;
                let len = piece_len_of(i as int, c, pl, t);
                let hash = v1_piece_hash(*torrent, i as int);
                let ok = fin && hash is Ok && sha1_digest(sa.buffer) == hash->Ok_0;
                let finish = if ok {
                    seq![
                        ActionView::Store { offset: (i * pl) as u64, length: len as u64, data: sa.buffer },
                        ActionView::Verified(i),
                    ]
                } else {
                    Seq::<ActionView>::empty()
                };
                let sb = if fin {
                    idle_state()
                } else {
                    sa
                };
                let mine = final(my_bitfield)@;
                let pbits = final(picker).bits_of_peer(peer_addr@);
                &&& fin && hash is Err ==> {
                    &&& r matches Err(Error::Protocol(m)) && m@ == hash->Err_0
                    &&& state_of(*final(self)) == sa
                    &&& final(picker).pending() == old(picker).pending()
                    &&& final(my_bitfield)@ == old(my_bitfield)@
                }
                &&& !(fin && hash is Err) ==> {
                    &&& r is Ok
                    &&& final(my_bitfield)@ == if ok && i < old(my_bitfield)@.len() {
                        old(my_bitfield)@.update(i as int, true)
                    } else {
                        old(my_bitfield)@
                    }
                    &&& final(picker).pending() == if fin {
                        old(picker).pending().update(i as int, false)
                    } else {
                        old(picker).pending()
                    }
                    &&& sb.current is Some ==> final(self).current_piece == sb.current
                    &&& sb.current is None ==> {
                        &&& final(self).current_piece is None <==> (!final(picker).knows(peer_addr@)
                            || forall|x: int| !final(picker).is_candidate(mine, pbits, x))
                        &&& final(self).current_piece matches Some(j) ==> final(picker).is_candidate(
                            mine,
                            pbits,
                            j as int,
                        ) && forall|x: int|
                            final(picker).is_candidate(mine, pbits, x) ==> final(picker).counts()[j as int]
                                <= final(picker).counts()[x]
                    }
                    &&& final(self).current_piece is None ==> state_of(*final(self)) == sb
                        && action_views(r->Ok_0@) == finish
                    &&& final(self).current_piece matches Some(k) ==> {
                        let lk = piece_len_of(k as int, c, pl, t);
                        let sc = if sb.current is None {
                            SessionState {
                                current: Some(k),
                                received: 0,
                                requested: 0,
                                buffer: Seq::new(lk as nat, |x: int| 0u8),
                            }
                        } else {
                            sb
                        };
                        let max = old(self).pipeline_size * BLOCK_SIZE;
                        &&& final(self).bytes_received == sc.received
                        &&& final(self).piece_buffer@ == sc.buffer
                        &&& final(self).bytes_requested == fill_end(
                            sc.requested as int,
                            sc.received as int,
                            lk,
                            max,
                        )
                        &&& action_views(r->Ok_0@) == finish + request_views(
                            k as int,
                            fill_blocks(sc.requested as int, sc.received as int, lk, max),
                        )
                    }
                }
            }),
    {
        let ghost c = count as int;
        let ghost pl = piece_length as int;
        let ghost t = total_length as int;
        let mut actions: Vec<SessionAction> = Vec::new();
        if let Some(i) = self.current_piece {
            if my_bitfield.get(i) {
                self.reset();
            }
        }
        let ghost sa = state_of(*self);
        let ghost picker0 = *picker;
        let ghost bf0 = my_bitfield@;
        if let Some(i) = self.current_piece {
            let len = piece_len(i, count, piece_length, total_length);
            if self.bytes_received >= len {
                let expected = match torrent.piece_hash_v1(i) {
                    Ok(h) => h,
                    Err(e) => {
                        return Err(e);
                    },
                };
                if verify_piece(self.piece_buffer.as_slice(), &expected) {
                    assert(i * piece_length < total_length) by (nonlinear_arith)
                        requires
                            i < count,
                            (count - 1) * piece_length < total_length,
                            piece_length > 0,
                    ;
                    let offset = i as u64 * piece_length;
                    let mut data: Vec<u8> = Vec::new();
                    std::mem::swap(&mut data, &mut self.piece_buffer);
                    actions.push(SessionAction::Store { offset, length: len, data });
                    my_bitfield.set(i, true);
                    picker.mark_completed(i);
                    actions.push(SessionAction::Verified(i));
                } else {
                    picker.release_piece(i);
                }
                self.reset();
            }
        }
        let ghost finish = action_views(actions@);
        let ghost sb = state_of(*self);
        let mut picked = false;
        if self.current_piece.is_none() {
            if let Some(j) = picker.pick_next(my_bitfield, peer_addr) {
                let len = piece_len(j, count, piece_length, total_length);
                self.current_piece = Some(j);
                self.bytes_received = 0;
                self.bytes_requested = 0;
                self.piece_buffer = vec![0u8; len as usize];
                picked = true;
                assert(self.piece_buffer@ =~= Seq::new(len as nat, |x: int| 0u8));
            }
        }
        let ghost sc = state_of(*self);
        if let Some(k) = self.current_piece {
            let len = piece_len(k, count, piece_length, total_length);
            let max = self.pipeline_size as u64 * BLOCK_SIZE as u64;
            let ghost start = self.bytes_requested as int;
            let ghost rec = self.bytes_received as int;
            let ghost n0 = actions@.len();
            while self.bytes_requested - self.bytes_received < max && self.bytes_requested < len
                invariant
                    self.bytes_received == rec,
                    start <= self.bytes_requested,
                    self.bytes_requested >= self.bytes_received,
                    len <= u32::MAX,
                    n0 == finish.len(),
                    n0 <= actions@.len(),
                    action_views(actions@).take(n0 as int) == finish,
                    action_views(actions@).skip(n0 as int) + request_views(
                        k as int,
                        fill_blocks(self.bytes_requested as int, rec, len as int, max as int),
                    ) == request_views(k as int, fill_blocks(start, rec, len as int, max as int)),
                    fill_end(self.bytes_requested as int, rec, len as int, max as int) == fill_end(
                        start,
                        rec,
                        len as int,
                        max as int,
                    ),
                    self.current_piece == Some(k),
                    self.piece_buffer@ == sc.buffer,
                    self.pipeline_size == old(self).pipeline_size,
                    max == self.pipeline_size * BLOCK_SIZE,
                decreases len - self.bytes_requested,
            {
                let remaining = len - self.bytes_requested;
                let length: u32 = if remaining < BLOCK_SIZE as u64 {
                    remaining as u32
                } else {
                    BLOCK_SIZE
                };
                proof {
                    lemma_fill_step(self.bytes_requested as int, rec, len as int, max as int);
                }
                let ghost before = action_views(actions@);
                actions.push(
                    SessionAction::Request {
                        index: k as u32,
                        begin: self.bytes_requested as u32,
                        length,
                    },
                );
                proof {
                    let b = self.bytes_requested as int;
                    assert(action_views(actions@) =~= before.push(
                        ActionView::Request { index: k as u32, begin: b as u32, length },
                    ));
                    assert(action_views(actions@).take(n0 as int) =~= before.take(n0 as int));
                    assert(action_views(actions@).skip(n0 as int) =~= before.skip(n0 as int).push(
                        ActionView::Request { index: k as u32, begin: b as u32, length },
                    ));
                    let rest = fill_blocks(b + length, rec, len as int, max as int);
                    assert(request_views(k as int, seq![(b, length as int)] + rest) =~= seq![
                        ActionView::Request { index: k as u32, begin: b as u32, length },
                    ] + request_views(k as int, rest));
                    assert(before.skip(n0 as int).push(
                        ActionView::Request { index: k as u32, begin: b as u32, length },
                    ) + request_views(k as int, rest) =~= before.skip(n0 as int) + (seq![
                        ActionView::Request { index: k as u32, begin: b as u32, length },
                    ] + request_views(k as int, rest)));
                }
                self.bytes_requested = self.bytes_requested + length as u64;
            }
            proof {
                assert(fill_blocks(self.bytes_requested as int, rec, len as int, max as int) =~= Seq::<
                    (int, int),
                >::empty());
                assert(request_views(k as int, Seq::<(int, int)>::empty()) =~= Seq::<ActionView>::empty());
                assert(action_views(actions@) =~= action_views(actions@).take(n0 as int) + action_views(
                    actions@,
                ).skip(n0 as int));
            }
        }
        proof {
            assert(sa == after_drop(state_of(*old(self)), old(my_bitfield)@));
        }
        Ok(actions)
    }

    /// A block of a piece has arrived. When it belongs to the piece under way
    /// it is copied into the buffer at `begin` and counted, and its length is
    /// returned (the bytes downloaded); any other block is ignored.
    pub fn on_block(&mut self, index: u32, begin: u32, block: &[u8]) -> (r: Option<u64>)
        requires
            old(self).current_piece == Some(index as usize) ==> begin + block@.len()
                <= old(self).piece_buffer@.len() && old(self).bytes_received + block@.len()
                <= u64::MAX,
        ensures
            old(self).current_piece == Some(index as usize) ==> {
                let b = begin as int;
                let old_buf = old(self).piece_buffer@;
                &&& r == Some(block@.len() as u64)
                &&& final(self).piece_buffer@ == old_buf.subrange(0, b) + block@ + old_buf.subrange(
                    b + block@.len(),
                    old_buf.len() as int,
                )
                &&& final(self).bytes_received == old(self).bytes_received + block@.len()
                &&& final(self).current_piece == old(self).current_piece
                &&& final(self).bytes_requested == old(self).bytes_requested
                &&& final(self).pipeline_size == old(self).pipeline_size
            },
            old(self).current_piece != Some(index as usize) ==> r is None && *final(self) == *old(
                self,
            ),
    {
        let mine = match self.current_piece {
            Some(i) => i == index as usize,
            None => false,
        };
        if !mine {
            return None;
        }
        let ghost old_buf = self.piece_buffer@;
        let start = begin as usize;
        let mut j: usize = 0;
        while j < block.len()
            invariant
                j <= block@.len(),
                start + block@.len() <= old_buf.len(),
                self.piece_buffer@.len() == old_buf.len(),
                start + block@.len() <= self.piece_buffer.len(),
                forall|x: int| 0 <= x < start ==> self.piece_buffer@[x] == old_buf[x],
                forall|x: int| 0 <= x < j ==> self.piece_buffer@[start + x] == block@[x],
                forall|x: int| start + j <= x < old_buf.len() ==> self.piece_buffer@[x] == old_buf[x],
                self.current_piece == old(self).current_piece,
                self.bytes_received == old(self).bytes_received,
                self.bytes_requested == old(self).bytes_requested,
                self.pipeline_size == old(self).pipeline_size,
            decreases block@.len() - j,
        {
            self.piece_buffer[start + j] = block[j];
            j = j + 1;
        }
        assert(self.piece_buffer@ =~= old_buf.subrange(0, start as int) + block@ + old_buf.subrange(
            start + block@.len(),
            old_buf.len() as int,
        ));
        let n = block.len() as u64;
        self.bytes_received = self.bytes_received + n;
        Some(n)
    }

    /// The piece `piece_idx` is to be given up (another connection finished
    /// it): when it is the piece under way the session becomes idle.
    pub fn cancel_piece(&mut self, piece_idx: usize) -> (r: bool)
        ensures
            r == (old(self).current_piece == Some(piece_idx)),
            r ==> state_of(*final(self)) == idle_state(),
            !r ==> *final(self) == *old(self),
            final(self).pipeline_size == old(self).pipeline_size,
    {
        let mine = match self.current_piece {
            Some(i) => i == piece_idx,
            None => false,
        };
        if mine {
            self.reset();
        }
        mine
    }

    /// The piece `piece_idx` is to be fetched (end game): an idle session
    /// takes it, from its first byte.
    pub fn force_piece(&mut self, piece_idx: usize) -> (r: bool)
        ensures
            r == (old(self).current_piece is None),
            r ==> final(self).current_piece == Some(piece_idx) && final(self).bytes_received == 0
                && final(self).bytes_requested == 0 && final(self).piece_buffer
                == old(self).piece_buffer,
            !r ==> *final(self) == *old(self),
            final(self).pipeline_size == old(self).pipeline_size,
    {
        if self.current_piece.is_none() {
            self.current_piece = Some(piece_idx);
            self.bytes_received = 0;
            self.bytes_requested = 0;
            true
        } else {
            false
        }
    }

    /// The connection is closed: a piece left short of `piece_length` bytes
    /// is handed back to the picker, and the peer is forgotten.
    pub fn close(&self, picker: &mut PiecePicker, piece_length: u64, peer_addr: &str)
        requires
            old(picker).wf(),
        ensures
            final(picker).wf(),
            final(picker).piece_total() == old(picker).piece_total(),
            final(picker).pending() == match self.current_piece {
                Some(i) => if self.bytes_received < piece_length && i < old(picker).piece_total() {
                    old(picker).pending().update(i as int, false)
                } else {
                    old(picker).pending()
                },
                None => old(picker).pending(),
            },
            !final(picker).knows(peer_addr@),
    {
        if let Some(i) = self.current_piece {
            if self.bytes_received < piece_length {
                picker.mark_completed(i);
            }
        }
        picker.remove_peer(peer_addr);
    }
}

/// What the peer loop does after a message from the peer.
#[derive(Debug)]
pub struct PeerReply {
    /// Bytes of a block of the piece under way that were taken in.
    pub downloaded: Option<u64>,
    /// Whether to move the download on (`trigger_request`).
    pub advance: bool,
    /// A block the peer asked for, to read from storage and send: piece,
    /// start in the piece, offset in the file and length.
    pub serve: Option<(u32, u32, u64, u64)>,
    /// What the peer announced, to report: the pieces of its bitfield, or
    /// the one piece of a have.
    pub announced: Option<Announce>,
    /// Whether the peer is now to be marked handshaked in the registry (it
    /// sent its bitfield).
    pub handshaked: bool,
}

/// What a peer announced of the pieces it holds.
#[derive(Debug)]
pub enum Announce {
    /// Its bitfield, read for the torrent's pieces.
    Bitfield(Bitfield),
    /// One piece more.
    Have(u32),
}

/// The pieces that a `bitfield` message marks, for a torrent of `count`
/// pieces: missing bytes read as zero, extra bytes are ignored.
pub open spec fn wire_bits(bytes: Seq<u8>, count: nat) -> Seq<bool> {
    bits_of(wire_bytes(bytes, count), count)
}

/// The bytes of a bitfield of `count` pieces read from a `bitfield`
/// message: the bytes that fit, then zeros.
pub open spec fn wire_bytes(bytes: Seq<u8>, count: nat) -> Seq<u8> {
    Seq::new(bytes_for(count as int) as nat, |i: int| if i < bytes.len() { bytes[i] } else { 0u8 })
}

/// What the picker holds of a peer's pieces before a `have`: its recorded
/// bits, or, for a peer not yet known, `count` unmarked pieces.
pub open spec fn prior_bits(peers: Seq<(Seq<char>, Seq<bool>)>, addr: Seq<char>, count: nat) -> Seq<bool> {
    if exists|j: int| 0 <= j < peers.len() && peers[j].0 == addr {
        recorded_bits(peers, addr)
    } else {
        Seq::new(count, |i: int| false)
    }
}

/// The pieces of a peer once it announces piece `index`: one piece more
/// (an index past the end changes nothing).
pub open spec fn have_bits(prior: Seq<bool>, index: int) -> Seq<bool> {
    if 0 <= index < prior.len() {
        prior.update(index, true)
    } else {
        prior
    }
}

/// The known peers once `addr` is recorded with `bits`: its entry replaced,
/// or a new entry at the end.
pub open spec fn record_peer(peers: Seq<(Seq<char>, Seq<bool>)>, addr: Seq<char>, bits: Seq<bool>) -> Seq<
    (Seq<char>, Seq<bool>),
> {
    if exists|j: int| 0 <= j < peers.len() && peers[j].0 == addr {
        peers.update(choose|j: int| 0 <= j < peers.len() && peers[j].0 == addr, (addr, bits))
    } else {
        peers.push((addr, bits))
    }
}

/// Records in the picker the pieces a peer announced.
fn announce_bits(picker: &mut PiecePicker, peer_addr: &str, bf: Bitfield)
    requires
        old(picker).wf(),
    ensures
        final(picker).wf(),
        final(picker).piece_total() == old(picker).piece_total(),
        final(picker).pending() == old(picker).pending(),
        final(picker).peers() == record_peer(old(picker).peers(), peer_addr@, bf@),
{
    let ghost peers = picker.peers();
    let ghost bits = bf@;
    picker.add_peer_bitfield(str_to_string(peer_addr), bf);
    proof {
        if exists|j: int| 0 <= j < peers.len() && peers[j].0 == peer_addr@ {
            let c = choose|j: int| 0 <= j < peers.len() && peers[j].0 == peer_addr@;
            let w = choose|j: int|
                0 <= j < peers.len() && peers[j].0 == peer_addr@ && picker.peers() == peers.update(
                    j,
                    (peer_addr@, bits),
                );
            assert(c == w);
        }
    }
}

impl PeerSession {
    /// Handles a message from the peer: a choke or unchoke changes
    /// `peer_choking` (and an unchoke moves the download on); a bitfield is
    /// recorded as the peer's pieces in the picker, and a have adds its piece
    /// to them; a block of the
    /// piece under way is taken in; a request, unless we choke the peer, is
    /// answered from storage. After a bitfield, a have or a block, the
    /// download moves on when the peer does not choke us. A bitfield or a
    /// have is reported in the reply, and a bitfield marks the peer as
    /// handshaked.
    pub fn handle_message(
        &mut self,
        msg: PeerMessage,
        peer_choking: &mut bool,
        am_choking: bool,
        count: usize,
        piece_length: u64,
        picker: &mut PiecePicker,
        peer_addr: &str,
    ) -> (r: PeerReply)
        requires
            old(picker).wf(),
            old(picker).piece_total() == count,
            msg matches PeerMessage::Piece { index, begin, block } ==> (old(self).current_piece == Some(
                index as usize,
            ) ==> begin + block@.len() <= old(self).piece_buffer@.len() && old(self).bytes_received
                + block@.len() <= u64::MAX),
            msg matches PeerMessage::Request { index, begin, .. } ==> (!am_choking ==> index
                * piece_length + begin <= u64::MAX),
        ensures
            final(picker).wf(),
            final(picker).piece_total() == old(picker).piece_total(),
            final(picker).pending() == old(picker).pending(),
            final(self).pipeline_size == old(self).pipeline_size,
            r.handshaked == (msg is Bitfield),
            match msg {
                PeerMessage::Bitfield(bits) => r.announced matches Some(Announce::Bitfield(b)) && b@
                    == wire_bits(bits@, count as nat) && b.spec_bytes() == wire_bytes(bits@, count as nat),
                PeerMessage::Have(index) => r.announced matches Some(Announce::Have(i)) && i == index,
                _ => r.announced is None,
            },
            match msg {
                PeerMessage::Choke => *final(peer_choking) && *final(self) == *old(self)
                    && final(picker).peers() == old(picker).peers() && r.downloaded is None
                    && !r.advance && r.serve is None,
                PeerMessage::Unchoke => !*final(peer_choking) && *final(self) == *old(self)
                    && final(picker).peers() == old(picker).peers() && r.downloaded is None
                    && r.advance && r.serve is None,
                PeerMessage::Bitfield(bits) => *final(peer_choking) == *old(peer_choking)
                    && *final(self) == *old(self) && final(picker).peers() == record_peer(
                    old(picker).peers(),
                    peer_addr@,
                    wire_bits(bits@, count as nat),
                ) && r.downloaded is None && r.advance == !*old(peer_choking) && r.serve is None,
                PeerMessage::Have(index) => *final(peer_choking) == *old(peer_choking)
                    && *final(self) == *old(self) && final(picker).peers() == record_peer(
                    old(picker).peers(),
                    peer_addr@,
                    have_bits(prior_bits(old(picker).peers(), peer_addr@, count as nat), index as int),
                ) && r.downloaded is None && r.advance == !*old(peer_choking) && r.serve is None,
                PeerMessage::Piece { index, begin, block } => *final(peer_choking) == *old(
                    peer_choking,
                ) && final(picker).peers() == old(picker).peers() && r.serve is None && if old(
                    self,
                ).current_piece == Some(index as usize) {
                    let b = begin as int;
                    let old_buf = old(self).piece_buffer@;
                    &&& r.downloaded == Some(block@.len() as u64)
                    &&& r.advance == !*old(peer_choking)
                    &&& final(self).piece_buffer@ == old_buf.subrange(0, b) + block@
                        + old_buf.subrange(b + block@.len(), old_buf.len() as int)
                    &&& final(self).bytes_received == old(self).bytes_received + block@.len()
                    &&& final(self).current_piece == old(self).current_piece
                    &&& final(self).bytes_requested == old(self).bytes_requested
                } else {
                    *final(self) == *old(self) && r.downloaded is None && !r.advance
                },
                PeerMessage::Request { index, begin, length } => *final(peer_choking) == *old(
                    peer_choking,
                ) && *final(self) == *old(self) && final(picker).peers() == old(picker).peers()
                    && r.downloaded is None && !r.advance && r.serve == if am_choking {
                    None
                } else {
                    Some((index, begin, (index * piece_length + begin) as u64, length as u64))
                },
                _ => *final(peer_choking) == *old(peer_choking) && *final(self) == *old(self)
                    && final(picker).peers() == old(picker).peers() && r.downloaded is None
                    && !r.advance && r.serve is None,
            },
    {
        let quiet = PeerReply {
            downloaded: None,
            advance: false,
            serve: None,
            announced: None,
            handshaked: false,
        };
        match msg {
            PeerMessage::Choke => {
                *peer_choking = true;
                quiet
            },
            PeerMessage::Unchoke => {
                *peer_choking = false;
                PeerReply {
                    downloaded: None,
                    advance: true,
                    serve: None,
                    announced: None,
                    handshaked: false,
                }
            },
            PeerMessage::Bitfield(bits) => {
                let bf = Bitfield::from_bytes(bits.as_slice(), count);
                proof {
                    assert(bf.spec_bytes() =~= wire_bytes(bits@, count as nat));
                }
                let report = bf.clone();
                announce_bits(picker, peer_addr, bf);
                PeerReply {
                    downloaded: None,
                    advance: !*peer_choking,
                    serve: None,
                    announced: Some(Announce::Bitfield(report)),
                    handshaked: true,
                }
            },
            PeerMessage::Have(index) => {
                let mut bf = match picker.peer_bitfield(peer_addr) {
                    Some(b) => b,
                    None => Bitfield::new(count),
                };
                assert(bf@ =~= prior_bits(picker.peers(), peer_addr@, count as nat));
                bf.set(index as usize, true);
                assert(bf@ =~= have_bits(
                    prior_bits(picker.peers(), peer_addr@, count as nat),
                    index as int,
                ));
                announce_bits(picker, peer_addr, bf);
                PeerReply {
                    downloaded: None,
                    advance: !*peer_choking,
                    serve: None,
                    announced: Some(Announce::Have(index)),
                    handshaked: false,
                }
            },
            PeerMessage::Piece { index, begin, block } => {
                match self.on_block(index, begin, block.as_slice()) {
                    Some(n) => PeerReply {
                        downloaded: Some(n),
                        advance: !*peer_choking,
                        serve: None,
                        announced: None,
                        handshaked: false,
                    },
                    None => quiet,
                }
            },
            PeerMessage::Request { index, begin, length } => {
                if am_choking {
                    quiet
                } else {
                    let offset = index as u64 * piece_length + begin as u64;
                    PeerReply {
                        downloaded: None,
                        advance: false,
                        serve: Some((index, begin, offset, length as u64)),
                        announced: None,
                        handshaked: false,
                    }
                }
            },
            _ => quiet,
        }
    }
}

} // verus!
