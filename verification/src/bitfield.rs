//! Piece availability: one bit per piece, most significant bit first
//! (the wire order of BitTorrent).
use vstd::prelude::*;

verus! {

/// Bit `i` (0 = most significant) of a byte.
pub open spec fn byte_bit(b: u8, i: int) -> bool {
    (b >> ((7 - i) as u8)) & 1u8 == 1u8
}

/// Number of bytes that hold `n` bits.
pub open spec fn bytes_for(n: int) -> int {
    n / 8 + if n % 8 == 0 { 0int } else { 1int }
}

/// The pieces that a byte string marks, read as `n` bits.
pub open spec fn bits_of(bytes: Seq<u8>, n: nat) -> Seq<bool> {
    Seq::new(n, |i: int| byte_bit(bytes[i / 8], i % 8))
}

/// Number of `true` entries of a sequence.
pub open spec fn count_true(s: Seq<bool>) -> nat
    decreases s.len(),
{
    if s.len() == 0 {
        0
    } else {
        count_true(s.drop_last()) + if s.last() { 1nat } else { 0nat }
    }
}

pub proof fn lemma_count_true_bounds(s: Seq<bool>)
    ensures
        count_true(s) <= s.len(),
        count_true(s) == s.len() <==> (forall|i: int| 0 <= i < s.len() ==> s[i]),
    decreases s.len(),
{
    if s.len() > 0 {
        lemma_count_true_bounds(s.drop_last());
        if count_true(s) == s.len() {
            assert forall|i: int| 0 <= i < s.len() implies s[i] by {
                if i < s.len() - 1 {
                    assert(s.drop_last()[i] == s[i]);
                }
            }
        }
        if forall|i: int| 0 <= i < s.len() ==> s[i] {
            assert forall|i: int| 0 <= i < s.drop_last().len() implies s.drop_last()[i] by {
                assert(s[i]);
            }
        }
    }
}

proof fn lemma_set_bit(b: u8, k: u8, j: u8)
    requires
        k < 8,
        j < 8,
    ensures
        ((b | (1u8 << k)) >> j) & 1u8 == (if j == k { 1u8 } else { (b >> j) & 1u8 }),
        ((b & !(1u8 << k)) >> j) & 1u8 == (if j == k { 0u8 } else { (b >> j) & 1u8 }),
{
    assert(((b | (1u8 << k)) >> j) & 1u8 == (if j == k { 1u8 } else { (b >> j) & 1u8 }))
        by (bit_vector)
        requires
            k < 8,
            j < 8,
    ;
    assert(((b & !(1u8 << k)) >> j) & 1u8 == (if j == k { 0u8 } else { (b >> j) & 1u8 }))
        by (bit_vector)
        requires
            k < 8,
            j < 8,
    ;
}

/// Byte `b` with bit `i` (0 = most significant) set or cleared.
pub open spec fn with_bit(b: u8, i: int, value: bool) -> u8 {
    if value {
        b | (1u8 << ((7 - i) as u8))
    } else {
        b & !(1u8 << ((7 - i) as u8))
    }
}

/// The bytes once piece `index` is set to `value`: only its byte changes,
/// and in it only its bit.
pub open spec fn set_bytes(bytes: Seq<u8>, index: int, value: bool) -> Seq<u8> {
    bytes.update(index / 8, with_bit(bytes[index / 8], index % 8, value))
}

/// A compact record of which pieces are available.
#[derive(Debug, PartialEq, Eq)]
pub struct Bitfield {
    bits: Vec<u8>,
    num_pieces: usize,
}

impl View for Bitfield {
    type V = Seq<bool>;

    /// One entry per piece: whether it is marked.
    closed spec fn view(&self) -> Seq<bool> {
        bits_of(self.bits@, self.num_pieces as nat)
    }
}

impl Clone for Bitfield {
    fn clone(&self) -> (r: Self)
        ensures
            r@ == self@,
            r.spec_bytes() == self.spec_bytes(),
    {
        proof {
            use_type_invariant(self);
        }
        Bitfield { bits: self.bits.clone(), num_pieces: self.num_pieces }
    }
}

impl Bitfield {
    /// The byte vector is exactly long enough for the pieces.
    #[verifier::type_invariant]
    pub closed spec fn wf(self) -> bool {
        self.bits@.len() == bytes_for(self.num_pieces as int)
    }

    /// The bytes as they go on the wire.
    pub closed spec fn spec_bytes(&self) -> Seq<u8> {
        self.bits@
    }

    /// Value of piece `i`; pieces past the end read as absent.
    pub open spec fn has(&self, i: int) -> bool {
        0 <= i < self@.len() && self@[i]
    }

    /// Creates a bitfield of `num_pieces` pieces, none of them marked.
    pub fn new(num_pieces: usize) -> (bf: Self)
        ensures
            bf@.len() == num_pieces,
            forall|i: int| 0 <= i < num_pieces ==> !bf@[i],
            bf.spec_bytes() == Seq::new(bytes_for(num_pieces as int) as nat, |i: int| 0u8),
    {
        let num_bytes = num_pieces / 8 + if num_pieces % 8 == 0 { 0 } else { 1 };
        let bits = vec![0u8; num_bytes];
        let bf = Bitfield { bits, num_pieces };
        assert forall|i: int| 0 <= i < num_pieces implies !bf@[i] by {
            assert(bits@[i / 8] == 0u8);
            let s = (7 - i % 8) as u8;
            assert((0u8 >> s) & 1u8 == 0u8) by (bit_vector);
        }
        assert(bf.spec_bytes() =~= Seq::new(bytes_for(num_pieces as int) as nat, |i: int| 0u8));
        bf
    }

    /// True when the bitfield tracks no pieces at all.
    pub fn is_empty(&self) -> (r: bool)
        ensures
            r == (self@.len() == 0),
    {
        self.len() == 0
    }

    /// Marks piece `index` as present or absent; an index past the end is ignored.
    pub fn set(&mut self, index: usize, value: bool)
        ensures
            index < old(self)@.len() ==> final(self)@ == old(self)@.update(index as int, value),
            index < old(self)@.len() ==> final(self).spec_bytes() == set_bytes(
                old(self).spec_bytes(),
                index as int,
                value,
            ),
            index >= old(self)@.len() ==> *final(self) == *old(self),
        no_unwind
    {
        proof {
            use_type_invariant(&*self);
        }
        if index >= self.num_pieces {
            return ;
        }
        let byte_idx = index / 8;
        let bit_idx: u8 = (7 - index % 8) as u8;
        let ghost old_bits = self.bits@;
        let b = self.bits[byte_idx];
        let nb = if value {
            b | (1u8 << bit_idx)
        } else {
            b & !(1u8 << bit_idx)
        };
        self.bits[byte_idx] = nb;
        proof {
            assert forall|i: int| 0 <= i < self.num_pieces implies self@[i] == (if i
                == index { value } else { old(self)@[i] }) by {
                let k = (7 - i % 8) as u8;
                if i / 8 == byte_idx {
                    lemma_set_bit(b, bit_idx, k);
                    if i != index {
                        assert(i % 8 != index % 8);
                    }
                } else {
                    assert(self.bits@[i / 8] == old_bits[i / 8]);
                }
            }
            assert(self@ =~= old(self)@.update(index as int, value));
            assert(self.bits@ =~= set_bytes(old_bits, index as int, value));
        }
    }

    /// Whether piece `index` is present; an index past the end reads as absent.
    /// Piece `i` is bit `i % 8` of byte `i / 8`, most significant bit first.
    pub fn get(&self, index: usize) -> (r: bool)
        ensures
            r == self.has(index as int),
            r == (index < self@.len() && byte_bit(self.spec_bytes()[index as int / 8], index as int % 8)),
    {
        proof {
            use_type_invariant(self);
        }
        if index >= self.num_pieces {
            return false;
        }
        let byte_idx = index / 8;
        let bit_idx: u8 = (7 - index % 8) as u8;
        (self.bits[byte_idx] >> bit_idx) & 1 == 1
    }

    /// Number of pieces tracked.
    pub fn len(&self) -> (r: usize)
        ensures
            r == self@.len(),
    {
        self.num_pieces
    }

    /// Number of pieces marked present.
    pub fn count_set(&self) -> (r: usize)
        ensures
            r == count_true(self@),
    {
        let mut count: usize = 0;
        let mut i: usize = 0;
        while i < self.num_pieces
            invariant
                i <= self.num_pieces,
                self.num_pieces == self@.len(),
                count == count_true(self@.take(i as int)),
                count <= i,
            decreases self.num_pieces - i,
        {
            let g = self.get(i);
            proof {
                assert(self@.take(i + 1).drop_last() =~= self@.take(i as int));
            }
            if g {
                count = count + 1;
            }
            i = i + 1;
        }
        proof {
            assert(self@.take(i as int) =~= self@);
        }
        count
    }

    /// True when every piece is marked present.
    pub fn is_complete(&self) -> (r: bool)
        ensures
            r == (forall|i: int| 0 <= i < self@.len() ==> self@[i]),
    {
        proof {
            lemma_count_true_bounds(self@);
        }
        self.count_set() == self.num_pieces
    }

    /// The bytes that carry the bits, as sent on the wire.
    pub fn as_bytes(&self) -> (r: Vec<u8>)
        ensures
            r@ == self.spec_bytes(),
            r@.len() == bytes_for(self@.len() as int),
    {
        proof {
            use_type_invariant(self);
        }
        self.bits.clone()
    }

    /// Reads a bitfield of `num_pieces` pieces from `bytes`: the bytes that fit
    /// are copied, missing bytes read as zero and extra bytes are ignored.
    pub fn from_bytes(bytes: &[u8], num_pieces: usize) -> (bf: Self)
        ensures
            bf@.len() == num_pieces,
            bf.spec_bytes().len() == bytes_for(num_pieces as int),
            forall|i: int|
                0 <= i < bf.spec_bytes().len() ==> bf.spec_bytes()[i] == if i < bytes@.len() {
                    bytes@[i]
                } else {
                    0u8
                },
            bf@ == bits_of(bf.spec_bytes(), num_pieces as nat),
    {
        let num_bytes = num_pieces / 8 + if num_pieces % 8 == 0 { 0 } else { 1 };
        let mut bits: Vec<u8> = Vec::new();
        let mut i: usize = 0;
        while i < num_bytes
            invariant
                i <= num_bytes,
                bits@.len() == i,
                forall|j: int|
                    0 <= j < i ==> bits@[j] == if j < bytes@.len() {
                        bytes@[j]
                    } else {
                        0u8
                    },
            decreases num_bytes - i,
        {
            if i < bytes.len() {
                bits.push(bytes[i]);
            } else {
                bits.push(0u8);
            }
            i = i + 1;
        }
        Bitfield { bits, num_pieces }
    }
}

/// The pieces of a bitfield are the bits of its wire bytes, most significant
/// bit first: piece `i` is bit `i % 8` of byte `i / 8`.
pub proof fn lemma_view_is_bytes(bf: Bitfield)
    ensures
        bf@ == bits_of(bf.spec_bytes(), bf@.len()),
{
    assert(bf@ =~= bits_of(bf.spec_bytes(), bf@.len()));
}

/// Setting a piece that was absent and clearing it again gives back the same
/// bytes, hence the same bitfield.
pub proof fn law_set_then_clear(before: Bitfield, mid: Bitfield, after: Bitfield, index: int)
    requires
        before.wf(),
        0 <= index < before@.len(),
        !before@[index],
        mid@ == before@.update(index, true),
        mid.spec_bytes() == set_bytes(before.spec_bytes(), index, true),
        after@ == mid@.update(index, false),
        after.spec_bytes() == set_bytes(mid.spec_bytes(), index, false),
    ensures
        after.spec_bytes() == before.spec_bytes(),
        after@ == before@,
{
    let b = before.spec_bytes()[index / 8];
    let k = (7 - index % 8) as u8;
    assert(before@[index] == byte_bit(b, index % 8));
    assert(index / 8 < before.spec_bytes().len());
    assert((b >> k) & 1u8 != 1u8 && k < 8 ==> (b | (1u8 << k)) & !(1u8 << k) == b) by (bit_vector);
    assert(mid.spec_bytes()[index / 8] == b | (1u8 << k));
    assert(after.spec_bytes()[index / 8] == (b | (1u8 << k)) & !(1u8 << k));
    assert(after.spec_bytes() =~= before.spec_bytes());
    assert(after@ =~= before@);
}

/// Reading back what a set wrote: after `set(i, v)` on a tracked piece, `get(i)` is `v`,
/// and every other piece reads as before.
pub proof fn law_set_then_get(before: Bitfield, after: Bitfield, index: int, value: bool)
    requires
        0 <= index < before@.len(),
        after@ == before@.update(index, value),
    ensures
        after.has(index) == value,
        forall|j: int| j != index ==> after.has(j) == before.has(j),
{
}

/// Round trip of the wire form: a bitfield read back from its own bytes with its
/// own length has the same pieces and the same bytes.
pub proof fn law_bytes_round_trip(bf: Bitfield, back: Bitfield)
    requires
        bf.wf(),
        back@.len() == bf@.len(),
        back.spec_bytes().len() == bytes_for(bf@.len() as int),
        forall|i: int|
            0 <= i < back.spec_bytes().len() ==> back.spec_bytes()[i] == if i
                < bf.spec_bytes().len() {
                bf.spec_bytes()[i]
            } else {
                0u8
            },
        back@ == bits_of(back.spec_bytes(), bf@.len()),
    ensures
        back.spec_bytes() == bf.spec_bytes(),
        back@ == bf@,
{
    assert(back.spec_bytes() =~= bf.spec_bytes());
}

} // verus!
