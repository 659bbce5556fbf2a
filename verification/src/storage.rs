//! The order in which downloaded data reaches the disk: each task's data is
//! written in file order, and what arrives ahead of its turn waits.
use vstd::prelude::*;
use std::collections::BTreeMap;
use crate::protocol::copy_from;
use vstd::std_specs::iter::IteratorSpec;
use vstd::std_specs::cmp::OrdSpec;

verus! {

broadcast use vstd::std_specs::btree::group_btree_axioms, vstd::laws_cmp::group_laws_cmp;

/// The data of a list of writes.
pub open spec fn write_views(s: Seq<(u64, Vec<u8>)>) -> Seq<(u64, Seq<u8>)> {
    s.map_values(|w: (u64, Vec<u8>)| (w.0, w.1@))
}

/// The writes that follow from offset `cur` in an unbroken chain of waiting
/// writes, each starting where the previous one ends, in order.
pub open spec fn chain(m: Map<u64, Vec<u8>>, cur: int, fuel: nat) -> Seq<(u64, Seq<u8>)>
    decreases fuel,
{
    if fuel == 0 || !(0 <= cur <= u64::MAX) || !m.contains_key(cur as u64) {
        Seq::empty()
    } else {
        seq![(cur as u64, m[cur as u64]@)] + chain(
            m.remove(cur as u64),
            cur + m[cur as u64]@.len(),
            (fuel - 1) as nat,
        )
    }
}

/// Where the chain of waiting writes from `cur` ends.
pub open spec fn chain_end(m: Map<u64, Vec<u8>>, cur: int, fuel: nat) -> int
    decreases fuel,
{
    if fuel == 0 || !(0 <= cur <= u64::MAX) || !m.contains_key(cur as u64) {
        cur
    } else {
        chain_end(m.remove(cur as u64), cur + m[cur as u64]@.len(), (fuel - 1) as nat)
    }
}

/// The waiting writes left once the chain from `cur` is taken.
pub open spec fn chain_rest(m: Map<u64, Vec<u8>>, cur: int, fuel: nat) -> Map<u64, Vec<u8>>
    decreases fuel,
{
    if fuel == 0 || !(0 <= cur <= u64::MAX) || !m.contains_key(cur as u64) {
        m
    } else {
        chain_rest(m.remove(cur as u64), cur + m[cur as u64]@.len(), (fuel - 1) as nat)
    }
}

/// Whether every waiting write ends within the `u64` offsets.
pub open spec fn ends_fit(m: Map<u64, Vec<u8>>) -> bool {
    forall|k: u64| #[trigger] m.contains_key(k) ==> k + m[k]@.len() <= u64::MAX
}

/// The writes that a chain of waiting writes releases go to the disk in file
/// order with no gap: the first starts at `cur`, each next one where the
/// previous one ends, and the written offset then stands at the end of the
/// last.
pub proof fn law_chain_in_order(m: Map<u64, Vec<u8>>, cur: int, fuel: nat)
    requires
        0 <= cur,
    ensures
        chain(m, cur, fuel).len() > 0 ==> chain(m, cur, fuel)[0].0 == cur,
        forall|i: int|
            0 <= i < chain(m, cur, fuel).len() - 1 ==> chain(m, cur, fuel)[i + 1].0 == chain(m, cur, fuel)[i].0
                + chain(m, cur, fuel)[i].1.len(),
        chain(m, cur, fuel).len() == 0 ==> chain_end(m, cur, fuel) == cur,
        chain(m, cur, fuel).len() > 0 ==> chain_end(m, cur, fuel) == chain(m, cur, fuel).last().0
            + chain(m, cur, fuel).last().1.len(),
    decreases fuel,
{
    if !(fuel == 0 || !(0 <= cur <= u64::MAX) || !m.contains_key(cur as u64)) {
        let d = m[cur as u64]@;
        let next = cur + d.len();
        law_chain_in_order(m.remove(cur as u64), next, (fuel - 1) as nat);
        let rest = chain(m.remove(cur as u64), next, (fuel - 1) as nat);
        let c = chain(m, cur, fuel);
        assert(c == seq![(cur as u64, d)] + rest);
        assert forall|i: int| 0 <= i < c.len() - 1 implies c[i + 1].0 == c[i].0 + c[i].1.len() by {
            if i > 0 {
                assert(c[i] == rest[i - 1]);
                assert(c[i + 1] == rest[i]);
            }
        }
    }
}

/// Keys that a map hands out in increasing order increase.
proof fn lemma_increasing_keys(keys: Seq<u64>)
    requires
        vstd::std_specs::btree::increasing_seq(keys),
    ensures
        forall|i: int, j: int| 0 <= i < j < keys.len() ==> keys[i] < keys[j],
{
    vstd::std_specs::btree::axiom_increasing_seq_meaning(keys);
    assert forall|i: int, j: int| 0 <= i < j < keys.len() implies keys[i] < keys[j] by {
        assert(keys[i].cmp_spec(&keys[j]) is Less);
    }
}

/// The writes of one task that wait for the bytes before them.
#[derive(Debug)]
pub struct WriteQueue {
    /// The offset up to which the file is written.
    pub next_offset: u64,
    /// Writes that came ahead of their turn, by offset.
    pub pending: BTreeMap<u64, Vec<u8>>,
    /// Whether writes ahead of their turn are kept (the task is registered
    /// and not yet flushed) or dropped.
    pub buffering: bool,
}

impl WriteQueue {
    /// The queue of a registered task: nothing written, nothing waiting.
    pub fn new() -> (q: Self)
        ensures
            q.next_offset == 0,
            q.pending@ == Map::<u64, Vec<u8>>::empty(),
            q.buffering,
    {
        WriteQueue { next_offset: 0, pending: BTreeMap::new(), buffering: true }
    }

    /// The queue of a task that was never registered: writes ahead of their
    /// turn are dropped.
    pub fn unregistered() -> (q: Self)
        ensures
            q.next_offset == 0,
            q.pending@ == Map::<u64, Vec<u8>>::empty(),
            !q.buffering,
    {
        WriteQueue { next_offset: 0, pending: BTreeMap::new(), buffering: false }
    }

    /// Takes in the data of a segment (`length` bytes at `offset`) and
    /// returns the writes to make now, in order: when the segment is the next
    /// one, it and the waiting writes that follow it without a gap; else
    /// nothing, the data waiting for its turn (or dropped, when the queue does
    /// not buffer).
    pub fn write(&mut self, offset: u64, length: u64, data: Vec<u8>) -> (r: Vec<(u64, Vec<u8>)>)
        requires
            ends_fit(old(self).pending@),
            offset == old(self).next_offset ==> offset + length <= u64::MAX,
            offset != old(self).next_offset ==> offset + data@.len() <= u64::MAX,
        ensures
            ends_fit(final(self).pending@),
            final(self).buffering == old(self).buffering,
            offset == old(self).next_offset ==> {
                let m = old(self).pending@;
                let start = offset + length;
                let fuel = m.dom().len();
                &&& write_views(r@) == seq![(offset, data@)] + chain(m, start, fuel)
                &&& final(self).next_offset == chain_end(m, start, fuel)
                &&& final(self).pending@ == chain_rest(m, start, fuel)
            },
            offset != old(self).next_offset ==> {
                &&& r@.len() == 0
                &&& final(self).next_offset == old(self).next_offset
                &&& final(self).pending@ == if old(self).buffering {
                    old(self).pending@.insert(offset, data)
                } else {
                    old(self).pending@
                }
            },
    {
        let mut out: Vec<(u64, Vec<u8>)> = Vec::new();
        if offset != self.next_offset {
            if self.buffering {
                self.pending.insert(offset, data);
            }
            return out;
        }
        let ghost m0 = self.pending@;
        let ghost fuel0 = m0.dom().len();
        let ghost dv = data@;
        out.push((offset, data));
        let mut cur: u64 = offset + length;
        let ghost start = cur as int;
        let mut done = false;
        assert(write_views(out@) =~= seq![(offset, dv)]);
        while !done
            invariant
                ends_fit(self.pending@),
                self.pending@.dom().finite(),
                self.buffering == old(self).buffering,
                !done ==> write_views(out@) + chain(self.pending@, cur as int, self.pending@.dom().len())
                    == seq![(offset, dv)] + chain(m0, start, fuel0),
                !done ==> chain_end(self.pending@, cur as int, self.pending@.dom().len()) == chain_end(
                    m0,
                    start,
                    fuel0,
                ),
                !done ==> chain_rest(self.pending@, cur as int, self.pending@.dom().len()) == chain_rest(
                    m0,
                    start,
                    fuel0,
                ),
                done ==> write_views(out@) == seq![(offset, dv)] + chain(m0, start, fuel0),
                done ==> cur == chain_end(m0, start, fuel0),
                done ==> self.pending@ == chain_rest(m0, start, fuel0),
            decreases self.pending@.dom().len() + if done { 0int } else { 1int },
        {
            let ghost mb = self.pending@;
            let ghost before = write_views(out@);
            match self.pending.remove(&cur) {
                Some(d) => {
                    proof {
                        assert(mb.contains_key(cur));
                        assert(mb.dom().len() > 0);
                        assert(mb.remove(cur).dom() =~= mb.dom().remove(cur));
                    }
                    let len = d.len() as u64;
                    let ghost ddv = d@;
                    out.push((cur, d));
                    proof {
                        assert(write_views(out@) =~= before.push((cur, ddv)));
                        assert(before.push((cur, ddv)) + chain(mb.remove(cur), cur + ddv.len(), (
                        mb.dom().len() - 1) as nat) =~= before + (seq![(cur, ddv)] + chain(
                            mb.remove(cur),
                            cur + ddv.len(),
                            (mb.dom().len() - 1) as nat,
                        )));
                    }
                    cur = cur + len;
                },
                None => {
                    done = true;
                    proof {
                        assert(!mb.contains_key(cur));
                        assert(write_views(out@) =~= write_views(out@) + Seq::<(u64, Seq<u8>)>::empty());
                    }
                },
            }
        }
        self.next_offset = cur;
        out
    }

    /// Takes every waiting write, by increasing offset, and stops buffering
    /// (the task's writes are being completed).
    pub fn flush_all(&mut self) -> (r: Vec<(u64, Vec<u8>)>)
        ensures
            final(self).pending@ == Map::<u64, Vec<u8>>::empty(),
            !final(self).buffering,
            final(self).next_offset == old(self).next_offset,
            r@.len() == old(self).pending@.dom().len(),
            forall|i: int, j: int| 0 <= i < j < r@.len() ==> r@[i].0 < r@[j].0,
            forall|i: int|
                0 <= i < r@.len() ==> old(self).pending@.contains_key(#[trigger] r@[i].0)
                    && old(self).pending@[r@[i].0]@ == r@[i].1@,
            forall|k: u64| #[trigger] old(self).pending@.contains_key(k) ==> exists|i: int|
                0 <= i < r@.len() && r@[i].0 == k,
    {
        let mut m: BTreeMap<u64, Vec<u8>> = BTreeMap::new();
        std::mem::swap(&mut m, &mut self.pending);
        self.buffering = false;
        let mut out: Vec<(u64, Vec<u8>)> = Vec::new();
        let iter = m.iter();
        let ghost s = iter.remaining();
        let ghost keys = s.map_values(|kv: (&u64, &Vec<u8>)| *kv.0);
        assert(vstd::std_specs::btree::increasing_seq(keys));
        for (k, v) in it: iter
            invariant
                it.seq() == s,
                out@.len() == it.index(),
                forall|i: int|
                    0 <= i < it.index() ==> out@[i].0 == *it.seq()[i].0 && out@[i].1@ == (
                    *it.seq()[i].1)@,
        {
            out.push((*k, copy_from(v.as_slice(), 0)));
            proof {
                let i = out@.len() - 1;
                assert(v@.subrange(0, v@.len() as int) =~= v@);
            }
        }
        proof {
            lemma_increasing_keys(keys);
            assert forall|i: int, j: int| 0 <= i < j < out@.len() implies out@[i].0 < out@[j].0 by {
                assert(keys[i] == *s[i].0);
                assert(keys[j] == *s[j].0);
            }
            assert forall|k: u64| #[trigger] m@.contains_key(k) implies exists|i: int|
                0 <= i < out@.len() && out@[i].0 == k by {
                assert(s.contains((&k, &m@[k])));
                let i = choose|i: int| 0 <= i < s.len() && s[i] == (&k, &m@[k]);
                assert(out@[i].0 == k);
            }
        }
        out
    }
}

} // verus!
