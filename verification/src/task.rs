//! Download tasks: a logical file, the sources that feed it, and the byte
//! ranges handed out to them.
use vstd::prelude::*;
use vstd::arithmetic::div_mod::lemma_fundamental_div_mod;
use crate::TaskId;
use crate::bitfield::Bitfield;

verus! {

/// A random 64-bit value (`rand::random` of the `rand` crate). Nothing is
/// stated of which value comes back.
#[verifier::external_body]
fn random_u64() -> u64 {
    rand::random::<u64>()
}

/// Lifecycle phase of a task or of one of its sources.
#[derive(Debug, Clone, Copy, PartialEq, Eq, Structural)]
pub enum DownloadPhase {
    MetadataExchange,
    Downloading,
    Paused,
    Complete,
    Error,
}

/// Protocol of a source.
#[derive(Debug, Clone, Copy, PartialEq, Eq, Structural)]
pub enum TaskType {
    Http,
    BitTorrent,
    Ftp,
}

/// The byte range `[start, end)`.
#[derive(Debug, Clone, Copy, PartialEq, Eq, Structural)]
pub struct Range {
    pub start: u64,
    pub end: u64,
}

/// Length of a range; a reversed range is empty.
pub open spec fn range_len(r: Range) -> nat {
    if r.end >= r.start {
        (r.end - r.start) as nat
    } else {
        0
    }
}

impl Range {
    pub fn length(&self) -> (r: u64)
        ensures
            r == range_len(*self),
    {
        self.end.saturating_sub(self.start)
    }
}

/// One source of a task, served by one protocol worker.
#[derive(Debug)]
pub struct SubTask {
    pub id: TaskId,
    pub task_type: TaskType,
    pub uri: String,
    pub assigned_ranges: Vec<Range>,
    pub total_length: u64,
    pub completed_length: u64,
    pub active: bool,
    pub phase: DownloadPhase,
}

/// A source with its text and range list seen as sequences.
pub struct SubTaskView {
    pub id: TaskId,
    pub task_type: TaskType,
    pub uri: Seq<char>,
    pub assigned_ranges: Seq<Range>,
    pub total_length: u64,
    pub completed_length: u64,
    pub active: bool,
    pub phase: DownloadPhase,
}

impl View for SubTask {
    type V = SubTaskView;

    open spec fn view(&self) -> SubTaskView {
        SubTaskView {
            id: self.id,
            task_type: self.task_type,
            uri: self.uri@,
            assigned_ranges: self.assigned_ranges@,
            total_length: self.total_length,
            completed_length: self.completed_length,
            active: self.active,
            phase: self.phase,
        }
    }
}

fn copy_ranges(v: &Vec<Range>) -> (r: Vec<Range>)
    ensures
        r@ == v@,
{
    let mut r: Vec<Range> = Vec::new();
    let mut i: usize = 0;
    while i < v.len()
        invariant
            i <= v@.len(),
            r@ == v@.subrange(0, i as int),
        decreases v@.len() - i,
    {
        r.push(v[i]);
        i = i + 1;
        assert(r@ =~= v@.subrange(0, i as int));
    }
    assert(v@.subrange(0, i as int) =~= v@);
    r
}

impl Clone for SubTask {
    fn clone(&self) -> (r: Self)
        ensures
            r@ == self@,
    {
        SubTask {
            id: self.id,
            task_type: self.task_type,
            uri: self.uri.clone(),
            assigned_ranges: copy_ranges(&self.assigned_ranges),
            total_length: self.total_length,
            completed_length: self.completed_length,
            active: self.active,
            phase: self.phase,
        }
    }
}

/// The views of a list of sources.
pub open spec fn views(s: Seq<SubTask>) -> Seq<SubTaskView> {
    s.map_values(|t: SubTask| t@)
}

fn copy_subtasks(v: &Vec<SubTask>) -> (r: Vec<SubTask>)
    ensures
        r@.len() == v@.len(),
        forall|k: int| 0 <= k < v@.len() ==> (#[trigger] r@[k])@ == v@[k]@,
{
    let mut r: Vec<SubTask> = Vec::new();
    let mut i: usize = 0;
    while i < v.len()
        invariant
            i <= v@.len(),
            r@.len() == i,
            forall|k: int| 0 <= k < i ==> (#[trigger] r@[k])@ == v@[k]@,
        decreases v@.len() - i,
    {
        r.push(v[i].clone());
        i = i + 1;
    }
    r
}

/// A logical download, fed by one or more sources.
#[derive(Debug)]
pub struct MetaTask {
    pub id: TaskId,
    pub name: String,
    pub total_length: u64,
    pub completed_length: u64,
    pub phase: DownloadPhase,
    pub subtasks: Vec<SubTask>,
    /// Ranges still to be fetched; the next one handed out is the last.
    pub pending_ranges: Vec<Range>,
    /// Ranges handed out, with the source that holds each.
    pub in_flight_ranges: Vec<(TaskId, Range)>,
}

/// The persistent form of a task.
#[derive(Debug)]
pub struct TaskState {
    pub id: TaskId,
    pub name: String,
    pub phase: DownloadPhase,
    pub total_length: u64,
    pub completed_length: u64,
    pub subtasks: Vec<SubTask>,
    pub pending_ranges: Vec<Range>,
    pub bitfield: Option<Bitfield>,
}

/// Position of the first source with identifier `id`, or -1.
pub open spec fn first_with_id(s: Seq<SubTask>, id: TaskId) -> int
    decreases s.len(),
{
    if s.len() == 0 {
        -1
    } else if s[0].id == id {
        0
    } else {
        let r = first_with_id(s.subrange(1, s.len() as int), id);
        if r < 0 {
            -1
        } else {
            r + 1
        }
    }
}

pub(crate) proof fn lemma_first_with_id(s: Seq<SubTask>, id: TaskId)
    ensures
        -1 <= first_with_id(s, id) < s.len(),
        first_with_id(s, id) >= 0 ==> s[first_with_id(s, id)].id == id,
        first_with_id(s, id) >= 0 ==> forall|k: int| 0 <= k < first_with_id(s, id) ==> s[k].id != id,
        first_with_id(s, id) < 0 ==> forall|k: int| 0 <= k < s.len() ==> s[k].id != id,
    decreases s.len(),
{
    if s.len() > 0 && s[0].id != id {
        let t = s.subrange(1, s.len() as int);
        lemma_first_with_id(t, id);
        assert forall|k: int| 1 <= k < s.len() implies s[k] == t[k - 1] by {}
    }
}

/// `s` with every occurrence of `r` left out.
pub open spec fn without_range(s: Seq<Range>, r: Range) -> Seq<Range>
    decreases s.len(),
{
    if s.len() == 0 {
        s
    } else if s.last() == r {
        without_range(s.drop_last(), r)
    } else {
        without_range(s.drop_last(), r).push(s.last())
    }
}

/// `s` with every entry for range `r` held by source `id` left out.
pub open spec fn without_entry(s: Seq<(TaskId, Range)>, id: TaskId, r: Range) -> Seq<(TaskId, Range)>
    decreases s.len(),
{
    if s.len() == 0 {
        s
    } else if s.last().0 == id && s.last().1 == r {
        without_entry(s.drop_last(), id, r)
    } else {
        without_entry(s.drop_last(), id, r).push(s.last())
    }
}

/// Ceiling of `a / b`.
pub open spec fn ceil_div(a: int, b: int) -> int {
    a / b + if a % b == 0 { 0int } else { 1int }
}

/// The `k`-th range when `total` bytes are cut into pieces of `g` bytes.
pub open spec fn chunk(total: int, g: int, k: int) -> Range {
    Range {
        start: (k * g) as u64,
        end: if (k + 1) * g < total { ((k + 1) * g) as u64 } else { total as u64 },
    }
}

/// The `k`-th cut of a file of `t` bytes in pieces of `g` starts inside the file.
pub open spec fn in_file(r: Range, k: int, g: int, t: int) -> bool {
    k * g < t
}

/// Number of ranges that `generate_ranges` asks for at least.
pub open spec fn range_count(num_ranges: int) -> int {
    if num_ranges > 32 { num_ranges } else { 32 }
}

/// `pending` holds, last first, the cut of `t` bytes into pieces of
/// `ceil_div(t, range_count(n))` bytes: consecutive, non-empty ranges that
/// start at 0 and end at `t`.
pub open spec fn segmented(pending: Seq<Range>, t: int, n: int) -> bool {
    let g = ceil_div(t, range_count(n));
    let r = pending.reverse();
    &&& 1 <= r.len() <= range_count(n)
    &&& forall|k: int| 0 <= k < r.len() ==> r[k] == chunk(t, g, k)
    &&& r[0].start == 0
    &&& r[r.len() - 1].end == t
    &&& forall|k: int| 0 <= k < r.len() ==> r[k].start < r[k].end
    &&& forall|k: int| 0 <= k < r.len() - 1 ==> r[k].end == r[k + 1].start
}

/// A task seen through the views of its parts.
pub struct TaskView {
    pub id: TaskId,
    pub name: Seq<char>,
    pub phase: DownloadPhase,
    pub total_length: u64,
    pub completed_length: u64,
    pub subtasks: Seq<SubTaskView>,
    pub pending_ranges: Seq<Range>,
    pub in_flight_ranges: Seq<(TaskId, Range)>,
}

/// The view of a task.
pub open spec fn task_view(t: MetaTask) -> TaskView {
    TaskView {
        id: t.id,
        name: t.name@,
        phase: t.phase,
        total_length: t.total_length,
        completed_length: t.completed_length,
        subtasks: views(t.subtasks@),
        pending_ranges: t.pending_ranges@,
        in_flight_ranges: t.in_flight_ranges@,
    }
}

/// The ranges of a list of in-flight entries.
pub open spec fn entry_ranges(s: Seq<(TaskId, Range)>) -> Seq<Range> {
    s.map_values(|e: (TaskId, Range)| e.1)
}

/// What a task is saved as: its ranges in flight go back to the pending
/// ones, after them, so that no unfinished range is lost.
pub open spec fn saved_view(t: MetaTask) -> TaskView {
    TaskView {
        pending_ranges: t.pending_ranges@ + entry_ranges(t.in_flight_ranges@),
        in_flight_ranges: Seq::empty(),
        ..task_view(t)
    }
}

/// The task that a saved state describes: nothing is in flight.
pub open spec fn state_view(st: TaskState) -> TaskView {
    TaskView {
        id: st.id,
        name: st.name@,
        phase: st.phase,
        total_length: st.total_length,
        completed_length: st.completed_length,
        subtasks: views(st.subtasks@),
        pending_ranges: st.pending_ranges@,
        in_flight_ranges: Seq::empty(),
    }
}

/// Saving a task and restoring what was saved gives the task back with every
/// unfinished range: the ranges that were in flight are pending again, after
/// the ones that were pending, and a task with nothing in flight (a paused
/// one, say) comes back exactly as it was.
pub proof fn law_restore_after_save(t: MetaTask, saved: TaskState, back: MetaTask)
    requires
        state_view(saved) == saved_view(t),
        task_view(back) == state_view(saved),
    ensures
        back.pending_ranges@ == t.pending_ranges@ + entry_ranges(t.in_flight_ranges@),
        back.in_flight_ranges@.len() == 0,
        (back.pending_ranges@ + entry_ranges(back.in_flight_ranges@)).to_multiset()
            == (t.pending_ranges@ + entry_ranges(t.in_flight_ranges@)).to_multiset(),
        task_view(back) == (TaskView {
            pending_ranges: task_view(back).pending_ranges,
            in_flight_ranges: task_view(back).in_flight_ranges,
            ..task_view(t)
        }),
        t.in_flight_ranges@.len() == 0 ==> task_view(back) == task_view(t),
{
    assert(entry_ranges(back.in_flight_ranges@) =~= Seq::<Range>::empty());
    assert(back.pending_ranges@ + entry_ranges(back.in_flight_ranges@) =~= back.pending_ranges@);
    if t.in_flight_ranges@.len() == 0 {
        assert(t.in_flight_ranges@ =~= Seq::<(TaskId, Range)>::empty());
        assert(entry_ranges(t.in_flight_ranges@) =~= Seq::<Range>::empty());
        assert(t.pending_ranges@ + entry_ranges(t.in_flight_ranges@) =~= t.pending_ranges@);
    }
}

impl MetaTask {
    /// The persistent form of the task, with the given bitfield; the ranges
    /// in flight are saved as pending, after the pending ones.
    pub fn to_state(&self, bitfield: Option<Bitfield>) -> (st: TaskState)
        ensures
            st.id == self.id,
            st.name@ == self.name@,
            st.phase == self.phase,
            st.total_length == self.total_length,
            st.completed_length == self.completed_length,
            st.subtasks@.len() == self.subtasks@.len(),
            forall|k: int| 0 <= k < self.subtasks@.len() ==> (#[trigger] st.subtasks@[k])@ == self.subtasks@[k]@,
            st.pending_ranges@ == self.pending_ranges@ + entry_ranges(self.in_flight_ranges@),
            st.bitfield == bitfield,
            state_view(st) == saved_view(*self),
    {
        let mut pending = copy_ranges(&self.pending_ranges);
        let mut i: usize = 0;
        while i < self.in_flight_ranges.len()
            invariant
                i <= self.in_flight_ranges@.len(),
                pending@ == self.pending_ranges@ + entry_ranges(
                    self.in_flight_ranges@.take(i as int),
                ),
            decreases self.in_flight_ranges@.len() - i,
        {
            pending.push(self.in_flight_ranges[i].1);
            proof {
                assert(self.in_flight_ranges@.take(i + 1) =~= self.in_flight_ranges@.take(
                    i as int,
                ).push(self.in_flight_ranges@[i as int]));
            }
            i = i + 1;
            assert(pending@ =~= self.pending_ranges@ + entry_ranges(
                self.in_flight_ranges@.take(i as int),
            ));
        }
        assert(self.in_flight_ranges@.take(i as int) =~= self.in_flight_ranges@);
        let st = TaskState {
            id: self.id,
            name: self.name.clone(),
            phase: self.phase,
            total_length: self.total_length,
            completed_length: self.completed_length,
            subtasks: copy_subtasks(&self.subtasks),
            pending_ranges: pending,
            bitfield,
        };
        assert(views(st.subtasks@) =~= views(self.subtasks@));
        st
    }

    /// Restores a task from its persistent form; nothing is in flight.
    pub fn from_state(state: TaskState) -> (t: Self)
        ensures
            t.id == state.id,
            t.name == state.name,
            t.phase == state.phase,
            t.total_length == state.total_length,
            t.completed_length == state.completed_length,
            t.subtasks == state.subtasks,
            t.pending_ranges == state.pending_ranges,
            t.in_flight_ranges@.len() == 0,
            task_view(t) == state_view(state),
    {
        let t = MetaTask {
            id: state.id,
            name: state.name,
            phase: state.phase,
            total_length: state.total_length,
            completed_length: state.completed_length,
            subtasks: state.subtasks,
            pending_ranges: state.pending_ranges,
            in_flight_ranges: Vec::new(),
        };
        assert(t.in_flight_ranges@ =~= Seq::<(TaskId, Range)>::empty());
        t
    }

    /// A new task in the downloading phase, with no sources and no ranges.
    pub fn new(id: TaskId, name: String, total_length: u64) -> (t: Self)
        ensures
            t.id == id,
            t.name == name,
            t.total_length == total_length,
            t.completed_length == 0,
            t.phase == DownloadPhase::Downloading,
            t.subtasks@.len() == 0,
            t.pending_ranges@.len() == 0,
            t.in_flight_ranges@.len() == 0,
    {
        MetaTask {
            id,
            name,
            total_length,
            completed_length: 0,
            phase: DownloadPhase::Downloading,
            subtasks: Vec::new(),
            pending_ranges: Vec::new(),
            in_flight_ranges: Vec::new(),
        }
    }

    /// Cuts the file into at least 32 ranges of equal size (the last may be
    /// shorter) and makes them the pending ranges, to be handed out from the
    /// start of the file. A task of unknown length (0) is left as it is.
    pub fn generate_ranges(&mut self, num_ranges: usize)
        requires
            old(self).total_length > 0 ==> range_count(num_ranges as int) * ceil_div(
                old(self).total_length as int,
                range_count(num_ranges as int),
            ) <= u64::MAX,
        ensures
            old(self).total_length == 0 ==> *final(self) == *old(self),
            final(self).id == old(self).id,
            final(self).name == old(self).name,
            final(self).total_length == old(self).total_length,
            final(self).completed_length == old(self).completed_length,
            final(self).phase == old(self).phase,
            final(self).subtasks == old(self).subtasks,
            final(self).in_flight_ranges == old(self).in_flight_ranges,
            old(self).total_length > 0 ==> segmented(
                final(self).pending_ranges@,
                old(self).total_length as int,
                num_ranges as int,
            ),
    {
        if self.total_length == 0 {
            return ;
        }
        let total = self.total_length;
        let actual: usize = if num_ranges > 32 { num_ranges } else { 32 };
        let a = actual as u64;
        proof {
            assert(total / a < u64::MAX) by (nonlinear_arith)
                requires
                    a >= 32,
            ;
        }
        let g: u64 = total / a + if total % a == 0 { 0 } else { 1 };
        let ghost ti = total as int;
        let ghost ai = a as int;
        let ghost gi = g as int;
        proof {
            lemma_fundamental_div_mod(ti, ai);
            assert(ai * gi >= ti) by (nonlinear_arith)
                requires
                    ti == ai * (ti / ai) + ti % ai,
                    0 <= ti % ai < ai,
                    gi == ti / ai + if ti % ai == 0 { 0int } else { 1int },
            ;
            assert(gi >= 1) by (nonlinear_arith)
                requires
                    ti == ai * (ti / ai) + ti % ai,
                    0 <= ti % ai < ai,
                    ti > 0,
                    gi == ti / ai + if ti % ai == 0 { 0int } else { 1int },
            ;
        }
        let mut chunks: Vec<Range> = Vec::new();
        let mut i: usize = 0;
        while i < actual
            invariant
                actual as int == ai,
                a as int == ai,
                ai >= 32,
                g as int == gi,
                gi >= 1,
                total as int == ti,
                ti > 0,
                ai * gi >= ti,
                ai * gi <= u64::MAX,
                i <= actual,
                chunks@.len() <= i,
                forall|k: int| 0 <= k < chunks@.len() ==> #[trigger] chunks@[k] == chunk(ti, gi, k),
                forall|k: int| 0 <= k < chunks@.len() ==> in_file(#[trigger] chunks@[k], k, gi, ti),
                chunks@.len() < i ==> chunks@.len() * gi >= ti,
            decreases actual - i,
        {
            let ghost ii = i as int;
            proof {
                assert((ii + 1) * gi <= ai * gi) by (nonlinear_arith)
                    requires
                        ii < ai,
                        gi >= 1,
                ;
                assert(ii * gi + gi == (ii + 1) * gi) by (nonlinear_arith);
            }
            let start = i as u64 * g;
            let end = if start + g < total { start + g } else { total };
            if start < end {
                proof {
                    if chunks@.len() < i {
                        let c = chunks@.len() as int;
                        assert(c * gi <= ii * gi) by (nonlinear_arith)
                            requires
                                c <= ii,
                                gi >= 1,
                        ;
                    }
                    assert(chunks@.len() == ii);
                    assert(start as int == ii * gi);
                    assert(Range { start, end } == chunk(ti, gi, ii));
                }
                let ghost before = chunks@;
                chunks.push(Range { start, end });
                proof {
                    assert forall|k: int| 0 <= k < chunks@.len() implies #[trigger] chunks@[k]
                        == chunk(ti, gi, k) && in_file(chunks@[k], k, gi, ti) by {
                        if k < before.len() {
                            assert(chunks@[k] == before[k]);
                        }
                    }
                }
            }
            proof {
                if chunks@.len() < i + 1 && !(start < end) {
                    let c = chunks@.len() as int;
                    if c < ii {
                    } else {
                        assert(c == ii);
                    }
                }
            }
            i = i + 1;
        }
        proof {
            let c = chunks@.len() as int;
            if c < ai {
                assert(c * gi >= ti);
            } else {
                assert(c == ai);
            }
            assert(c >= 1) by {
                if c == 0 {
                    assert(c * gi == 0);
                }
            }
        }
        let mut pending: Vec<Range> = Vec::new();
        let mut j: usize = chunks.len();
        while j > 0
            invariant
                j <= chunks@.len(),
                pending@.len() == chunks@.len() - j,
                forall|k: int| 0 <= k < pending@.len() ==> pending@[k] == chunks@[chunks@.len() - 1 - k],
            decreases j,
        {
            j = j - 1;
            pending.push(chunks[j]);
        }
        self.pending_ranges = pending;
        proof {
            let r = self.pending_ranges@.reverse();
            assert(r =~= chunks@);
            let c = chunks@.len() as int;
            assert forall|k: int| 0 <= k < c - 1 implies r[k].end == r[k + 1].start by {
                assert(chunks@[k + 1] == chunk(ti, gi, k + 1));
                assert(in_file(chunks@[k + 1], k + 1, gi, ti));
                assert((k + 1) * gi < ti);
            }
            assert forall|k: int| 0 <= k < c implies r[k].start < r[k].end by {
                assert(chunks@[k] == chunk(ti, gi, k));
                assert(in_file(chunks@[k], k, gi, ti));
                assert(k * gi + gi == (k + 1) * gi) by (nonlinear_arith);
            }
            assert(r[c - 1].end == ti) by {
                assert((c - 1 + 1) * gi >= ti);
            }
        }
    }

    /// Position of the first source with identifier `id`.
    pub(crate) fn find_subtask(&self, id: TaskId) -> (r: Option<usize>)
        ensures
            r matches Some(k) ==> k as int == first_with_id(self.subtasks@, id) && k < self.subtasks@.len(),
            r is None ==> first_with_id(self.subtasks@, id) < 0,
    {
        proof {
            lemma_first_with_id(self.subtasks@, id);
        }
        let mut k: usize = 0;
        while k < self.subtasks.len()
            invariant
                k <= self.subtasks@.len(),
                forall|j: int| 0 <= j < k ==> self.subtasks@[j].id != id,
                -1 <= first_with_id(self.subtasks@, id) < self.subtasks@.len(),
                first_with_id(self.subtasks@, id) >= 0 ==> self.subtasks@[first_with_id(self.subtasks@, id)].id == id,
                first_with_id(self.subtasks@, id) >= 0 ==> forall|j: int| 0 <= j < first_with_id(self.subtasks@, id) ==> self.subtasks@[j].id != id,
                first_with_id(self.subtasks@, id) < 0 ==> forall|j: int| 0 <= j < self.subtasks@.len() ==> self.subtasks@[j].id != id,
            decreases self.subtasks@.len() - k,
        {
            if self.subtasks[k].id == id {
                return Some(k);
            }
            k = k + 1;
        }
        None
    }

    /// Hands the next pending range to source `sub_id`: it moves from the
    /// pending list to the in-flight list, and onto the source's own list when
    /// the source is known.
    pub fn pick_range_for_subtask(&mut self, sub_id: TaskId) -> (r: Option<Range>)
        ensures
            final(self).id == old(self).id,
            final(self).name == old(self).name,
            final(self).total_length == old(self).total_length,
            final(self).completed_length == old(self).completed_length,
            final(self).phase == old(self).phase,
            old(self).pending_ranges@.len() == 0 ==> r is None && final(self).pending_ranges@
                == old(self).pending_ranges@ && final(self).in_flight_ranges@
                == old(self).in_flight_ranges@ && final(self).subtasks@ == old(self).subtasks@,
            old(self).pending_ranges@.len() > 0 ==> ({
                let range = old(self).pending_ranges@.last();
                let f = first_with_id(old(self).subtasks@, sub_id);
                &&& r == Some(range)
                &&& final(self).pending_ranges@ == old(self).pending_ranges@.drop_last()
                &&& final(self).in_flight_ranges@ == old(self).in_flight_ranges@.push((sub_id, range))
                &&& final(self).subtasks@.len() == old(self).subtasks@.len()
                &&& forall|k: int|
                    0 <= k < old(self).subtasks@.len() && k != f ==> final(self).subtasks@[k]
                        == old(self).subtasks@[k]
                &&& f >= 0 ==> final(self).subtasks@[f]@ == (SubTaskView {
                    assigned_ranges: old(self).subtasks@[f].assigned_ranges@.push(range),
                    ..old(self).subtasks@[f]@
                })
            }),
    {
        proof {
            lemma_first_with_id(self.subtasks@, sub_id);
        }
        if let Some(range) = self.pending_ranges.pop() {
            self.in_flight_ranges.push((sub_id, range));
            if let Some(k) = self.find_subtask(sub_id) {
                self.subtasks[k].assigned_ranges.push(range);
            }
            return Some(range);
        }
        None
    }


    /// Records that source `sub_id` has fetched `range`: the range leaves the
    /// in-flight list and the source's list, and counts towards the source's
    /// completed bytes.
    pub fn mark_range_complete(&mut self, sub_id: TaskId, range: Range)
        requires
            first_with_id(old(self).subtasks@, sub_id) >= 0 ==> old(self).subtasks@[first_with_id(
                old(self).subtasks@,
                sub_id,
            )].completed_length + range_len(range) <= u64::MAX,
        ensures
            final(self).id == old(self).id,
            final(self).name == old(self).name,
            final(self).total_length == old(self).total_length,
            final(self).completed_length == old(self).completed_length,
            final(self).phase == old(self).phase,
            final(self).pending_ranges == old(self).pending_ranges,
            final(self).in_flight_ranges@ == without_entry(old(self).in_flight_ranges@, sub_id, range),
            final(self).subtasks@.len() == old(self).subtasks@.len(),
            ({
                let f = first_with_id(old(self).subtasks@, sub_id);
                &&& forall|k: int|
                    0 <= k < old(self).subtasks@.len() && k != f ==> final(self).subtasks@[k]
                        == old(self).subtasks@[k]
                &&& f >= 0 ==> final(self).subtasks@[f]@ == (SubTaskView {
                    assigned_ranges: without_range(old(self).subtasks@[f].assigned_ranges@, range),
                    completed_length: (old(self).subtasks@[f].completed_length + range_len(
                        range,
                    )) as u64,
                    ..old(self).subtasks@[f]@
                })
            }),
    {
        proof {
            lemma_first_with_id(self.subtasks@, sub_id);
        }
        let mut kept: Vec<(TaskId, Range)> = Vec::new();
        let mut i: usize = 0;
        while i < self.in_flight_ranges.len()
            invariant
                i <= self.in_flight_ranges@.len(),
                kept@ == without_entry(self.in_flight_ranges@.take(i as int), sub_id, range),
            decreases self.in_flight_ranges@.len() - i,
        {
            let (sid, r) = self.in_flight_ranges[i];
            proof {
                assert(self.in_flight_ranges@.take(i + 1).drop_last() =~= self.in_flight_ranges@.take(
                    i as int,
                ));
            }
            if sid != sub_id || r != range {
                kept.push((sid, r));
            }
            i = i + 1;
        }
        proof {
            assert(self.in_flight_ranges@.take(i as int) =~= self.in_flight_ranges@);
        }
        self.in_flight_ranges = kept;
        if let Some(k) = self.find_subtask(sub_id) {
            let mut rest: Vec<Range> = Vec::new();
            let mut j: usize = 0;
            while j < self.subtasks[k].assigned_ranges.len()
                invariant
                    k < self.subtasks@.len(),
                    j <= self.subtasks@[k as int].assigned_ranges@.len(),
                    rest@ == without_range(
                        self.subtasks@[k as int].assigned_ranges@.take(j as int),
                        range,
                    ),
                decreases self.subtasks@[k as int].assigned_ranges@.len() - j,
            {
                let r = self.subtasks[k].assigned_ranges[j];
                proof {
                    assert(self.subtasks@[k as int].assigned_ranges@.take(j + 1).drop_last()
                        =~= self.subtasks@[k as int].assigned_ranges@.take(j as int));
                }
                if r != range {
                    rest.push(r);
                }
                j = j + 1;
            }
            proof {
                assert(self.subtasks@[k as int].assigned_ranges@.take(j as int)
                    =~= self.subtasks@[k as int].assigned_ranges@);
            }
            self.subtasks[k].assigned_ranges = rest;
            let done = range.length();
            self.subtasks[k].completed_length = self.subtasks[k].completed_length + done;
        }
    }

    /// Every byte of a task of known length has been fetched.
    pub fn is_complete(&self) -> (r: bool)
        ensures
            r == (self.completed_length >= self.total_length && self.total_length > 0),
    {
        self.completed_length >= self.total_length && self.total_length > 0
    }

    /// Adds a source, in the metadata phase with nothing assigned, under a
    /// fresh random identifier, and returns that identifier.
    pub fn add_subtask(&mut self, uri: String, task_type: TaskType) -> (r: TaskId)
        ensures
            final(self).id == old(self).id,
            final(self).name == old(self).name,
            final(self).total_length == old(self).total_length,
            final(self).completed_length == old(self).completed_length,
            final(self).phase == old(self).phase,
            final(self).pending_ranges == old(self).pending_ranges,
            final(self).in_flight_ranges == old(self).in_flight_ranges,
            final(self).subtasks@.len() == old(self).subtasks@.len() + 1,
            forall|k: int| 0 <= k < old(self).subtasks@.len() ==> final(self).subtasks@[k] == old(self).subtasks@[k],
            final(self).subtasks@.last()@ == (SubTaskView {
                id: r,
                task_type,
                uri: uri@,
                assigned_ranges: Seq::empty(),
                total_length: 0,
                completed_length: 0,
                active: true,
                phase: DownloadPhase::MetadataExchange,
            }),
    {
        let sub_id = TaskId(random_u64());
        self.subtasks.push(
            SubTask {
                id: sub_id,
                task_type,
                uri,
                assigned_ranges: Vec::new(),
                total_length: 0,
                completed_length: 0,
                active: true,
                phase: DownloadPhase::MetadataExchange,
            },
        );
        sub_id
    }

}

} // verus!
