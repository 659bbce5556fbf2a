//! The orchestrator's decisions on a task: pausing and resuming it, taking in
//! what a source learnt, recording finished ranges and downloaded bytes, and
//! choosing the ranges to hand to a source. The channels, timers and workers
//! around them stand outside the library.
use vstd::prelude::*;
use vstd::multiset::Multiset;
use crate::{Error, TaskId};
use crate::task::{
    DownloadPhase, MetaTask, Range, SubTaskView, TaskState, TaskType, ceil_div, entry_ranges,
    first_with_id,
    lemma_first_with_id, range_count, range_len, segmented, without_entry, without_range,
};
use crate::bitfield::Bitfield;
use crate::text::{push_str, str_to_string};
use crate::worker::Metadata;

verus! {

/// What the engine reports to its subscribers.
#[derive(Debug, Clone)]
pub enum Event {
    TaskAdded(TaskId),
    MetadataResolved { id: TaskId, final_uri: String, total_length: u64, name: Option<String> },
    TaskProgress { id: TaskId, completed_bytes: u64, total_bytes: u64 },
    TaskCompleted(TaskId),
    TaskError { id: TaskId, message: String },
}

/// What the orchestrator tells the peer connections of a torrent.
#[derive(Debug, Clone, Copy)]
pub enum WorkerCommand {
    CancelPiece(usize),
    RequestPiece(usize),
}

/// How many ranges a source may hold at once.
pub const CONCURRENCY_PER_SUBTASK: usize = 4;

/// How many segments a task of newly learnt length is cut into (at least).
pub const DEFAULT_SEGMENTS: usize = 16;

/// The progress report of a task.
pub open spec fn progress_of(task: MetaTask, e: Event) -> bool {
    e matches Event::TaskProgress { id, completed_bytes, total_bytes } && id == task.id
        && completed_bytes == task.completed_length && total_bytes == task.total_length
}

/// Whether a task can be paused: it is neither paused nor complete.
pub open spec fn pausable(phase: DownloadPhase) -> bool {
    phase != DownloadPhase::Paused && phase != DownloadPhase::Complete
}

/// Every range of a task that is not done: pending or in flight.
pub open spec fn open_ranges(t: MetaTask) -> Multiset<Range> {
    (t.pending_ranges@ + entry_ranges(t.in_flight_ranges@)).to_multiset()
}

fn progress(task: &MetaTask) -> (e: Event)
    ensures
        progress_of(*task, e),
{
    Event::TaskProgress {
        id: task.id,
        completed_bytes: task.completed_length,
        total_bytes: task.total_length,
    }
}

/// Pauses a task that is neither paused nor complete: the ranges in flight
/// go back to the pending ones, after them, and the progress is reported.
pub fn pause_task(task: &mut MetaTask) -> (r: Option<Event>)
    ensures
        !pausable(old(task).phase) ==> r is None && *final(task) == *old(task),
        pausable(old(task).phase) ==> {
            &&& final(task).phase == DownloadPhase::Paused
            &&& final(task).pending_ranges@ == old(task).pending_ranges@ + entry_ranges(
                old(task).in_flight_ranges@,
            )
            &&& final(task).in_flight_ranges@.len() == 0
            &&& final(task).id == old(task).id
            &&& final(task).name == old(task).name
            &&& final(task).total_length == old(task).total_length
            &&& final(task).completed_length == old(task).completed_length
            &&& final(task).subtasks == old(task).subtasks
            &&& r matches Some(e) && progress_of(*final(task), e)
        },
        open_ranges(*final(task)) == open_ranges(*old(task)),
{
    if task.phase == DownloadPhase::Paused || task.phase == DownloadPhase::Complete {
        return None;
    }
    task.phase = DownloadPhase::Paused;
    let mut in_flight: Vec<(TaskId, Range)> = Vec::new();
    std::mem::swap(&mut in_flight, &mut task.in_flight_ranges);
    let ghost start = task.pending_ranges@;
    let mut i: usize = 0;
    while i < in_flight.len()
        invariant
            i <= in_flight@.len(),
            in_flight@ == old(task).in_flight_ranges@,
            task.pending_ranges@ == start + entry_ranges(in_flight@.take(i as int)),
            task.in_flight_ranges@.len() == 0,
            task.phase == DownloadPhase::Paused,
            task.id == old(task).id,
            task.name == old(task).name,
            task.total_length == old(task).total_length,
            task.completed_length == old(task).completed_length,
            task.subtasks == old(task).subtasks,
            start == old(task).pending_ranges@,
        decreases in_flight@.len() - i,
    {
        let (_sub, range) = in_flight[i];
        task.pending_ranges.push(range);
        i = i + 1;
        assert(entry_ranges(in_flight@.take(i as int)) =~= entry_ranges(in_flight@.take(i - 1)).push(
            range,
        ));
    }
    assert(in_flight@.take(i as int) =~= in_flight@);
    assert(entry_ranges(task.in_flight_ranges@) =~= Seq::<Range>::empty());
    assert(task.pending_ranges@ + entry_ranges(task.in_flight_ranges@) =~= old(task).pending_ranges@
        + entry_ranges(old(task).in_flight_ranges@));
    Some(progress(task))
}

/// Resumes a paused task; any other task is left as it is.
pub fn resume_task(task: &mut MetaTask) -> (r: bool)
    ensures
        r == (old(task).phase == DownloadPhase::Paused),
        r ==> *final(task) == (MetaTask { phase: DownloadPhase::Downloading, ..*old(task) }),
        !r ==> *final(task) == *old(task),
{
    if task.phase == DownloadPhase::Paused {
        task.phase = DownloadPhase::Downloading;
        true
    } else {
        false
    }
}

/// A source has learnt its metadata. A task of unknown length (0) takes the
/// length found, if any, and is cut into segments; the source starts
/// downloading. When the task took a length, its resolution is reported.
pub fn mature_task(task: &mut MetaTask, sub_id: TaskId, metadata: &Metadata) -> (r: Option<Event>)
    requires
        old(task).total_length == 0 ==> match metadata.total_length {
            Some(len) => len > 0 ==> range_count(DEFAULT_SEGMENTS as int) * ceil_div(
                len as int,
                range_count(DEFAULT_SEGMENTS as int),
            ) <= u64::MAX,
            None => true,
        },
    ensures
        ({
            let init = old(task).total_length == 0 && metadata.total_length is Some;
            let f = first_with_id(old(task).subtasks@, sub_id);
            &&& init ==> final(task).total_length == metadata.total_length->Some_0
            &&& !init ==> final(task).total_length == old(task).total_length
                && final(task).pending_ranges == old(task).pending_ranges
            &&& init && final(task).total_length > 0 ==> segmented(
                final(task).pending_ranges@,
                final(task).total_length as int,
                DEFAULT_SEGMENTS as int,
            )
            &&& init && final(task).total_length == 0 ==> final(task).pending_ranges
                == old(task).pending_ranges
            &&& init ==> (r matches Some(
                Event::MetadataResolved { id, final_uri, total_length, name },
            ) && id == old(task).id && final_uri@ == metadata.final_uri@ && total_length
                == final(task).total_length && (match (name, metadata.name) {
                (Some(a), Some(b)) => a@ == b@,
                (None, None) => true,
                _ => false,
            }))
            &&& !init ==> r is None
            &&& final(task).id == old(task).id
            &&& final(task).completed_length == old(task).completed_length
            &&& final(task).phase == old(task).phase
            &&& final(task).in_flight_ranges == old(task).in_flight_ranges
            &&& final(task).subtasks@.len() == old(task).subtasks@.len()
            &&& forall|k: int|
                0 <= k < old(task).subtasks@.len() && k != f ==> final(task).subtasks@[k]
                    == old(task).subtasks@[k]
            &&& f >= 0 ==> final(task).subtasks@[f]@ == (SubTaskView {
                phase: DownloadPhase::Downloading,
                ..old(task).subtasks@[f]@
            })
        }),
{
    proof {
        lemma_first_with_id(task.subtasks@, sub_id);
    }
    let mut init = false;
    if task.total_length == 0 {
        if let Some(len) = metadata.total_length {
            task.total_length = len;
            task.generate_ranges(DEFAULT_SEGMENTS);
            init = true;
        }
    }
    let ghost mid = task.subtasks@;
    if let Some(k) = task.find_subtask(sub_id) {
        task.subtasks[k].phase = DownloadPhase::Downloading;
    }
    if init {
        let name = match &metadata.name {
            Some(n) => Some(n.clone()),
            None => None,
        };
        Some(
            Event::MetadataResolved {
                id: task.id,
                final_uri: metadata.final_uri.clone(),
                total_length: task.total_length,
                name,
            },
        )
    } else {
        None
    }
}

/// Source `sub_id` has fetched `range`: the range is recorded as done (see
/// `MetaTask::mark_range_complete`), and a task with all its bytes becomes
/// complete. Returns whether it did.
pub fn finish_range(task: &mut MetaTask, sub_id: TaskId, range: Range) -> (r: bool)
    requires
        first_with_id(old(task).subtasks@, sub_id) >= 0 ==> old(task).subtasks@[first_with_id(
            old(task).subtasks@,
            sub_id,
        )].completed_length + range_len(range) <= u64::MAX,
    ensures
        r == (old(task).completed_length >= old(task).total_length && old(task).total_length > 0),
        final(task).phase == if r {
            DownloadPhase::Complete
        } else {
            old(task).phase
        },
        final(task).id == old(task).id,
        final(task).total_length == old(task).total_length,
        final(task).completed_length == old(task).completed_length,
        final(task).pending_ranges == old(task).pending_ranges,
        final(task).in_flight_ranges@ == without_entry(old(task).in_flight_ranges@, sub_id, range),
        final(task).subtasks@.len() == old(task).subtasks@.len(),
        ({
            let f = first_with_id(old(task).subtasks@, sub_id);
            &&& forall|k: int|
                0 <= k < old(task).subtasks@.len() && k != f ==> final(task).subtasks@[k]
                    == old(task).subtasks@[k]
            &&& f >= 0 ==> final(task).subtasks@[f]@ == (SubTaskView {
                assigned_ranges: without_range(old(task).subtasks@[f].assigned_ranges@, range),
                completed_length: (old(task).subtasks@[f].completed_length + range_len(
                    range,
                )) as u64,
                ..old(task).subtasks@[f]@
            })
        }),
{
    task.mark_range_complete(sub_id, range);
    let done = task.is_complete();
    if done {
        task.phase = DownloadPhase::Complete;
    }
    done
}

/// A source has downloaded `bytes` more bytes of the task: they are counted
/// and the progress is reported.
pub fn record_download(task: &mut MetaTask, bytes: u64) -> (e: Event)
    requires
        old(task).completed_length + bytes <= u64::MAX,
    ensures
        *final(task) == (MetaTask {
            completed_length: (old(task).completed_length + bytes) as u64,
            ..*old(task)
        }),
        progress_of(*final(task), e),
{
    task.completed_length = task.completed_length + bytes;
    progress(task)
}

/// The reports once storage has written all of a task: its full progress,
/// when the task is known, and its completion.
pub fn storage_completed(id: TaskId, task: Option<&MetaTask>) -> (r: Vec<Event>)
    ensures
        task is None ==> r@.len() == 1 && r@[0] == Event::TaskCompleted(id),
        task matches Some(t) ==> r@.len() == 2 && r@[0] == (Event::TaskProgress {
            id,
            completed_bytes: t.total_length,
            total_bytes: t.total_length,
        }) && r@[1] == Event::TaskCompleted(id),
{
    let mut r: Vec<Event> = Vec::new();
    if let Some(t) = task {
        r.push(
            Event::TaskProgress { id, completed_bytes: t.total_length, total_bytes: t.total_length },
        );
    }
    r.push(Event::TaskCompleted(id));
    r
}

/// Whether any task is downloading (and the machine should stay awake).
pub fn any_downloading(tasks: &Vec<MetaTask>) -> (r: bool)
    ensures
        r == exists|k: int| 0 <= k < tasks@.len() && tasks@[k].phase == DownloadPhase::Downloading,
{
    let mut i: usize = 0;
    while i < tasks.len()
        invariant
            i <= tasks@.len(),
            forall|k: int| 0 <= k < i ==> tasks@[k].phase != DownloadPhase::Downloading,
        decreases tasks@.len() - i,
    {
        if tasks[i].phase == DownloadPhase::Downloading {
            return true;
        }
        i = i + 1;
    }
    false
}

/// The ranges that source `sub_id` takes next: while it holds fewer than
/// `CONCURRENCY_PER_SUBTASK` ranges, it takes the next pending range.
pub open spec fn dispatch_count(task: MetaTask, sub_id: TaskId) -> int {
    let f = first_with_id(task.subtasks@, sub_id);
    let held = task.subtasks@[f].assigned_ranges@.len();
    if held >= CONCURRENCY_PER_SUBTASK {
        0
    } else if CONCURRENCY_PER_SUBTASK - held <= task.pending_ranges@.len() {
        CONCURRENCY_PER_SUBTASK - held
    } else {
        task.pending_ranges@.len() as int
    }
}

/// The `n` ranges handed out next, in the order they are handed out.
pub open spec fn next_ranges(pending: Seq<Range>, n: int) -> Seq<Range> {
    Seq::new(n as nat, |j: int| pending[pending.len() - 1 - j])
}

/// In-flight entries for ranges held by `sub_id`.
pub open spec fn entries_for(sub_id: TaskId, s: Seq<Range>) -> Seq<(TaskId, Range)> {
    s.map_values(|r: Range| (sub_id, r))
}

proof fn lemma_same_ids(a: Seq<crate::task::SubTask>, b: Seq<crate::task::SubTask>, id: TaskId)
    requires
        a.len() == b.len(),
        forall|k: int| 0 <= k < a.len() ==> a[k].id == b[k].id,
    ensures
        first_with_id(a, id) == first_with_id(b, id),
{
    lemma_first_with_id(a, id);
    lemma_first_with_id(b, id);
    let fa = first_with_id(a, id);
    let fb = first_with_id(b, id);
    if fa >= 0 && fb >= 0 {
        if fa < fb {
            assert(b[fa].id == id);
        } else if fb < fa {
            assert(a[fb].id == id);
        }
    } else if fa >= 0 {
        assert(b[fa].id == id);
    } else if fb >= 0 {
        assert(a[fb].id == id);
    }
}

/// Hands source `sub_id` the ranges it is to fetch now (the work of
/// `dispatch_next_ranges`, without the spawning of workers): each moves
/// from the pending list to the in-flight list and to the source's list.
pub fn ranges_to_dispatch(task: &mut MetaTask, sub_id: TaskId) -> (r: Result<Vec<Range>, Error>)
    ensures
        first_with_id(old(task).subtasks@, sub_id) < 0 ==> (r matches Err(Error::Config(m)) && m@
            == "Subtask not found"@ && *final(task) == *old(task)),
        first_with_id(old(task).subtasks@, sub_id) >= 0 ==> ({
            let f = first_with_id(old(task).subtasks@, sub_id);
            let n = dispatch_count(*old(task), sub_id);
            let picked = next_ranges(old(task).pending_ranges@, n);
            let len = old(task).pending_ranges@.len();
            &&& r matches Ok(v) && v@ == picked
            &&& final(task).pending_ranges@ == old(task).pending_ranges@.take(len - n)
            &&& final(task).in_flight_ranges@ == old(task).in_flight_ranges@ + entries_for(
                sub_id,
                picked,
            )
            &&& final(task).subtasks@.len() == old(task).subtasks@.len()
            &&& forall|k: int|
                0 <= k < old(task).subtasks@.len() && k != f ==> final(task).subtasks@[k]
                    == old(task).subtasks@[k]
            &&& final(task).subtasks@[f]@ == (SubTaskView {
                assigned_ranges: old(task).subtasks@[f].assigned_ranges@ + picked,
                ..old(task).subtasks@[f]@
            })
            &&& final(task).id == old(task).id
            &&& final(task).name == old(task).name
            &&& final(task).total_length == old(task).total_length
            &&& final(task).completed_length == old(task).completed_length
            &&& final(task).phase == old(task).phase
        }),
        open_ranges(*final(task)) == open_ranges(*old(task)),
{
    proof {
        lemma_first_with_id(task.subtasks@, sub_id);
    }
    let k = match task.find_subtask(sub_id) {
        Some(k) => k,
        None => {
            return Err(Error::Config(str_to_string("Subtask not found")));
        },
    };
    let ghost f = k as int;
    let ghost old_pending = task.pending_ranges@;
    let ghost len = old_pending.len();
    let ghost n = dispatch_count(*task, sub_id);
    let mut picked: Vec<Range> = Vec::new();
    let mut done = false;
    while !done
        invariant
            0 <= f < task.subtasks@.len(),
            f == first_with_id(old(task).subtasks@, sub_id),
            k == f,
            task.subtasks@.len() == old(task).subtasks@.len(),
            forall|j: int| 0 <= j < task.subtasks@.len() ==> task.subtasks@[j].id == old(
                task,
            ).subtasks@[j].id,
            forall|j: int|
                0 <= j < old(task).subtasks@.len() && j != f ==> task.subtasks@[j] == old(
                    task,
                ).subtasks@[j],
            picked@.len() <= n,
            !done ==> picked@.len() < n || n == picked@.len(),
            done ==> picked@.len() == n,
            picked@ == next_ranges(old_pending, picked@.len() as int),
            task.pending_ranges@ == old_pending.take(len - picked@.len()),
            task.in_flight_ranges@ == old(task).in_flight_ranges@ + entries_for(sub_id, picked@),
            task.subtasks@[f]@ == (SubTaskView {
                assigned_ranges: old(task).subtasks@[f].assigned_ranges@ + picked@,
                ..old(task).subtasks@[f]@
            }),
            old_pending == old(task).pending_ranges@,
            len == old_pending.len(),
            n == dispatch_count(*old(task), sub_id),
            task.id == old(task).id,
            task.name == old(task).name,
            task.total_length == old(task).total_length,
            task.completed_length == old(task).completed_length,
            task.phase == old(task).phase,
        decreases n - picked@.len() + if done { 0int } else { 1int },
    {
        if task.subtasks[k].assigned_ranges.len() >= CONCURRENCY_PER_SUBTASK {
            done = true;
        } else {
            let ghost before = *task;
            proof {
                lemma_same_ids(task.subtasks@, old(task).subtasks@, sub_id);
                assert(task.pending_ranges@.len() == len - picked@.len());
            }
            match task.pick_range_for_subtask(sub_id) {
                Some(range) => {
                    proof {
                        assert(range == old_pending[len - 1 - picked@.len()]);
                    }
                    picked.push(range);
                    proof {
                        assert(picked@ =~= next_ranges(old_pending, picked@.len() as int));
                        assert(task.pending_ranges@ =~= old_pending.take(len - picked@.len()));
                        assert(entries_for(sub_id, picked@) =~= entries_for(sub_id, picked@.drop_last()).push(
                            (sub_id, range),
                        ));
                        assert(task.in_flight_ranges@ =~= old(task).in_flight_ranges@ + entries_for(
                            sub_id,
                            picked@,
                        ));
                        assert(task.subtasks@[f]@.assigned_ranges =~= old(task).subtasks@[f].assigned_ranges@
                            + picked@);
                    }
                },
                None => {
                    done = true;
                },
            }
        }
    }
    proof {
        let n = picked@.len() as int;
        lemma_dispatch_keeps_ranges(old_pending, old(task).in_flight_ranges@, sub_id, n);
    }
    Ok(picked)
}

/// Handing out the last `n` pending ranges to a source keeps the open
/// ranges: what leaves the pending list enters the in-flight list.
proof fn lemma_dispatch_keeps_ranges(pending: Seq<Range>, in_flight: Seq<(TaskId, Range)>, sub_id: TaskId, n: int)
    requires
        0 <= n <= pending.len(),
    ensures
        (pending.take(pending.len() - n) + entry_ranges(in_flight + entries_for(sub_id, next_ranges(pending, n)))).to_multiset()
            == (pending + entry_ranges(in_flight)).to_multiset(),
    decreases n,
{
    let len = pending.len() as int;
    if n == 0 {
        assert(entries_for(sub_id, next_ranges(pending, 0)) =~= Seq::<(TaskId, Range)>::empty());
        assert(in_flight + Seq::<(TaskId, Range)>::empty() =~= in_flight);
        assert(pending.take(len) =~= pending);
    } else {
        lemma_dispatch_keeps_ranges(pending, in_flight, sub_id, n - 1);
        let a = pending.take(len - n);
        let r = pending[len - n];
        let e0 = entry_ranges(in_flight + entries_for(sub_id, next_ranges(pending, n - 1)));
        let e1 = entry_ranges(in_flight + entries_for(sub_id, next_ranges(pending, n)));
        assert(pending.take(len - (n - 1)) =~= a.push(r));
        assert(e1 =~= e0.push(r));
        vstd::seq_lib::lemma_multiset_commutative(a.push(r), e0);
        vstd::seq_lib::lemma_multiset_commutative(a, e0.push(r));
        vstd::seq_lib::to_multiset_build(a, r);
        vstd::seq_lib::to_multiset_build(e0, r);
        assert(a.to_multiset().insert(r).add(e0.to_multiset()) =~= a.to_multiset().add(
            e0.to_multiset().insert(r),
        ));
    }
}


/// The sources of a saved task, to add it again: the URI and protocol of
/// each of its sources, in order.
pub fn saved_sources(state: &TaskState) -> (r: Vec<(String, TaskType)>)
    ensures
        r@.len() == state.subtasks@.len(),
        forall|k: int|
            0 <= k < r@.len() ==> (#[trigger] r@[k]).0@ == state.subtasks@[k].uri@ && r@[k].1
                == state.subtasks@[k].task_type,
{
    let mut r: Vec<(String, TaskType)> = Vec::new();
    let mut i: usize = 0;
    while i < state.subtasks.len()
        invariant
            i <= state.subtasks@.len(),
            r@.len() == i,
            forall|k: int|
                0 <= k < i ==> (#[trigger] r@[k]).0@ == state.subtasks@[k].uri@ && r@[k].1
                    == state.subtasks@[k].task_type,
        decreases state.subtasks@.len() - i,
    {
        let s = &state.subtasks[i];
        r.push((s.uri.clone(), s.task_type));
        i = i + 1;
    }
    r
}

/// The name of a task's control file: its name and `.aura`.
pub fn control_file_name(name: &str) -> (r: String)
    ensures
        r@ == name@ + ".aura"@,
{
    let mut s = str_to_string(name);
    push_str(&mut s, ".aura");
    s
}

/// The task that an `AddTask` command creates: the saved state of a task of
/// that name (under the new identifier, nothing in flight) when there is
/// one, else a new task of unknown length; a task without sources gets one
/// per URI given, in order. The saved bitfield comes along.
pub fn prepare_task(id: TaskId, name: String, saved: Option<TaskState>, sources: Vec<(String, TaskType)>) -> (r: (
    MetaTask,
    Option<Bitfield>,
))
    ensures
        r.0.id == id,
        r.0.in_flight_ranges@.len() == 0,
        match saved {
            Some(st) => {
                &&& r.0.name == st.name
                &&& r.0.phase == st.phase
                &&& r.0.total_length == st.total_length
                &&& r.0.completed_length == st.completed_length
                &&& r.0.pending_ranges == st.pending_ranges
                &&& r.1 == st.bitfield
                &&& st.subtasks@.len() > 0 ==> r.0.subtasks == st.subtasks
            },
            None => {
                &&& r.0.name == name
                &&& r.0.phase == DownloadPhase::Downloading
                &&& r.0.total_length == 0
                &&& r.0.completed_length == 0
                &&& r.0.pending_ranges@.len() == 0
                &&& r.1 is None
            },
        },
        (match saved {
            Some(st) => st.subtasks@.len() == 0,
            None => true,
        }) ==> {
            &&& r.0.subtasks@.len() == sources@.len()
            &&& forall|k: int|
                0 <= k < sources@.len() ==> {
                    let v = #[trigger] r.0.subtasks@[k]@;
                    &&& v.uri == sources@[k].0@
                    &&& v.task_type == sources@[k].1
                    &&& v.assigned_ranges.len() == 0
                    &&& v.total_length == 0
                    &&& v.completed_length == 0
                    &&& v.active
                    &&& v.phase == DownloadPhase::MetadataExchange
                }
        },
{
    let (mut task, bitfield) = match saved {
        Some(st) => {
            let bf = st.bitfield;
            let state = TaskState { bitfield: None, ..st };
            let mut t = MetaTask::from_state(state);
            t.id = id;
            (t, bf)
        },
        None => (MetaTask::new(id, name, 0), None),
    };
    if task.subtasks.len() == 0 {
        let mut sources = sources;
        let n = sources.len();
        let ghost all = sources@;
        let ghost t0 = task;
        let mut i: usize = 0;
        while i < n
            invariant
                n == all.len(),
                i <= n,
                task.subtasks@.len() == i,
                task.id == id,
                task.in_flight_ranges@.len() == 0,
                task.name == t0.name,
                task.phase == t0.phase,
                task.total_length == t0.total_length,
                task.completed_length == t0.completed_length,
                task.pending_ranges == t0.pending_ranges,
                sources@ == all.subrange(i as int, n as int),
                forall|k: int|
                    0 <= k < i ==> {
                        let v = #[trigger] task.subtasks@[k]@;
                        &&& v.uri == all[k].0@
                        &&& v.task_type == all[k].1
                        &&& v.assigned_ranges.len() == 0
                        &&& v.total_length == 0
                        &&& v.completed_length == 0
                        &&& v.active
                        &&& v.phase == DownloadPhase::MetadataExchange
                    },
            decreases n - i,
        {
            let (uri, ttype) = sources.remove(0);
            assert(sources@ =~= all.subrange(i + 1, n as int));
            task.add_subtask(uri, ttype);
            i = i + 1;
        }
    }
    (task, bitfield)
}
} // verus!
