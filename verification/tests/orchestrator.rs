use aura_core::orchestrator::{
    any_downloading, control_file_name, finish_range, mature_task, pause_task, prepare_task,
    ranges_to_dispatch, record_download, resume_task, saved_sources, storage_completed, Event,
    CONCURRENCY_PER_SUBTASK, DEFAULT_SEGMENTS,
};
use aura_core::task::{DownloadPhase, MetaTask, Range, TaskState, TaskType};
use aura_core::worker::Metadata;
use aura_core::{Error, TaskId};

fn task_with_source(total: u64) -> (MetaTask, TaskId) {
    let mut t = MetaTask::new(TaskId(1), "file.bin".to_string(), total);
    let sub = t.add_subtask("http://example.com/file.bin".to_string(), TaskType::Http);
    (t, sub)
}

#[test]
fn ranges_cover_the_file_and_come_from_its_start() {
    let (mut t, _) = task_with_source(100);
    t.generate_ranges(DEFAULT_SEGMENTS);
    // At least 32 ranges of ceil(100 / 32) = 4 bytes: 25 non-empty ones.
    assert_eq!(t.pending_ranges.len(), 25);
    assert_eq!(*t.pending_ranges.last().unwrap(), Range { start: 0, end: 4 });
    assert_eq!(t.pending_ranges[0], Range { start: 96, end: 100 });
    let total: u64 = t.pending_ranges.iter().map(|r| r.length()).sum();
    assert_eq!(total, 100);
}

#[test]
fn dispatch_hands_out_up_to_the_concurrency_limit() {
    let (mut t, sub) = task_with_source(100);
    t.generate_ranges(DEFAULT_SEGMENTS);
    let picked = ranges_to_dispatch(&mut t, sub).unwrap();
    assert_eq!(picked.len(), CONCURRENCY_PER_SUBTASK);
    assert_eq!(picked[0], Range { start: 0, end: 4 });
    assert_eq!(picked[3], Range { start: 12, end: 16 });
    assert_eq!(t.in_flight_ranges.len(), 4);
    assert_eq!(t.pending_ranges.len(), 21);
    assert_eq!(t.subtasks[0].assigned_ranges.len(), 4);
    // Holding four already, the source gets nothing more.
    assert!(ranges_to_dispatch(&mut t, sub).unwrap().is_empty());
    match ranges_to_dispatch(&mut t, TaskId(999)) {
        Err(Error::Config(m)) => assert_eq!(m, "Subtask not found"),
        _ => panic!("expected Subtask not found"),
    }
}

#[test]
fn pause_returns_ranges_and_resume_restarts() {
    let (mut t, sub) = task_with_source(100);
    t.generate_ranges(DEFAULT_SEGMENTS);
    ranges_to_dispatch(&mut t, sub).unwrap();
    let before: u64 = t.pending_ranges.iter().chain(t.in_flight_ranges.iter().map(|e| &e.1)).map(|r| r.length()).sum();
    match pause_task(&mut t) {
        Some(Event::TaskProgress { id, completed_bytes, total_bytes }) => {
            assert_eq!(id, TaskId(1));
            assert_eq!(completed_bytes, 0);
            assert_eq!(total_bytes, 100);
        }
        _ => panic!("expected a progress report"),
    }
    assert_eq!(t.phase, DownloadPhase::Paused);
    assert!(t.in_flight_ranges.is_empty());
    assert_eq!(t.pending_ranges.len(), 25);
    let after: u64 = t.pending_ranges.iter().map(|r| r.length()).sum();
    assert_eq!(before, after);
    assert!(pause_task(&mut t).is_none());
    assert!(resume_task(&mut t));
    assert_eq!(t.phase, DownloadPhase::Downloading);
    assert!(!resume_task(&mut t));
}

#[test]
fn metadata_sets_length_once() {
    let (mut t, sub) = task_with_source(0);
    let meta = Metadata { final_uri: "http://example.com/final".to_string(), total_length: Some(64), name: Some("f".to_string()) };
    match mature_task(&mut t, sub, &meta) {
        Some(Event::MetadataResolved { id, final_uri, total_length, name }) => {
            assert_eq!(id, TaskId(1));
            assert_eq!(final_uri, "http://example.com/final");
            assert_eq!(total_length, 64);
            assert_eq!(name, Some("f".to_string()));
        }
        _ => panic!("expected MetadataResolved"),
    }
    assert_eq!(t.total_length, 64);
    assert_eq!(t.pending_ranges.len(), 32);
    assert_eq!(t.subtasks[0].phase, DownloadPhase::Downloading);
    assert!(mature_task(&mut t, sub, &meta).is_none());
    assert_eq!(t.pending_ranges.len(), 32);
}

#[test]
fn finishing_ranges_completes_the_task() {
    let (mut t, sub) = task_with_source(8);
    t.generate_ranges(DEFAULT_SEGMENTS);
    let picked = ranges_to_dispatch(&mut t, sub).unwrap();
    match record_download(&mut t, 8) {
        Event::TaskProgress { completed_bytes, total_bytes, .. } => {
            assert_eq!(completed_bytes, 8);
            assert_eq!(total_bytes, 8);
        }
        _ => panic!("expected progress"),
    }
    assert!(finish_range(&mut t, sub, picked[0]));
    assert_eq!(t.phase, DownloadPhase::Complete);
    assert_eq!(t.subtasks[0].completed_length, 1);
    assert_eq!(t.in_flight_ranges.len(), 3);
}

#[test]
fn storage_completion_and_activity() {
    let (t, _) = task_with_source(10);
    let evs = storage_completed(TaskId(1), Some(&t));
    assert_eq!(evs.len(), 2);
    assert!(matches!(evs[0], Event::TaskProgress { completed_bytes: 10, total_bytes: 10, .. }));
    assert!(matches!(evs[1], Event::TaskCompleted(TaskId(1))));
    assert!(matches!(storage_completed(TaskId(4), None)[..], [Event::TaskCompleted(TaskId(4))]));
    assert!(any_downloading(&vec![t]));
    let mut p = MetaTask::new(TaskId(2), "x".to_string(), 5);
    p.phase = DownloadPhase::Paused;
    assert!(!any_downloading(&vec![p]));
    assert!(!any_downloading(&vec![]));
}

#[test]
fn control_files_and_prepared_tasks() {
    assert_eq!(control_file_name("movie.mkv"), "movie.mkv.aura");
    let (t, bf) = prepare_task(
        TaskId(7),
        "a.iso".to_string(),
        None,
        vec![("http://m1/a.iso".to_string(), TaskType::Http), ("ftp://m2/a.iso".to_string(), TaskType::Ftp)],
    );
    assert!(bf.is_none());
    assert_eq!(t.id, TaskId(7));
    assert_eq!(t.total_length, 0);
    assert_eq!(t.subtasks.len(), 2);
    assert_eq!(t.subtasks[1].uri, "ftp://m2/a.iso");
    assert_eq!(t.subtasks[1].task_type, TaskType::Ftp);
    assert_eq!(t.subtasks[0].phase, DownloadPhase::MetadataExchange);

    let saved = TaskState {
        id: TaskId(3),
        name: "a.iso".to_string(),
        phase: DownloadPhase::Paused,
        total_length: 50,
        completed_length: 20,
        subtasks: vec![],
        pending_ranges: vec![Range { start: 20, end: 50 }],
        bitfield: None,
    };
    let (t2, _) = prepare_task(TaskId(8), "ignored".to_string(), Some(saved), vec![("http://m1/a.iso".to_string(), TaskType::Http)]);
    assert_eq!(t2.id, TaskId(8));
    assert_eq!(t2.name, "a.iso");
    assert_eq!(t2.completed_length, 20);
    assert_eq!(t2.pending_ranges, vec![Range { start: 20, end: 50 }]);
    assert_eq!(t2.subtasks.len(), 1);
}

#[test]
fn saved_tasks_keep_their_ranges_in_flight() {
    let (mut t, sub) = task_with_source(100);
    t.generate_ranges(DEFAULT_SEGMENTS);
    let pending_before = t.pending_ranges.len();
    ranges_to_dispatch(&mut t, sub).unwrap();
    assert!(!t.in_flight_ranges.is_empty());
    let back = MetaTask::from_state(t.to_state(None));
    assert_eq!(back.id, t.id);
    assert_eq!(back.name, t.name);
    let mut expected = t.pending_ranges.clone();
    for (_, r) in &t.in_flight_ranges {
        expected.push(*r);
    }
    assert_eq!(back.pending_ranges, expected);
    assert_eq!(back.pending_ranges.len(), pending_before);
    assert_eq!(back.subtasks.len(), 1);
    assert_eq!(back.subtasks[0].assigned_ranges, t.subtasks[0].assigned_ranges);
    assert!(back.in_flight_ranges.is_empty());
    // Paused first, the same ranges come back.
    pause_task(&mut t);
    let back2 = MetaTask::from_state(t.to_state(None));
    assert_eq!(back2.pending_ranges.len(), 25);
    assert_eq!(back2.phase, DownloadPhase::Paused);
}

#[test]
fn control_file_names_end_in_aura() {
    assert_eq!(control_file_name(""), ".aura");
}

#[test]
fn saved_tasks_list_their_sources() {
    let mut t = MetaTask::new(TaskId(9), "a.bin".to_string(), 0);
    t.add_subtask("http://m1/a.bin".to_string(), TaskType::Http);
    t.add_subtask("ftp://m2/a.bin".to_string(), TaskType::Ftp);
    let sources = saved_sources(&t.to_state(None));
    assert_eq!(sources, vec![("http://m1/a.bin".to_string(), TaskType::Http), ("ftp://m2/a.bin".to_string(), TaskType::Ftp)]);
}
