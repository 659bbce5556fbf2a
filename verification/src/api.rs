//! What the subscribers of one task hear of it.
use vstd::prelude::*;
use crate::TaskId;
use crate::orchestrator::Event;

verus! {

/// An event of one download task.
#[derive(Debug, Clone)]
pub enum TaskEvent {
    /// The name and size of the task became known.
    MetadataResolved { final_uri: String, total_length: u64, name: Option<String> },
    /// Progress of the download.
    Progress { completed_bytes: u64, total_bytes: u64 },
    /// The task finished and its data is verified.
    Completed,
    /// The download failed.
    Error(String),
}

/// The task that an event is about; `TaskAdded` is about none for its
/// subscribers.
pub open spec fn event_task(e: Event) -> Option<TaskId> {
    match e {
        Event::TaskAdded(_) => None,
        Event::MetadataResolved { id, .. } => Some(id),
        Event::TaskProgress { id, .. } => Some(id),
        Event::TaskCompleted(id) => Some(id),
        Event::TaskError { id, .. } => Some(id),
    }
}

/// What the subscribers of task `id` hear of an engine event: the events
/// about that task, without its identifier; nothing of the others.
pub fn task_event(id: TaskId, event: Event) -> (r: Option<TaskEvent>)
    ensures
        event_task(event) != Some(id) ==> r is None,
        event_task(event) == Some(id) ==> match event {
            Event::MetadataResolved { final_uri, total_length, name, .. } => r == Some(
                TaskEvent::MetadataResolved { final_uri, total_length, name },
            ),
            Event::TaskProgress { completed_bytes, total_bytes, .. } => r == Some(
                TaskEvent::Progress { completed_bytes, total_bytes },
            ),
            Event::TaskCompleted(_) => r == Some(TaskEvent::Completed),
            Event::TaskError { message, .. } => r == Some(TaskEvent::Error(message)),
            Event::TaskAdded(_) => false,
        },
{
    match event {
        Event::MetadataResolved { id: ev, final_uri, total_length, name } => {
            if ev == id {
                Some(TaskEvent::MetadataResolved { final_uri, total_length, name })
            } else {
                None
            }
        },
        Event::TaskProgress { id: ev, completed_bytes, total_bytes } => {
            if ev == id {
                Some(TaskEvent::Progress { completed_bytes, total_bytes })
            } else {
                None
            }
        },
        Event::TaskCompleted(ev) => {
            if ev == id {
                Some(TaskEvent::Completed)
            } else {
                None
            }
        },
        Event::TaskError { id: ev, message } => {
            if ev == id {
                Some(TaskEvent::Error(message))
            } else {
                None
            }
        },
        Event::TaskAdded(_) => None,
    }
}

} // verus!
