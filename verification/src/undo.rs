//! The changes the terminal interface can undo, and the requests that
//! replay them: a task to delete again, a task to create again, or a task
//! to put back as it was.
use vstd::prelude::*;
use crate::model::{Task, TaskV, UpdateTask, CreateTask, opt_view, copy_opt_string};
use crate::text::to_owned_string;

verus! {

/// One step of undoing a change.
#[derive(Debug, Clone)]
pub enum UndoAction {
    /// Delete the task with this id, undoing its creation.
    Delete(String),
    /// Recreate a deleted task with these fields.
    Create {
        parent_id: Option<String>,
        title: String,
        notes: String,
        completed: bool,
        position: i64,
    },
    /// Put these fields of the task back, undoing an edit.
    Update {
        id: String,
        title: String,
        notes: String,
        completed: bool,
        position: i64,
        parent_id: Option<String>,
        deferred: bool,
    },
}

/// A change as the undo history keeps it: what it was called, and the
/// steps that undo it (carried out last first).
#[derive(Debug, Clone)]
pub struct UndoEntry {
    pub description: String,
    pub actions: Vec<UndoAction>,
}

/// The step that puts a task back as it is now.
pub fn snapshot_task(t: &Task) -> (r: UndoAction)
    ensures
        r matches UndoAction::Update { id, title, notes, completed, position, parent_id, deferred }
            && id@ == t@.id && title@ == t@.title && notes@ == t@.notes && completed == t@.completed
            && position == t@.position && opt_view(parent_id) == t@.parent_id && deferred == t@.deferred,
{
    UndoAction::Update {
        id: to_owned_string(t.id.as_str()),
        title: to_owned_string(t.title.as_str()),
        notes: to_owned_string(t.notes.as_str()),
        completed: t.completed,
        position: t.position,
        parent_id: copy_opt_string(&t.parent_id),
        deferred: t.deferred,
    }
}

/// The step that creates a task again after it is deleted.
pub fn recreation_of(t: &Task) -> (r: UndoAction)
    ensures
        r matches UndoAction::Create { parent_id, title, notes, completed, position }
            && opt_view(parent_id) == t@.parent_id && title@ == t@.title && notes@ == t@.notes
            && completed == t@.completed && position == t@.position,
{
    UndoAction::Create {
        parent_id: copy_opt_string(&t.parent_id),
        title: to_owned_string(t.title.as_str()),
        notes: to_owned_string(t.notes.as_str()),
        completed: t.completed,
        position: t.position,
    }
}

/// The request that creates a deleted task again.
pub fn recreate_request(parent_id: &Option<String>, title: &str, notes: &str) -> (r: CreateTask)
    ensures
        opt_view(r.parent_id) == opt_view(*parent_id),
        r.title@ == title@,
        r.notes@ == notes@,
{
    CreateTask { parent_id: copy_opt_string(parent_id), title: to_owned_string(title), notes: to_owned_string(notes) }
}

/// The follow-up update a re-created task needs: its completion and old
/// position, when it was complete or came back at another position.
pub fn recreate_fixup(completed: bool, position: i64, created: &Task) -> (r: Option<UpdateTask>)
    ensures
        !(completed || position != created@.position) ==> r is None,
        (completed || position != created@.position) ==> (r matches Some(u) && u.completed == Some(completed)
            && u.position == Some(position) && u.title is None && u.notes is None && u.parent_id is None
            && u.deferred is None && u.acknowledged is None),
{
    if completed || position != created.position {
        Some(UpdateTask {
            title: None,
            notes: None,
            completed: Some(completed),
            position: Some(position),
            parent_id: None,
            deferred: None,
            acknowledged: None,
        })
    } else {
        None
    }
}

/// The update that puts a task's fields back: a root task gets the empty
/// parent id, which moves it to the root.
pub fn restoring_update(title: &str, notes: &str, completed: bool, position: i64, parent_id: &Option<String>, deferred: bool) -> (r: UpdateTask)
    ensures
        r.title matches Some(t) && t@ == title@,
        r.notes matches Some(n) && n@ == notes@,
        r.completed == Some(completed),
        r.position == Some(position),
        r.parent_id matches Some(p) && p@ == match *parent_id { Some(q) => q@, None => Seq::<char>::empty() },
        r.deferred == Some(deferred),
        r.acknowledged is None,
{
    let p = match parent_id {
        Some(q) => to_owned_string(q.as_str()),
        None => String::new(),
    };
    UpdateTask {
        title: Some(to_owned_string(title)),
        notes: Some(to_owned_string(notes)),
        completed: Some(completed),
        position: Some(position),
        parent_id: Some(p),
        deferred: Some(deferred),
        acknowledged: None,
    }
}

} // verus!
