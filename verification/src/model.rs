//! The records the task manager keeps and exchanges: tasks, experience
//! samples, and the request/response shapes built from them.
use vstd::prelude::*;

verus! {

/// One task. Every task is also a frame: a node of the task tree.
#[derive(Debug, Clone)]
pub struct Task {
    pub id: String,
    pub parent_id: Option<String>,
    pub title: String,
    pub notes: String,
    pub completed: bool,
    pub position: i64,
    pub created_at: String,
    pub updated_at: String,
    pub deferred: bool,
    pub review_interval: i64,
    pub next_review_at: Option<String>,
    pub acknowledged: bool,
    pub focused: bool,
    pub focused_at: Option<String>,
    pub budget_minutes: Option<i64>,
}

/// The mathematical value of a [`Task`]: its strings as character sequences.
pub struct TaskV {
    pub id: Seq<char>,
    pub parent_id: Option<Seq<char>>,
    pub title: Seq<char>,
    pub notes: Seq<char>,
    pub completed: bool,
    pub position: i64,
    pub created_at: Seq<char>,
    pub updated_at: Seq<char>,
    pub deferred: bool,
    pub review_interval: i64,
    pub next_review_at: Option<Seq<char>>,
    pub acknowledged: bool,
    pub focused: bool,
    pub focused_at: Option<Seq<char>>,
    pub budget_minutes: Option<i64>,
}

/// The view of an optional string.
pub open spec fn opt_view(o: Option<String>) -> Option<Seq<char>> {
    match o {
        Some(s) => Some(s@),
        None => None,
    }
}

impl View for Task {
    type V = TaskV;

    open spec fn view(&self) -> TaskV {
        TaskV {
            id: self.id@,
            parent_id: opt_view(self.parent_id),
            title: self.title@,
            notes: self.notes@,
            completed: self.completed,
            position: self.position,
            created_at: self.created_at@,
            updated_at: self.updated_at@,
            deferred: self.deferred,
            review_interval: self.review_interval,
            next_review_at: opt_view(self.next_review_at),
            acknowledged: self.acknowledged,
            focused: self.focused,
            focused_at: opt_view(self.focused_at),
            budget_minutes: self.budget_minutes,
        }
    }
}

/// The views of a sequence of tasks, element by element.
pub open spec fn task_views(s: Seq<Task>) -> Seq<TaskV> {
    s.map_values(|t: Task| t@)
}

/// A copy of an optional string.
pub fn copy_opt_string(o: &Option<String>) -> (r: Option<String>)
    ensures
        opt_view(r) == opt_view(*o),
{
    match o {
        Some(s) => Some(s.clone()),
        None => None,
    }
}

impl Task {
    /// A field-by-field copy of the task.
    pub fn duplicate(&self) -> (r: Task)
        ensures
            r@ == self@,
    {
        Task {
            id: self.id.clone(),
            parent_id: copy_opt_string(&self.parent_id),
            title: self.title.clone(),
            notes: self.notes.clone(),
            completed: self.completed,
            position: self.position,
            created_at: self.created_at.clone(),
            updated_at: self.updated_at.clone(),
            deferred: self.deferred,
            review_interval: self.review_interval,
            next_review_at: copy_opt_string(&self.next_review_at),
            acknowledged: self.acknowledged,
            focused: self.focused,
            focused_at: copy_opt_string(&self.focused_at),
            budget_minutes: self.budget_minutes,
        }
    }
}

/// A copy of each task of a vector, in order.
pub fn duplicate_tasks(v: &Vec<Task>) -> (r: Vec<Task>)
    ensures
        task_views(r@) == task_views(v@),
{
    let mut r: Vec<Task> = Vec::new();
    let mut i: usize = 0;
    while i < v.len()
        invariant
            i <= v.len(),
            r@.len() == i,
            forall|j: int| 0 <= j < i ==> r@[j]@ == v@[j]@,
        decreases v.len() - i,
    {
        r.push(v[i].duplicate());
        i = i + 1;
    }
    assert(task_views(r@) =~= task_views(v@));
    r
}

/// A task together with its direct children, ordered by position.
#[derive(Debug, Clone)]
pub struct TaskWithChildren {
    pub task: Task,
    pub children: Vec<Task>,
}

/// A root task (project) with the number of its pending descendants and its
/// first pending children.
#[derive(Debug, Clone)]
pub struct ProjectPreview {
    pub id: String,
    pub title: String,
    pub pending_count: i64,
    pub next_actions: Vec<Task>,
}

/// The input of a task creation.
#[derive(Debug, Clone)]
pub struct CreateTask {
    pub parent_id: Option<String>,
    pub title: String,
    pub notes: String,
}

/// A partial update of a task: `None` leaves a field as it is.
/// For `parent_id`, `Some("")` moves the task to the root.
#[derive(Debug, Clone)]
pub struct UpdateTask {
    pub title: Option<String>,
    pub notes: Option<String>,
    pub completed: Option<bool>,
    pub position: Option<i64>,
    pub parent_id: Option<String>,
    pub deferred: Option<bool>,
    pub acknowledged: Option<bool>,
}

impl UpdateTask {
    /// The update that changes nothing.
    pub fn empty() -> (r: UpdateTask)
        ensures
            r.title.is_none(),
            r.notes.is_none(),
            r.completed.is_none(),
            r.position.is_none(),
            r.parent_id.is_none(),
            r.deferred.is_none(),
            r.acknowledged.is_none(),
    {
        UpdateTask {
            title: None,
            notes: None,
            completed: None,
            position: None,
            parent_id: None,
            deferred: None,
            acknowledged: None,
        }
    }
}

/// A search hit: the task and the titles of its ancestors, root first.
#[derive(Debug, Clone)]
pub struct SearchResult {
    pub task: Task,
    pub path: Vec<String>,
}

/// One experience sample: a self-reported answer to "what are you doing?".
#[derive(Debug, Clone)]
pub struct Sample {
    pub id: String,
    pub prompt_type: String,
    pub response: String,
    pub created_at: String,
    pub task_id: Option<String>,
}

/// The mathematical value of a [`Sample`].
pub struct SampleV {
    pub id: Seq<char>,
    pub prompt_type: Seq<char>,
    pub response: Seq<char>,
    pub created_at: Seq<char>,
    pub task_id: Option<Seq<char>>,
}

impl View for Sample {
    type V = SampleV;

    open spec fn view(&self) -> SampleV {
        SampleV {
            id: self.id@,
            prompt_type: self.prompt_type@,
            response: self.response@,
            created_at: self.created_at@,
            task_id: opt_view(self.task_id),
        }
    }
}

/// The views of a sequence of samples.
pub open spec fn sample_views(s: Seq<Sample>) -> Seq<SampleV> {
    s.map_values(|x: Sample| x@)
}

impl Sample {
    /// A field-by-field copy of the sample.
    pub fn duplicate(&self) -> (r: Sample)
        ensures
            r@ == self@,
    {
        Sample {
            id: self.id.clone(),
            prompt_type: self.prompt_type.clone(),
            response: self.response.clone(),
            created_at: self.created_at.clone(),
            task_id: copy_opt_string(&self.task_id),
        }
    }
}

/// The input of a sample creation.
#[derive(Debug, Clone)]
pub struct CreateSample {
    pub response: String,
    pub prompt_type: String,
    pub task_id: Option<String>,
}

/// The prompt type a sample gets when none is given.
pub fn default_prompt_type() -> (r: String)
    ensures
        r@ == seq!['a', 'c', 't', 'i', 'v', 'i', 't', 'y'],
{
    let r = String::from_str("activity");
    proof {
        reveal_strlit("activity");
    }
    r
}

/// A sample with the title of the task it is linked to, if any.
#[derive(Debug, Clone)]
pub struct SampleWithTask {
    pub id: String,
    pub prompt_type: String,
    pub response: String,
    pub created_at: String,
    pub task_id: Option<String>,
    pub task_title: Option<String>,
}

/// The query of a task listing: the parent whose children are listed.
#[derive(Debug, Clone)]
pub struct ListParams {
    pub parent_id: Option<String>,
}

/// The query of a search.
#[derive(Debug, Clone)]
pub struct SearchParams {
    pub q: String,
}

} // verus!
