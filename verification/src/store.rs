//! The task database: a forest of tasks (each task a frame that may hold
//! child tasks) and the experience samples linked to them, with the reads
//! and writes the server answers requests with.
use vstd::prelude::*;
use crate::model::{
    Task, TaskV, Sample, SampleV, CreateTask, UpdateTask, TaskWithChildren, CreateSample,
    opt_view, task_views, sample_views, copy_opt_string,
};
use crate::sort::{SortKey, sorted_by, sort_tasks};
use crate::text::to_owned_string;
use crate::clock::{spec_rfc3339_of, rfc3339_of};

verus! {

/// Why a database operation was refused.
#[derive(Debug, Clone, PartialEq, Eq)]
pub enum StoreError {
    /// No task has the given id.
    NotFound,
    /// The parent (or the task a sample links to) does not exist.
    ParentNotFound,
    /// A task or sample with the new id already exists.
    DuplicateId,
    /// The new parent is the task itself or one of its descendants.
    WouldCycle,
    /// Three tasks are focused already.
    FocusLimit,
    /// No task id starts with the given prefix.
    NoMatch,
    /// More than one task id starts with the given prefix; holds how many.
    Ambiguous(usize),
    /// An instant outside the range chrono can write.
    ClockOutOfRange,
    /// The next sibling position would not fit in an `i64`.
    PositionOverflow,
    /// A stored record breaks a rule of the database (a review interval
    /// out of range).
    InvalidRecord,
}

/// The contents of the database.
pub struct StoreV {
    pub tasks: Seq<TaskV>,
    pub samples: Seq<SampleV>,
}

// ── The tree, over a sequence of task values ──

/// Some task has this id.
pub open spec fn has_task(s: Seq<TaskV>, id: Seq<char>) -> bool {
    exists|i: int| 0 <= i < s.len() && (#[trigger] s[i]).id == id
}

/// Where the task with this id stands (meaningful when it exists).
pub open spec fn index_of_id(s: Seq<TaskV>, id: Seq<char>) -> int {
    choose|i: int| 0 <= i < s.len() && (#[trigger] s[i]).id == id
}

/// The task with this id (meaningful when it exists).
pub open spec fn task_of(s: Seq<TaskV>, id: Seq<char>) -> TaskV {
    s[index_of_id(s, id)]
}

/// No two tasks share an id.
pub open spec fn ids_unique(s: Seq<TaskV>) -> bool {
    forall|i: int, j: int| 0 <= i < s.len() && 0 <= j < s.len() && (#[trigger] s[i]).id == (#[trigger] s[j]).id ==> i == j
}

/// The parent of the task with this id; none for a root or a missing task.
pub open spec fn parent_of(s: Seq<TaskV>, id: Seq<char>) -> Option<Seq<char>> {
    if has_task(s, id) {
        task_of(s, id).parent_id
    } else {
        None
    }
}

/// The `k`-th ancestor of `id`: `id` itself for `k == 0`, its parent for 1, ...
pub open spec fn anc_at(s: Seq<TaskV>, id: Seq<char>, k: nat) -> Option<Seq<char>>
    decreases k,
{
    if k == 0 {
        Some(id)
    } else {
        match parent_of(s, id) {
            Some(p) => anc_at(s, p, (k - 1) as nat),
            None => None,
        }
    }
}

/// `d` lies in the subtree of `a` (every task lies in its own subtree).
pub open spec fn is_desc(s: Seq<TaskV>, d: Seq<char>, a: Seq<char>) -> bool {
    exists|k: nat| #[trigger] anc_at(s, d, k) == Some(a)
}

/// The number of focused tasks.
pub open spec fn focus_count(s: Seq<TaskV>) -> nat
    decreases s.len(),
{
    if s.len() == 0 {
        0
    } else {
        focus_count(s.drop_last()) + if s.last().focused { 1nat } else { 0nat }
    }
}

/// The most tasks that may be focused at once.
pub const MAX_FOCUSED: usize = 3;

/// The review interval, in days, of a task that was never snoozed.
pub const DEFAULT_REVIEW_INTERVAL: i64 = 7;

/// The longest review interval, in days.
pub const MAX_REVIEW_INTERVAL: i64 = 90;

/// One step up the tree: `d` is in the subtree of `a` exactly when it is `a`
/// or its parent is.
pub proof fn lemma_desc_step(s: Seq<TaskV>, d: Seq<char>, a: Seq<char>)
    ensures
        is_desc(s, d, a) == (d == a || (parent_of(s, d) matches Some(p) && is_desc(s, p, a))),
{
    if d == a {
        assert(anc_at(s, d, 0) == Some(a));
    } else {
        match parent_of(s, d) {
            Some(p) => {
                if is_desc(s, p, a) {
                    let k = choose|k: nat| #[trigger] anc_at(s, p, k) == Some(a);
                    assert(anc_at(s, d, k + 1) == anc_at(s, p, k));
                }
                if is_desc(s, d, a) {
                    let k = choose|k: nat| #[trigger] anc_at(s, d, k) == Some(a);
                    assert(k > 0);
                    assert(anc_at(s, p, (k - 1) as nat) == Some(a));
                }
            },
            None => {
                if is_desc(s, d, a) {
                    let k = choose|k: nat| #[trigger] anc_at(s, d, k) == Some(a);
                    assert(k > 0);
                }
            },
        }
    }
}

/// The database: tasks in insertion order, samples in insertion order, and
/// the depth of each task (a proof device: the number of its ancestors).
pub struct TaskStore {
    tasks: Vec<Task>,
    samples: Vec<Sample>,
    depth: Ghost<Map<Seq<char>, nat>>,
}

impl View for TaskStore {
    type V = StoreV;

    closed spec fn view(&self) -> StoreV {
        StoreV { tasks: task_views(self.tasks@), samples: sample_views(self.samples@) }
    }
}

/// The depth map fits the parent links: roots at 0, a child one below its parent.
pub open spec fn depth_fits(s: Seq<TaskV>, depth: Map<Seq<char>, nat>) -> bool {
    forall|i: int| 0 <= i < s.len() ==> {
        &&& depth.contains_key((#[trigger] s[i]).id)
        &&& match s[i].parent_id {
            None => depth[s[i].id] == 0,
            Some(p) => has_task(s, p) && depth[s[i].id] == depth[p] + 1,
        }
    }
}

/// Every sample links to an existing task or to none.
pub open spec fn samples_linked(s: Seq<TaskV>, samples: Seq<SampleV>) -> bool {
    forall|j: int| 0 <= j < samples.len() ==> ((#[trigger] samples[j]).task_id matches Some(t) ==> has_task(s, t))
}

/// Every review interval lies between the default and the cap.
pub open spec fn intervals_bounded(s: Seq<TaskV>) -> bool {
    forall|i: int| 0 <= i < s.len() ==> DEFAULT_REVIEW_INTERVAL <= (#[trigger] s[i]).review_interval <= MAX_REVIEW_INTERVAL
}

/// Sample ids are distinct.
pub open spec fn sample_ids_unique(s: Seq<SampleV>) -> bool {
    forall|i: int, j: int| 0 <= i < s.len() && 0 <= j < s.len() && (#[trigger] s[i]).id == (#[trigger] s[j]).id ==> i == j
}

/// The anc chain of a task in a store whose depths fit: the `k`-th ancestor
/// exists for `k <= depth`, sits `k` levels higher, and there is none beyond.
pub proof fn lemma_anc_depth(s: Seq<TaskV>, depth: Map<Seq<char>, nat>, id: Seq<char>, k: nat)
    requires
        depth_fits(s, depth),
        has_task(s, id),
    ensures
        k <= depth[id] ==> (anc_at(s, id, k) matches Some(a) && has_task(s, a) && depth[a] + k == depth[id]),
        k > depth[id] ==> anc_at(s, id, k) is None,
    decreases k,
{
    let i = index_of_id(s, id);
    assert(s[i].id == id);
    if k > 0 {
        match s[i].parent_id {
            Some(p) => {
                assert(parent_of(s, id) == Some(p));
                lemma_anc_depth(s, depth, p, (k - 1) as nat);
            },
            None => {
                assert(parent_of(s, id) is None);
            },
        }
    }
}

/// In a store whose depths fit, a task's distance to an ancestor is unique.
pub proof fn lemma_anc_unique(s: Seq<TaskV>, depth: Map<Seq<char>, nat>, id: Seq<char>, k1: nat, k2: nat)
    requires
        depth_fits(s, depth),
        has_task(s, id),
        anc_at(s, id, k1) is Some,
        anc_at(s, id, k1) == anc_at(s, id, k2),
    ensures
        k1 == k2,
{
    lemma_anc_depth(s, depth, id, k1);
    lemma_anc_depth(s, depth, id, k2);
}

/// In a store whose depths fit, a depth is less than the number of tasks:
/// the chain of ancestors holds that many distinct tasks.
pub proof fn lemma_depth_bound(s: Seq<TaskV>, depth: Map<Seq<char>, nat>, id: Seq<char>)
    requires
        depth_fits(s, depth),
        ids_unique(s),
        has_task(s, id),
    ensures
        depth[id] < s.len(),
{
    let n = depth[id];
    let dom = vstd::set_lib::set_int_range(0, (n + 1) as int);
    let f = |k: int| index_of_id(s, anc_at(s, id, k as nat)->0);
    let img = dom.map(f);
    let all = vstd::set_lib::set_int_range(0, s.len() as int);
    vstd::set_lib::lemma_int_range(0, (n + 1) as int);
    vstd::set_lib::lemma_int_range(0, s.len() as int);
    assert forall|k1: int, k2: int| dom.contains(k1) && dom.contains(k2) && #[trigger] f(k1) == #[trigger] f(k2) implies k1 == k2 by {
        lemma_anc_depth(s, depth, id, k1 as nat);
        lemma_anc_depth(s, depth, id, k2 as nat);
        let a1 = anc_at(s, id, k1 as nat)->0;
        let a2 = anc_at(s, id, k2 as nat)->0;
        assert(s[index_of_id(s, a1)].id == a1);
        assert(s[index_of_id(s, a2)].id == a2);
    }
    vstd::set_lib::lemma_map_size(dom, img, f);
    assert forall|x: int| img.contains(x) implies all.contains(x) by {
        let k = choose|k: int| dom.contains(k) && f(k) == x;
        lemma_anc_depth(s, depth, id, k as nat);
    }
    vstd::set_lib::lemma_len_subset(img, all);
}

impl TaskStore {
    /// The database holds together: ids are unique, parents and linked
    /// tasks exist, the tree has no cycle, review intervals are in range and
    /// at most three tasks are focused.
    pub closed spec fn wf(&self) -> bool {
        let s = self@.tasks;
        &&& ids_unique(s)
        &&& depth_fits(s, self.depth@)
        &&& samples_linked(s, self@.samples)
        &&& sample_ids_unique(self@.samples)
        &&& intervals_bounded(s)
        &&& focus_count(s) <= MAX_FOCUSED
    }

    /// What every well-formed database satisfies.
    pub proof fn lemma_wf(&self)
        requires
            self.wf(),
        ensures
            ids_unique(self@.tasks),
            forall|i: int| 0 <= i < self@.tasks.len() ==>
                ((#[trigger] self@.tasks[i]).parent_id matches Some(p) ==> has_task(self@.tasks, p)),
            samples_linked(self@.tasks, self@.samples),
            sample_ids_unique(self@.samples),
            intervals_bounded(self@.tasks),
            focus_count(self@.tasks) <= MAX_FOCUSED,
    {
        assert forall|i: int| 0 <= i < self@.tasks.len() implies
            ((#[trigger] self@.tasks[i]).parent_id matches Some(p) ==> has_task(self@.tasks, p)) by {
        }
    }

    /// In a well-formed database, walking up from any task ends at a root:
    /// there is no cycle.
    pub proof fn lemma_acyclic(&self, id: Seq<char>)
        requires
            self.wf(),
            has_task(self@.tasks, id),
        ensures
            exists|k: nat| k < self@.tasks.len() && (#[trigger] anc_at(self@.tasks, id, k) matches Some(r)
                && has_task(self@.tasks, r) && parent_of(self@.tasks, r) is None),
    {
        let s = self@.tasks;
        let n = self.depth@[id];
        lemma_anc_depth(s, self.depth@, id, n);
        lemma_depth_bound(s, self.depth@, id);
        let r = anc_at(s, id, n)->0;
        let j = index_of_id(s, r);
        assert(s[j].id == r);
        assert(s[j].parent_id is None);
    }

    /// In a well-formed database a task's distance to an ancestor is unique.
    pub proof fn lemma_dist_unique(&self, id: Seq<char>, k1: nat, k2: nat)
        requires
            self.wf(),
            has_task(self@.tasks, id),
            anc_at(self@.tasks, id, k1) is Some,
            anc_at(self@.tasks, id, k1) == anc_at(self@.tasks, id, k2),
        ensures
            k1 == k2,
    {
        lemma_anc_unique(self@.tasks, self.depth@, id, k1, k2);
    }

    /// In a well-formed database an ancestor of an existing task exists.
    pub proof fn lemma_ancestor_exists(&self, d: Seq<char>, a: Seq<char>)
        requires
            self.wf(),
            has_task(self@.tasks, d),
            is_desc(self@.tasks, d, a),
        ensures
            has_task(self@.tasks, a),
    {
        lemma_desc_deeper(self@.tasks, self.depth@, d, a);
    }

    /// An empty database.
    pub fn new() -> (r: TaskStore)
        ensures
            r.wf(),
            r@.tasks.len() == 0,
            r@.samples.len() == 0,
    {
        let r = TaskStore { tasks: Vec::new(), samples: Vec::new(), depth: Ghost(Map::empty()) };
        assert(r@.tasks =~= Seq::<TaskV>::empty());
        r
    }

    /// All tasks, in insertion order.
    pub fn all_tasks(&self) -> (r: &Vec<Task>)
        ensures
            task_views(r@) == self@.tasks,
    {
        &self.tasks
    }

    /// All samples, in insertion order.
    pub fn all_samples(&self) -> (r: &Vec<Sample>)
        ensures
            sample_views(r@) == self@.samples,
    {
        &self.samples
    }

    /// Where the task with this id stands.
    pub fn find_index(&self, id: &str) -> (r: Option<usize>)
        ensures
            match r {
                Some(i) => i < self@.tasks.len() && self@.tasks[i as int].id == id@,
                None => !has_task(self@.tasks, id@),
            },
    {
        let mut i: usize = 0;
        while i < self.tasks.len()
            invariant
                i <= self.tasks.len(),
                forall|j: int| 0 <= j < i ==> self@.tasks[j].id != id@,
            decreases self.tasks.len() - i,
        {
            if crate::text::text_eq(self.tasks[i].id.as_str(), id) {
                return Some(i);
            }
            i = i + 1;
        }
        None
    }

    /// The task with this id.
    pub fn get_task(&self, id: &str) -> (r: Result<Task, StoreError>)
        requires
            self.wf(),
        ensures
            match r {
                Ok(t) => has_task(self@.tasks, id@) && t@ == task_of(self@.tasks, id@),
                Err(e) => !has_task(self@.tasks, id@) && e == StoreError::NotFound,
            },
    {
        match self.find_index(id) {
            Some(i) => {
                proof {
                    assert(index_of_id(self@.tasks, id@) == i as int);
                }
                Ok(self.tasks[i].duplicate())
            },
            None => Err(StoreError::NotFound),
        }
    }

    /// The tasks satisfying `pending_only`-aware parent selection, in
    /// insertion order.
    fn select_children(&self, parent: Option<&str>, pending_only: bool) -> (r: Vec<Task>)
        ensures
            task_views(r@) == self@.tasks.filter(
                if pending_only { pending_child_of(opt_str_view(parent)) } else { child_of(opt_str_view(parent)) },
            ),
    {
        let ghost pred = if pending_only {
            pending_child_of(opt_str_view(parent))
        } else {
            child_of(opt_str_view(parent))
        };
        let ghost s = self@.tasks;
        let mut out: Vec<Task> = Vec::new();
        let mut i: usize = 0;
        while i < self.tasks.len()
            invariant
                i <= self.tasks.len(),
                s == self@.tasks,
                s.len() == self.tasks@.len(),
                task_views(out@) == s.take(i as int).filter(pred),
                pred == (if pending_only {
                    pending_child_of(opt_str_view(parent))
                } else {
                    child_of(opt_str_view(parent))
                }),
            decreases self.tasks.len() - i,
        {
            let t = &self.tasks[i];
            let same_parent = match (&t.parent_id, parent) {
                (None, None) => true,
                (Some(a), Some(b)) => crate::text::text_eq(a.as_str(), b),
                _ => false,
            };
            let keep = same_parent && (!pending_only || !t.completed);
            proof {
                lemma_take_filter_step(s, i as int, pred);
                assert(s[i as int] == t@);
                assert(same_parent == (t@.parent_id == opt_str_view(parent)));
                if pending_only {
                    assert(pred == pending_child_of(opt_str_view(parent)));
                } else {
                    assert(pred == child_of(opt_str_view(parent)));
                }
                assert(keep == pred(t@));
            }
            if keep {
                let ghost before = task_views(out@);
                out.push(t.duplicate());
                assert(task_views(out@) =~= before.push(t@));
            }
            i = i + 1;
        }
        assert(s.take(s.len() as int) =~= s);
        out
    }

    /// The children of `parent` (the roots for `None`), ordered by position.
    pub fn get_children(&self, parent: Option<&str>) -> (r: Vec<Task>)
        requires
            self.wf(),
        ensures
            sorted_by(SortKey::Position, task_views(r@)),
            task_views(r@).to_multiset() == self@.tasks.filter(child_of(opt_str_view(parent))).to_multiset(),
    {
        sort_tasks(self.select_children(parent, false), SortKey::Position)
    }

    /// The unfinished children of `parent` (the roots for `None`), ordered by
    /// position.
    pub fn get_pending_children(&self, parent: Option<&str>) -> (r: Vec<Task>)
        requires
            self.wf(),
        ensures
            sorted_by(SortKey::Position, task_views(r@)),
            task_views(r@).to_multiset() == self@.tasks.filter(pending_child_of(opt_str_view(parent))).to_multiset(),
    {
        sort_tasks(self.select_children(parent, true), SortKey::Position)
    }

    /// The task with this id and its children ordered by position.
    pub fn get_task_with_children(&self, id: &str) -> (r: Result<TaskWithChildren, StoreError>)
        requires
            self.wf(),
        ensures
            match r {
                Ok(tw) => {
                    &&& has_task(self@.tasks, id@)
                    &&& tw.task@ == task_of(self@.tasks, id@)
                    &&& sorted_by(SortKey::Position, task_views(tw.children@))
                    &&& task_views(tw.children@).to_multiset()
                        == self@.tasks.filter(child_of(Some(id@))).to_multiset()
                },
                Err(e) => !has_task(self@.tasks, id@) && e == StoreError::NotFound,
            },
    {
        let task = self.get_task(id)?;
        let children = self.get_children(Some(id));
        Ok(TaskWithChildren { task, children })
    }

    /// The position a new child of `parent` gets, or none when it would not
    /// fit in an `i64`.
    fn next_position_exec(&self, parent: &Option<String>) -> (r: Option<i64>)
        ensures
            match r {
                Some(p) => p as int == next_position(self@.tasks, opt_view(*parent)),
                None => next_position(self@.tasks, opt_view(*parent)) > i64::MAX,
            },
    {
        let ghost s = self@.tasks;
        let ghost p = opt_view(*parent);
        let mut best: Option<i64> = None;
        let mut i: usize = 0;
        while i < self.tasks.len()
            invariant
                i <= self.tasks.len(),
                s == self@.tasks,
                s.len() == self.tasks@.len(),
                p == opt_view(*parent),
                best == max_position(s.take(i as int), p),
            decreases self.tasks.len() - i,
        {
            let t = &self.tasks[i];
            let same = match (&t.parent_id, parent) {
                (None, None) => true,
                (Some(a), Some(b)) => crate::text::text_eq(a.as_str(), b.as_str()),
                _ => false,
            };
            proof {
                assert(s.take(i + 1).drop_last() =~= s.take(i as int));
                assert(s.take(i + 1).last() == t@);
            }
            if same {
                best = match best {
                    Some(m) => if m >= t.position { Some(m) } else { Some(t.position) },
                    None => Some(t.position),
                };
            }
            i = i + 1;
        }
        assert(s.take(s.len() as int) =~= s);
        match best {
            Some(m) => if m < i64::MAX { Some(m + 1) } else { None },
            None => Some(0),
        }
    }

    /// Inserts a new task with the given id and timestamp: last among its
    /// siblings, unfinished, unacknowledged, not deferred, not focused.
    pub fn create_task_at(&mut self, input: &CreateTask, id: String, now: String) -> (r: Result<Task, StoreError>)
        requires
            old(self).wf(),
        ensures
            final(self).wf(),
            match r {
                Ok(t) => {
                    &&& !has_task(old(self)@.tasks, id@)
                    &&& (opt_view(input.parent_id) matches Some(p) ==> has_task(old(self)@.tasks, p))
                    &&& next_position(old(self)@.tasks, opt_view(input.parent_id)) <= i64::MAX
                    &&& t@ == created_task(old(self)@.tasks, opt_view(input.parent_id), input.title@, input.notes@, id@, now@)
                    &&& final(self)@.tasks == parent_touched(old(self)@.tasks, opt_view(input.parent_id), now@).push(t@)
                    &&& final(self)@.samples == old(self)@.samples
                },
                Err(e) => {
                    &&& final(self)@ == old(self)@
                    &&& e == if has_task(old(self)@.tasks, id@) {
                        StoreError::DuplicateId
                    } else if opt_view(input.parent_id) matches Some(p) && !has_task(old(self)@.tasks, p) {
                        StoreError::ParentNotFound
                    } else {
                        StoreError::PositionOverflow
                    }
                    &&& has_task(old(self)@.tasks, id@)
                        || (opt_view(input.parent_id) matches Some(p) && !has_task(old(self)@.tasks, p))
                        || next_position(old(self)@.tasks, opt_view(input.parent_id)) > i64::MAX
                },
            },
    {
        if self.find_index(id.as_str()).is_some() {
            return Err(StoreError::DuplicateId);
        }
        let ghost s0 = self@.tasks;
        let parent_ix: Option<usize> = match &input.parent_id {
            Some(p) => {
                match self.find_index(p.as_str()) {
                    Some(j) => Some(j),
                    None => {
                        return Err(StoreError::ParentNotFound);
                    },
                }
            },
            None => None,
        };
        let position = match self.next_position_exec(&input.parent_id) {
            Some(p) => p,
            None => {
                return Err(StoreError::PositionOverflow);
            },
        };
        if let Some(j) = parent_ix {
            proof {
                assert(intervals_bounded(self@.tasks));
                assert(DEFAULT_REVIEW_INTERVAL <= self@.tasks[j as int].review_interval <= MAX_REVIEW_INTERVAL);
            }
            let parent = self.tasks[j].duplicate();
            let touched = Task { updated_at: now.clone(), ..parent };
            self.set_task(j, touched);
        }
        let parent_depth: Ghost<nat> = Ghost(
            match opt_view(input.parent_id) {
                Some(p) => self.depth@[p] + 1,
                None => 0nat,
            },
        );
        let ghost s = self@.tasks;
        proof {
            match opt_view(input.parent_id) {
                Some(p) => {
                    assert(index_of_id(s0, p) == parent_ix.unwrap() as int);
                    assert(s[parent_ix.unwrap() as int].id == p);
                    assert(has_task(s, p));
                },
                None => {},
            }
            assert(s == parent_touched(s0, opt_view(input.parent_id), now@));
            assert forall|x: Seq<char>| has_task(s, x) == has_task(s0, x) by {
                if has_task(s0, x) {
                    let i = choose|i: int| 0 <= i < s0.len() && s0[i].id == x;
                    assert(s[i].id == x);
                }
                if has_task(s, x) {
                    let i = choose|i: int| 0 <= i < s.len() && s[i].id == x;
                    assert(s0[i].id == x);
                }
            }
        }
        let task = Task {
            id,
            parent_id: copy_opt_string(&input.parent_id),
            title: input.title.clone(),
            notes: input.notes.clone(),
            completed: false,
            position,
            created_at: now.clone(),
            updated_at: now,
            deferred: false,
            review_interval: DEFAULT_REVIEW_INTERVAL,
            next_review_at: None,
            acknowledged: false,
            focused: false,
            focused_at: None,
            budget_minutes: None,
        };
        let ghost tv = task@;
        let result = task.duplicate();
        self.tasks.push(task);
        proof {
            let s2 = self@.tasks;
            assert(s2 =~= s.push(tv));
            self.depth@ = self.depth@.insert(tv.id, parent_depth@);
            assert forall|x: Seq<char>| has_task(s, x) implies has_task(s2, x) by {
                lemma_has_task_push(s, tv, x);
            }
            assert forall|i: int| 0 <= i < s.len() implies s[i].id != tv.id by {
                assert(has_task(s, s[i].id));
            }
            assert(depth_fits(s2, self.depth@));
            lemma_focus_count_push(s, tv);
        }
        Ok(result)
    }

    /// Applies the partial update `u` to the task `id` at time `now`.
    /// A move under the task itself or one of its descendants is refused.
    pub fn update_task_at(&mut self, id: &str, u: &UpdateTask, now: String) -> (r: Result<Task, StoreError>)
        requires
            old(self).wf(),
        ensures
            final(self).wf(),
            match r {
                Ok(t) => {
                    &&& has_task(old(self)@.tasks, id@)
                    &&& t@ == updated_task(task_of(old(self)@.tasks, id@), *u, now@)
                    &&& (new_parent(task_of(old(self)@.tasks, id@), *u) matches Some(p) ==> has_task(old(self)@.tasks, p)
                        && !is_desc(old(self)@.tasks, p, id@))
                    &&& final(self)@.tasks == old(self)@.tasks.update(index_of_id(old(self)@.tasks, id@), t@)
                    &&& final(self)@.samples == old(self)@.samples
                },
                Err(e) => {
                    &&& final(self)@ == old(self)@
                    &&& e == if !has_task(old(self)@.tasks, id@) {
                        StoreError::NotFound
                    } else if new_parent(task_of(old(self)@.tasks, id@), *u) matches Some(p) && !has_task(old(self)@.tasks, p) {
                        StoreError::ParentNotFound
                    } else {
                        StoreError::WouldCycle
                    }
                    &&& !has_task(old(self)@.tasks, id@)
                        || (new_parent(task_of(old(self)@.tasks, id@), *u) matches Some(p) && (!has_task(old(self)@.tasks, p)
                            || is_desc(old(self)@.tasks, p, id@)))
                },
            },
    {
        let ix = match self.find_index(id) {
            Some(i) => i,
            None => {
                return Err(StoreError::NotFound);
            },
        };
        let ghost s = self@.tasks;
        proof {
            assert(index_of_id(s, id@) == ix as int);
        }
        let old_task = &self.tasks[ix];
        let parent_id: Option<String> = match &u.parent_id {
            None => copy_opt_string(&old_task.parent_id),
            Some(p) => if p.as_str().unicode_len() == 0 { None } else { Some(p.clone()) },
        };
        match &parent_id {
            Some(p) => {
                match self.find_index(p.as_str()) {
                    Some(j) => {
                        if self.dist_to(j, id).is_some() {
                            return Err(StoreError::WouldCycle);
                        }
                    },
                    None => {
                        return Err(StoreError::ParentNotFound);
                    },
                }
            },
            None => {},
        }
        let t = Task {
            id: old_task.id.clone(),
            parent_id,
            title: match &u.title { Some(x) => x.clone(), None => old_task.title.clone() },
            notes: match &u.notes { Some(x) => x.clone(), None => old_task.notes.clone() },
            completed: match u.completed { Some(x) => x, None => old_task.completed },
            position: match u.position { Some(x) => x, None => old_task.position },
            created_at: old_task.created_at.clone(),
            updated_at: now,
            deferred: match u.deferred { Some(x) => x, None => old_task.deferred },
            review_interval: old_task.review_interval,
            next_review_at: copy_opt_string(&old_task.next_review_at),
            acknowledged: match u.acknowledged { Some(x) => x, None => old_task.acknowledged },
            focused: old_task.focused,
            focused_at: copy_opt_string(&old_task.focused_at),
            budget_minutes: old_task.budget_minutes,
        };
        let ghost tv = t@;
        let result = t.duplicate();
        self.tasks.set(ix, t);
        proof {
            let s2 = self@.tasks;
            assert(s2 =~= s.update(ix as int, tv));
            assert(tv == updated_task(s[ix as int], *u, tv.updated_at));
            lemma_reparent_depths(s, self.depth@, ix as int, tv);
            self.depth@ = reparented_depths(s, self.depth@, tv.id, tv.parent_id);
            assert forall|x: Seq<char>| has_task(s2, x) == has_task(s, x) by {
                lemma_has_task_update(s, ix as int, tv, x);
            }
            assert forall|i: int, j: int| 0 <= i < s2.len() && 0 <= j < s2.len() && (#[trigger] s2[i]).id == (#[trigger] s2[j]).id implies i == j by {
                assert(s2[i].id == s[i].id);
                assert(s2[j].id == s[j].id);
            }
            lemma_focus_count_update(s, ix as int, tv);
        }
        Ok(result)
    }

    /// Deletes the task `id` with its whole subtree; samples linked to a
    /// deleted task lose their link. Deleting a missing task changes nothing.
    pub fn delete_task(&mut self, id: &str)
        requires
            old(self).wf(),
        ensures
            final(self).wf(),
            final(self)@.tasks == old(self)@.tasks.filter(survives(old(self)@.tasks, id@)),
            final(self)@.samples == old(self)@.samples.map_values(unlinked(old(self)@.tasks, id@)),
    {
        let ghost s = self@.tasks;
        let ghost pred = survives(s, id@);
        let mut kept: Vec<Task> = Vec::new();
        let mut i: usize = 0;
        while i < self.tasks.len()
            invariant
                self.wf(),
                s == self@.tasks,
                s.len() == self.tasks@.len(),
                pred == survives(s, id@),
                i <= self.tasks.len(),
                task_views(kept@) == s.take(i as int).filter(pred),
                ids_unique(task_views(kept@)),
                forall|k: int| 0 <= k < kept@.len() ==> exists|j: int| 0 <= j < i && s[j] == #[trigger] task_views(kept@)[k],
                focus_count(task_views(kept@)) <= focus_count(s.take(i as int)),
            decreases self.tasks.len() - i,
        {
            let inside = self.dist_to(i, id).is_some();
            let ghost before = task_views(kept@);
            proof {
                lemma_take_filter_step(s, i as int, pred);
                assert(s.take(i + 1).drop_last() =~= s.take(i as int));
            }
            if !inside {
                kept.push(self.tasks[i].duplicate());
                proof {
                    let after = task_views(kept@);
                    assert(after =~= before.push(s[i as int]));
                    lemma_focus_count_push(before, s[i as int]);
                    assert forall|a: int, b: int| 0 <= a < after.len() && 0 <= b < after.len() && (#[trigger] after[a]).id == (#[trigger] after[b]).id implies a == b by {
                        if a < before.len() && b == before.len() {
                            let j = choose|j: int| 0 <= j < i && s[j] == #[trigger] before[a];
                            assert(s[j].id == s[i as int].id);
                        } else if b < before.len() && a == before.len() {
                            let j = choose|j: int| 0 <= j < i && s[j] == #[trigger] before[b];
                            assert(s[j].id == s[i as int].id);
                        }
                    }
                    assert forall|k: int| 0 <= k < after.len() implies exists|j: int| 0 <= j < i + 1 && s[j] == #[trigger] after[k] by {
                        if k < before.len() {
                            let j = choose|j: int| 0 <= j < i && s[j] == #[trigger] before[k];
                            assert(s[j] == after[k]);
                        } else {
                            assert(s[i as int] == after[k]);
                        }
                    }
                }
            }
            i = i + 1;
        }
        assert(s.take(s.len() as int) =~= s);
        let ghost samples = self@.samples;
        let ghost f = unlinked(s, id@);
        let mut new_samples: Vec<Sample> = Vec::new();
        let mut j: usize = 0;
        while j < self.samples.len()
            invariant
                self.wf(),
                s == self@.tasks,
                samples == self@.samples,
                samples.len() == self.samples@.len(),
                f == unlinked(s, id@),
                j <= self.samples.len(),
                sample_views(new_samples@) == samples.take(j as int).map_values(f),
            decreases self.samples.len() - j,
        {
            let x = &self.samples[j];
            let cleared = match &x.task_id {
                Some(t) => {
                    match self.find_index(t.as_str()) {
                        Some(ti) => self.dist_to(ti, id).is_some(),
                        None => false,
                    }
                },
                None => false,
            };
            let y = if cleared {
                Sample {
                    id: x.id.clone(),
                    prompt_type: x.prompt_type.clone(),
                    response: x.response.clone(),
                    created_at: x.created_at.clone(),
                    task_id: None,
                }
            } else {
                x.duplicate()
            };
            proof {
                assert(samples[j as int] == x@);
                if x@.task_id is Some {
                    assert(samples_linked(s, samples));
                    assert(has_task(s, x@.task_id->0));
                    let ti = index_of_id(s, x@.task_id->0);
                    assert(s[ti].id == x@.task_id->0);
                }
                assert(y@ == f(x@));
                assert(samples.take(j + 1).map_values(f) =~= samples.take(j as int).map_values(f).push(f(x@)));
            }
            let ghost before = sample_views(new_samples@);
            new_samples.push(y);
            assert(sample_views(new_samples@) =~= before.push(y@));
            j = j + 1;
        }
        assert(samples.take(samples.len() as int) =~= samples);
        let ghost kv = task_views(kept@);
        let ghost nv = sample_views(new_samples@);
        proof {
            // every survivor keeps its parent: a parent inside the deleted
            // subtree would put the child inside it too
            assert forall|k: int| 0 <= k < kv.len() implies {
                &&& self.depth@.contains_key((#[trigger] kv[k]).id)
                &&& match kv[k].parent_id {
                    None => self.depth@[kv[k].id] == 0,
                    Some(p) => has_task(kv, p) && self.depth@[kv[k].id] == self.depth@[p] + 1,
                }
            } by {
                let j = choose|j: int| 0 <= j < s.len() && s[j] == #[trigger] kv[k];
                assert(s[j] == kv[k]);
                s.lemma_filter_pred(pred, k);
                match kv[k].parent_id {
                    Some(p) => {
                        assert(has_task(s, p));
                        lemma_desc_step(s, kv[k].id, id@);
                        assert(parent_of(s, kv[k].id) == Some(p)) by {
                            assert(index_of_id(s, kv[k].id) == j);
                        }
                        let pi = index_of_id(s, p);
                        assert(s[pi].id == p);
                        assert(pred(s[pi]));
                        s.lemma_filter_contains(pred, pi);
                        let q = choose|q: int| 0 <= q < kv.len() && kv[q] == s[pi];
                        assert(kv[q].id == p);
                    },
                    None => {},
                }
            }
            assert forall|k: int| 0 <= k < kv.len() implies DEFAULT_REVIEW_INTERVAL <= (#[trigger] kv[k]).review_interval <= MAX_REVIEW_INTERVAL by {
                let j = choose|j: int| 0 <= j < s.len() && s[j] == #[trigger] kv[k];
                assert(s[j] == kv[k]);
            }
            assert forall|k: int| 0 <= k < nv.len() implies ((#[trigger] nv[k]).task_id matches Some(t) ==> has_task(kv, t)) by {
                let x = samples[k];
                assert(nv[k] == f(x));
                if nv[k].task_id is Some {
                    let t = nv[k].task_id->0;
                    assert(x.task_id == Some(t));
                    assert(!is_desc(s, t, id@));
                    assert(has_task(s, t));
                    let ti = index_of_id(s, t);
                    assert(s[ti].id == t);
                    assert(pred(s[ti]));
                    s.lemma_filter_contains(pred, ti);
                    let q = choose|q: int| 0 <= q < kv.len() && kv[q] == s[ti];
                    assert(kv[q].id == t);
                }
            }
            assert forall|a: int, b: int| 0 <= a < nv.len() && 0 <= b < nv.len() && (#[trigger] nv[a]).id == (#[trigger] nv[b]).id implies a == b by {
                assert(nv[a].id == samples[a].id);
                assert(nv[b].id == samples[b].id);
            }
        }
        self.tasks = kept;
        self.samples = new_samples;
    }

    /// Replaces the task at `ix` by one with the same id and parent.
    fn set_task(&mut self, ix: usize, t: Task)
        requires
            old(self).wf(),
            ix < old(self)@.tasks.len(),
            t@.id == old(self)@.tasks[ix as int].id,
            t@.parent_id == old(self)@.tasks[ix as int].parent_id,
            DEFAULT_REVIEW_INTERVAL <= t@.review_interval <= MAX_REVIEW_INTERVAL,
            t@.focused && !old(self)@.tasks[ix as int].focused ==> focus_count(old(self)@.tasks) < MAX_FOCUSED,
        ensures
            final(self).wf(),
            final(self)@.tasks == old(self)@.tasks.update(ix as int, t@),
            final(self)@.samples == old(self)@.samples,
    {
        let ghost s = self@.tasks;
        let ghost tv = t@;
        self.tasks.set(ix, t);
        proof {
            let s2 = self@.tasks;
            assert(s2 =~= s.update(ix as int, tv));
            assert forall|x: Seq<char>| has_task(s2, x) == has_task(s, x) by {
                lemma_has_task_update(s, ix as int, tv, x);
            }
            assert forall|i: int, j: int| 0 <= i < s2.len() && 0 <= j < s2.len() && (#[trigger] s2[i]).id == (#[trigger] s2[j]).id implies i == j by {
                assert(s2[i].id == s[i].id);
                assert(s2[j].id == s[j].id);
            }
            assert(depth_fits(s2, self.depth@)) by {
                assert forall|i: int| 0 <= i < s2.len() implies {
                    &&& self.depth@.contains_key((#[trigger] s2[i]).id)
                    &&& match s2[i].parent_id {
                        None => self.depth@[s2[i].id] == 0,
                        Some(p) => has_task(s2, p) && self.depth@[s2[i].id] == self.depth@[p] + 1,
                    }
                } by {
                    assert(s2[i].id == s[i].id && s2[i].parent_id == s[i].parent_id);
                }
            }
            lemma_focus_count_update(s, ix as int, tv);
        }
    }


    /// Puts back a stored task as it was: refused when its id is taken, its
    /// parent is missing, its review interval is out of range, or it is
    /// focused and three tasks are focused already.
    pub fn restore_task(&mut self, t: Task) -> (r: Result<(), StoreError>)
        requires
            old(self).wf(),
        ensures
            final(self).wf(),
            r is Ok ==> final(self)@.tasks == old(self)@.tasks.push(t@) && final(self)@.samples == old(self)@.samples,
            r is Err ==> final(self)@ == old(self)@,
            r == Err::<(), StoreError>(StoreError::DuplicateId) <==> has_task(old(self)@.tasks, t@.id),
            !has_task(old(self)@.tasks, t@.id) ==> (r == Err::<(), StoreError>(StoreError::ParentNotFound)
                <==> (t@.parent_id matches Some(p) && !has_task(old(self)@.tasks, p))),
            r is Ok <==> restorable(old(self)@.tasks, t@),
    {
        if self.find_index(t.id.as_str()).is_some() {
            return Err(StoreError::DuplicateId);
        }
        let ghost s = self@.tasks;
        let parent_depth: Ghost<nat> = match &t.parent_id {
            Some(p) => {
                match self.find_index(p.as_str()) {
                    Some(j) => Ghost(self.depth@[p@] + 1),
                    None => {
                        return Err(StoreError::ParentNotFound);
                    },
                }
            },
            None => Ghost(0nat),
        };
        if t.review_interval < DEFAULT_REVIEW_INTERVAL || t.review_interval > MAX_REVIEW_INTERVAL {
            return Err(StoreError::InvalidRecord);
        }
        if t.focused && self.focused_count() >= MAX_FOCUSED {
            return Err(StoreError::FocusLimit);
        }
        let ghost tv = t@;
        self.tasks.push(t);
        proof {
            let s2 = self@.tasks;
            assert(s2 =~= s.push(tv));
            self.depth@ = self.depth@.insert(tv.id, parent_depth@);
            assert forall|x: Seq<char>| has_task(s, x) implies has_task(s2, x) by {
                lemma_has_task_push(s, tv, x);
            }
            assert forall|i: int| 0 <= i < s.len() implies s[i].id != tv.id by {
                assert(has_task(s, s[i].id));
            }
            assert(depth_fits(s2, self.depth@));
            lemma_focus_count_push(s, tv);
            assert(intervals_bounded(s2)) by {
                assert forall|i: int| 0 <= i < s2.len() implies DEFAULT_REVIEW_INTERVAL <= (#[trigger] s2[i]).review_interval <= MAX_REVIEW_INTERVAL by {
                    if i < s.len() {
                        assert(s2[i] == s[i]);
                    }
                }
            }
        }
        Ok(())
    }

    /// A database holding the stored tasks and samples, checked against the
    /// database's rules. Tasks may come in any order: a task whose parent is
    /// not in yet waits for a later pass. Refused when a record breaks a
    /// rule, or when some task's parent never comes (a missing parent or a
    /// cycle).
    pub fn load(rows: Vec<Task>, samples: &Vec<Sample>) -> (r: Result<TaskStore, StoreError>)
        ensures
            r matches Ok(st) ==> st.wf() && st@.tasks.to_multiset() == task_views(rows@).to_multiset()
                && st@.samples == sample_views(samples@),
            loadable(task_views(rows@), sample_views(samples@)) ==> r is Ok,
    {
        broadcast use vstd::seq_lib::group_to_multiset_ensures, vstd::multiset::group_multiset_axioms,
            vstd::multiset::lemma_multiset_empty_len;
        let mut store = TaskStore::new();
        let ghost total = task_views(rows@).to_multiset();
        let ghost rv = task_views(rows@);
        let ghost n = rv.len();
        let ghost ok = loadable(rv, sample_views(samples@));
        let ghost dm = choose|d: Map<Seq<char>, nat>| depth_fits(rv, d);
        let ghost mut sidx: Seq<int> = Seq::empty();
        let ghost mut pidx: Seq<int> = Seq::new(n, |k: int| k);
        let mut pending: Vec<Task> = rows;
        proof {
            vstd::seq_lib::to_multiset_len(store@.tasks);
            vstd::multiset::lemma_multiset_empty_len(store@.tasks.to_multiset());
            assert(store@.tasks.to_multiset() =~= vstd::multiset::Multiset::empty());
            assert(store@.tasks.to_multiset().add(task_views(pending@).to_multiset()) =~= total);
            assert forall|a: int| 0 <= a < n implies sidx.contains(a) || pidx.contains(a) by {
                assert(pidx[a] == a);
            }
        }
        while pending.len() > 0
            invariant
                store.wf(),
                store@.samples.len() == 0,
                store@.tasks.to_multiset().add(task_views(pending@).to_multiset()) == total,
                rv == task_views(rows@),
                n == rv.len(),
                ok == loadable(rv, sample_views(samples@)),
                ok ==> depth_fits(rv, dm),
                placed(store@.tasks, rv, sidx),
                placed(task_views(pending@), rv, pidx),
                pidx.no_duplicates(),
                forall|a: int| 0 <= a < n ==> sidx.contains(a) || pidx.contains(a),
                forall|a: int| !(sidx.contains(a) && pidx.contains(a)),
            decreases pending@.len(),
        {
            let ghost start = store@.tasks;
            let ghost pend = task_views(pending@);
            let ghost sidx0 = sidx;
            let ghost pstart = pidx;
            let ghost mut nidx: Seq<int> = Seq::empty();
            proof {
                if ok {
                    lemma_least_deep_exists(rv, dm, pstart);
                }
            }
            let ghost jm = choose|j: int| least_deep_at(rv, dm, pstart, j);
            let mut next: Vec<Task> = Vec::new();
            let mut progressed = false;
            proof {
                assert(task_views(next@) =~= Seq::<TaskV>::empty());
                vstd::seq_lib::to_multiset_len(task_views(next@));
                vstd::multiset::lemma_multiset_empty_len(task_views(next@).to_multiset());
                assert(task_views(next@).to_multiset() =~= vstd::multiset::Multiset::empty());
                assert(start.to_multiset().add(task_views(next@).to_multiset()).add(pend.to_multiset())
                    =~= start.to_multiset().add(pend.to_multiset()));
                assert(pstart.take(pidx.len() as int) =~= pidx);
            }
            while pending.len() > 0
                invariant
                    store.wf(),
                    store@.samples.len() == 0,
                    store@.tasks.to_multiset().add(task_views(next@).to_multiset()).add(task_views(pending@).to_multiset())
                        == start.to_multiset().add(pend.to_multiset()),
                    progressed ==> store@.tasks.len() > start.len(),
                    !progressed ==> store@.tasks.len() == start.len(),
                    rv == task_views(rows@),
                    n == rv.len(),
                    ok == loadable(rv, sample_views(samples@)),
                    ok ==> depth_fits(rv, dm),
                    ok ==> least_deep_at(rv, dm, pstart, jm),
                    ok ==> (progressed || jm < pidx.len()),
                    placed(start, rv, sidx0),
                    placed(store@.tasks, rv, sidx),
                    placed(task_views(pending@), rv, pidx),
                    placed(task_views(next@), rv, nidx),
                    pidx.no_duplicates(),
                    nidx.no_duplicates(),
                    pidx == pstart.take(pidx.len() as int),
                    pstart.len() >= pidx.len(),
                    start.len() <= store@.tasks.len(),
                    forall|k: int| 0 <= k < start.len() ==> store@.tasks[k] == #[trigger] start[k],
                    forall|a: int| 0 <= a < n ==> sidx0.contains(a) || pstart.contains(a),
                    forall|a: int| 0 <= a < n ==> sidx.contains(a) || nidx.contains(a) || pidx.contains(a),
                    forall|a: int| !(sidx.contains(a) && pidx.contains(a)),
                    forall|a: int| !(sidx.contains(a) && nidx.contains(a)),
                    forall|a: int| !(nidx.contains(a) && pidx.contains(a)),
                decreases pending@.len(),
            {
                let ghost before = pending@;
                let ghost store_before = store@.tasks;
                let ghost next_before = task_views(next@);
                let ghost pidx_before = pidx;
                let ghost sidx_before = sidx;
                let ghost nidx_before = nidx;
                let ghost q = pidx.last();
                let t = pending.pop().unwrap();
                let ghost tv = t@;
                proof {
                    assert(task_views(before) =~= task_views(pending@).push(tv));
                    vstd::seq_lib::to_multiset_build(task_views(pending@), tv);
                    assert(task_views(before)[before.len() - 1] == tv);
                    assert(tv == rv[q]);
                    assert(pidx_before.contains(q));
                    pidx = pidx.drop_last();
                    assert(!pidx.contains(q)) by {
                        if pidx.contains(q) {
                            let k = choose|k: int| 0 <= k < pidx.len() && pidx[k] == q;
                            assert(pidx_before[k] == pidx_before[pidx_before.len() - 1]);
                        }
                    }
                    assert forall|a: int| #[trigger] pidx.contains(a) implies pidx_before.contains(a) by {
                        let k = choose|k: int| 0 <= k < pidx.len() && pidx[k] == a;
                        assert(pidx_before[k] == a);
                    }
                    assert forall|a: int| #[trigger] pidx_before.contains(a) && a != q implies pidx.contains(a) by {
                        let k = choose|k: int| 0 <= k < pidx_before.len() && pidx_before[k] == a;
                        assert(k < pidx.len());
                        assert(pidx[k] == a);
                    }
                    assert(placed(task_views(pending@), rv, pidx)) by {
                        assert forall|k: int| 0 <= k < pidx.len() implies 0 <= #[trigger] pidx[k] < rv.len()
                            && task_views(pending@)[k] == rv[pidx[k]] by {
                            assert(pidx[k] == pidx_before[k]);
                            assert(task_views(pending@)[k] == task_views(before)[k]);
                        }
                    }
                    assert(pidx =~= pstart.take(pidx.len() as int));
                    assert(!sidx.contains(q));
                    assert(!nidx.contains(q));
                    if ok && pidx_before.len() - 1 == jm {
                        match tv.parent_id {
                            Some(p) => {
                                lemma_parent_placed(store@.tasks, start, rv, dm, sidx0, pstart, jm, p);
                            },
                            None => {},
                        }
                    }
                }
                let parent_in = match &t.parent_id {
                    Some(p) => match store.find_index(p.as_str()) {
                        Some(j) => {
                            assert(has_task(store@.tasks, p@)) by {
                                assert(store@.tasks[j as int].id == p@);
                            }
                            true
                        },
                        None => false,
                    },
                    None => true,
                };
                if parent_in {
                    proof {
                        if ok {
                            store.lemma_wf();
                            lemma_row_fresh(store@.tasks, rv, sidx, q);
                            if tv.focused {
                                lemma_row_focus_room(store@.tasks, rv, sidx, q);
                            }
                            assert(restorable(store@.tasks, tv));
                        }
                    }
                    match store.restore_task(t) {
                        Ok(()) => {
                            progressed = true;
                            proof {
                                vstd::seq_lib::to_multiset_build(store_before, tv);
                                assert(store@.tasks.to_multiset().add(task_views(next@).to_multiset()).add(task_views(pending@).to_multiset())
                                    =~= store_before.to_multiset().add(next_before.to_multiset()).add(task_views(before).to_multiset()));
                                sidx = sidx.push(q);
                                assert forall|a: int| #[trigger] sidx.contains(a) implies sidx_before.contains(a) || a == q by {
                                    let k = choose|k: int| 0 <= k < sidx.len() && sidx[k] == a;
                                    if k < sidx_before.len() {
                                        assert(sidx_before[k] == a);
                                    }
                                }
                                assert forall|a: int| #[trigger] sidx_before.contains(a) implies sidx.contains(a) by {
                                    let k = choose|k: int| 0 <= k < sidx_before.len() && sidx_before[k] == a;
                                    assert(sidx[k] == a);
                                }
                                assert(sidx.contains(q)) by {
                                    assert(sidx[sidx.len() - 1] == q);
                                }
                                assert(placed(store@.tasks, rv, sidx)) by {
                                    assert forall|k: int| 0 <= k < sidx.len() implies 0 <= #[trigger] sidx[k] < rv.len()
                                        && store@.tasks[k] == rv[sidx[k]] by {
                                        if k < sidx_before.len() {
                                            assert(sidx[k] == sidx_before[k]);
                                            assert(store@.tasks[k] == store_before[k]);
                                        }
                                    }
                                }
                            }
                        },
                        Err(e) => {
                            return Err(e);
                        },
                    }
                } else {
                    proof {
                        if ok {
                            assert(pidx_before.len() - 1 != jm);
                        }
                    }
                    next.push(t);
                    proof {
                        assert(task_views(next@) =~= next_before.push(tv));
                        vstd::seq_lib::to_multiset_build(next_before, tv);
                        assert(store@.tasks.to_multiset().add(task_views(next@).to_multiset()).add(task_views(pending@).to_multiset())
                            =~= store_before.to_multiset().add(next_before.to_multiset()).add(task_views(before).to_multiset()));
                        nidx = nidx.push(q);
                        assert forall|a: int| #[trigger] nidx.contains(a) implies nidx_before.contains(a) || a == q by {
                            let k = choose|k: int| 0 <= k < nidx.len() && nidx[k] == a;
                            if k < nidx_before.len() {
                                assert(nidx_before[k] == a);
                            }
                        }
                        assert forall|a: int| #[trigger] nidx_before.contains(a) implies nidx.contains(a) by {
                            let k = choose|k: int| 0 <= k < nidx_before.len() && nidx_before[k] == a;
                            assert(nidx[k] == a);
                        }
                        assert(nidx.contains(q)) by {
                            assert(nidx[nidx.len() - 1] == q);
                        }
                        assert(nidx.no_duplicates()) by {
                            assert forall|i: int, j: int| 0 <= i < nidx.len() && 0 <= j < nidx.len() && i != j
                                implies nidx[i] != nidx[j] by {
                                if i < nidx_before.len() && j < nidx_before.len() {
                                    assert(nidx[i] == nidx_before[i] && nidx[j] == nidx_before[j]);
                                } else if i < nidx_before.len() {
                                    assert(nidx_before.contains(nidx[i]));
                                } else if j < nidx_before.len() {
                                    assert(nidx_before.contains(nidx[j]));
                                }
                            }
                        }
                        assert(placed(task_views(next@), rv, nidx)) by {
                            assert forall|k: int| 0 <= k < nidx.len() implies 0 <= #[trigger] nidx[k] < rv.len()
                                && task_views(next@)[k] == rv[nidx[k]] by {
                                if k < nidx_before.len() {
                                    assert(nidx[k] == nidx_before[k]);
                                    assert(task_views(next@)[k] == next_before[k]);
                                }
                            }
                        }
                    }
                }
            }
            if !progressed {
                return Err(StoreError::ParentNotFound);
            }
            proof {
                assert(task_views(pending@) =~= Seq::<TaskV>::empty());
                vstd::seq_lib::to_multiset_len(task_views(pending@));
                vstd::multiset::lemma_multiset_empty_len(task_views(pending@).to_multiset());
                assert(task_views(pending@).to_multiset() =~= vstd::multiset::Multiset::empty());
                assert(store@.tasks.to_multiset().add(task_views(next@).to_multiset())
                    =~= start.to_multiset().add(pend.to_multiset()));
                assert(store@.tasks.len() + task_views(next@).len() == start.len() + pend.len()) by {
                    vstd::seq_lib::to_multiset_len(store@.tasks);
                    vstd::seq_lib::to_multiset_len(task_views(next@));
                    vstd::seq_lib::to_multiset_len(start);
                    vstd::seq_lib::to_multiset_len(pend);
                    vstd::seq_lib::lemma_multiset_commutative(store@.tasks, task_views(next@));
                    vstd::seq_lib::to_multiset_len(store@.tasks + task_views(next@));
                    vstd::seq_lib::lemma_multiset_commutative(start, pend);
                    vstd::seq_lib::to_multiset_len(start + pend);
                }
                assert forall|a: int| !pidx.contains(a) by {}
                pidx = nidx;
            }
            pending = next;
        }
        proof {
            assert forall|x: Seq<char>| has_task(rv, x) implies has_task(store@.tasks, x) by {
                let a = choose|a: int| 0 <= a < rv.len() && (#[trigger] rv[a]).id == x;
                assert(!pidx.contains(a));
                let k = choose|k: int| 0 <= k < sidx.len() && sidx[k] == a;
                assert(store@.tasks[k] == rv[sidx[k]]);
            }
        }
        let mut i: usize = 0;
        while i < samples.len()
            invariant
                store.wf(),
                i <= samples@.len(),
                store@.samples == sample_views(samples@.take(i as int)),
                store@.tasks.to_multiset() == total,
                rv == task_views(rows@),
                ok == loadable(rv, sample_views(samples@)),
                forall|x: Seq<char>| has_task(rv, x) ==> has_task(store@.tasks, x),
            decreases samples@.len() - i,
        {
            let x = &samples[i];
            let input = CreateSample {
                response: x.response.clone(),
                prompt_type: x.prompt_type.clone(),
                task_id: copy_opt_string(&x.task_id),
            };
            proof {
                let sv = sample_views(samples@);
                assert(sv[i as int] == samples@[i as int]@);
                if ok {
                    if has_sample(store@.samples, x@.id) {
                        let k = choose|k: int| 0 <= k < store@.samples.len() && (#[trigger] store@.samples[k]).id == x@.id;
                        assert(store@.samples[k] == sv[k]);
                    }
                    match x@.task_id {
                        Some(tid) => {
                            assert(has_task(rv, tid));
                        },
                        None => {},
                    }
                }
            }
            let ghost tasks_before = store@.tasks;
            match store.create_sample_at(&input, x.id.clone(), x.created_at.clone()) {
                Ok(_) => {},
                Err(e) => {
                    return Err(e);
                },
            }
            proof {
                assert(sample_views(samples@.take(i + 1)) =~= sample_views(samples@.take(i as int)).push(samples@[i as int]@));
                assert(store@.tasks == tasks_before);
            }
            i = i + 1;
        }
        proof {
            assert(samples@.take(samples@.len() as int) =~= samples@);
        }
        Ok(store)
    }

    /// The number of focused tasks.
    pub fn focused_count(&self) -> (r: usize)
        requires
            self.wf(),
        ensures
            r == focus_count(self@.tasks),
    {
        let ghost s = self@.tasks;
        let mut n: usize = 0;
        let mut i: usize = 0;
        while i < self.tasks.len()
            invariant
                s == self@.tasks,
                s.len() == self.tasks@.len(),
                i <= self.tasks.len(),
                n == focus_count(s.take(i as int)),
                focus_count(s) <= MAX_FOCUSED,
            decreases self.tasks.len() - i,
        {
            proof {
                assert(s.take(i + 1).drop_last() =~= s.take(i as int));
                lemma_focus_count_prefix(s, i + 1);
            }
            if self.tasks[i].focused {
                n = n + 1;
            }
            i = i + 1;
        }
        assert(s.take(s.len() as int) =~= s);
        n
    }

    /// Toggles whether the task `id` is deferred, at the instant `now_secs` seconds and
    /// `now_nanos` nanoseconds after the epoch.
    /// Deferring schedules the next review one review interval after now.
    pub fn defer_task_at(&mut self, id: &str, now_secs: i64, now_nanos: u32) -> (r: Result<Task, StoreError>)
        requires
            old(self).wf(),
        ensures
            final(self).wf(),
            match r {
                Ok(t) => {
                    let old_t = task_of(old(self)@.tasks, id@);
                    &&& has_task(old(self)@.tasks, id@)
                    &&& spec_rfc3339_of(now_secs as int, now_nanos as int) is Some
                    &&& (!old_t.deferred ==> spec_rfc3339_of(now_secs + days_secs(old_t.review_interval as int), now_nanos as int) is Some)
                    &&& t@ == toggled_defer(
                        old_t,
                        spec_rfc3339_of(now_secs as int, now_nanos as int)->0,
                        spec_rfc3339_of(now_secs + days_secs(old_t.review_interval as int), now_nanos as int)->0,
                    )
                    &&& final(self)@.tasks == old(self)@.tasks.update(index_of_id(old(self)@.tasks, id@), t@)
                    &&& final(self)@.samples == old(self)@.samples
                },
                Err(e) => {
                    &&& final(self)@ == old(self)@
                    &&& e == if has_task(old(self)@.tasks, id@) { StoreError::ClockOutOfRange } else { StoreError::NotFound }
                    &&& has_task(old(self)@.tasks, id@) ==> (spec_rfc3339_of(now_secs as int, now_nanos as int) is None
                        || (!task_of(old(self)@.tasks, id@).deferred && !writable_instant(
                            now_secs + days_secs(task_of(old(self)@.tasks, id@).review_interval as int), now_nanos as int)))
                },
            },
    {
        let ix = match self.find_index(id) {
            Some(i) => i,
            None => {
                return Err(StoreError::NotFound);
            },
        };
        proof {
            assert(index_of_id(self@.tasks, id@) == ix as int);
            assert(intervals_bounded(self@.tasks));
            assert(DEFAULT_REVIEW_INTERVAL <= self@.tasks[ix as int].review_interval <= MAX_REVIEW_INTERVAL);
        }
        let now = match rfc3339_of(now_secs, now_nanos) {
            Some(n) => n,
            None => {
                return Err(StoreError::ClockOutOfRange);
            },
        };
        let old_task = self.tasks[ix].duplicate();
        assert(old_task@ == task_of(self@.tasks, id@));
        let t = if old_task.deferred {
            Task {
                deferred: false,
                review_interval: DEFAULT_REVIEW_INTERVAL,
                next_review_at: None,
                updated_at: now,
                ..old_task
            }
        } else {
            let offset: i128 = old_task.review_interval as i128 * SECS_PER_DAY as i128;
            let at: i128 = now_secs as i128 + offset;
            proof {
                assert(offset <= 90 * 86_400) by (nonlinear_arith)
                    requires
                        offset == old_task.review_interval * 86_400,
                        old_task.review_interval <= 90,
                ;
                assert(offset >= 0) by (nonlinear_arith)
                    requires
                        offset == old_task.review_interval * 86_400,
                        old_task.review_interval >= 7,
                ;
            }
            if at > i64::MAX as i128 {
                return Err(StoreError::ClockOutOfRange);
            }
            let next = match rfc3339_of(at as i64, now_nanos) {
                Some(n) => n,
                None => {
                    return Err(StoreError::ClockOutOfRange);
                },
            };
            Task { deferred: true, next_review_at: Some(next), updated_at: now, ..old_task }
        };
        let result = t.duplicate();
        self.set_task(ix, t);
        Ok(result)
    }

    /// Doubles the review interval of the task `id` (at most the cap) and
    /// schedules its next review that long after the instant `now_secs` seconds and `now_nanos`
    /// nanoseconds after the epoch.
    pub fn snooze_review_at(&mut self, id: &str, now_secs: i64, now_nanos: u32) -> (r: Result<Task, StoreError>)
        requires
            old(self).wf(),
        ensures
            final(self).wf(),
            match r {
                Ok(t) => {
                    let old_t = task_of(old(self)@.tasks, id@);
                    let ni = snoozed_interval(old_t.review_interval as int);
                    &&& has_task(old(self)@.tasks, id@)
                    &&& spec_rfc3339_of(now_secs as int, now_nanos as int) is Some
                    &&& spec_rfc3339_of(now_secs + days_secs(ni), now_nanos as int) is Some
                    &&& t@ == snoozed(
                        old_t,
                        spec_rfc3339_of(now_secs as int, now_nanos as int)->0,
                        spec_rfc3339_of(now_secs + days_secs(ni), now_nanos as int)->0,
                    )
                    &&& final(self)@.tasks == old(self)@.tasks.update(index_of_id(old(self)@.tasks, id@), t@)
                    &&& final(self)@.samples == old(self)@.samples
                },
                Err(e) => {
                    &&& final(self)@ == old(self)@
                    &&& e == if has_task(old(self)@.tasks, id@) { StoreError::ClockOutOfRange } else { StoreError::NotFound }
                    &&& has_task(old(self)@.tasks, id@) ==> (spec_rfc3339_of(now_secs as int, now_nanos as int) is None
                        || !writable_instant(now_secs + days_secs(
                            snoozed_interval(task_of(old(self)@.tasks, id@).review_interval as int)), now_nanos as int))
                },
            },
    {
        let ix = match self.find_index(id) {
            Some(i) => i,
            None => {
                return Err(StoreError::NotFound);
            },
        };
        proof {
            assert(index_of_id(self@.tasks, id@) == ix as int);
            assert(intervals_bounded(self@.tasks));
            assert(DEFAULT_REVIEW_INTERVAL <= self@.tasks[ix as int].review_interval <= MAX_REVIEW_INTERVAL);
        }
        let now = match rfc3339_of(now_secs, now_nanos) {
            Some(n) => n,
            None => {
                return Err(StoreError::ClockOutOfRange);
            },
        };
        let old_task = self.tasks[ix].duplicate();
        assert(old_task@ == task_of(self@.tasks, id@));
        let doubled = old_task.review_interval * 2;
        let interval = if doubled <= MAX_REVIEW_INTERVAL { doubled } else { MAX_REVIEW_INTERVAL };
        let offset: i128 = interval as i128 * SECS_PER_DAY as i128;
        proof {
            assert(0 <= offset <= 90 * 86_400) by (nonlinear_arith)
                requires
                    offset == interval * 86_400,
                    0 <= interval <= 90,
            ;
        }
        let at: i128 = now_secs as i128 + offset;
        if at > i64::MAX as i128 {
            return Err(StoreError::ClockOutOfRange);
        }
        let next = match rfc3339_of(at as i64, now_nanos) {
            Some(n) => n,
            None => {
                return Err(StoreError::ClockOutOfRange);
            },
        };
        let t = Task { review_interval: interval, next_review_at: Some(next), updated_at: now, ..old_task };
        let result = t.duplicate();
        self.set_task(ix, t);
        Ok(result)
    }

    /// Toggles the focus of the task `id` at time `now`: unfocuses a focused
    /// task; focuses another with `budget` unless three are focused already.
    pub fn focus_task_at(&mut self, id: &str, budget: Option<i64>, now: String) -> (r: Result<Task, StoreError>)
        requires
            old(self).wf(),
        ensures
            final(self).wf(),
            match r {
                Ok(t) => {
                    &&& has_task(old(self)@.tasks, id@)
                    &&& (!task_of(old(self)@.tasks, id@).focused ==> focus_count(old(self)@.tasks) < MAX_FOCUSED)
                    &&& t@ == toggled_focus(task_of(old(self)@.tasks, id@), budget, now@)
                    &&& final(self)@.tasks == old(self)@.tasks.update(index_of_id(old(self)@.tasks, id@), t@)
                    &&& final(self)@.samples == old(self)@.samples
                },
                Err(e) => {
                    &&& final(self)@ == old(self)@
                    &&& e == if has_task(old(self)@.tasks, id@) { StoreError::FocusLimit } else { StoreError::NotFound }
                    &&& has_task(old(self)@.tasks, id@) ==> (!task_of(old(self)@.tasks, id@).focused
                        && focus_count(old(self)@.tasks) >= MAX_FOCUSED)
                },
            },
    {
        let ix = match self.find_index(id) {
            Some(i) => i,
            None => {
                return Err(StoreError::NotFound);
            },
        };
        proof {
            assert(index_of_id(self@.tasks, id@) == ix as int);
            assert(intervals_bounded(self@.tasks));
            assert(DEFAULT_REVIEW_INTERVAL <= self@.tasks[ix as int].review_interval <= MAX_REVIEW_INTERVAL);
        }
        let old_task = self.tasks[ix].duplicate();
        assert(old_task@ == task_of(self@.tasks, id@));
        let t = if old_task.focused {
            Task { focused: false, focused_at: None, budget_minutes: None, ..old_task }
        } else {
            if self.focused_count() >= MAX_FOCUSED {
                return Err(StoreError::FocusLimit);
            }
            Task { focused: true, focused_at: Some(now), budget_minutes: budget, ..old_task }
        };
        let result = t.duplicate();
        self.set_task(ix, t);
        Ok(result)
    }

    /// Marks the task `id` acknowledged (taken out of the inbox) at `now`.
    pub fn acknowledge_task_at(&mut self, id: &str, now: String) -> (r: Result<Task, StoreError>)
        requires
            old(self).wf(),
        ensures
            final(self).wf(),
            match r {
                Ok(t) => {
                    &&& has_task(old(self)@.tasks, id@)
                    &&& t@ == (TaskV { acknowledged: true, updated_at: now@, ..task_of(old(self)@.tasks, id@) })
                    &&& final(self)@.tasks == old(self)@.tasks.update(index_of_id(old(self)@.tasks, id@), t@)
                    &&& final(self)@.samples == old(self)@.samples
                },
                Err(e) => !has_task(old(self)@.tasks, id@) && e == StoreError::NotFound && final(self)@ == old(self)@,
            },
    {
        let ix = match self.find_index(id) {
            Some(i) => i,
            None => {
                return Err(StoreError::NotFound);
            },
        };
        proof {
            assert(index_of_id(self@.tasks, id@) == ix as int);
            assert(intervals_bounded(self@.tasks));
            assert(DEFAULT_REVIEW_INTERVAL <= self@.tasks[ix as int].review_interval <= MAX_REVIEW_INTERVAL);
        }
        let old_task = self.tasks[ix].duplicate();
        assert(old_task@ == task_of(self@.tasks, id@));
        let t = Task { acknowledged: true, updated_at: now, ..old_task };
        let result = t.duplicate();
        self.set_task(ix, t);
        Ok(result)
    }

    /// Records an experience sample with the given id and timestamp.
    pub fn create_sample_at(&mut self, input: &CreateSample, id: String, now: String) -> (r: Result<Sample, StoreError>)
        requires
            old(self).wf(),
        ensures
            final(self).wf(),
            match r {
                Ok(x) => {
                    &&& !has_sample(old(self)@.samples, id@)
                    &&& (opt_view(input.task_id) matches Some(t) ==> has_task(old(self)@.tasks, t))
                    &&& x@ == (SampleV {
                        id: id@,
                        prompt_type: input.prompt_type@,
                        response: input.response@,
                        created_at: now@,
                        task_id: opt_view(input.task_id),
                    })
                    &&& final(self)@.samples == old(self)@.samples.push(x@)
                    &&& final(self)@.tasks == old(self)@.tasks
                },
                Err(e) => {
                    &&& final(self)@ == old(self)@
                    &&& e == if has_sample(old(self)@.samples, id@) {
                        StoreError::DuplicateId
                    } else {
                        StoreError::ParentNotFound
                    }
                    &&& has_sample(old(self)@.samples, id@)
                        || (opt_view(input.task_id) matches Some(t) && !has_task(old(self)@.tasks, t))
                },
            },
    {
        let ghost samples = self@.samples;
        let mut i: usize = 0;
        while i < self.samples.len()
            invariant
                self.wf(),
                samples == self@.samples,
                samples.len() == self.samples@.len(),
                i <= self.samples.len(),
                forall|j: int| 0 <= j < i ==> samples[j].id != id@,
            decreases self.samples.len() - i,
        {
            if crate::text::text_eq(self.samples[i].id.as_str(), id.as_str()) {
                assert(samples[i as int].id == id@);
                return Err(StoreError::DuplicateId);
            }
            i = i + 1;
        }
        match &input.task_id {
            Some(t) => {
                match self.find_index(t.as_str()) {
                    None => {
                        return Err(StoreError::ParentNotFound);
                    },
                    Some(ti) => {
                        assert(has_task(self@.tasks, t@)) by {
                            assert(self@.tasks[ti as int].id == t@);
                        }
                    },
                }
            },
            None => {},
        }
        assert(!has_sample(samples, id@));
        assert(opt_view(input.task_id) matches Some(t) ==> has_task(self@.tasks, t));
        let x = Sample {
            id,
            prompt_type: input.prompt_type.clone(),
            response: input.response.clone(),
            created_at: now,
            task_id: copy_opt_string(&input.task_id),
        };
        let ghost xv = x@;
        let result = x.duplicate();
        self.samples.push(x);
        proof {
            let n = self@.samples;
            assert(n =~= samples.push(xv));
            assert(samples_linked(self@.tasks, n)) by {
                assert forall|j: int| 0 <= j < n.len() implies ((#[trigger] n[j]).task_id matches Some(t) ==> has_task(self@.tasks, t)) by {
                    if j < samples.len() {
                        assert(n[j] == samples[j]);
                    }
                }
            }
            assert forall|a: int, b: int| 0 <= a < n.len() && 0 <= b < n.len() && (#[trigger] n[a]).id == (#[trigger] n[b]).id implies a == b by {
                if a < samples.len() && b == samples.len() {
                    assert(samples[a].id == xv.id);
                }
                if b < samples.len() && a == samples.len() {
                    assert(samples[b].id == xv.id);
                }
            }
        }
        Ok(result)
    }

    /// Records that the task `id` was worked on at `now`: refreshes its
    /// update time and records a "touch" sample linked to it, whose response
    /// is `response` or else the task's title.
    pub fn touch_task_at(&mut self, id: &str, response: Option<&str>, sample_id: String, now: String) -> (r: Result<Task, StoreError>)
        requires
            old(self).wf(),
        ensures
            final(self).wf(),
            match r {
                Ok(t) => {
                    let old_t = task_of(old(self)@.tasks, id@);
                    &&& has_task(old(self)@.tasks, id@)
                    &&& !has_sample(old(self)@.samples, sample_id@)
                    &&& t@ == (TaskV { updated_at: now@, ..old_t })
                    &&& final(self)@.tasks == old(self)@.tasks.update(index_of_id(old(self)@.tasks, id@), t@)
                    &&& final(self)@.samples == old(self)@.samples.push(SampleV {
                        id: sample_id@,
                        prompt_type: touch_prompt(),
                        response: match opt_str_view(response) { Some(x) => x, None => old_t.title },
                        created_at: now@,
                        task_id: Some(id@),
                    })
                },
                Err(e) => {
                    &&& final(self)@.samples == old(self)@.samples
                    &&& e == if has_task(old(self)@.tasks, id@) { StoreError::DuplicateId } else { StoreError::NotFound }
                    &&& !has_task(old(self)@.tasks, id@) ==> final(self)@ == old(self)@
                    &&& has_task(old(self)@.tasks, id@) ==> has_sample(old(self)@.samples, sample_id@)
                        && final(self)@.tasks == old(self)@.tasks.update(
                            index_of_id(old(self)@.tasks, id@),
                            TaskV { updated_at: now@, ..task_of(old(self)@.tasks, id@) },
                        )
                },
            },
    {
        let ix = match self.find_index(id) {
            Some(i) => i,
            None => {
                return Err(StoreError::NotFound);
            },
        };
        proof {
            assert(index_of_id(self@.tasks, id@) == ix as int);
            assert(intervals_bounded(self@.tasks));
            assert(DEFAULT_REVIEW_INTERVAL <= self@.tasks[ix as int].review_interval <= MAX_REVIEW_INTERVAL);
        }
        let old_task = self.tasks[ix].duplicate();
        assert(old_task@ == task_of(self@.tasks, id@));
        let text = match response {
            Some(x) => to_owned_string(x),
            None => old_task.title.clone(),
        };
        let t = Task { updated_at: now.clone(), ..old_task };
        let result = t.duplicate();
        self.set_task(ix, t);
        let ghost mid = self@.tasks;
        proof {
            assert(has_task(mid, id@)) by {
                assert(mid[ix as int].id == id@);
            }
        }
        let prompt = to_owned_string("touch");
        proof {
            reveal_strlit("touch");
            assert(prompt@ == touch_prompt());
        }
        let input = CreateSample { response: text, prompt_type: prompt, task_id: Some(to_owned_string(id)) };
        match self.create_sample_at(&input, sample_id, now) {
            Ok(_) => Ok(result),
            Err(e) => Err(e),
        }
    }

    /// How many levels above the task at `i` the task `anc` stands, or none
    /// when it is not among its ancestors (a task is its own ancestor at 0).
    pub fn dist_to(&self, i: usize, anc: &str) -> (r: Option<usize>)
        requires
            self.wf(),
            i < self@.tasks.len(),
        ensures
            match r {
                Some(k) => k < self@.tasks.len() && anc_at(self@.tasks, self@.tasks[i as int].id, k as nat) == Some(anc@),
                None => !is_desc(self@.tasks, self@.tasks[i as int].id, anc@),
            },
    {
        let ghost s = self@.tasks;
        let ghost d = s[i as int].id;
        proof {
            lemma_depth_bound(s, self.depth@, d);
        }
        let n = self.tasks.len();
        let mut cur: usize = i;
        let mut k: usize = 0;
        loop
            invariant
                self.wf(),
                n == s.len(),
                s == self@.tasks,
                d == s[i as int].id,
                cur < s.len(),
                anc_at(s, d, k as nat) == Some(s[cur as int].id),
                k + self.depth@[s[cur as int].id] == self.depth@[d],
                self.depth@[d] < s.len(),
                is_desc(s, d, anc@) == is_desc(s, s[cur as int].id, anc@),
            decreases self.depth@[s[cur as int].id],
        {
            let ghost c = s[cur as int].id;
            proof {
                lemma_desc_step(s, c, anc@);
                assert(index_of_id(s, c) == cur as int);
            }
            if crate::text::text_eq(self.tasks[cur].id.as_str(), anc) {
                return Some(k);
            }
            match &self.tasks[cur].parent_id {
                None => {
                    return None;
                },
                Some(p) => {
                    let j = self.find_index(p.as_str());
                    match j {
                        Some(j) => {
                            proof {
                                assert(parent_of(s, c) == Some(p@));
                                lemma_anc_step_up(s, d, k as nat, c, p@);
                                assert(self.depth@[c] == self.depth@[p@] + 1);
                                assert(s[j as int].id == p@);
                                assert(s.len() == self.tasks@.len());
                                assert(self.depth@[c] >= 1);
                                assert(k + 1 <= self.depth@[d]);
                                assert(k + 1 < s.len());
                            }
                            cur = j;
                            k = k + 1;
                        },
                        None => {
                            return None;
                        },
                    }
                },
            }
        }
    }

    /// The task at `i` and its ancestors, walking up: entry `k` is its
    /// `k`-th ancestor (its parent for 1), and the last entry is a root.
    pub fn chain_up(&self, i: usize) -> (r: Vec<Task>)
        requires
            self.wf(),
            i < self@.tasks.len(),
        ensures
            r@.len() > 0,
            forall|k: int| 0 <= k < r@.len() ==> (anc_at(self@.tasks, self@.tasks[i as int].id, k as nat) matches Some(a)
                && has_task(self@.tasks, a) && #[trigger] r@[k]@ == task_of(self@.tasks, a)),
            r@[r@.len() - 1]@.parent_id is None,
            anc_at(self@.tasks, self@.tasks[i as int].id, r@.len() as nat) is None,
    {
        let ghost s = self@.tasks;
        let ghost d = s[i as int].id;
        let mut out: Vec<Task> = Vec::new();
        let mut cur: usize = i;
        loop
            invariant
                self.wf(),
                s == self@.tasks,
                d == s[i as int].id,
                cur < s.len(),
                anc_at(s, d, out@.len() as nat) == Some(s[cur as int].id),
                forall|k: int| 0 <= k < out@.len() ==> (anc_at(s, d, k as nat) matches Some(a) && has_task(s, a)
                    && #[trigger] out@[k]@ == task_of(s, a)),
            decreases self.depth@[s[cur as int].id],
        {
            let ghost c = s[cur as int].id;
            let ghost before = out@;
            proof {
                assert(index_of_id(s, c) == cur as int);
                assert(has_task(s, c));
            }
            let t = self.tasks[cur].duplicate();
            out.push(t);
            proof {
                assert forall|k: int| 0 <= k < out@.len() implies (anc_at(s, d, k as nat) matches Some(a) && has_task(s, a)
                    && #[trigger] out@[k]@ == task_of(s, a)) by {
                    if k < before.len() {
                        assert(out@[k] == before[k]);
                    }
                }
            }
            match &self.tasks[cur].parent_id {
                None => {
                    proof {
                        assert(parent_of(s, c) is None);
                        lemma_anc_step_none(s, d, before.len() as nat, c);
                    }
                    return out;
                },
                Some(p) => {
                    let ghost pv = p@;
                    proof {
                        assert(parent_of(s, c) == Some(pv));
                        assert(has_task(s, pv));
                        assert(self.depth@[c] == self.depth@[pv] + 1);
                        lemma_anc_step_up(s, d, before.len() as nat, c, pv);
                    }
                    match self.find_index(p.as_str()) {
                        Some(j) => {
                            cur = j;
                        },
                        None => {
                            proof {
                                assert(false);
                            }
                            return out;
                        },
                    }
                },
            }
        }
    }
}

/// The view of an optional borrowed text.
pub open spec fn opt_str_view(o: Option<&str>) -> Option<Seq<char>> {
    match o {
        Some(s) => Some(s@),
        None => None,
    }
}

/// The tasks whose parent is `p` (the roots for `None`).
pub open spec fn child_of(p: Option<Seq<char>>) -> spec_fn(TaskV) -> bool {
    |t: TaskV| t.parent_id == p
}

/// The unfinished tasks whose parent is `p`.
pub open spec fn pending_child_of(p: Option<Seq<char>>) -> spec_fn(TaskV) -> bool {
    |t: TaskV| t.parent_id == p && !t.completed
}

/// The greatest position among the children of `p`, if it has any.
pub open spec fn max_position(s: Seq<TaskV>, p: Option<Seq<char>>) -> Option<i64>
    decreases s.len(),
{
    if s.len() == 0 {
        None
    } else {
        let rest = max_position(s.drop_last(), p);
        if s.last().parent_id == p {
            match rest {
                Some(m) => if m >= s.last().position { Some(m) } else { Some(s.last().position) },
                None => Some(s.last().position),
            }
        } else {
            rest
        }
    }
}

/// The position a new child of `p` gets: one past the greatest, 0 for the first.
pub open spec fn next_position(s: Seq<TaskV>, p: Option<Seq<char>>) -> int {
    match max_position(s, p) {
        Some(m) => m + 1,
        None => 0,
    }
}

/// The task a creation inserts.
pub open spec fn created_task(
    s: Seq<TaskV>,
    parent: Option<Seq<char>>,
    title: Seq<char>,
    notes: Seq<char>,
    id: Seq<char>,
    now: Seq<char>,
) -> TaskV {
    TaskV {
        id,
        parent_id: parent,
        title,
        notes,
        completed: false,
        position: next_position(s, parent) as i64,
        created_at: now,
        updated_at: now,
        deferred: false,
        review_interval: DEFAULT_REVIEW_INTERVAL,
        next_review_at: None,
        acknowledged: false,
        focused: false,
        focused_at: None,
        budget_minutes: None,
    }
}

proof fn lemma_take_filter_step(s: Seq<TaskV>, i: int, pred: spec_fn(TaskV) -> bool)
    requires
        0 <= i < s.len(),
    ensures
        s.take(i + 1).filter(pred) == if pred(s[i]) {
            s.take(i).filter(pred).push(s[i])
        } else {
            s.take(i).filter(pred)
        },
{
    assert(s.take(i + 1) =~= s.take(i).push(s[i]));
    s.take(i).lemma_filter_push(s[i], pred);
}

proof fn lemma_has_task_push(s: Seq<TaskV>, t: TaskV, id: Seq<char>)
    ensures
        has_task(s.push(t), id) == (has_task(s, id) || t.id == id),
{
    if has_task(s, id) {
        let i = index_of_id(s, id);
        assert(s.push(t)[i] == s[i]);
    }
    if t.id == id {
        assert(s.push(t)[s.len() as int] == t);
    }
    if has_task(s.push(t), id) {
        let i = index_of_id(s.push(t), id);
        if i < s.len() {
            assert(s[i] == s.push(t)[i]);
        }
    }
}

/// A stored task can be put back into the tasks `s`: its id is free, its
/// parent is there (or it is a root), its review interval is in range, and
/// if it is focused fewer than three tasks are.
pub open spec fn restorable(s: Seq<TaskV>, t: TaskV) -> bool {
    &&& !has_task(s, t.id)
    &&& (t.parent_id matches Some(p) ==> has_task(s, p))
    &&& DEFAULT_REVIEW_INTERVAL <= t.review_interval <= MAX_REVIEW_INTERVAL
    &&& (t.focused ==> focus_count(s) < MAX_FOCUSED)
}

/// Stored records that make a well-formed database: task ids are unique,
/// the tasks form a forest (each parent is among them and there is no
/// cycle: depths can be given), review intervals are in range, at most
/// three tasks are focused, sample ids are unique and every linked task is
/// among the tasks.
pub open spec fn loadable(rows: Seq<TaskV>, samples: Seq<SampleV>) -> bool {
    &&& ids_unique(rows)
    &&& exists|depth: Map<Seq<char>, nat>| depth_fits(rows, depth)
    &&& intervals_bounded(rows)
    &&& focus_count(rows) <= MAX_FOCUSED
    &&& sample_ids_unique(samples)
    &&& samples_linked(rows, samples)
}


/// Position `j` of `ps` holds a row of least depth among the rows `ps` names.
pub open spec fn least_deep_at(rv: Seq<TaskV>, dm: Map<Seq<char>, nat>, ps: Seq<int>, j: int) -> bool {
    &&& 0 <= j < ps.len()
    &&& forall|k: int| 0 <= k < ps.len() ==> dm[rv[#[trigger] ps[k]].id] >= dm[rv[ps[j]].id]
}

proof fn lemma_least_deep_exists(rv: Seq<TaskV>, dm: Map<Seq<char>, nat>, ps: Seq<int>)
    requires
        ps.len() > 0,
    ensures
        exists|j: int| least_deep_at(rv, dm, ps, j),
    decreases ps.len(),
{
    if ps.len() == 1 {
        assert(least_deep_at(rv, dm, ps, 0));
    } else {
        let init = ps.drop_last();
        lemma_least_deep_exists(rv, dm, init);
        let j = choose|j: int| least_deep_at(rv, dm, init, j);
        let last = ps.len() - 1;
        if dm[rv[ps[last]].id] < dm[rv[ps[j]].id] {
            assert forall|k: int| 0 <= k < ps.len() implies dm[rv[#[trigger] ps[k]].id] >= dm[rv[ps[last]].id] by {
                if k < last {
                    assert(ps[k] == init[k]);
                }
            }
            assert(least_deep_at(rv, dm, ps, last));
        } else {
            assert forall|k: int| 0 <= k < ps.len() implies dm[rv[#[trigger] ps[k]].id] >= dm[rv[ps[j]].id] by {
                if k < last {
                    assert(ps[k] == init[k]);
                }
            }
            assert(ps[j] == init[j]);
            assert(least_deep_at(rv, dm, ps, j));
        }
    }
}

/// The rows placed in the store, at the indices `sidx` of `rv`.
pub open spec fn placed(store: Seq<TaskV>, rv: Seq<TaskV>, sidx: Seq<int>) -> bool {
    &&& store.len() == sidx.len()
    &&& forall|k: int| 0 <= k < sidx.len() ==> 0 <= #[trigger] sidx[k] < rv.len() && store[k] == rv[sidx[k]]
}

proof fn lemma_row_fresh(store: Seq<TaskV>, rv: Seq<TaskV>, sidx: Seq<int>, q: int)
    requires
        ids_unique(rv),
        placed(store, rv, sidx),
        0 <= q < rv.len(),
        !sidx.contains(q),
    ensures
        !has_task(store, rv[q].id),
{
    if has_task(store, rv[q].id) {
        let k = choose|k: int| 0 <= k < store.len() && (#[trigger] store[k]).id == rv[q].id;
        assert(store[k] == rv[sidx[k]]);
        assert(sidx[k] == q);
    }
}

proof fn lemma_row_focus_room(store: Seq<TaskV>, rv: Seq<TaskV>, sidx: Seq<int>, q: int)
    requires
        ids_unique(rv),
        ids_unique(store),
        focus_count(rv) <= MAX_FOCUSED,
        placed(store, rv, sidx),
        0 <= q < rv.len(),
        !sidx.contains(q),
        rv[q].focused,
    ensures
        focus_count(store) < MAX_FOCUSED,
{
    let x = store.push(rv[q]);
    let idx = sidx.push(q);
    assert forall|k1: int, k2: int| 0 <= k1 < x.len() && 0 <= k2 < x.len() && k1 != k2 implies #[trigger] idx[k1] != #[trigger] idx[k2] by {
        if k1 < store.len() && k2 < store.len() {
            if idx[k1] == idx[k2] {
                assert(store[k1] == rv[sidx[k1]]);
                assert(store[k2] == rv[sidx[k2]]);
            }
        } else if k1 < store.len() {
            assert(idx[k1] == sidx[k1]);
        } else if k2 < store.len() {
            assert(idx[k2] == sidx[k2]);
        }
    }
    assert forall|k: int| 0 <= k < x.len() implies 0 <= #[trigger] idx[k] < rv.len() && x[k] == rv[idx[k]] by {
        if k < store.len() {
            assert(idx[k] == sidx[k]);
        }
    }
    lemma_focus_sub(x, rv, idx);
    lemma_focus_count_push(store, rv[q]);
}

proof fn lemma_parent_placed(
    store: Seq<TaskV>, start: Seq<TaskV>, rv: Seq<TaskV>, dm: Map<Seq<char>, nat>,
    sidx0: Seq<int>, pstart: Seq<int>, j: int, p: Seq<char>,
)
    requires
        depth_fits(rv, dm),
        placed(start, rv, sidx0),
        start.len() <= store.len(),
        forall|k: int| 0 <= k < start.len() ==> store[k] == #[trigger] start[k],
        forall|a: int| 0 <= a < rv.len() ==> sidx0.contains(a) || pstart.contains(a),
        least_deep_at(rv, dm, pstart, j),
        0 <= pstart[j] < rv.len(),
        rv[pstart[j]].parent_id == Some(p),
    ensures
        has_task(store, p),
{
    let q = pstart[j];
    assert(has_task(rv, p) && dm[rv[q].id] == dm[p] + 1);
    let a = choose|a: int| 0 <= a < rv.len() && (#[trigger] rv[a]).id == p;
    if pstart.contains(a) {
        let k = choose|k: int| 0 <= k < pstart.len() && pstart[k] == a;
        assert(dm[rv[pstart[k]].id] >= dm[rv[q].id]);
    }
    assert(sidx0.contains(a));
    let k = choose|k: int| 0 <= k < sidx0.len() && sidx0[k] == a;
    assert(start[k] == rv[sidx0[k]]);
    assert(store[k] == start[k]);
    assert(store[k].id == p);
}

/// The indices of the focused tasks.
pub open spec fn focused_set(s: Seq<TaskV>) -> Set<int> {
    vstd::set_lib::set_int_range(0, s.len() as int).filter(|k: int| s[k].focused)
}

proof fn lemma_focus_count_set(s: Seq<TaskV>)
    ensures
        focused_set(s).finite(),
        focus_count(s) == focused_set(s).len(),
    decreases s.len(),
{
    vstd::set_lib::lemma_int_range(0, s.len() as int);
    vstd::set_lib::set_int_range(0, s.len() as int).lemma_len_filter(|k: int| s[k].focused);
    if s.len() > 0 {
        let init = s.drop_last();
        let n = s.len() - 1;
        lemma_focus_count_set(init);
        if s.last().focused {
            assert(focused_set(s) =~= focused_set(init).insert(n));
        } else {
            assert(focused_set(s) =~= focused_set(init));
        }
    } else {
        assert(focused_set(s) =~= Set::<int>::empty());
    }
}

/// Tasks picked from `r` at distinct indices have no more focused tasks
/// than `r`.
proof fn lemma_focus_sub(x: Seq<TaskV>, r: Seq<TaskV>, idx: Seq<int>)
    requires
        x.len() == idx.len(),
        forall|k: int| 0 <= k < x.len() ==> 0 <= #[trigger] idx[k] < r.len() && x[k] == r[idx[k]],
        forall|k1: int, k2: int| 0 <= k1 < x.len() && 0 <= k2 < x.len() && k1 != k2 ==> #[trigger] idx[k1] != #[trigger] idx[k2],
    ensures
        focus_count(x) <= focus_count(r),
{
    lemma_focus_count_set(x);
    lemma_focus_count_set(r);
    let f = |k: int| idx[k];
    let img = focused_set(x).map(f);
    assert forall|k1: int, k2: int| focused_set(x).contains(k1) && focused_set(x).contains(k2) && #[trigger] f(k1) == #[trigger] f(k2) implies k1 == k2 by {}
    vstd::set_lib::lemma_map_size(focused_set(x), img, f);
    assert forall|a: int| img.contains(a) implies focused_set(r).contains(a) by {
        let k = choose|k: int| focused_set(x).contains(k) && f(k) == a;
        assert(x[k] == r[idx[k]]);
    }
    vstd::set_lib::lemma_len_subset(img, focused_set(r));
}

proof fn lemma_focus_count_push(s: Seq<TaskV>, t: TaskV)
    ensures
        focus_count(s.push(t)) == focus_count(s) + if t.focused { 1nat } else { 0nat },
{
    assert(s.push(t).drop_last() =~= s);
}

/// The parent a task has after `u`: unchanged for `None`, the root for
/// `Some("")`, the given task otherwise.
pub open spec fn new_parent(old: TaskV, u: UpdateTask) -> Option<Seq<char>> {
    match u.parent_id {
        None => old.parent_id,
        Some(p) => if p@.len() == 0 { None } else { Some(p@) },
    }
}

/// The task after the partial update `u` made at time `now`.
pub open spec fn updated_task(old: TaskV, u: UpdateTask, now: Seq<char>) -> TaskV {
    TaskV {
        title: match u.title { Some(t) => t@, None => old.title },
        notes: match u.notes { Some(n) => n@, None => old.notes },
        completed: match u.completed { Some(c) => c, None => old.completed },
        position: match u.position { Some(p) => p, None => old.position },
        parent_id: new_parent(old, u),
        deferred: match u.deferred { Some(d) => d, None => old.deferred },
        acknowledged: match u.acknowledged { Some(a) => a, None => old.acknowledged },
        updated_at: now,
        ..old
    }
}

/// The tasks that survive deleting `id`: those outside its subtree.
pub open spec fn survives(s: Seq<TaskV>, id: Seq<char>) -> spec_fn(TaskV) -> bool {
    |t: TaskV| !is_desc(s, t.id, id)
}

/// A sample after deleting `id`: its link is cleared when it pointed into
/// the deleted subtree.
pub open spec fn unlinked(s: Seq<TaskV>, id: Seq<char>) -> spec_fn(SampleV) -> SampleV {
    |x: SampleV| match x.task_id {
        Some(t) => if is_desc(s, t, id) { SampleV { task_id: None, ..x } } else { x },
        None => x,
    }
}

proof fn lemma_has_task_update(s: Seq<TaskV>, i: int, t: TaskV, id: Seq<char>)
    requires
        0 <= i < s.len(),
        t.id == s[i].id,
    ensures
        has_task(s.update(i, t), id) == has_task(s, id),
{
    if has_task(s, id) {
        let j = index_of_id(s, id);
        assert(s.update(i, t)[j].id == id);
    }
    if has_task(s.update(i, t), id) {
        let j = index_of_id(s.update(i, t), id);
        assert(s[j].id == id);
    }
}

proof fn lemma_focus_count_prefix(s: Seq<TaskV>, n: int)
    requires
        0 <= n <= s.len(),
    ensures
        focus_count(s.take(n)) <= focus_count(s),
    decreases s.len() - n,
{
    if n < s.len() {
        lemma_focus_count_prefix(s, n + 1);
        assert(s.take(n + 1).drop_last() =~= s.take(n));
    } else {
        assert(s.take(n) =~= s);
    }
}

proof fn lemma_focus_count_update(s: Seq<TaskV>, i: int, t: TaskV)
    requires
        0 <= i < s.len(),
    ensures
        focus_count(s.update(i, t)) + (if s[i].focused { 1nat } else { 0nat })
            == focus_count(s) + (if t.focused { 1nat } else { 0nat }),
    decreases s.len(),
{
    if i == s.len() - 1 {
        assert(s.update(i, t).drop_last() =~= s.drop_last());
    } else {
        lemma_focus_count_update(s.drop_last(), i, t);
        assert(s.update(i, t).drop_last() =~= s.drop_last().update(i, t));
    }
}

/// Within a store whose depths fit, a descendant is at least as deep as
/// its ancestor.
proof fn lemma_desc_deeper(s: Seq<TaskV>, depth: Map<Seq<char>, nat>, d: Seq<char>, a: Seq<char>)
    requires
        depth_fits(s, depth),
        has_task(s, d),
        is_desc(s, d, a),
    ensures
        has_task(s, a),
        depth[d] >= depth[a],
{
    let k = choose|k: nat| #[trigger] anc_at(s, d, k) == Some(a);
    lemma_anc_depth(s, depth, d, k);
    if k > depth[d] {
        assert(false);
    }
}

/// Moving `x` under `np` keeps the depths fitting when every depth in the
/// subtree of `x` shifts by the same amount.
proof fn lemma_reparent_depths(
    s: Seq<TaskV>,
    depth: Map<Seq<char>, nat>,
    ix: int,
    t: TaskV,
)
    requires
        ids_unique(s),
        depth_fits(s, depth),
        0 <= ix < s.len(),
        t.id == s[ix].id,
        t.parent_id matches Some(p) ==> has_task(s, p) && !is_desc(s, p, t.id),
    ensures
        depth_fits(s.update(ix, t), reparented_depths(s, depth, t.id, t.parent_id)),
{
    let x = t.id;
    let s2 = s.update(ix, t);
    let nd = reparented_depths(s, depth, x, t.parent_id);
    let base: int = match t.parent_id {
        Some(p) => (depth[p] + 1) as int,
        None => 0,
    };
    assert forall|i: int| 0 <= i < s2.len() implies {
        &&& nd.contains_key((#[trigger] s2[i]).id)
        &&& match s2[i].parent_id {
            None => nd[s2[i].id] == 0,
            Some(p) => has_task(s2, p) && nd[s2[i].id] == nd[p] + 1,
        }
    } by {
        let id = s2[i].id;
        assert(has_task(s, id));
        lemma_has_task_update(s, ix, t, id);
        lemma_desc_step(s, id, x);
        if is_desc(s, id, x) {
            lemma_desc_deeper(s, depth, id, x);
        }
        if i == ix {
            assert(id == x);
            assert(is_desc(s, x, x));
            match t.parent_id {
                Some(p) => {
                    lemma_has_task_update(s, ix, t, p);
                    assert(nd[p] == depth[p]);
                },
                None => {},
            }
        } else {
            assert(s2[i] == s[i]);
            assert(id != x) by {
                assert(s[ix].id == x);
            }
            match s[i].parent_id {
                Some(q) => {
                    lemma_has_task_update(s, ix, t, q);
                    if is_desc(s, q, x) {
                        lemma_desc_deeper(s, depth, q, x);
                    }
                },
                None => {},
            }
        }
    }
}

/// The depths after moving `x` under `np` (to the root for `None`): the
/// subtree of `x` shifts, the rest stays.
pub open spec fn reparented_depths(
    s: Seq<TaskV>,
    depth: Map<Seq<char>, nat>,
    x: Seq<char>,
    np: Option<Seq<char>>,
) -> Map<Seq<char>, nat> {
    let base: int = match np {
        Some(p) => (depth[p] + 1) as int,
        None => 0,
    };
    Map::new(
        |k: Seq<char>| depth.contains_key(k),
        |k: Seq<char>| if is_desc(s, k, x) { (depth[k] - depth[x] + base) as nat } else { depth[k] },
    )
}

/// A task after a defer toggle at `now`: a deferred task comes back with
/// the default interval and no review date; any other task is deferred
/// until `next` (its interval after `now`).
pub open spec fn toggled_defer(old: TaskV, now: Seq<char>, next: Seq<char>) -> TaskV {
    if old.deferred {
        TaskV {
            deferred: false,
            review_interval: DEFAULT_REVIEW_INTERVAL,
            next_review_at: None,
            updated_at: now,
            ..old
        }
    } else {
        TaskV { deferred: true, next_review_at: Some(next), updated_at: now, ..old }
    }
}

/// The review interval after a snooze: doubled, at most the cap.
pub open spec fn snoozed_interval(i: int) -> int {
    if 2 * i <= MAX_REVIEW_INTERVAL { 2 * i } else { MAX_REVIEW_INTERVAL as int }
}

/// A task after a snooze at `now` with the next review at `next`.
pub open spec fn snoozed(old: TaskV, now: Seq<char>, next: Seq<char>) -> TaskV {
    TaskV {
        review_interval: snoozed_interval(old.review_interval as int) as i64,
        next_review_at: Some(next),
        updated_at: now,
        ..old
    }
}

/// A task after a focus toggle at `now`: a focused task loses its focus and
/// budget; another one is focused from `now` with `budget`. Focus is a
/// claim, not a touch: `updated_at` stays as it was.
pub open spec fn toggled_focus(old: TaskV, budget: Option<i64>, now: Seq<char>) -> TaskV {
    if old.focused {
        TaskV { focused: false, focused_at: None, budget_minutes: None, ..old }
    } else {
        TaskV { focused: true, focused_at: Some(now), budget_minutes: budget, ..old }
    }
}

/// The text `"touch"`: the prompt type of a touch sample.
pub open spec fn touch_prompt() -> Seq<char> {
    seq!['t', 'o', 'u', 'c', 'h']
}

/// Some sample has this id.
pub open spec fn has_sample(s: Seq<SampleV>, id: Seq<char>) -> bool {
    exists|i: int| 0 <= i < s.len() && (#[trigger] s[i]).id == id
}

/// An instant whose seconds fit in an `i64` and that chrono can write as
/// RFC 3339 text.
pub open spec fn writable_instant(secs: int, nanos: int) -> bool {
    secs <= i64::MAX && spec_rfc3339_of(secs, nanos) is Some
}

/// The seconds in `days` days.
pub open spec fn days_secs(days: int) -> int {
    days * 86_400
}

/// Seconds in a day.
pub const SECS_PER_DAY: i64 = 86_400;

/// The tasks after a child is added under `parent` at `now`: the parent's
/// `updated_at` becomes `now` (adding a child is a change to the parent);
/// nothing else changes.
pub open spec fn parent_touched(s: Seq<TaskV>, parent: Option<Seq<char>>, now: Seq<char>) -> Seq<TaskV> {
    match parent {
        Some(p) => s.update(index_of_id(s, p), TaskV { updated_at: now, ..task_of(s, p) }),
        None => s,
    }
}

/// The chain of ancestors stops at a root.
proof fn lemma_anc_step_none(s: Seq<TaskV>, d: Seq<char>, k: nat, c: Seq<char>)
    requires
        anc_at(s, d, k) == Some(c),
        parent_of(s, c) is None,
    ensures
        anc_at(s, d, k + 1) is None,
    decreases k,
{
    if k > 0 {
        match parent_of(s, d) {
            Some(q) => {
                lemma_anc_step_none(s, q, (k - 1) as nat, c);
            },
            None => {},
        }
    }
}

/// Walking one more step up the ancestor chain.
proof fn lemma_anc_step_up(s: Seq<TaskV>, d: Seq<char>, k: nat, c: Seq<char>, p: Seq<char>)
    requires
        anc_at(s, d, k) == Some(c),
        parent_of(s, c) == Some(p),
    ensures
        anc_at(s, d, k + 1) == Some(p),
    decreases k,
{
    if k > 0 {
        match parent_of(s, d) {
            Some(q) => {
                assert(anc_at(s, q, (k - 1) as nat) == Some(c));
                lemma_anc_step_up(s, q, (k - 1) as nat, c, p);
                assert(anc_at(s, d, k + 1) == anc_at(s, q, k));
            },
            None => {
                assert(anc_at(s, d, k) is None);
            },
        }
    } else {
        assert(d == c);
        assert(anc_at(s, p, 0) == Some(p));
        assert(anc_at(s, d, 1) == anc_at(s, p, 0));
    }
}

} // verus!
