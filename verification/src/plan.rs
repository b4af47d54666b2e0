//! The repositioning the terminal interface asks the server for when it
//! inserts, indents, outdents or moves a task: which siblings shift, and
//! the position the moved task gets.
use vstd::prelude::*;
use crate::model::{Task, TaskV, task_views};
use crate::text::{to_owned_string, text_eq};

verus! {

/// A task to be given a new position.
#[derive(Debug, Clone)]
pub struct Reposition {
    pub id: String,
    pub position: i64,
}

/// The mathematical value of a [`Reposition`].
pub struct RepositionV {
    pub id: Seq<char>,
    pub position: i64,
}

impl View for Reposition {
    type V = RepositionV;

    open spec fn view(&self) -> RepositionV {
        RepositionV { id: self.id@, position: self.position }
    }
}

/// The views of a sequence of repositionings.
pub open spec fn reposition_views(s: Seq<Reposition>) -> Seq<RepositionV> {
    s.map_values(|r: Reposition| r@)
}

/// The shifts that make room at `pos` for the task `new_id`: every other
/// sibling at `pos` or after moves one place on, in list order.
pub open spec fn insert_shifts(s: Seq<TaskV>, new_id: Seq<char>, pos: i64) -> Seq<RepositionV>
    decreases s.len(),
{
    if s.len() == 0 {
        Seq::empty()
    } else {
        let rest = insert_shifts(s.drop_last(), new_id, pos);
        let t = s.last();
        if t.id != new_id && t.position >= pos {
            rest.push(RepositionV { id: t.id, position: (t.position + 1) as i64 })
        } else {
            rest
        }
    }
}

/// The siblings that shift when a task is inserted at `pos`.
pub fn shifts_for_insert(siblings: &Vec<Task>, new_id: &str, pos: i64) -> (r: Vec<Reposition>)
    requires
        forall|i: int| 0 <= i < siblings@.len() && (#[trigger] siblings@[i])@.id != new_id@ && siblings@[i].position >= pos
            ==> siblings@[i].position < i64::MAX,
    ensures
        reposition_views(r@) == insert_shifts(task_views(siblings@), new_id@, pos),
{
    let mut r: Vec<Reposition> = Vec::new();
    let mut k: usize = 0;
    while k < siblings.len()
        invariant
            k <= siblings@.len(),
            forall|i: int| 0 <= i < siblings@.len() && (#[trigger] siblings@[i])@.id != new_id@ && siblings@[i].position >= pos
                ==> siblings@[i].position < i64::MAX,
            reposition_views(r@) == insert_shifts(task_views(siblings@.take(k as int)), new_id@, pos),
        decreases siblings@.len() - k,
    {
        let t = &siblings[k];
        proof {
            assert(task_views(siblings@.take(k + 1)).drop_last() =~= task_views(siblings@.take(k as int)));
            assert(task_views(siblings@.take(k + 1)).last() == siblings@[k as int]@);
        }
        if !text_eq(t.id.as_str(), new_id) && t.position >= pos {
            r.push(Reposition { id: to_owned_string(t.id.as_str()), position: t.position + 1 });
            proof {
                assert(reposition_views(r@) =~= reposition_views(r@.drop_last()).push(r@.last()@));
            }
        }
        k = k + 1;
    }
    proof {
        assert(siblings@.take(siblings@.len() as int) =~= siblings@);
    }
    r
}

/// The greatest position in a list of tasks, if it has any.
pub open spec fn max_pos(s: Seq<TaskV>) -> Option<i64>
    decreases s.len(),
{
    if s.len() == 0 {
        None
    } else {
        match max_pos(s.drop_last()) {
            Some(m) => if m >= s.last().position { Some(m) } else { Some(s.last().position) },
            None => Some(s.last().position),
        }
    }
}

/// The position after the last of a list of tasks: one past the greatest,
/// 0 when there are none.
pub open spec fn position_after(s: Seq<TaskV>) -> int {
    match max_pos(s) {
        Some(m) => m + 1,
        None => 0,
    }
}

/// The position a task indented under a sibling gets: after the sibling's
/// last child.
pub fn position_after_last(children: &Vec<Task>) -> (r: i64)
    requires
        forall|i: int| 0 <= i < children@.len() ==> (#[trigger] children@[i]).position < i64::MAX,
    ensures
        r == position_after(task_views(children@)),
{
    let mut best: Option<i64> = None;
    let mut k: usize = 0;
    while k < children.len()
        invariant
            k <= children@.len(),
            best == max_pos(task_views(children@.take(k as int))),
            best matches Some(m) ==> m < i64::MAX,
            forall|i: int| 0 <= i < children@.len() ==> (#[trigger] children@[i]).position < i64::MAX,
        decreases children@.len() - k,
    {
        proof {
            assert(task_views(children@.take(k + 1)).drop_last() =~= task_views(children@.take(k as int)));
            assert(task_views(children@.take(k + 1)).last() == children@[k as int]@);
        }
        let p = children[k].position;
        best = match best {
            Some(m) => if m >= p { Some(m) } else { Some(p) },
            None => Some(p),
        };
        k = k + 1;
    }
    proof {
        assert(children@.take(children@.len() as int) =~= children@);
    }
    match best {
        Some(m) => m + 1,
        None => 0,
    }
}

/// Where the task with `id` stands in a list, if it is there: the first
/// such index.
pub open spec fn index_in(s: Seq<TaskV>, id: Seq<char>) -> Option<int> {
    if exists|i: int| 0 <= i < s.len() && s[i].id == id {
        Some(choose|i: int| 0 <= i < s.len() && s[i].id == id && forall|j: int| 0 <= j < i ==> s[j].id != id)
    } else {
        None
    }
}

/// Finds the first task with the given id in a list.
pub fn position_in(s: &Vec<Task>, id: &str) -> (r: Option<usize>)
    ensures
        r matches Some(i) ==> i < s@.len() && s@[i as int]@.id == id@
            && forall|j: int| 0 <= j < i ==> s@[j]@.id != id@,
        r is None ==> forall|j: int| 0 <= j < s@.len() ==> s@[j]@.id != id@,
{
    let mut k: usize = 0;
    while k < s.len()
        invariant
            k <= s@.len(),
            forall|j: int| 0 <= j < k ==> s@[j]@.id != id@,
        decreases s@.len() - k,
    {
        if text_eq(s[k].id.as_str(), id) {
            return Some(k);
        }
        k = k + 1;
    }
    None
}

/// The shifts and the new position when a task leaves its parent for its
/// grandparent's list, `uncles`: it goes right after its old parent, whose
/// position is that of the first uncle with the parent's id (0 when none
/// has it), and every uncle after that position moves one place on.
pub open spec fn outdent_parent_position(uncles: Seq<TaskV>, parent_id: Seq<char>) -> i64 {
    match index_in(uncles, parent_id) {
        Some(i) => uncles[i].position,
        None => 0,
    }
}

/// The uncles after the parent's position, each one place on.
pub open spec fn outdent_shifts(s: Seq<TaskV>, parent_pos: i64) -> Seq<RepositionV>
    decreases s.len(),
{
    if s.len() == 0 {
        Seq::empty()
    } else {
        let rest = outdent_shifts(s.drop_last(), parent_pos);
        let t = s.last();
        if t.position > parent_pos {
            rest.push(RepositionV { id: t.id, position: (t.position + 1) as i64 })
        } else {
            rest
        }
    }
}

/// What an outdent does to positions.
pub struct OutdentPlan {
    /// The old parent's position among the uncles.
    pub parent_position: i64,
    /// The uncles that move one place on.
    pub shifts: Vec<Reposition>,
    /// The outdented task's new position.
    pub position: i64,
}

/// Plans an outdent of a task whose parent is `parent_id`.
pub fn plan_outdent(uncles: &Vec<Task>, parent_id: &str) -> (r: OutdentPlan)
    requires
        forall|i: int| 0 <= i < uncles@.len() ==> (#[trigger] uncles@[i]).position < i64::MAX,
    ensures
        r.parent_position == outdent_parent_position(task_views(uncles@), parent_id@),
        reposition_views(r.shifts@) == outdent_shifts(task_views(uncles@), r.parent_position),
        r.position == r.parent_position + 1,
{
    let pp: i64 = match position_in(uncles, parent_id) {
        Some(i) => {
            proof {
                let s = task_views(uncles@);
                assert(s[i as int].id == parent_id@);
                let j = choose|j: int| 0 <= j < s.len() && s[j].id == parent_id@ && forall|k: int| 0 <= k < j ==> s[k].id != parent_id@;
                assert(forall|k: int| 0 <= k < i ==> s[k].id != parent_id@);
                if j < i {
                    assert(s[j].id != parent_id@);
                } else if j > i {
                    assert(s[i as int].id != parent_id@);
                }
            }
            uncles[i].position
        },
        None => {
            proof {
                let s = task_views(uncles@);
                assert(!exists|i: int| 0 <= i < s.len() && s[i].id == parent_id@) by {
                    assert forall|i: int| 0 <= i < s.len() implies s[i].id != parent_id@ by {
                        assert(s[i] == uncles@[i]@);
                    }
                }
            }
            0
        },
    };
    let mut shifts: Vec<Reposition> = Vec::new();
    let mut k: usize = 0;
    while k < uncles.len()
        invariant
            k <= uncles@.len(),
            forall|i: int| 0 <= i < uncles@.len() ==> (#[trigger] uncles@[i]).position < i64::MAX,
            reposition_views(shifts@) == outdent_shifts(task_views(uncles@.take(k as int)), pp),
        decreases uncles@.len() - k,
    {
        let t = &uncles[k];
        proof {
            assert(task_views(uncles@.take(k + 1)).drop_last() =~= task_views(uncles@.take(k as int)));
            assert(task_views(uncles@.take(k + 1)).last() == uncles@[k as int]@);
        }
        if t.position > pp {
            shifts.push(Reposition { id: to_owned_string(t.id.as_str()), position: t.position + 1 });
            proof {
                assert(reposition_views(shifts@) =~= reposition_views(shifts@.drop_last()).push(shifts@.last()@));
            }
        }
        k = k + 1;
    }
    proof {
        assert(uncles@.take(uncles@.len() as int) =~= uncles@);
    }
    let position = pp + 1;
    OutdentPlan { parent_position: pp, shifts, position }
}

} // verus!
