//! What holds across the operations of the library: reads give back what
//! writes wrote, deletions take whole subtrees, toggles undo themselves,
//! and the interface's keys and fields behave as their help says.
use vstd::prelude::*;
use crate::model::{TaskV, UpdateTask};
use crate::store::{
    TaskStore, has_task, task_of, index_of_id, ids_unique, is_desc, survives, max_position, next_position,
    anc_at, parent_of, created_task,
    updated_task, toggled_defer, snoozed_interval, toggled_focus, DEFAULT_REVIEW_INTERVAL,
    MAX_REVIEW_INTERVAL,
};
use crate::keys::{KeyCode, KeyPress, NormalAction, normal_step, field_after};
use crate::text_input::TextInputV;
use crate::tui::{PendingKey, HistoryV, spec_staleness, Staleness, select_up_of, select_down_of};
use crate::plan::{position_after, insert_shifts, RepositionV};
use crate::text::{like, like_from, like_char, fold};
use crate::query::{contains_pattern, newest_update_first, earliest_review_first, review_listing, due_for_review,
    lemma_sorted_newest_first};
use crate::sort::{SortKey, sorted_by};
use crate::view::{listed, title_matches};
use crate::text::lex_le;

verus! {

// ── Tasks ──

/// A task just created is found by its id, exactly as the creation
/// returned it.
pub proof fn law_created_task_found(s: Seq<TaskV>, t: TaskV)
    requires
        !has_task(s, t.id),
    ensures
        has_task(s.push(t), t.id),
        task_of(s.push(t), t.id) == t,
{
    let s2 = s.push(t);
    assert(s2[s.len() as int].id == t.id);
    let i = index_of_id(s2, t.id);
    if i < s.len() {
        assert(s[i] == s2[i]);
        assert(has_task(s, t.id));
    }
}

/// A task just updated is found by its id as the update returned it.
pub proof fn law_updated_task_found(s: Seq<TaskV>, i: int, t: TaskV)
    requires
        ids_unique(s),
        0 <= i < s.len(),
        t.id == s[i].id,
    ensures
        has_task(s.update(i, t), t.id),
        task_of(s.update(i, t), t.id) == t,
{
    let s2 = s.update(i, t);
    assert(s2[i].id == t.id);
    let j = index_of_id(s2, t.id);
    if j != i {
        assert(s2[j] == s[j]);
        assert(s[j].id == s[i].id);
    }
}

proof fn lemma_max_position_bound(s: Seq<TaskV>, p: Option<Seq<char>>, i: int)
    requires
        0 <= i < s.len(),
        s[i].parent_id == p,
    ensures
        max_position(s, p) matches Some(m) && s[i].position <= m,
    decreases s.len(),
{
    if i < s.len() - 1 {
        lemma_max_position_bound(s.drop_last(), p, i);
    }
}

/// A new task goes after every sibling it gets: its position is greater
/// than the position of every task that already had its parent.
pub proof fn law_new_child_is_last(s: Seq<TaskV>, p: Option<Seq<char>>, i: int)
    requires
        0 <= i < s.len(),
        s[i].parent_id == p,
    ensures
        s[i].position < next_position(s, p),
{
    lemma_max_position_bound(s, p, i);
}

/// The first child of a task, or the first project, gets position 0.
pub proof fn law_first_child_at_zero(s: Seq<TaskV>, p: Option<Seq<char>>)
    requires
        forall|i: int| 0 <= i < s.len() ==> (#[trigger] s[i]).parent_id != p,
    ensures
        next_position(s, p) == 0,
    decreases s.len(),
{
    if s.len() > 0 {
        let init = s.drop_last();
        assert forall|i: int| 0 <= i < init.len() implies (#[trigger] init[i]).parent_id != p by {
            assert(init[i] == s[i]);
        }
        law_first_child_at_zero(init, p);
        assert(s.last().parent_id != p);
    }
}

/// An update that sets nothing changes nothing but the update time.
pub proof fn law_empty_update_preserves(old: TaskV, u: UpdateTask, now: Seq<char>)
    requires
        u.title is None,
        u.notes is None,
        u.completed is None,
        u.position is None,
        u.parent_id is None,
        u.deferred is None,
        u.acknowledged is None,
    ensures
        updated_task(old, u, now) == (TaskV { updated_at: now, ..old }),
{
}

/// Every update keeps the task's id and creation time and stamps the
/// update time.
pub proof fn law_update_keeps_identity(old: TaskV, u: UpdateTask, now: Seq<char>)
    ensures
        updated_task(old, u, now).id == old.id,
        updated_task(old, u, now).created_at == old.created_at,
        updated_task(old, u, now).updated_at == now,
{
}

proof fn lemma_filter_keeps_only(s: Seq<TaskV>, p: spec_fn(TaskV) -> bool, v: TaskV)
    requires
        s.filter(p).contains(v),
    ensures
        s.contains(v),
        p(v),
    decreases s.len(),
{
    reveal(Seq::filter);
    if s.len() > 0 {
        let init = s.drop_last();
        if p(s.last()) && v == s.last() {
            assert(s[s.len() - 1] == v);
        } else {
            if p(s.last()) {
                let j = choose|j: int| 0 <= j < s.filter(p).len() && s.filter(p)[j] == v;
                assert(s.filter(p) == init.filter(p).push(s.last()));
                assert(j < init.filter(p).len());
                assert(init.filter(p)[j] == v);
            } else {
                assert(s.filter(p) == init.filter(p));
            }
            lemma_filter_keeps_only(init, p, v);
            let k = choose|k: int| 0 <= k < init.len() && init[k] == v;
            assert(s[k] == v);
        }
    }
}

proof fn lemma_filter_all(s: Seq<TaskV>, p: spec_fn(TaskV) -> bool)
    requires
        forall|i: int| 0 <= i < s.len() ==> p(#[trigger] s[i]),
    ensures
        s.filter(p) == s,
    decreases s.len(),
{
    reveal(Seq::filter);
    if s.len() > 0 {
        let init = s.drop_last();
        assert forall|i: int| 0 <= i < init.len() implies p(#[trigger] init[i]) by {
            assert(init[i] == s[i]);
        }
        lemma_filter_all(init, p);
        assert(p(s[s.len() - 1]));
        assert(s.filter(p) =~= init.filter(p).push(s.last()));
        assert(init.push(s.last()) =~= s);
    }
}

/// Deleting a task removes exactly its subtree: a task remains after the
/// deletion if and only if it was there and is not the deleted task or one
/// of its descendants.
pub proof fn law_delete_removes_subtree(s: Seq<TaskV>, id: Seq<char>, x: Seq<char>)
    ensures
        has_task(s.filter(survives(s, id)), x) == (has_task(s, x) && !is_desc(s, x, id)),
{
    let p = survives(s, id);
    let f = s.filter(p);
    s.filter_lemma(p);
    if has_task(f, x) {
        let i = choose|i: int| 0 <= i < f.len() && (#[trigger] f[i]).id == x;
        assert(f.contains(f[i]));
        lemma_filter_keeps_only(s, p, f[i]);
        let k = choose|k: int| 0 <= k < s.len() && s[k] == f[i];
        assert(s[k].id == x);
    }
    if has_task(s, x) && !is_desc(s, x, id) {
        let k = choose|k: int| 0 <= k < s.len() && (#[trigger] s[k]).id == x;
        assert(p(s[k]));
        assert(f.contains(s[k]));
        let j = choose|j: int| 0 <= j < f.len() && f[j] == s[k];
        assert(f[j].id == x);
    }
}

/// The tasks form a forest: walking up the parent links from any task goes
/// through existing tasks only and ends at a root, in fewer steps than
/// there are tasks; no chain of parents loops.
pub open spec fn is_forest(s: Seq<TaskV>) -> bool {
    forall|i: int| #![trigger s[i]] 0 <= i < s.len() ==> exists|k: nat| k < s.len()
        && (#[trigger] anc_at(s, s[i].id, k) matches Some(r) && has_task(s, r) && parent_of(s, r) is None)
}

/// The tasks of a database form a forest. Every operation of the database
/// keeps it well formed, so the tasks stay a forest across creations,
/// updates (a move under the task itself or below it is refused), deletions
/// and loads.
pub proof fn law_tasks_form_a_forest(store: &TaskStore)
    requires
        store.wf(),
    ensures
        is_forest(store@.tasks),
{
    let s = store@.tasks;
    assert forall|i: int| #![trigger s[i]] 0 <= i < s.len() implies exists|k: nat| k < s.len()
        && (#[trigger] anc_at(s, s[i].id, k) matches Some(r) && has_task(s, r) && parent_of(s, r) is None) by {
        assert(has_task(s, s[i].id));
        store.lemma_acyclic(s[i].id);
    }
}

/// The fields an undo puts back: title, notes, completion, position,
/// parent and whether the task is deferred.
pub open spec fn undo_fields(t: TaskV) -> (Seq<char>, Seq<char>, bool, i64, Option<Seq<char>>, bool) {
    (t.title, t.notes, t.completed, t.position, t.parent_id, t.deferred)
}

/// `u` is the update that puts back the undo fields of `t`: what
/// `restoring_update` builds from a snapshot of `t` (a root gets the empty
/// parent id).
pub open spec fn restores(u: UpdateTask, t: TaskV) -> bool {
    &&& u.title matches Some(x) && x@ == t.title
    &&& u.notes matches Some(x) && x@ == t.notes
    &&& u.completed == Some(t.completed)
    &&& u.position == Some(t.position)
    &&& u.parent_id matches Some(p) && p@ == match t.parent_id {
        Some(q) => q,
        None => Seq::<char>::empty(),
    }
    &&& u.deferred == Some(t.deferred)
    &&& u.acknowledged is None
}

/// Undoing an edit and then redoing it gives the state back: the undo step
/// (a snapshot of `before`) put on the task as it now is (`now_t`) brings
/// back the fields of `before`, and the redo step (a snapshot of `now_t`
/// taken then) brings back those of `now_t`. Parent ids are never empty.
pub proof fn law_undo_edit_round_trip(
    before: TaskV,
    now_t: TaskV,
    undo: UpdateTask,
    redo: UpdateTask,
    at1: Seq<char>,
    at2: Seq<char>,
)
    requires
        restores(undo, before),
        restores(redo, now_t),
        before.parent_id matches Some(p) ==> p.len() > 0,
        now_t.parent_id matches Some(p) ==> p.len() > 0,
    ensures
        undo_fields(updated_task(now_t, undo, at1)) == undo_fields(before),
        undo_fields(updated_task(updated_task(now_t, undo, at1), redo, at2)) == undo_fields(now_t),
        updated_task(now_t, undo, at1).id == now_t.id,
{
}

/// Undoing a deletion creates the task again: the creation under the old
/// parent with the old title and notes, followed by the fix-up that
/// `recreate_fixup` asks for (none when the new task is incomplete and
/// already at the old position), gives back the deleted task's parent,
/// title, notes, completion and position.
pub proof fn law_undo_delete_recreates(
    gone: TaskV,
    s: Seq<TaskV>,
    id: Seq<char>,
    at1: Seq<char>,
    at2: Seq<char>,
    fix: Option<UpdateTask>,
)
    requires
        ({
            let c = created_task(s, gone.parent_id, gone.title, gone.notes, id, at1);
            &&& !(gone.completed || gone.position != c.position) ==> fix is None
            &&& (gone.completed || gone.position != c.position) ==> (fix matches Some(u)
                && u.completed == Some(gone.completed) && u.position == Some(gone.position)
                && u.title is None && u.notes is None && u.parent_id is None && u.deferred is None
                && u.acknowledged is None)
        }),
    ensures
        ({
            let c = created_task(s, gone.parent_id, gone.title, gone.notes, id, at1);
            let back = match fix {
                Some(u) => updated_task(c, u, at2),
                None => c,
            };
            &&& back.parent_id == gone.parent_id
            &&& back.title == gone.title
            &&& back.notes == gone.notes
            &&& back.completed == gone.completed
            &&& back.position == gone.position
            &&& back.id == id
        }),
{
}

/// Deleting a task that does not exist leaves every task in place.
pub proof fn law_delete_missing_is_noop(store: &TaskStore, id: Seq<char>)
    requires
        store.wf(),
        !has_task(store@.tasks, id),
    ensures
        store@.tasks.filter(survives(store@.tasks, id)) == store@.tasks,
{
    let s = store@.tasks;
    assert forall|i: int| 0 <= i < s.len() implies (#[trigger] survives(s, id)(s[i])) by {
        assert(has_task(s, s[i].id));
        if is_desc(s, s[i].id, id) {
            store.lemma_ancestor_exists(s[i].id, id);
        }
    }
    lemma_filter_all(s, survives(s, id));
}

/// Deferring is a toggle: a deferred task brought back is active again,
/// with the default review interval and no review date, whatever it was
/// before; deferring it again defers it.
pub proof fn law_defer_toggles(t: TaskV, now1: Seq<char>, next1: Seq<char>, now2: Seq<char>, next2: Seq<char>)
    ensures
        toggled_defer(toggled_defer(t, now1, next1), now2, next2).deferred == t.deferred,
        !t.deferred ==> toggled_defer(toggled_defer(t, now1, next1), now2, next2).review_interval == DEFAULT_REVIEW_INTERVAL,
        !t.deferred ==> toggled_defer(toggled_defer(t, now1, next1), now2, next2).next_review_at is None,
        toggled_defer(t, now1, next1).deferred ==> toggled_defer(t, now1, next1).next_review_at == Some(next1),
{
}

/// Snoozing never leaves the review interval outside its range, never
/// shortens it, and doubles it until the cap: 7, 14, 28, 56, then 90 days.
pub proof fn law_snooze_doubles_to_cap(i: int)
    requires
        DEFAULT_REVIEW_INTERVAL <= i <= MAX_REVIEW_INTERVAL,
    ensures
        DEFAULT_REVIEW_INTERVAL <= snoozed_interval(i) <= MAX_REVIEW_INTERVAL,
        i <= snoozed_interval(i),
        2 * i <= MAX_REVIEW_INTERVAL ==> snoozed_interval(i) == 2 * i,
        snoozed_interval(7) == 14 && snoozed_interval(14) == 28 && snoozed_interval(28) == 56
            && snoozed_interval(56) == 90 && snoozed_interval(90) == 90,
{
}

/// Focusing is a toggle: focusing twice leaves a task unfocused, with no
/// start time and no budget.
pub proof fn law_focus_toggles(t: TaskV, b1: Option<i64>, now1: Seq<char>, b2: Option<i64>, now2: Seq<char>)
    ensures
        toggled_focus(toggled_focus(t, b1, now1), b2, now2).focused == t.focused,
        !t.focused ==> toggled_focus(toggled_focus(t, b1, now1), b2, now2).focused_at is None,
        !t.focused ==> toggled_focus(toggled_focus(t, b1, now1), b2, now2).budget_minutes is None,
        !t.focused ==> toggled_focus(t, b1, now1).focused_at == Some(now1) && toggled_focus(t, b1, now1).budget_minutes == b1,
{
}

/// A task indented under a sibling goes after all of that sibling's
/// children.
pub proof fn law_indented_task_is_last(children: Seq<TaskV>, i: int)
    requires
        0 <= i < children.len(),
    ensures
        children[i].position < position_after(children),
    decreases children.len(),
{
    if i < children.len() - 1 {
        law_indented_task_is_last(children.drop_last(), i);
        assert(children.drop_last()[i] == children[i]);
    }
}


// ── Search ──

proof fn lemma_trailing_percent(p: Seq<char>, t: Seq<char>, j: int)
    requires
        p.len() >= 1,
        p.last() == '%',
        0 <= j <= t.len(),
    ensures
        like_from(p, t, p.len() - 1, j),
    decreases t.len() - j,
{
    let n = p.len() - 1;
    assert(p[n] == '%');
    if j < t.len() {
        lemma_trailing_percent(p, t, j + 1);
        assert(like_from(p, t, n, j + 1));
    } else {
        assert(like_from(p, t, n + 1, j));
    }
}

proof fn lemma_match_run(p: Seq<char>, t: Seq<char>, i: int, j: int, m: int)
    requires
        0 <= i,
        0 <= m,
        i + m < p.len(),
        0 <= j,
        j + m <= t.len(),
        p.subrange(i, i + m) == t.subrange(j, j + m),
        like_from(p, t, i + m, j + m),
    ensures
        like_from(p, t, i, j),
    decreases m,
{
    if m > 0 {
        assert(p.subrange(i + 1, i + m) =~= p.subrange(i, i + m).subrange(1, m));
        assert(t.subrange(j + 1, j + m) =~= t.subrange(j, j + m).subrange(1, m));
        lemma_match_run(p, t, i + 1, j + 1, m - 1);
        assert(p[i] == p.subrange(i, i + m)[0]);
        assert(t[j] == t.subrange(j, j + m)[0]);
        if p[i] == '%' {
            assert(like_from(p, t, i + 1, j + 1));
            assert(like_from(p, t, i, j + 1));
        } else {
            assert(like_char(p[i], t[j]));
        }
    }
}

proof fn lemma_leading_percent(p: Seq<char>, t: Seq<char>, j: int, k: int)
    requires
        p.len() >= 1,
        p[0] == '%',
        0 <= j <= k <= t.len(),
        like_from(p, t, 1, k),
    ensures
        like_from(p, t, 0, j),
    decreases k - j,
{
    if j < k {
        lemma_leading_percent(p, t, j + 1, k);
    }
}

/// A search finds every text that contains the query: the query's
/// pattern `%query%` matches any text in which the query occurs, so the
/// empty query matches every text.
pub proof fn law_query_finds_containing_text(q: Seq<char>, t: Seq<char>, k: int)
    requires
        0 <= k,
        k + q.len() <= t.len(),
        t.subrange(k, k + q.len()) == q,
    ensures
        like(contains_pattern(q), t),
{
    let p = contains_pattern(q);
    let m = q.len() as int;
    assert(p.len() == m + 2);
    assert(p.last() == '%');
    lemma_trailing_percent(p, t, k + m);
    assert(p.subrange(1, 1 + m) =~= q);
    lemma_match_run(p, t, 1, k, m);
    lemma_leading_percent(p, t, 0, k);
}

/// The empty query matches every text.
pub proof fn law_empty_query_matches_all(t: Seq<char>)
    ensures
        like(contains_pattern(Seq::empty()), t),
{
    assert(t.subrange(0, 0) =~= Seq::<char>::empty());
    law_query_finds_containing_text(Seq::empty(), t, 0);
}

/// Searching ignores the case of ASCII letters: a letter in the query
/// matches its other case in the text.
pub proof fn law_search_ignores_ascii_case(a: char, b: char)
    requires
        ('A' <= a <= 'Z' && b as int == a as int + 32) || ('a' <= a <= 'z' && a as int == b as int + 32),
    ensures
        like_char(a, b),
{
}

/// Inserting below the selection frees the slot right after it: every
/// sibling that moves ends up past the slot, and moving keeps the order of
/// the siblings (two siblings keep their order after the shift).
pub proof fn law_insert_frees_slot(s: Seq<TaskV>, new_id: Seq<char>, pos: i64, a: i64, b: i64)
    requires
        forall|i: int| 0 <= i < s.len() ==> (#[trigger] s[i]).position < i64::MAX,
        a < b < i64::MAX,
    ensures
        forall|k: int| 0 <= k < insert_shifts(s, new_id, pos).len() ==> (#[trigger] insert_shifts(s, new_id, pos)[k]).position > pos,
        (if a >= pos { a + 1 } else { a as int }) < (if b >= pos { b + 1 } else { b as int }),
    decreases s.len(),
{
    if s.len() > 0 {
        let init = s.drop_last();
        assert forall|i: int| 0 <= i < init.len() implies (#[trigger] init[i]).position < i64::MAX by {
            assert(init[i] == s[i]);
        }
        law_insert_frees_slot(init, new_id, pos, a, b);
        let rest = insert_shifts(init, new_id, pos);
        let t = s.last();
        if t.id != new_id && t.position >= pos {
            assert(insert_shifts(s, new_id, pos) == rest.push(RepositionV { id: t.id, position: (t.position + 1) as i64 }));
            assert forall|k: int| 0 <= k < insert_shifts(s, new_id, pos).len() implies (#[trigger] insert_shifts(s, new_id, pos)[k]).position > pos by {
                if k < rest.len() {
                    assert(insert_shifts(s, new_id, pos)[k] == rest[k]);
                }
            }
        }
    }
}

// ── The terminal interface ──

/// Quitting takes two presses of `q`: the first only asks, the second
/// quits; any other key in between cancels.
pub proof fn law_quit_needs_two_q(p: PendingKey, k: KeyPress)
    requires
        k.code != KeyCode::Char('q'),
    ensures
        ({
            let q = KeyPress { code: KeyCode::Char('q'), ctrl: false };
            let first = normal_step(PendingKey::Idle, false, q);
            &&& first.action == NormalAction::AskQuit
            &&& first.quit_pending
            &&& normal_step(first.pending, first.quit_pending, q).action == NormalAction::Quit
            &&& !normal_step(p, true, k).quit_pending
            &&& normal_step(p, true, k).clear_status
        }),
{
}

/// `gg` selects the first row and `G` the last; `dd` cuts and `yy` copies.
pub proof fn law_double_keys(qp: bool)
    ensures
        ({
            let g = KeyPress { code: KeyCode::Char('g'), ctrl: false };
            let d = KeyPress { code: KeyCode::Char('d'), ctrl: false };
            let y = KeyPress { code: KeyCode::Char('y'), ctrl: false };
            let g1 = normal_step(PendingKey::Idle, qp, g);
            let d1 = normal_step(PendingKey::Idle, qp, d);
            let y1 = normal_step(PendingKey::Idle, qp, y);
            &&& g1.action == NormalAction::Nothing
            &&& normal_step(g1.pending, g1.quit_pending, g).action == NormalAction::Top
            &&& normal_step(d1.pending, d1.quit_pending, d).action == NormalAction::Cut
            &&& normal_step(y1.pending, y1.quit_pending, y).action == NormalAction::Yank
            &&& normal_step(PendingKey::Idle, qp, KeyPress { code: KeyCode::Char('G'), ctrl: false }).action == NormalAction::Bottom
        }),
{
}

/// What a key does in the normal mode with nothing waiting.
pub open spec fn idle_action(qp: bool, c: char, ctrl: bool) -> NormalAction {
    normal_step(PendingKey::Idle, qp, KeyPress { code: KeyCode::Char(c), ctrl }).action
}

/// The normal-mode keys do what the help says, with or without a quit
/// waiting, and (for the keys that have no Control variant) with or
/// without Control: `x` toggles done, `z` defers, `.` touches, `f` focuses,
/// `e` edits the title, `a`/`A`/`o` add below, append and add-and-enter,
/// `D` deletes, `J`/`K` move the task, `u` undoes, `n` edits the notes,
/// `/` filters, `t`/`c`/`Z` toggle the tree, done and deferred tasks, `?`
/// shows the help, `j`/`k` move the selection, `l`/`h` enter and leave.
pub proof fn law_normal_keys_follow_the_help(qp: bool, ctrl: bool)
    ensures
        idle_action(qp, 'x', ctrl) == NormalAction::ToggleDone,
        idle_action(qp, 'z', ctrl) == NormalAction::Defer,
        idle_action(qp, '.', ctrl) == NormalAction::Touch,
        idle_action(qp, 'f', false) == NormalAction::Focus,
        idle_action(qp, 'f', true) == NormalAction::Search,
        idle_action(qp, 'e', ctrl) == NormalAction::EditTitle,
        idle_action(qp, 'a', ctrl) == NormalAction::AddBelow,
        idle_action(qp, 'A', ctrl) == NormalAction::Append,
        idle_action(qp, 'o', ctrl) == NormalAction::AddAndEnter,
        idle_action(qp, 'D', ctrl) == NormalAction::Delete,
        idle_action(qp, 'J', ctrl) == NormalAction::MoveSelectedDown,
        idle_action(qp, 'K', ctrl) == NormalAction::MoveSelectedUp,
        idle_action(qp, 'p', ctrl) == NormalAction::Paste,
        idle_action(qp, 'u', false) == NormalAction::Undo,
        idle_action(qp, 'u', true) == NormalAction::HalfPageUp,
        idle_action(qp, 'r', false) == NormalAction::Refresh,
        idle_action(qp, 'r', true) == NormalAction::Redo,
        idle_action(qp, 'n', ctrl) == NormalAction::EditNotes,
        idle_action(qp, '/', ctrl) == NormalAction::Filter,
        idle_action(qp, 't', ctrl) == NormalAction::ToggleTree,
        idle_action(qp, 'c', false) == NormalAction::ToggleCompleted,
        idle_action(qp, 'Z', ctrl) == NormalAction::ToggleDeferred,
        idle_action(qp, '?', ctrl) == NormalAction::Help,
        idle_action(qp, ' ', ctrl) == NormalAction::ToggleMark,
        idle_action(qp, 'V', ctrl) == NormalAction::MarkAll,
        idle_action(qp, '[', ctrl) == NormalAction::NotesUp,
        idle_action(qp, ']', ctrl) == NormalAction::NotesDown,
        idle_action(qp, 'j', ctrl) == NormalAction::MoveDown,
        idle_action(qp, 'k', ctrl) == NormalAction::MoveUp,
        idle_action(qp, 'l', ctrl) == NormalAction::EnterSelected,
        idle_action(qp, 'h', ctrl) == NormalAction::Pop,
        idle_action(qp, 'H', ctrl) == NormalAction::GoHome,
        idle_action(qp, 'd', true) == NormalAction::HalfPageDown,
{
}

// ── Listings ──

/// What each listing order means, for any two entries `i < j` of a listing
/// sorted on it: sibling positions rise; creation times rise; update times
/// fall (newest first); review and focus times rise, with the tasks that
/// have none first (as SQL sorts NULL).
pub proof fn law_listing_orders(k: SortKey, l: Seq<TaskV>, i: int, j: int)
    requires
        sorted_by(k, l),
        0 <= i < j < l.len(),
    ensures
        k == SortKey::Position ==> l[i].position <= l[j].position,
        k == SortKey::CreatedAt ==> lex_le(l[i].created_at, l[j].created_at),
        k == SortKey::UpdatedAtDesc ==> lex_le(l[j].updated_at, l[i].updated_at),
        k == SortKey::NextReviewAt ==> (l[i].next_review_at is None
            || (l[j].next_review_at is Some && lex_le(l[i].next_review_at->0, l[j].next_review_at->0))),
        k == SortKey::FocusedAt ==> (l[i].focused_at is None
            || (l[j].focused_at is Some && lex_le(l[i].focused_at->0, l[j].focused_at->0))),
{
    assert(crate::sort::key_le(k, l[i], l[j]));
}

/// A search listing runs newest update first, and the limit keeps the
/// newest: in a listing sorted for the search, every entry past the first
/// `keep` was updated no later than every entry among them.
pub proof fn law_search_keeps_the_newest(l: Seq<TaskV>, keep: int, i: int, j: int)
    requires
        sorted_by(SortKey::UpdatedAtDesc, l),
        0 <= i < keep <= j < l.len(),
    ensures
        lex_le(l[j].updated_at, l[i].updated_at),
        newest_update_first(l),
{
    lemma_sorted_newest_first(l);
    assert(newest_update_first(l));
    assert(lex_le(l[j].updated_at, l[i].updated_at));
}

/// The review listing runs earliest review first, every task in it is due,
/// and a due task left out by the limit of 20 is due no earlier than every
/// task kept.
pub proof fn law_review_keeps_the_most_overdue(s: Seq<TaskV>, now: Seq<char>, r: Seq<TaskV>)
    requires
        review_listing(s, now, r),
    ensures
        forall|i: int, j: int| #![trigger r[i], r[j]] 0 <= i < j < r.len()
            ==> lex_le(r[i].next_review_at->0, r[j].next_review_at->0),
        forall|i: int| 0 <= i < r.len() ==> (#[trigger] r[i]).deferred && r[i].next_review_at is Some,
        exists|l: Seq<TaskV>| {
            &&& l.to_multiset() == s.filter(due_for_review(now)).to_multiset()
            &&& #[trigger] l.take(r.len() as int) == r
            &&& forall|i: int, j: int| #![trigger l[i], l[j]] 0 <= i < r.len() <= j < l.len()
                ==> lex_le(l[i].next_review_at->0, l[j].next_review_at->0)
        },
{
    let l = choose|l: Seq<TaskV>| {
        &&& sorted_by(SortKey::NextReviewAt, l)
        &&& earliest_review_first(l)
        &&& l.to_multiset() == s.filter(due_for_review(now)).to_multiset()
        &&& r == #[trigger] l.take(crate::query::limited(l.len(), 20))
    };
    crate::query::lemma_due_sorted_earliest_first(l, s, now);
    assert forall|i: int, j: int| #![trigger r[i], r[j]] 0 <= i < j < r.len()
        implies lex_le(r[i].next_review_at->0, r[j].next_review_at->0) by {
        assert(r[i] == l[i] && r[j] == l[j]);
    }
    assert forall|i: int| 0 <= i < r.len() implies (#[trigger] r[i]).deferred && r[i].next_review_at is Some by {
        assert(r[i] == l[i]);
        assert(l[i].next_review_at is Some);
        crate::query::lemma_due_elems(l, s, now, i);
    }
    assert(l.take(r.len() as int) == r);
}

/// Whether a deferred task is listed follows the `Z` toggle alone: an
/// unfinished deferred task whose title matches the filter is listed
/// exactly when deferred tasks are shown, whatever the completed toggle
/// says; and a listed task always obeys both toggles.
pub proof fn law_deferred_listing_follows_its_toggle(all: Seq<TaskV>, sc: bool, sd: bool, f: Seq<char>, i: int)
    requires
        0 <= i < all.len(),
        all[i].deferred,
        !all[i].completed,
        title_matches(f, all[i].title),
    ensures
        all.filter(listed(sc, sd, f)).contains(all[i]) == sd,
        forall|k: int| 0 <= k < all.filter(listed(sc, sd, f)).len() ==> {
            let t = #[trigger] all.filter(listed(sc, sd, f))[k];
            (sc || !t.completed) && (sd || !t.deferred)
        },
{
    let v = all.filter(listed(sc, sd, f));
    if sd {
        all.lemma_filter_contains(listed(sc, sd, f), i);
    } else if v.contains(all[i]) {
        let k = choose|k: int| 0 <= k < v.len() && v[k] == all[i];
        all.lemma_filter_pred(listed(sc, sd, f), k);
    }
    assert forall|k: int| 0 <= k < v.len() implies {
        let t = #[trigger] v[k];
        (sc || !t.completed) && (sd || !t.deferred)
    } by {
        all.lemma_filter_pred(listed(sc, sd, f), k);
    }
}

/// A key that does not finish a waiting sequence does what it does on its
/// own.
pub proof fn law_broken_sequence_falls_through(p: PendingKey, qp: bool, k: KeyPress)
    requires
        !(p == PendingKey::G && k.code == KeyCode::Char('g')),
        !(p == PendingKey::D && k.code == KeyCode::Char('d')),
        !(p == PendingKey::Y && k.code == KeyCode::Char('y')),
        !(p == PendingKey::Lt && k.code == KeyCode::Char('<')),
        !(p == PendingKey::Gt && k.code == KeyCode::Char('>')),
    ensures
        normal_step(p, qp, k) == normal_step(PendingKey::Idle, qp, k),
{
}

/// The selection wraps: moving down from the last row lands on the first,
/// moving up from the first lands on the last, and a move down undoes a
/// move up (and the other way round).
pub proof fn law_selection_wraps(s: usize, len: usize)
    requires
        s < len,
    ensures
        select_down_of(Some((len - 1) as usize), len) == Some(0usize),
        select_up_of(Some(0usize), len) == Some((len - 1) as usize),
        select_up_of(select_down_of(Some(s), len), len) == Some(s),
        select_down_of(select_up_of(Some(s), len), len) == Some(s),
{
}

/// Typing a character and then Backspace leaves a field as it was.
pub proof fn law_type_then_backspace(v: TextInputV, c: char)
    requires
        v.cursor <= v.content.len(),
    ensures
        ({
            let typed = field_after(v, KeyPress { code: KeyCode::Char(c), ctrl: false });
            let back = field_after(typed, KeyPress { code: KeyCode::Backspace, ctrl: false });
            back.content == v.content && back.cursor == v.cursor
        }),
{
    let typed = field_after(v, KeyPress { code: KeyCode::Char(c), ctrl: false });
    assert(typed.content.remove(v.cursor as int) =~= v.content);
}

/// Home then End puts the cursor at the end, and moving keys never change
/// the text.
pub proof fn law_moves_keep_text(v: TextInputV, code: KeyCode)
    requires
        code == KeyCode::Left || code == KeyCode::Right || code == KeyCode::Home || code == KeyCode::End,
    ensures
        field_after(v, KeyPress { code, ctrl: false }).content == v.content,
        field_after(field_after(v, KeyPress { code: KeyCode::Home, ctrl: false }), KeyPress { code: KeyCode::End, ctrl: false }).cursor
            == v.content.len(),
{
}

/// What was recorded last is undone first, and what was undone last is
/// redone first: an undo stack pushed with `e` pops `e` and is as before.
pub proof fn law_undo_is_last_in_first_out<E>(h: HistoryV<E>, e: E)
    ensures
        h.undo.push(e).last() == e,
        h.undo.push(e).drop_last() == h.undo,
        h.redo.push(e).last() == e,
        h.redo.push(e).drop_last() == h.redo,
{
    assert(h.undo.push(e).drop_last() =~= h.undo);
    assert(h.redo.push(e).drop_last() =~= h.redo);
}

/// The older a task's last update, the dimmer it is drawn: fresh under
/// three days, then gray 160, 120 and 80 from three, seven and fourteen
/// days.
pub proof fn law_staleness_dims_with_age(days: int)
    ensures
        0 <= days < 3 ==> spec_staleness(days, false) == Staleness::Fresh,
        3 <= days < 7 ==> spec_staleness(days, false) == Staleness::Tinted(160, 160, 160),
        7 <= days < 14 ==> spec_staleness(days, false) == Staleness::Tinted(120, 120, 120),
        14 <= days ==> spec_staleness(days, false) == Staleness::Tinted(80, 80, 80),
{
}

} // verus!
