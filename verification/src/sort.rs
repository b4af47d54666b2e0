//! Ordering of task listings by the column a listing is sorted on, with a
//! stable insertion sort whose result is a sorted permutation of its input.
use vstd::prelude::*;
use crate::model::{Task, TaskV, Sample, SampleV, opt_view, task_views, sample_views};
use crate::text::{lex_le, lemma_lex_total, lemma_lex_trans, text_le};

verus! {

/// The column a listing of tasks is ordered by.
#[derive(Clone, Copy, PartialEq, Eq, Debug)]
pub enum SortKey {
    /// Sibling order, ascending.
    Position,
    /// Creation time, oldest first.
    CreatedAt,
    /// Last update, most recent first.
    UpdatedAtDesc,
    /// Next review time, earliest first; tasks without one first.
    NextReviewAt,
    /// Focus time, earliest first; tasks without one first.
    FocusedAt,
}

/// Optional text ordered with the absent value first, as SQL sorts NULL.
pub open spec fn opt_lex_le(a: Option<Seq<char>>, b: Option<Seq<char>>) -> bool {
    match (a, b) {
        (None, _) => true,
        (Some(_), None) => false,
        (Some(x), Some(y)) => lex_le(x, y),
    }
}

/// Whether `a` may come before `b` in a listing ordered by `k`.
pub open spec fn key_le(k: SortKey, a: TaskV, b: TaskV) -> bool {
    match k {
        SortKey::Position => a.position <= b.position,
        SortKey::CreatedAt => lex_le(a.created_at, b.created_at),
        SortKey::UpdatedAtDesc => lex_le(b.updated_at, a.updated_at),
        SortKey::NextReviewAt => opt_lex_le(a.next_review_at, b.next_review_at),
        SortKey::FocusedAt => opt_lex_le(a.focused_at, b.focused_at),
    }
}

/// A listing ordered by `k`.
pub open spec fn sorted_by(k: SortKey, s: Seq<TaskV>) -> bool {
    forall|i: int, j: int| 0 <= i < j < s.len() ==> key_le(k, s[i], s[j])
}

/// `key_le` is a total preorder.
pub proof fn lemma_key_total(k: SortKey, a: TaskV, b: TaskV)
    ensures
        key_le(k, a, b) || key_le(k, b, a),
{
    match k {
        SortKey::CreatedAt => lemma_lex_total(a.created_at, b.created_at),
        SortKey::UpdatedAtDesc => lemma_lex_total(a.updated_at, b.updated_at),
        SortKey::NextReviewAt => {
            if a.next_review_at is Some && b.next_review_at is Some {
                lemma_lex_total(a.next_review_at->0, b.next_review_at->0);
            }
        },
        SortKey::FocusedAt => {
            if a.focused_at is Some && b.focused_at is Some {
                lemma_lex_total(a.focused_at->0, b.focused_at->0);
            }
        },
        _ => {},
    }
}

/// `key_le` is transitive.
pub proof fn lemma_key_trans(k: SortKey, a: TaskV, b: TaskV, c: TaskV)
    requires
        key_le(k, a, b),
        key_le(k, b, c),
    ensures
        key_le(k, a, c),
{
    match k {
        SortKey::CreatedAt => lemma_lex_trans(a.created_at, b.created_at, c.created_at),
        SortKey::UpdatedAtDesc => lemma_lex_trans(c.updated_at, b.updated_at, a.updated_at),
        SortKey::NextReviewAt => {
            if a.next_review_at is Some && b.next_review_at is Some && c.next_review_at is Some {
                lemma_lex_trans(a.next_review_at->0, b.next_review_at->0, c.next_review_at->0);
            }
        },
        SortKey::FocusedAt => {
            if a.focused_at is Some && b.focused_at is Some && c.focused_at is Some {
                lemma_lex_trans(a.focused_at->0, b.focused_at->0, c.focused_at->0);
            }
        },
        _ => {},
    }
}

fn opt_text_le(a: &Option<String>, b: &Option<String>) -> (r: bool)
    ensures
        r == opt_lex_le(opt_view(*a), opt_view(*b)),
{
    match (a, b) {
        (None, _) => true,
        (Some(_), None) => false,
        (Some(x), Some(y)) => text_le(x.as_str(), y.as_str()),
    }
}

/// Whether `a` may come before `b` in a listing ordered by `k`.
pub fn key_le_exec(k: SortKey, a: &Task, b: &Task) -> (r: bool)
    ensures
        r == key_le(k, a@, b@),
{
    match k {
        SortKey::Position => a.position <= b.position,
        SortKey::CreatedAt => text_le(a.created_at.as_str(), b.created_at.as_str()),
        SortKey::UpdatedAtDesc => text_le(b.updated_at.as_str(), a.updated_at.as_str()),
        SortKey::NextReviewAt => opt_text_le(&a.next_review_at, &b.next_review_at),
        SortKey::FocusedAt => opt_text_le(&a.focused_at, &b.focused_at),
    }
}

/// Inserts `t` into the ordered vector `v`, after every element that may
/// come before it; returns where it went.
pub fn insert_sorted(v: &mut Vec<Task>, t: Task, k: SortKey) -> (idx: usize)
    requires
        sorted_by(k, task_views(old(v)@)),
    ensures
        idx <= old(v)@.len(),
        task_views(final(v)@) == task_views(old(v)@).insert(idx as int, t@),
        sorted_by(k, task_views(final(v)@)),
{
    let ghost s = task_views(v@);
    let mut i: usize = 0;
    while i < v.len() && key_le_exec(k, &v[i], &t)
        invariant
            i <= v.len(),
            s == task_views(v@),
            forall|j: int| 0 <= j < i ==> key_le(k, s[j], t@),
        decreases v.len() - i,
    {
        i = i + 1;
    }
    if i < v.len() {
        proof {
            lemma_key_total(k, s[i as int], t@);
        }
    }
    v.insert(i, t);
    let ghost r = task_views(v@);
    assert(r =~= s.insert(i as int, t@));
    assert forall|j: int| i <= j < s.len() implies key_le(k, t@, s[j]) by {
        if j > i {
            lemma_key_trans(k, t@, s[i as int], s[j]);
        }
    }
    assert forall|a: int, b: int| 0 <= a < b < r.len() implies key_le(k, r[a], r[b]) by {
        if b < i {
        } else if a < i && b == i {
        } else if a < i && b > i {
            lemma_key_trans(k, r[a], t@, r[b]);
        } else if a == i {
        } else {
        }
    }
    i
}

/// The tasks of `v`, ordered by `k`; tasks that compare equal keep their
/// order in `v`.
pub fn sort_tasks(v: Vec<Task>, k: SortKey) -> (r: Vec<Task>)
    ensures
        sorted_by(k, task_views(r@)),
        task_views(r@).to_multiset() == task_views(v@).to_multiset(),
        r@.len() == v@.len(),
{
    broadcast use vstd::seq_lib::group_to_multiset_ensures, vstd::multiset::group_multiset_axioms;
    let mut r: Vec<Task> = Vec::new();
    let mut i: usize = 0;
    let ghost src = task_views(v@);
    while i < v.len()
        invariant
            i <= v.len(),
            src == task_views(v@),
            sorted_by(k, task_views(r@)),
            task_views(r@).to_multiset() == src.take(i as int).to_multiset(),
            r@.len() == i,
        decreases v.len() - i,
    {
        let ghost before = task_views(r@);
        let idx = insert_sorted(&mut r, v[i].duplicate(), k);
        proof {
            let x = src[i as int];
            let after = task_views(r@);
            assert(after.remove(idx as int) =~= before);
            assert(after[idx as int] == x);
            assert(after.contains(x));
            after.to_multiset_ensures();
            assert(after.to_multiset().count(x) > 0);
            assert(after.remove(idx as int).to_multiset() =~= after.to_multiset().remove(x));
            assert(after.to_multiset() =~= before.to_multiset().insert(x));
            assert(src.take(i + 1) =~= src.take(i as int).push(x));
            src.take(i as int).to_multiset_ensures();
        }
        i = i + 1;
    }
    assert(src.take(v.len() as int) =~= src);
    r
}

/// Samples ordered by creation time, oldest first.
pub open spec fn samples_sorted(s: Seq<SampleV>) -> bool {
    forall|i: int, j: int| 0 <= i < j < s.len() ==> lex_le(#[trigger] s[i].created_at, #[trigger] s[j].created_at)
}

fn insert_sample_sorted(v: &mut Vec<Sample>, x: Sample) -> (idx: usize)
    requires
        samples_sorted(sample_views(old(v)@)),
    ensures
        idx <= old(v)@.len(),
        sample_views(final(v)@) == sample_views(old(v)@).insert(idx as int, x@),
        samples_sorted(sample_views(final(v)@)),
{
    let ghost s = sample_views(v@);
    let mut i: usize = 0;
    while i < v.len() && text_le(v[i].created_at.as_str(), x.created_at.as_str())
        invariant
            i <= v.len(),
            s == sample_views(v@),
            forall|j: int| 0 <= j < i ==> lex_le(s[j].created_at, x@.created_at),
        decreases v.len() - i,
    {
        i = i + 1;
    }
    if i < v.len() {
        proof {
            lemma_lex_total(s[i as int].created_at, x@.created_at);
        }
    }
    v.insert(i, x);
    let ghost r = sample_views(v@);
    assert(r =~= s.insert(i as int, x@));
    assert forall|j: int| i <= j < s.len() implies lex_le(x@.created_at, s[j].created_at) by {
        if j > i {
            lemma_lex_trans(x@.created_at, s[i as int].created_at, s[j].created_at);
        }
    }
    assert forall|a: int, b: int| 0 <= a < b < r.len() implies lex_le(#[trigger] r[a].created_at, #[trigger] r[b].created_at) by {
        if a < i && b > i {
            lemma_lex_trans(r[a].created_at, x@.created_at, r[b].created_at);
        }
    }
    i
}

/// The samples of `v` ordered by creation time; samples created at the
/// same instant keep their order in `v`.
pub fn sort_samples(v: Vec<Sample>) -> (r: Vec<Sample>)
    ensures
        samples_sorted(sample_views(r@)),
        sample_views(r@).to_multiset() == sample_views(v@).to_multiset(),
{
    broadcast use vstd::seq_lib::group_to_multiset_ensures, vstd::multiset::group_multiset_axioms;
    let mut r: Vec<Sample> = Vec::new();
    let mut i: usize = 0;
    let ghost src = sample_views(v@);
    while i < v.len()
        invariant
            i <= v.len(),
            src == sample_views(v@),
            samples_sorted(sample_views(r@)),
            sample_views(r@).to_multiset() == src.take(i as int).to_multiset(),
        decreases v.len() - i,
    {
        let ghost before = sample_views(r@);
        let idx = insert_sample_sorted(&mut r, v[i].duplicate());
        proof {
            let x = src[i as int];
            let after = sample_views(r@);
            assert(after.remove(idx as int) =~= before);
            assert(after[idx as int] == x);
            assert(after.contains(x));
            after.to_multiset_ensures();
            assert(after.to_multiset().count(x) > 0);
            assert(after.remove(idx as int).to_multiset() =~= after.to_multiset().remove(x));
            assert(after.to_multiset() =~= before.to_multiset().insert(x));
            assert(src.take(i + 1) =~= src.take(i as int).push(x));
            src.take(i as int).to_multiset_ensures();
        }
        i = i + 1;
    }
    assert(src.take(v.len() as int) =~= src);
    r
}

} // verus!
