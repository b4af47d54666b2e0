//! What the terminal interface shows of a frame: which children are listed
//! under the current toggles and filter, the rows of the tree view with
//! their depths, the breadcrumb, and how each row is toned.
use vstd::prelude::*;
use crate::model::{Task, TaskV, task_views};
use crate::text::{chars_of, to_owned_string, append_str};
use crate::tui::Staleness;

verus! {

/// The text `str::to_lowercase` makes of a text (full Unicode lower case).
pub uninterp spec fn spec_lowercase(s: Seq<char>) -> Seq<char>;

/// `str::to_lowercase`. Claimed: the result is the named function of the
/// text alone (Unicode's case tables, fixed for a given std).
#[verifier::external_body]
fn lowercase(s: &str) -> (r: String)
    ensures
        r@ == spec_lowercase(s@),
{
    s.to_lowercase()
}

/// `needle` occurs in `hay` as a run of consecutive characters.
pub open spec fn has_substring(hay: Seq<char>, needle: Seq<char>) -> bool {
    exists|i: int| 0 <= i && i + needle.len() <= hay.len() && #[trigger] hay.subrange(i, i + needle.len()) == needle
}

/// Whether `needle` occurs in `hay`.
pub fn contains_text(hay: &Vec<char>, needle: &Vec<char>) -> (r: bool)
    ensures
        r == has_substring(hay@, needle@),
{
    let n = hay.len();
    let m = needle.len();
    if m > n {
        proof {
            assert forall|i: int| 0 <= i && i + m <= n implies #[trigger] hay@.subrange(i, i + m) != needle@ by {}
        }
        return false;
    }
    let mut i: usize = 0;
    while i <= n - m
        invariant
            m <= n,
            n == hay@.len(),
            m == needle@.len(),
            i <= n - m + 1,
            forall|k: int| 0 <= k < i ==> #[trigger] hay@.subrange(k, k + m) != needle@,
        decreases n - m + 1 - i,
    {
        let mut j: usize = 0;
        while j < m && hay[i + j] == needle[j]
            invariant
                m <= n,
                n == hay@.len(),
                m == needle@.len(),
                i <= n - m,
                j <= m,
                forall|k: int| 0 <= k < j ==> hay@[i + k] == needle@[k],
            decreases m - j,
        {
            j = j + 1;
        }
        if j == m {
            proof {
                assert(hay@.subrange(i as int, i + m) =~= needle@);
            }
            return true;
        }
        proof {
            assert(hay@.subrange(i as int, i + m)[j as int] != needle@[j as int]);
        }
        i = i + 1;
    }
    proof {
        assert forall|k: int| 0 <= k && k + m <= n implies #[trigger] hay@.subrange(k, k + m) != needle@ by {
            assert(k < i);
        }
    }
    false
}

/// A task is listed when completed tasks are shown or it is not complete,
/// deferred tasks are shown or it is not deferred, and the filter is empty
/// or occurs in its title, both in lower case.
pub open spec fn listed(show_completed: bool, show_deferred: bool, filter: Seq<char>) -> spec_fn(TaskV) -> bool {
    |t: TaskV| (show_completed || !t.completed) && (show_deferred || !t.deferred) && title_matches(filter, t.title)
}

/// The filter is empty or occurs in the title, both in lower case.
pub open spec fn title_matches(filter: Seq<char>, title: Seq<char>) -> bool {
    filter.len() == 0 || has_substring(spec_lowercase(title), spec_lowercase(filter))
}

/// Whether a task is listed.
pub fn is_listed(t: &Task, show_completed: bool, show_deferred: bool, filter: &str) -> (r: bool)
    ensures
        r == listed(show_completed, show_deferred, filter@)(t@),
{
    if !(show_completed || !t.completed) || !(show_deferred || !t.deferred) {
        return false;
    }
    if filter.is_empty() {
        return true;
    }
    let title = lowercase(t.title.as_str());
    let f = lowercase(filter);
    let hay = chars_of(title.as_str());
    let needle = chars_of(f.as_str());
    contains_text(&hay, &needle)
}

/// The children the list shows, in their order.
pub fn visible_children(all: &Vec<Task>, show_completed: bool, show_deferred: bool, filter: &str) -> (r: Vec<Task>)
    ensures
        task_views(r@) == task_views(all@).filter(listed(show_completed, show_deferred, filter@)),
        forall|i: int| 0 <= i < r@.len() ==> (show_completed || !(#[trigger] r@[i])@.completed)
            && (show_deferred || !r@[i]@.deferred) && title_matches(filter@, r@[i]@.title),
        forall|i: int| 0 <= i < all@.len() && (show_completed || !(#[trigger] all@[i])@.completed)
            && (show_deferred || !all@[i]@.deferred) && title_matches(filter@, all@[i]@.title)
            ==> task_views(r@).contains(all@[i]@),
{
    let ghost pred = listed(show_completed, show_deferred, filter@);
    let mut r: Vec<Task> = Vec::new();
    let mut k: usize = 0;
    while k < all.len()
        invariant
            k <= all@.len(),
            pred == listed(show_completed, show_deferred, filter@),
            task_views(r@) == task_views(all@.take(k as int)).filter(pred),
        decreases all@.len() - k,
    {
        proof {
            assert(task_views(all@.take(k + 1)) =~= task_views(all@.take(k as int)).push(all@[k as int]@));
            task_views(all@.take(k as int)).lemma_filter_push(all@[k as int]@, pred);
        }
        if is_listed(&all[k], show_completed, show_deferred, filter) {
            let ghost before = r@;
            r.push(all[k].duplicate());
            proof {
                assert(task_views(r@) =~= task_views(before).push(all@[k as int]@));
            }
        }
        k = k + 1;
    }
    proof {
        assert(all@.take(all@.len() as int) =~= all@);
        let v = task_views(all@);
        assert forall|i: int| 0 <= i < r@.len() implies (show_completed || !(#[trigger] r@[i])@.completed)
            && (show_deferred || !r@[i]@.deferred) && title_matches(filter@, r@[i]@.title) by {
            assert(task_views(r@)[i] == r@[i]@);
            v.lemma_filter_pred(pred, i);
        }
        assert forall|i: int| 0 <= i < all@.len() && (show_completed || !(#[trigger] all@[i])@.completed)
            && (show_deferred || !all@[i]@.deferred) && title_matches(filter@, all@[i]@.title)
            implies task_views(r@).contains(all@[i]@) by {
            assert(v[i] == all@[i]@);
            v.lemma_filter_contains(pred, i);
        }
    }
    r
}

/// The last task before index `i` with the given id.
pub open spec fn last_before(s: Seq<TaskV>, id: Seq<char>, i: int) -> Option<int>
    decreases i,
{
    if i <= 0 {
        None
    } else if s[i - 1].id == id {
        Some(i - 1)
    } else {
        last_before(s, id, i - 1)
    }
}

/// The depth the tree view gives the `i`-th task of a subtree listed
/// parents first: one more than the depth of its parent when the parent
/// came before it, 0 otherwise.
pub open spec fn tree_depth(s: Seq<TaskV>, i: int) -> nat
    decreases i, 1int,
{
    if i < 0 {
        0
    } else {
        match s[i].parent_id {
            None => 0,
            Some(p) => match last_before(s, p, i) {
                Some(j) => if 0 <= j < i { tree_depth(s, j) + 1 } else { 0 },
                None => 0,
            },
        }
    }
}

proof fn lemma_last_before_range(s: Seq<TaskV>, id: Seq<char>, i: int)
    ensures
        last_before(s, id, i) matches Some(j) ==> 0 <= j < i && s[j].id == id,
    decreases i,
{
    if i > 0 {
        lemma_last_before_range(s, id, i - 1);
    }
}

/// The depths of the tasks of a subtree listed parents first.
pub fn tree_depths(s: &Vec<Task>) -> (r: Vec<usize>)
    ensures
        r@.len() == s@.len(),
        forall|i: int| 0 <= i < s@.len() ==> r@[i] == tree_depth(task_views(s@), i),
{
    let ghost sv = task_views(s@);
    let mut r: Vec<usize> = Vec::new();
    let mut i: usize = 0;
    while i < s.len()
        invariant
            i <= s@.len(),
            sv == task_views(s@),
            r@.len() == i,
            forall|k: int| 0 <= k < i ==> r@[k] == tree_depth(sv, k),
            forall|k: int| 0 <= k < i ==> r@[k] <= k,
        decreases s@.len() - i,
    {
        proof {
            assert(sv[i as int] == s@[i as int]@);
        }
        let d: usize = match &s[i].parent_id {
            None => {
                assert(tree_depth(sv, i as int) == 0);
                0
            },
            Some(p) => {
                let mut j: usize = i;
                while j > 0 && !crate::text::text_eq(s[j - 1].id.as_str(), p.as_str())
                    invariant
                        j <= i,
                        i < s@.len(),
                        sv == task_views(s@),
                        last_before(sv, p@, i as int) == last_before(sv, p@, j as int),
                    decreases j,
                {
                    j = j - 1;
                }
                let found: Option<usize> = if j > 0 { Some(j - 1) } else { None };
                proof {
                    lemma_last_before_range(sv, p@, i as int);
                }
                match found {
                    Some(jj) => {
                        assert(last_before(sv, p@, i as int) == Some(jj as int));
                        assert(sv[i as int].parent_id == Some(p@));
                        assert(tree_depth(sv, i as int) == tree_depth(sv, jj as int) + 1);
                        r[jj] + 1
                    },
                    None => {
                        assert(last_before(sv, p@, i as int) is None);
                        assert(tree_depth(sv, i as int) == 0);
                        0
                    },
                }
            },
        };
        r.push(d);
        i = i + 1;
    }
    r
}

/// A row of the tree view: a task and its depth.
pub struct TreeRow {
    pub task: Task,
    pub depth: usize,
}

/// The rows of a subtree, listed parents first, with their depths.
pub open spec fn depth_rows(s: Seq<TaskV>) -> Seq<(TaskV, nat)> {
    Seq::new(s.len(), |i: int| (s[i], tree_depth(s, i)))
}

/// The rows the tree view shows of a subtree: the listed tasks with their
/// depths (a hidden parent still counts for its children's depth).
pub open spec fn shown_rows(s: Seq<TaskV>, show_completed: bool, show_deferred: bool, filter: Seq<char>) -> Seq<(TaskV, nat)> {
    depth_rows(s).filter(|row: (TaskV, nat)| listed(show_completed, show_deferred, filter)(row.0))
}

/// The views of tree rows.
pub open spec fn row_views(r: Seq<TreeRow>) -> Seq<(TaskV, nat)> {
    r.map_values(|row: TreeRow| (row.task@, row.depth as nat))
}

/// The rows of the tree view for a subtree listed parents first.
pub fn tree_rows(s: &Vec<Task>, show_completed: bool, show_deferred: bool, filter: &str) -> (r: Vec<TreeRow>)
    ensures
        row_views(r@) == shown_rows(task_views(s@), show_completed, show_deferred, filter@),
{
    let depths = tree_depths(s);
    let ghost sv = task_views(s@);
    let ghost pred = |row: (TaskV, nat)| listed(show_completed, show_deferred, filter@)(row.0);
    let mut r: Vec<TreeRow> = Vec::new();
    let mut k: usize = 0;
    while k < s.len()
        invariant
            k <= s@.len(),
            sv == task_views(s@),
            depths@.len() == s@.len(),
            forall|i: int| 0 <= i < s@.len() ==> depths@[i] == tree_depth(sv, i),
            pred == (|row: (TaskV, nat)| listed(show_completed, show_deferred, filter@)(row.0)),
            row_views(r@) == depth_rows(sv).take(k as int).filter(pred),
        decreases s@.len() - k,
    {
        proof {
            assert(depth_rows(sv).take(k + 1) =~= depth_rows(sv).take(k as int).push((sv[k as int], tree_depth(sv, k as int))));
            depth_rows(sv).take(k as int).lemma_filter_push((sv[k as int], tree_depth(sv, k as int)), pred);
        }
        if is_listed(&s[k], show_completed, show_deferred, filter) {
            let ghost before = r@;
            r.push(TreeRow { task: s[k].duplicate(), depth: depths[k] });
            proof {
                assert(row_views(r@) =~= row_views(before).push((sv[k as int], tree_depth(sv, k as int))));
            }
        }
        k = k + 1;
    }
    proof {
        assert(depth_rows(sv).take(s@.len() as int) =~= depth_rows(sv));
    }
    r
}

/// The breadcrumb over the frames entered: `root`, then each frame's
/// title, joined with ` > `.
pub open spec fn breadcrumb_of(titles: Seq<Seq<char>>) -> Seq<char>
    decreases titles.len(),
{
    if titles.len() == 0 {
        seq!['r', 'o', 'o', 't']
    } else {
        breadcrumb_of(titles.drop_last()) + seq![' ', '>', ' '] + titles.last()
    }
}

/// The breadcrumb over the titles of the frames entered, outermost first.
pub fn breadcrumb(titles: &Vec<String>) -> (r: String)
    ensures
        r@ == breadcrumb_of(titles@.map_values(|t: String| t@)),
{
    let ghost tv = titles@.map_values(|t: String| t@);
    proof {
        reveal_strlit("root");
        reveal_strlit(" > ");
        assert(tv.take(0) =~= Seq::<Seq<char>>::empty());
    }
    let mut r = to_owned_string("root");
    let mut k: usize = 0;
    while k < titles.len()
        invariant
            k <= titles@.len(),
            tv == titles@.map_values(|t: String| t@),
            r@ == breadcrumb_of(tv.take(k as int)),
        decreases titles@.len() - k,
    {
        proof {
            reveal_strlit(" > ");
            assert(tv.take(k + 1).drop_last() =~= tv.take(k as int));
        }
        append_str(&mut r, " > ");
        append_str(&mut r, titles[k].as_str());
        k = k + 1;
    }
    proof {
        assert(tv.take(titles@.len() as int) =~= tv);
    }
    r
}

/// The number of unfinished tasks in a list (the count shown after a row).
pub open spec fn unfinished_count(s: Seq<TaskV>) -> nat
    decreases s.len(),
{
    if s.len() == 0 {
        0
    } else {
        unfinished_count(s.drop_last()) + if s.last().completed { 0nat } else { 1nat }
    }
}

/// Counts the unfinished tasks in a list.
pub fn count_unfinished(s: &Vec<Task>) -> (r: usize)
    ensures
        r == unfinished_count(task_views(s@)),
{
    let mut n: usize = 0;
    let mut k: usize = 0;
    while k < s.len()
        invariant
            k <= s@.len(),
            n == unfinished_count(task_views(s@.take(k as int))),
            n <= k,
        decreases s@.len() - k,
    {
        proof {
            assert(task_views(s@.take(k + 1)).drop_last() =~= task_views(s@.take(k as int)));
            assert(task_views(s@.take(k + 1)).last() == s@[k as int]@);
        }
        if !s[k].completed {
            n = n + 1;
        }
        k = k + 1;
    }
    proof {
        assert(s@.take(s@.len() as int) =~= s@);
    }
    n
}

/// How a row's box and title are drawn.
#[derive(Debug, Clone, Copy, PartialEq, Eq)]
pub enum Tone {
    /// Complete: dark gray, the title crossed out.
    Done,
    /// Not yet acknowledged: gray 120.
    Unacknowledged,
    /// Stale (or focused): in the staleness color.
    Tinted(u8, u8, u8),
    /// Fresh: a green box and a plain title.
    Plain,
}

/// The tone of a row from the task's state and its staleness (which is
/// only looked at for unfinished tasks).
pub fn tone(completed: bool, acknowledged: bool, staleness: Option<Staleness>) -> (r: Tone)
    ensures
        completed ==> r == Tone::Done,
        !completed && !acknowledged ==> r == Tone::Unacknowledged,
        !completed && acknowledged ==> match staleness {
            Some(Staleness::Tinted(a, b, c)) => r == Tone::Tinted(a, b, c),
            _ => r == Tone::Plain,
        },
{
    if completed {
        Tone::Done
    } else if !acknowledged {
        Tone::Unacknowledged
    } else {
        match staleness {
            Some(Staleness::Tinted(a, b, c)) => Tone::Tinted(a, b, c),
            _ => Tone::Plain,
        }
    }
}

} // verus!
