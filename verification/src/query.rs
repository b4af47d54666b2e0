//! Read-only views of the task tree: ancestors, subtrees and the home
//! view of projects.
use vstd::prelude::*;
use crate::model::{Task, TaskV, Sample, SampleV, SampleWithTask, ProjectPreview, SearchResult, task_views, sample_views, copy_opt_string};
use crate::text::{lex_le, like, like_match, chars_of, text_le, text_eq};
use crate::store::{StoreError, task_of, index_of_id};
use crate::clock::{spec_rfc3339_of, unwritable_instant};
use crate::sort::{samples_sorted, sort_samples};
use crate::store::{
    TaskStore, has_task, is_desc, anc_at, child_of, pending_child_of, lemma_desc_step, parent_of,
};
use crate::sort::{SortKey, sorted_by, sort_tasks, key_le};

verus! {

/// The tasks of `tasks` whose flag is set, in order.
fn select_flagged(tasks: &Vec<Task>, flags: &Vec<bool>, Ghost(pred): Ghost<spec_fn(TaskV) -> bool>) -> (r: Vec<Task>)
    requires
        flags@.len() == tasks@.len(),
        forall|i: int| 0 <= i < tasks@.len() ==> flags@[i] == pred(#[trigger] tasks@[i]@),
    ensures
        task_views(r@) == task_views(tasks@).filter(pred),
{
    let ghost s = task_views(tasks@);
    let mut out: Vec<Task> = Vec::new();
    let mut i: usize = 0;
    while i < tasks.len()
        invariant
            s == task_views(tasks@),
            s.len() == tasks@.len(),
            flags@.len() == tasks@.len(),
            forall|i: int| 0 <= i < tasks@.len() ==> flags@[i] == pred(#[trigger] tasks@[i]@),
            i <= tasks.len(),
            task_views(out@) == s.take(i as int).filter(pred),
        decreases tasks.len() - i,
    {
        proof {
            assert(s.take(i + 1) =~= s.take(i as int).push(s[i as int]));
            s.take(i as int).lemma_filter_push(s[i as int], pred);
            assert(s[i as int] == tasks@[i as int]@);
        }
        if flags[i] {
            let ghost before = task_views(out@);
            out.push(tasks[i].duplicate());
            assert(task_views(out@) =~= before.push(s[i as int]));
        }
        i = i + 1;
    }
    assert(s.take(s.len() as int) =~= s);
    out
}

/// The tasks in the subtree of `id`, the task itself included.
pub open spec fn in_subtree(s: Seq<TaskV>, id: Seq<char>) -> spec_fn(TaskV) -> bool {
    |t: TaskV| is_desc(s, t.id, id)
}

/// How many levels below `a` the task `d` stands.
pub open spec fn desc_dist(s: Seq<TaskV>, d: Seq<char>, a: Seq<char>) -> nat {
    choose|k: nat| #[trigger] anc_at(s, d, k) == Some(a)
}

/// The subtree of `id` at distance `k` below it.
pub open spec fn at_level(s: Seq<TaskV>, id: Seq<char>, k: nat) -> spec_fn(TaskV) -> bool {
    |t: TaskV| is_desc(s, t.id, id) && desc_dist(s, t.id, id) == k
}

/// The subtree of `id` less than `k` levels below it.
pub open spec fn above_level(s: Seq<TaskV>, id: Seq<char>, k: nat) -> spec_fn(TaskV) -> bool {
    |t: TaskV| is_desc(s, t.id, id) && desc_dist(s, t.id, id) < k
}

/// The chain of ancestors of `id`, root first: entry `k` counted from the
/// end is the task's `k`-th ancestor (the task itself last), and the first
/// entry is a root. Empty when no task has the id.
pub open spec fn ancestor_chain(s: Seq<TaskV>, id: Seq<char>, r: Seq<TaskV>) -> bool {
    if has_task(s, id) {
        &&& r.len() > 0
        &&& forall|k: int| 0 <= k < r.len() ==> (anc_at(s, id, (r.len() - 1 - k) as nat) matches Some(a)
            && #[trigger] r[k] == task_of(s, a))
        &&& r[0].parent_id is None
    } else {
        r.len() == 0
    }
}

/// One step further up the chain of ancestors is the parent of the step
/// before.
proof fn lemma_anc_next(s: Seq<TaskV>, d: Seq<char>, k: nat)
    ensures
        anc_at(s, d, k + 1) == match anc_at(s, d, k) {
            Some(c) => parent_of(s, c),
            None => None,
        },
    decreases k,
{
    assert(anc_at(s, d, k + 1) == match parent_of(s, d) {
        Some(q) => anc_at(s, q, k),
        None => None,
    });
    if k > 0 {
        assert(anc_at(s, d, k) == match parent_of(s, d) {
            Some(q) => anc_at(s, q, (k - 1) as nat),
            None => None,
        });
        match parent_of(s, d) {
            Some(q) => {
                lemma_anc_next(s, q, (k - 1) as nat);
            },
            None => {},
        }
    } else {
        match parent_of(s, d) {
            Some(q) => {
                assert(anc_at(s, q, 0) == Some(q));
            },
            None => {},
        }
    }
}

/// A subtree listing ordered by level, then by position.
pub open spec fn sorted_by_level(s: Seq<TaskV>, id: Seq<char>, r: Seq<TaskV>) -> bool {
    forall|i: int, j: int| #![trigger r[i], r[j]] 0 <= i < j < r.len() ==> {
        let di = desc_dist(s, r[i].id, id);
        let dj = desc_dist(s, r[j].id, id);
        di < dj || (di == dj && r[i].position <= r[j].position)
    }
}

/// The unfinished tasks strictly below `root`.
pub open spec fn pending_below(s: Seq<TaskV>, root: Seq<char>) -> spec_fn(TaskV) -> bool {
    |t: TaskV| t.id != root && is_desc(s, t.id, root) && !t.completed
}

/// How many leading entries a listing limited to `n` keeps.
pub open spec fn limited(len: nat, n: nat) -> int {
    if len < n { len as int } else { n as int }
}

/// A filter by `p` or `q` splits, as a multiset, into the filter by `p`
/// and the filter by `q` when no element satisfies both.
proof fn lemma_filter_split(s: Seq<TaskV>, p: spec_fn(TaskV) -> bool, q: spec_fn(TaskV) -> bool, pq: spec_fn(TaskV) -> bool)
    requires
        forall|t: TaskV| #[trigger] pq(t) == (p(t) || q(t)),
        forall|t: TaskV| !(#[trigger] p(t) && q(t)),
    ensures
        s.filter(pq).to_multiset() == s.filter(p).to_multiset().add(s.filter(q).to_multiset()),
    decreases s.len(),
{
    broadcast use vstd::seq_lib::group_to_multiset_ensures, vstd::multiset::group_multiset_axioms;
    if s.len() == 0 {
        assert(s.filter(pq) =~= Seq::<TaskV>::empty());
        assert(s.filter(p) =~= Seq::<TaskV>::empty());
        assert(s.filter(q) =~= Seq::<TaskV>::empty());
        assert(s.filter(pq).to_multiset() =~= s.filter(p).to_multiset().add(s.filter(q).to_multiset()));
    } else {
        let init = s.drop_last();
        let x = s.last();
        lemma_filter_split(init, p, q, pq);
        assert(s =~= init.push(x));
        init.lemma_filter_push(x, pq);
        init.lemma_filter_push(x, p);
        init.lemma_filter_push(x, q);
        init.filter(pq).to_multiset_ensures();
        init.filter(p).to_multiset_ensures();
        init.filter(q).to_multiset_ensures();
        assert(s.filter(pq).to_multiset() =~= s.filter(p).to_multiset().add(s.filter(q).to_multiset()));
    }
}

/// The elements of a sequence with the multiset of a filter by `p` satisfy `p`.
proof fn lemma_ms_filter_elems(r: Seq<TaskV>, s: Seq<TaskV>, p: spec_fn(TaskV) -> bool)
    requires
        r.to_multiset() == s.filter(p).to_multiset(),
    ensures
        forall|k: int| 0 <= k < r.len() ==> p(#[trigger] r[k]),
{
    broadcast use vstd::seq_lib::group_to_multiset_ensures;
    assert forall|k: int| 0 <= k < r.len() implies p(#[trigger] r[k]) by {
        let x = r[k];
        assert(r.contains(x));
        r.to_multiset_ensures();
        s.filter(p).to_multiset_ensures();
        assert(r.to_multiset().count(x) > 0);
        assert(s.filter(p).to_multiset().count(x) > 0);
        assert(s.filter(p).contains(x));
        let j = choose|j: int| 0 <= j < s.filter(p).len() && s.filter(p)[j] == x;
        s.lemma_filter_pred(p, j);
    }
}

/// The view of a project preview matches the root `root` of `s`.
pub open spec fn preview_of(s: Seq<TaskV>, root: TaskV, p: ProjectPreview) -> bool {
    let n = s.filter(pending_below(s, root.id)).len();
    &&& p.id@ == root.id
    &&& p.title@ == root.title
    &&& p.pending_count as int == if n <= i64::MAX { n as int } else { i64::MAX as int }
    &&& exists|l: Seq<TaskV>| {
        &&& sorted_by(SortKey::Position, l)
        &&& l.to_multiset() == s.filter(pending_child_of(Some(root.id))).to_multiset()
        &&& #[trigger] task_views(p.next_actions@) == l.take(limited(l.len(), 2))
    }
}

/// Two filters agree when their predicates agree on every element.
proof fn lemma_filter_same_on_elems(s: Seq<TaskV>, p: spec_fn(TaskV) -> bool, q: spec_fn(TaskV) -> bool)
    requires
        forall|t: TaskV| s.contains(t) ==> p(t) == q(t),
    ensures
        s.filter(p) == s.filter(q),
    decreases s.len(),
{
    if s.len() > 0 {
        let init = s.drop_last();
        assert forall|t: TaskV| init.contains(t) implies p(t) == q(t) by {
            let j = choose|j: int| 0 <= j < init.len() && init[j] == t;
            assert(s[j] == t);
            assert(s.contains(t));
        }
        lemma_filter_same_on_elems(init, p, q);
        assert(s =~= init.push(s.last()));
        init.lemma_filter_push(s.last(), p);
        init.lemma_filter_push(s.last(), q);
        assert(s.contains(s.last()));
    } else {
        assert(s.filter(p) =~= s.filter(q));
    }
}

/// Deferred tasks whose review date is at or before `now`.
pub open spec fn due_for_review(now: Seq<char>) -> spec_fn(TaskV) -> bool {
    |t: TaskV| t.deferred && (t.next_review_at matches Some(n) && lex_le(n, now))
}

/// Every entry has a review date, and the dates do not go back: an entry
/// never has a later review date (in the order of the text) than one after
/// it.
pub open spec fn earliest_review_first(l: Seq<TaskV>) -> bool {
    &&& forall|i: int| 0 <= i < l.len() ==> (#[trigger] l[i]).next_review_at is Some
    &&& forall|i: int, j: int| #![trigger l[i], l[j]] 0 <= i < j < l.len()
        ==> lex_le(l[i].next_review_at->0, l[j].next_review_at->0)
}

/// The update times do not go forward: an entry was never updated earlier
/// (in the order of the text) than one after it.
pub open spec fn newest_update_first(l: Seq<TaskV>) -> bool {
    forall|i: int, j: int| #![trigger l[i], l[j]] 0 <= i < j < l.len() ==> lex_le(l[j].updated_at, l[i].updated_at)
}

/// A listing of due tasks sorted on the review date runs earliest review
/// first.
pub proof fn lemma_due_sorted_earliest_first(l: Seq<TaskV>, s: Seq<TaskV>, now: Seq<char>)
    requires
        sorted_by(SortKey::NextReviewAt, l),
        l.to_multiset() == s.filter(due_for_review(now)).to_multiset(),
    ensures
        earliest_review_first(l),
{
    lemma_ms_filter_elems(l, s, due_for_review(now));
    assert forall|i: int, j: int| #![trigger l[i], l[j]] 0 <= i < j < l.len()
        implies lex_le(l[i].next_review_at->0, l[j].next_review_at->0) by {
        assert(due_for_review(now)(l[i]));
        assert(due_for_review(now)(l[j]));
        assert(key_le(SortKey::NextReviewAt, l[i], l[j]));
    }
    assert forall|i: int| 0 <= i < l.len() implies (#[trigger] l[i]).next_review_at is Some by {
        assert(due_for_review(now)(l[i]));
    }
}

/// An entry of a listing of due tasks is deferred.
pub proof fn lemma_due_elems(l: Seq<TaskV>, s: Seq<TaskV>, now: Seq<char>, i: int)
    requires
        l.to_multiset() == s.filter(due_for_review(now)).to_multiset(),
        0 <= i < l.len(),
    ensures
        l[i].deferred,
{
    lemma_ms_filter_elems(l, s, due_for_review(now));
    assert(due_for_review(now)(l[i]));
}

/// A listing sorted on the update time runs newest update first.
pub proof fn lemma_sorted_newest_first(l: Seq<TaskV>)
    requires
        sorted_by(SortKey::UpdatedAtDesc, l),
    ensures
        newest_update_first(l),
{
    assert forall|i: int, j: int| #![trigger l[i], l[j]] 0 <= i < j < l.len()
        implies lex_le(l[j].updated_at, l[i].updated_at) by {
        assert(key_le(SortKey::UpdatedAtDesc, l[i], l[j]));
    }
}

/// The deferred tasks due at `now`, earliest review first, at most 20: the
/// result is the start of a listing of all due tasks in which no task has
/// a later review date than one after it, so a due task left out is due no
/// earlier than every task kept.
pub open spec fn review_listing(s: Seq<TaskV>, now: Seq<char>, r: Seq<TaskV>) -> bool {
    exists|l: Seq<TaskV>| {
        &&& sorted_by(SortKey::NextReviewAt, l)
        &&& earliest_review_first(l)
        &&& l.to_multiset() == s.filter(due_for_review(now)).to_multiset()
        &&& r == #[trigger] l.take(limited(l.len(), 20))
    }
}

/// The review listing at the instant `secs` seconds and `nanos` nanoseconds
/// after the epoch, as chrono writes it.
pub open spec fn reviewed_at_instant(s: Seq<TaskV>, secs: i64, nanos: u32, r: Seq<TaskV>) -> bool {
    match spec_rfc3339_of(secs as int, nanos as int) {
        Some(now) => review_listing(s, now, r),
        None => r.len() == 0,
    }
}

/// The focused tasks.
pub open spec fn is_focused() -> spec_fn(TaskV) -> bool {
    |t: TaskV| t.focused
}

/// The search pattern for a query: the query anywhere in the text.
pub open spec fn contains_pattern(q: Seq<char>) -> Seq<char> {
    seq!['%'] + q + seq!['%']
}

/// Tasks whose title or notes contain the query (as a LIKE pattern).
pub open spec fn matches_query(q: Seq<char>) -> spec_fn(TaskV) -> bool {
    |t: TaskV| like(contains_pattern(q), t.title) || like(contains_pattern(q), t.notes)
}

/// Tasks whose id starts with `prefix` (as a LIKE pattern).
pub open spec fn id_has_prefix(prefix: Seq<char>) -> spec_fn(TaskV) -> bool {
    |t: TaskV| like(prefix + seq!['%'], t.id)
}

/// The titles of the entries of `a` before the first one with id `id`.
pub open spec fn titles_before(a: Seq<TaskV>, id: Seq<char>) -> Seq<Seq<char>>
    decreases a.len(),
{
    if a.len() == 0 || a[0].id == id {
        Seq::empty()
    } else {
        seq![a[0].title] + titles_before(a.drop_first(), id)
    }
}

/// The views of a vector of strings.
pub open spec fn string_views(v: Seq<String>) -> Seq<Seq<char>> {
    v.map_values(|x: String| x@)
}

/// The search result matches the task `t` of `s`: the task and the titles
/// of its ancestors, root first.
pub open spec fn search_result_of(s: Seq<TaskV>, t: TaskV, r: SearchResult) -> bool {
    &&& r.task@ == t
    &&& exists|a: Seq<TaskV>| ancestor_chain(s, t.id, a) && #[trigger] string_views(r.path@) == titles_before(a, t.id)
}

/// Samples whose creation date (the first ten characters of the RFC 3339
/// timestamp) is `day`.
pub open spec fn on_day(day: Seq<char>) -> spec_fn(SampleV) -> bool {
    |x: SampleV| x.created_at.len() >= 10 && x.created_at.take(10) == day
}

/// The day of an RFC 3339 time stamp: its first ten characters.
pub open spec fn day_of(now: Seq<char>) -> Seq<char> {
    now.take(if now.len() < 10 { now.len() as int } else { 10 })
}

/// The samples of the day of the instant `secs` seconds and `nanos`
/// nanoseconds after the epoch, as chrono writes it.
pub open spec fn samples_of_instant(samples: Seq<SampleV>, secs: i64, nanos: u32, r: Seq<SampleV>) -> bool {
    match spec_rfc3339_of(secs as int, nanos as int) {
        Some(now) => r.to_multiset() == samples.filter(on_day(day_of(now))).to_multiset(),
        None => r.len() == 0,
    }
}

/// The samples of a day with the titles of their tasks, in time order.
pub open spec fn joined_listing(s: Seq<TaskV>, samples: Seq<SampleV>, day: Seq<char>, r: Seq<SampleWithTask>) -> bool {
    exists|l: Seq<SampleV>| {
        &&& samples_sorted(l)
        &&& #[trigger] l.to_multiset() == samples.filter(on_day(day)).to_multiset()
        &&& l.len() == r.len()
        &&& forall|i: int| 0 <= i < l.len() ==> joined(s, l[i], #[trigger] r[i])
    }
}

/// The joined samples of the day of the instant `secs` seconds and `nanos`
/// nanoseconds after the epoch.
pub open spec fn joined_of_instant(s: Seq<TaskV>, samples: Seq<SampleV>, secs: i64, nanos: u32, r: Seq<SampleWithTask>) -> bool {
    match spec_rfc3339_of(secs as int, nanos as int) {
        Some(now) => joined_listing(s, samples, day_of(now), r),
        None => r.len() == 0,
    }
}

/// Samples created at or after `from` and before `to`.
pub open spec fn in_range(from: Seq<char>, to: Seq<char>) -> spec_fn(SampleV) -> bool {
    |x: SampleV| lex_le(from, x.created_at) && !lex_le(to, x.created_at)
}

/// The entry of a sample joined with the title of the task it links to.
pub open spec fn joined(s: Seq<TaskV>, x: SampleV, r: SampleWithTask) -> bool {
    &&& r.id@ == x.id
    &&& r.prompt_type@ == x.prompt_type
    &&& r.response@ == x.response
    &&& r.created_at@ == x.created_at
    &&& crate::model::opt_view(r.task_id) == x.task_id
    &&& crate::model::opt_view(r.task_title) == match x.task_id {
        Some(t) => if has_task(s, t) { Some(task_of(s, t).title) } else { None },
        None => None,
    }
}

impl TaskStore {
    /// The chain from the root down to `id`: a root first, the task itself
    /// last, each entry the parent of the next. Empty when no task has that
    /// id.
    pub fn get_ancestors(&self, id: &str) -> (r: Vec<Task>)
        requires
            self.wf(),
        ensures
            ancestor_chain(self@.tasks, id@, task_views(r@)),
            forall|k: int| 0 < k < r@.len() ==> (#[trigger] r@[k])@.parent_id == Some(r@[k - 1]@.id),
    {
        let ghost s = self@.tasks;
        match self.find_index(id) {
            None => {
                let r: Vec<Task> = Vec::new();
                proof {
                    assert(task_views(r@) =~= Seq::<TaskV>::empty());
                }
                r
            },
            Some(ix) => {
                proof {
                    self.lemma_wf();
                    assert(index_of_id(s, id@) == ix as int);
                }
                let up = self.chain_up(ix);
                let n = up.len();
                let mut out: Vec<Task> = Vec::new();
                let mut k: usize = n;
                while k > 0
                    invariant
                        n == up@.len(),
                        k <= n,
                        out@.len() == n - k,
                        forall|q: int| 0 <= q < out@.len() ==> (#[trigger] out@[q])@ == up@[n - 1 - q]@,
                    decreases k,
                {
                    k = k - 1;
                    let t = up[k].duplicate();
                    let ghost before = out@;
                    out.push(t);
                    proof {
                        assert forall|q: int| 0 <= q < out@.len() implies (#[trigger] out@[q])@ == up@[n - 1 - q]@ by {
                            if q < before.len() {
                                assert(out@[q] == before[q]);
                            }
                        }
                    }
                }
                let ghost r = task_views(out@);
                proof {
                    assert forall|q: int| 0 <= q < r.len() implies (anc_at(s, id@, (r.len() - 1 - q) as nat) matches Some(a)
                        && #[trigger] r[q] == task_of(s, a)) by {
                        assert(r[q] == out@[q]@);
                        assert(out@[q]@ == up@[n - 1 - q]@);
                    }
                    assert(r[0] == up@[n - 1]@);
                    assert forall|q: int| 0 < q < out@.len() implies (#[trigger] out@[q])@.parent_id == Some(out@[q - 1]@.id) by {
                        let j = n - 1 - q;
                        assert(out@[q]@ == up@[j]@);
                        assert(out@[q - 1]@ == up@[j + 1]@);
                        let c = anc_at(s, id@, j as nat)->0;
                        let p = anc_at(s, id@, (j + 1) as nat)->0;
                        assert(up@[j]@ == task_of(s, c));
                        assert(up@[j + 1]@ == task_of(s, p));
                        lemma_anc_next(s, id@, j as nat);
                        assert(s[index_of_id(s, p)].id == p);
                    }
                }
                out
            },
        }
    }

    /// The subtree of `id` (the task and all its descendants), ordered by
    /// level below `id`, then by position. Empty when no task has that id.
    pub fn get_subtree(&self, id: &str) -> (r: Vec<Task>)
        requires
            self.wf(),
        ensures
            sorted_by_level(self@.tasks, id@, task_views(r@)),
            task_views(r@).to_multiset() == self@.tasks.filter(in_subtree(self@.tasks, id@)).to_multiset(),
    {
        broadcast use vstd::seq_lib::group_to_multiset_ensures, vstd::multiset::group_multiset_axioms;
        let tasks = self.all_tasks();
        let ghost s = self@.tasks;
        let mut dists: Vec<Option<usize>> = Vec::new();
        let mut maxd: usize = 0;
        let mut i: usize = 0;
        while i < tasks.len()
            invariant
                self.wf(),
                s == self@.tasks,
                s == task_views(tasks@),
                s.len() == tasks@.len(),
                i <= tasks.len(),
                dists@.len() == i,
                maxd == 0 || maxd < s.len(),
                forall|j: int| 0 <= j < i ==> match #[trigger] dists@[j] {
                    Some(k) => k <= maxd && is_desc(s, s[j].id, id@) && desc_dist(s, s[j].id, id@) == k,
                    None => !is_desc(s, s[j].id, id@),
                },
            decreases tasks.len() - i,
        {
            let d = self.dist_to(i, id);
            proof {
                if let Some(k) = d {
                    let dd = desc_dist(s, s[i as int].id, id@);
                    assert(anc_at(s, s[i as int].id, dd) == Some(id@));
                    assert(has_task(s, s[i as int].id));
                    self.lemma_dist_unique(s[i as int].id, k as nat, dd);
                }
            }
            match d {
                Some(k) => {
                    if k > maxd {
                        maxd = k;
                    }
                },
                None => {},
            }
            dists.push(d);
            i = i + 1;
        }
        let mut out: Vec<Task> = Vec::new();
        let mut lvl: usize = 0;
        assert(s.filter(above_level(s, id@, 0)) =~= Seq::<TaskV>::empty()) by {
            s.lemma_all_neg_filter_empty(above_level(s, id@, 0));
        }
        while lvl <= maxd
            invariant
                self.wf(),
                s == self@.tasks,
                s == task_views(tasks@),
                s.len() == tasks@.len(),
                dists@.len() == s.len(),
                maxd == 0 || maxd < s.len(),
                lvl <= maxd + 1,
                forall|j: int| 0 <= j < s.len() ==> match #[trigger] dists@[j] {
                    Some(k) => k <= maxd && is_desc(s, s[j].id, id@) && desc_dist(s, s[j].id, id@) == k,
                    None => !is_desc(s, s[j].id, id@),
                },
                task_views(out@).to_multiset() == s.filter(above_level(s, id@, lvl as nat)).to_multiset(),
                sorted_by_level(s, id@, task_views(out@)),
            decreases maxd + 1 - lvl,
        {
            let ghost at = at_level(s, id@, lvl as nat);
            let mut flags: Vec<bool> = Vec::new();
            let mut j: usize = 0;
            while j < tasks.len()
                invariant
                    s == task_views(tasks@),
                    s.len() == tasks@.len(),
                    dists@.len() == s.len(),
                    at == at_level(s, id@, lvl as nat),
                    forall|j: int| 0 <= j < s.len() ==> match #[trigger] dists@[j] {
                        Some(k) => k <= maxd && is_desc(s, s[j].id, id@) && desc_dist(s, s[j].id, id@) == k,
                        None => !is_desc(s, s[j].id, id@),
                    },
                    j <= tasks.len(),
                    flags@.len() == j,
                    forall|q: int| 0 <= q < j ==> flags@[q] == at(#[trigger] tasks@[q]@),
                decreases tasks.len() - j,
            {
                let f = match dists[j] {
                    Some(k) => k == lvl,
                    None => false,
                };
                proof {
                    assert(s[j as int] == tasks@[j as int]@);
                }
                flags.push(f);
                j = j + 1;
            }
            let level = sort_tasks(select_flagged(tasks, &flags, Ghost(at)), SortKey::Position);
            let ghost a = task_views(out@);
            let ghost b = task_views(level@);
            proof {
                lemma_ms_filter_elems(a, s, above_level(s, id@, lvl as nat));
                lemma_ms_filter_elems(b, s, at);
                let next = above_level(s, id@, (lvl + 1) as nat);
                lemma_filter_split(s, above_level(s, id@, lvl as nat), at, next);
                vstd::seq_lib::lemma_multiset_commutative(a, b);
                let c = a + b;
                assert forall|x: int, y: int| #![trigger c[x], c[y]] 0 <= x < y < c.len() implies {
                    let dx = desc_dist(s, c[x].id, id@);
                    let dy = desc_dist(s, c[y].id, id@);
                    dx < dy || (dx == dy && c[x].position <= c[y].position)
                } by {
                    if y < a.len() {
                        assert(c[x] == a[x] && c[y] == a[y]);
                    } else if x >= a.len() {
                        assert(c[x] == b[x - a.len()] && c[y] == b[y - a.len()]);
                        assert(at(b[x - a.len()]) && at(b[y - a.len()]));
                        assert(key_le(SortKey::Position, b[x - a.len()], b[y - a.len()]));
                    } else {
                        assert(c[x] == a[x] && c[y] == b[y - a.len()]);
                        assert(above_level(s, id@, lvl as nat)(a[x]));
                        assert(at(b[y - a.len()]));
                    }
                }
            }
            let mut level = level;
            out.append(&mut level);
            proof {
                assert(task_views(out@) =~= a + b);
            }
            lvl = lvl + 1;
        }
        proof {
            assert(s.filter(above_level(s, id@, lvl as nat)) =~= s.filter(in_subtree(s, id@))) by {
                assert forall|t: TaskV| s.contains(t) implies above_level(s, id@, lvl as nat)(t) == in_subtree(s, id@)(t) by {
                    let j = choose|j: int| 0 <= j < s.len() && s[j] == t;
                    assert(dists@[j] == dists@[j]);
                }
                lemma_filter_same_on_elems(s, above_level(s, id@, lvl as nat), in_subtree(s, id@));
            }
        }
        out
    }

    /// The projects (root tasks) ordered by position, each with the number
    /// of unfinished tasks below it and its first two unfinished children.
    pub fn get_home(&self) -> (r: Vec<ProjectPreview>)
        requires
            self.wf(),
        ensures
            exists|rs: Seq<TaskV>| {
                &&& sorted_by(SortKey::Position, rs)
                &&& rs.to_multiset() == self@.tasks.filter(child_of(None)).to_multiset()
                &&& #[trigger] rs.len() == r@.len()
                &&& forall|i: int| 0 <= i < rs.len() ==> preview_of(self@.tasks, rs[i], #[trigger] r@[i])
            },
    {
        let tasks = self.all_tasks();
        let ghost s = self@.tasks;
        let roots = self.get_children(None);
        let mut out: Vec<ProjectPreview> = Vec::new();
        let mut i: usize = 0;
        while i < roots.len()
            invariant
                self.wf(),
                s == self@.tasks,
                s == task_views(tasks@),
                s.len() == tasks@.len(),
                i <= roots.len(),
                out@.len() == i,
                forall|k: int| 0 <= k < i ==> preview_of(s, task_views(roots@)[k], #[trigger] out@[k]),
            decreases roots.len() - i,
        {
            let root = &roots[i];
            let ghost pred = pending_below(s, root.id@);
            let mut n: usize = 0;
            let mut j: usize = 0;
            while j < tasks.len()
                invariant
                    self.wf(),
                    s == self@.tasks,
                    s == task_views(tasks@),
                    s.len() == tasks@.len(),
                    pred == pending_below(s, root.id@),
                    j <= tasks.len(),
                    n == s.take(j as int).filter(pred).len(),
                    n <= j,
                decreases tasks.len() - j,
            {
                let t = &tasks[j];
                let below = !t.completed && !crate::text::text_eq(t.id.as_str(), root.id.as_str())
                    && self.dist_to(j, root.id.as_str()).is_some();
                proof {
                    assert(s[j as int] == t@);
                    assert(s.take(j + 1) =~= s.take(j as int).push(t@));
                    s.take(j as int).lemma_filter_len_push(pred, t@);
                    s.take(j as int).lemma_filter_push(t@, pred);
                    assert(below == pred(t@));
                }
                if below {
                    n = n + 1;
                }
                j = j + 1;
            }
            assert(s.take(s.len() as int) =~= s);
            let count: i64 = if n as u64 > i64::MAX as u64 { i64::MAX } else { n as i64 };
            let mut next = self.get_pending_children(Some(root.id.as_str()));
            let ghost l = task_views(next@);
            if next.len() > 2 {
                next.truncate(2);
            }
            proof {
                assert(task_views(next@) =~= l.take(limited(l.len(), 2)));
            }
            let p = ProjectPreview {
                id: root.id.clone(),
                title: root.title.clone(),
                pending_count: count,
                next_actions: next,
            };
            proof {
                assert(task_views(roots@)[i as int] == root@);
                assert(s.filter(pred).len() == n);
                assert(task_views(p.next_actions@) == l.take(limited(l.len(), 2)));
                assert(preview_of(s, root@, p));
            }
            out.push(p);
            i = i + 1;
        }
        assert(task_views(roots@).len() == out@.len());
        out
    }

    /// The tasks selected by an exec-evaluated flag per task.
    fn filter_tasks(&self, flags: &Vec<bool>, Ghost(pred): Ghost<spec_fn(TaskV) -> bool>) -> (r: Vec<Task>)
        requires
            flags@.len() == self@.tasks.len(),
            forall|i: int| 0 <= i < self@.tasks.len() ==> flags@[i] == pred(#[trigger] self@.tasks[i]),
        ensures
            task_views(r@) == self@.tasks.filter(pred),
    {
        let tasks = self.all_tasks();
        proof {
            assert forall|i: int| 0 <= i < tasks@.len() implies flags@[i] == pred(#[trigger] tasks@[i]@) by {
                assert(self@.tasks[i] == tasks@[i]@);
            }
        }
        select_flagged(tasks, flags, Ghost(pred))
    }

    /// The deferred tasks due for review at `now`, earliest review first,
    /// at most 20.
    pub fn get_review_tasks_at(&self, now: &str) -> (r: Vec<Task>)
        requires
            self.wf(),
        ensures
            exists|l: Seq<TaskV>| {
                &&& sorted_by(SortKey::NextReviewAt, l)
                &&& earliest_review_first(l)
                &&& l.to_multiset() == self@.tasks.filter(due_for_review(now@)).to_multiset()
                &&& #[trigger] task_views(r@) == l.take(limited(l.len(), 20))
            },
    {
        let tasks = self.all_tasks();
        let ghost s = self@.tasks;
        let ghost pred = due_for_review(now@);
        let mut flags: Vec<bool> = Vec::new();
        let mut i: usize = 0;
        while i < tasks.len()
            invariant
                s == self@.tasks,
                s == task_views(tasks@),
                s.len() == tasks@.len(),
                pred == due_for_review(now@),
                i <= tasks.len(),
                flags@.len() == i,
                forall|j: int| 0 <= j < i ==> flags@[j] == pred(#[trigger] s[j]),
            decreases tasks.len() - i,
        {
            let t = &tasks[i];
            let due = t.deferred && match &t.next_review_at {
                Some(n) => text_le(n.as_str(), now),
                None => false,
            };
            proof {
                assert(s[i as int] == t@);
            }
            flags.push(due);
            i = i + 1;
        }
        let mut sorted = sort_tasks(self.filter_tasks(&flags, Ghost(pred)), SortKey::NextReviewAt);
        let ghost l = task_views(sorted@);
        proof {
            lemma_due_sorted_earliest_first(l, s, now@);
        }
        if sorted.len() > 20 {
            sorted.truncate(20);
        }
        assert(task_views(sorted@) =~= l.take(limited(l.len(), 20)));
        sorted
    }

    /// The deferred tasks due for review now.
    pub fn get_review_tasks(&self) -> (r: Vec<Task>)
        requires
            self.wf(),
        ensures
            exists|secs: i64, nanos: u32| #[trigger] reviewed_at_instant(self@.tasks, secs, nanos, task_views(r@)),
    {
        let (secs, nanos, now) = match crate::clock::current_time() {
            Some((secs, nanos, text)) => (secs, nanos, text),
            None => {
                let r: Vec<Task> = Vec::new();
                proof {
                    let (ws, wn) = choose|secs: i64, nanos: u32| #[trigger] unwritable_instant(secs, nanos);
                    assert(task_views(r@) =~= Seq::<TaskV>::empty());
                    assert(reviewed_at_instant(self@.tasks, ws, wn, task_views(r@)));
                }
                return r;
            },
        };
        let r = self.get_review_tasks_at(now.as_str());
        proof {
            assert(reviewed_at_instant(self@.tasks, secs, nanos, task_views(r@)));
        }
        r
    }

    /// The focused tasks, earliest focused first.
    pub fn get_focused_tasks(&self) -> (r: Vec<Task>)
        requires
            self.wf(),
        ensures
            sorted_by(SortKey::FocusedAt, task_views(r@)),
            task_views(r@).to_multiset() == self@.tasks.filter(is_focused()).to_multiset(),
    {
        let tasks = self.all_tasks();
        let ghost s = self@.tasks;
        let mut flags: Vec<bool> = Vec::new();
        let mut i: usize = 0;
        while i < tasks.len()
            invariant
                s == self@.tasks,
                s == task_views(tasks@),
                s.len() == tasks@.len(),
                i <= tasks.len(),
                flags@.len() == i,
                forall|j: int| 0 <= j < i ==> flags@[j] == is_focused()(#[trigger] s[j]),
            decreases tasks.len() - i,
        {
            proof {
                assert(s[i as int] == tasks@[i as int]@);
            }
            flags.push(tasks[i].focused);
            i = i + 1;
        }
        sort_tasks(self.filter_tasks(&flags, Ghost(is_focused())), SortKey::FocusedAt)
    }

    /// The titles of `ancestors` before the entry with id `id`.
    fn path_titles(ancestors: &Vec<Task>, id: &str) -> (r: Vec<String>)
        ensures
            string_views(r@) == titles_before(task_views(ancestors@), id@),
    {
        let ghost a = task_views(ancestors@);
        let mut out: Vec<String> = Vec::new();
        let mut i: usize = 0;
        assert(a.skip(0) =~= a);
        assert(string_views(out@) =~= Seq::<Seq<char>>::empty());
        assert(Seq::<Seq<char>>::empty() + titles_before(a, id@) =~= titles_before(a, id@));
        while i < ancestors.len()
            invariant
                a == task_views(ancestors@),
                a.len() == ancestors@.len(),
                i <= ancestors.len(),
                forall|k: int| 0 <= k < i ==> a[k].id != id@,
                string_views(out@) + titles_before(a.skip(i as int), id@) == titles_before(a, id@),
            decreases ancestors.len() - i,
        {
            proof {
                assert(a.skip(i as int)[0] == a[i as int]);
                assert(a.skip(i as int).drop_first() =~= a.skip(i + 1));
            }
            if text_eq(ancestors[i].id.as_str(), id) {
                proof {
                    assert(titles_before(a.skip(i as int), id@) =~= Seq::<Seq<char>>::empty());
                    assert(string_views(out@) + Seq::<Seq<char>>::empty() =~= string_views(out@));
                }
                return out;
            }
            let ghost before = string_views(out@);
            out.push(ancestors[i].title.clone());
            proof {
                assert(string_views(out@) =~= before.push(a[i as int].title));
                assert(titles_before(a.skip(i as int), id@) == seq![a[i as int].title] + titles_before(a.skip(i + 1), id@));
                assert(before.push(a[i as int].title) + titles_before(a.skip(i + 1), id@)
                    =~= before + (seq![a[i as int].title] + titles_before(a.skip(i + 1), id@)));
            }
            i = i + 1;
        }
        proof {
            assert(a.skip(i as int) =~= Seq::<TaskV>::empty());
            assert(string_views(out@) + Seq::<Seq<char>>::empty() =~= string_views(out@));
        }
        out
    }

    /// The tasks whose title or notes contain `query` (SQL LIKE, so `%` and
    /// `_` are wildcards and ASCII letters match either case), most recently
    /// updated first, at most 30, each with the titles of its ancestors.
    pub fn search_tasks(&self, query: &str) -> (r: Vec<SearchResult>)
        requires
            self.wf(),
        ensures
            exists|l: Seq<TaskV>| {
                &&& sorted_by(SortKey::UpdatedAtDesc, l)
                &&& newest_update_first(l)
                &&& l.to_multiset() == self@.tasks.filter(matches_query(query@)).to_multiset()
                &&& #[trigger] l.len() >= r@.len()
                &&& r@.len() == limited(l.len(), 30)
                &&& forall|i: int| 0 <= i < r@.len() ==> search_result_of(self@.tasks, l[i], #[trigger] r@[i])
            },
    {
        let tasks = self.all_tasks();
        let ghost s = self@.tasks;
        let ghost pred = matches_query(query@);
        let mut pat: Vec<char> = Vec::new();
        pat.push('%');
        let qc = chars_of(query);
        let mut k: usize = 0;
        while k < qc.len()
            invariant
                k <= qc@.len(),
                pat@ == seq!['%'] + qc@.take(k as int),
            decreases qc.len() - k,
        {
            pat.push(qc[k]);
            assert(qc@.take(k + 1) =~= qc@.take(k as int).push(qc@[k as int]));
            k = k + 1;
        }
        pat.push('%');
        assert(pat@ =~= contains_pattern(query@));
        let mut flags: Vec<bool> = Vec::new();
        let mut i: usize = 0;
        while i < tasks.len()
            invariant
                s == self@.tasks,
                s == task_views(tasks@),
                s.len() == tasks@.len(),
                pred == matches_query(query@),
                pat@ == contains_pattern(query@),
                i <= tasks.len(),
                flags@.len() == i,
                forall|j: int| 0 <= j < i ==> flags@[j] == pred(#[trigger] s[j]),
            decreases tasks.len() - i,
        {
            let t = &tasks[i];
            let title = chars_of(t.title.as_str());
            let hit = if like_match(&pat, &title) {
                true
            } else {
                let notes = chars_of(t.notes.as_str());
                like_match(&pat, &notes)
            };
            proof {
                assert(s[i as int] == t@);
            }
            flags.push(hit);
            i = i + 1;
        }
        let mut sorted = sort_tasks(self.filter_tasks(&flags, Ghost(pred)), SortKey::UpdatedAtDesc);
        let ghost l = task_views(sorted@);
        proof {
            lemma_sorted_newest_first(l);
        }
        if sorted.len() > 30 {
            sorted.truncate(30);
        }
        let mut out: Vec<SearchResult> = Vec::new();
        let mut j: usize = 0;
        while j < sorted.len()
            invariant
                self.wf(),
                s == self@.tasks,
                sorted@.len() == limited(l.len(), 30),
                forall|q: int| 0 <= q < sorted@.len() ==> (#[trigger] sorted@[q])@ == l[q],
                j <= sorted.len(),
                out@.len() == j,
                forall|q: int| 0 <= q < j ==> search_result_of(s, l[q], #[trigger] out@[q]),
            decreases sorted.len() - j,
        {
            let t = &sorted[j];
            let ancestors = self.get_ancestors(t.id.as_str());
            let path = Self::path_titles(&ancestors, t.id.as_str());
            let res = SearchResult { task: t.duplicate(), path };
            proof {
                assert(string_views(res.path@) == titles_before(task_views(ancestors@), l[j as int].id));
                assert(search_result_of(s, l[j as int], res));
            }
            out.push(res);
            j = j + 1;
        }
        out
    }

    /// The full id of the one task whose id starts with `prefix` (SQL LIKE
    /// prefix match: ASCII case-insensitive, `%` and `_` wildcards).
    pub fn resolve_id(&self, prefix: &str) -> (r: Result<String, StoreError>)
        requires
            self.wf(),
        ensures
            match r {
                Ok(id) => self@.tasks.filter(id_has_prefix(prefix@)).len() == 1
                    && id@ == self@.tasks.filter(id_has_prefix(prefix@))[0].id,
                Err(e) => {
                    let n = self@.tasks.filter(id_has_prefix(prefix@)).len();
                    &&& n != 1
                    &&& e == if n == 0 { StoreError::NoMatch } else { StoreError::Ambiguous(n as usize) }
                },
            },
    {
        let tasks = self.all_tasks();
        let ghost s = self@.tasks;
        let ghost pred = id_has_prefix(prefix@);
        let mut pat = chars_of(prefix);
        pat.push('%');
        assert(pat@ =~= prefix@ + seq!['%']);
        let mut flags: Vec<bool> = Vec::new();
        let mut i: usize = 0;
        while i < tasks.len()
            invariant
                s == self@.tasks,
                s == task_views(tasks@),
                s.len() == tasks@.len(),
                pred == id_has_prefix(prefix@),
                pat@ == prefix@ + seq!['%'],
                i <= tasks.len(),
                flags@.len() == i,
                forall|j: int| 0 <= j < i ==> flags@[j] == pred(#[trigger] s[j]),
            decreases tasks.len() - i,
        {
            let t = &tasks[i];
            let idc = chars_of(t.id.as_str());
            proof {
                assert(s[i as int] == t@);
            }
            flags.push(like_match(&pat, &idc));
            i = i + 1;
        }
        let found = self.filter_tasks(&flags, Ghost(pred));
        assert(found@.len() == task_views(found@).len());
        if found.len() == 0 {
            Err(StoreError::NoMatch)
        } else if found.len() == 1 {
            Ok(found[0].id.clone())
        } else {
            Err(StoreError::Ambiguous(found.len()))
        }
    }

    /// The samples selected by an exec-evaluated flag per sample.
    fn filter_samples(&self, flags: &Vec<bool>, Ghost(pred): Ghost<spec_fn(SampleV) -> bool>) -> (r: Vec<Sample>)
        requires
            flags@.len() == self@.samples.len(),
            forall|i: int| 0 <= i < self@.samples.len() ==> flags@[i] == pred(#[trigger] self@.samples[i]),
        ensures
            sample_views(r@) == self@.samples.filter(pred),
    {
        let samples = self.all_samples();
        let ghost s = self@.samples;
        let mut out: Vec<Sample> = Vec::new();
        let mut i: usize = 0;
        while i < samples.len()
            invariant
                s == self@.samples,
                s == sample_views(samples@),
                s.len() == samples@.len(),
                flags@.len() == s.len(),
                forall|i: int| 0 <= i < s.len() ==> flags@[i] == pred(#[trigger] s[i]),
                i <= samples.len(),
                sample_views(out@) == s.take(i as int).filter(pred),
            decreases samples.len() - i,
        {
            proof {
                assert(s.take(i + 1) =~= s.take(i as int).push(s[i as int]));
                s.take(i as int).lemma_filter_push(s[i as int], pred);
            }
            if flags[i] {
                let ghost before = sample_views(out@);
                out.push(samples[i].duplicate());
                assert(sample_views(out@) =~= before.push(s[i as int]));
            }
            i = i + 1;
        }
        assert(s.take(s.len() as int) =~= s);
        out
    }

    /// The samples created on `day` (`YYYY-MM-DD`), oldest first.
    pub fn get_samples_on(&self, day: &str) -> (r: Vec<Sample>)
        requires
            self.wf(),
        ensures
            samples_sorted(sample_views(r@)),
            sample_views(r@).to_multiset() == self@.samples.filter(on_day(day@)).to_multiset(),
    {
        let samples = self.all_samples();
        let ghost s = self@.samples;
        let ghost pred = on_day(day@);
        let mut flags: Vec<bool> = Vec::new();
        let mut i: usize = 0;
        while i < samples.len()
            invariant
                s == self@.samples,
                s == sample_views(samples@),
                s.len() == samples@.len(),
                pred == on_day(day@),
                i <= samples.len(),
                flags@.len() == i,
                forall|j: int| 0 <= j < i ==> flags@[j] == pred(#[trigger] s[j]),
            decreases samples.len() - i,
        {
            let c = samples[i].created_at.as_str();
            let hit = if c.unicode_len() >= 10 {
                text_eq(c.substring_char(0, 10), day)
            } else {
                false
            };
            proof {
                assert(s[i as int] == samples@[i as int]@);
                if c@.len() >= 10 {
                    assert(c@.subrange(0, 10) =~= c@.take(10));
                }
            }
            flags.push(hit);
            i = i + 1;
        }
        sort_samples(self.filter_samples(&flags, Ghost(pred)))
    }

    /// The samples created today (by the UTC date of the clock), oldest
    /// first; none when the clock cannot be read.
    pub fn get_samples_today(&self) -> (r: Vec<Sample>)
        requires
            self.wf(),
        ensures
            samples_sorted(sample_views(r@)),
            exists|secs: i64, nanos: u32| #[trigger] samples_of_instant(self@.samples, secs, nanos, sample_views(r@)),
    {
        let (secs, nanos, now) = match crate::clock::current_time() {
            Some((secs, nanos, text)) => (secs, nanos, text),
            None => {
                let r: Vec<Sample> = Vec::new();
                proof {
                    let (ws, wn) = choose|secs: i64, nanos: u32| #[trigger] unwritable_instant(secs, nanos);
                    assert(sample_views(r@) =~= Seq::<SampleV>::empty());
                    assert(samples_of_instant(self@.samples, ws, wn, sample_views(r@)));
                }
                return r;
            },
        };
        let n = now.as_str().unicode_len();
        let day = now.as_str().substring_char(0, if n < 10 { n } else { 10 });
        let r = self.get_samples_on(day);
        proof {
            assert(day@ == day_of(now@));
            assert(samples_of_instant(self@.samples, secs, nanos, sample_views(r@)));
        }
        r
    }

    pub fn get_samples_range(&self, from: &str, to: &str) -> (r: Vec<Sample>)
        requires
            self.wf(),
        ensures
            samples_sorted(sample_views(r@)),
            sample_views(r@).to_multiset() == self@.samples.filter(in_range(from@, to@)).to_multiset(),
    {
        let samples = self.all_samples();
        let ghost s = self@.samples;
        let ghost pred = in_range(from@, to@);
        let mut flags: Vec<bool> = Vec::new();
        let mut i: usize = 0;
        while i < samples.len()
            invariant
                s == self@.samples,
                s == sample_views(samples@),
                s.len() == samples@.len(),
                pred == in_range(from@, to@),
                i <= samples.len(),
                flags@.len() == i,
                forall|j: int| 0 <= j < i ==> flags@[j] == pred(#[trigger] s[j]),
            decreases samples.len() - i,
        {
            let c = samples[i].created_at.as_str();
            proof {
                assert(s[i as int] == samples@[i as int]@);
            }
            flags.push(text_le(from, c) && !text_le(to, c));
            i = i + 1;
        }
        sort_samples(self.filter_samples(&flags, Ghost(pred)))
    }

    /// The samples of `day` joined with the titles of their tasks.
    pub fn get_samples_on_with_tasks(&self, day: &str) -> (r: Vec<SampleWithTask>)
        requires
            self.wf(),
        ensures
            exists|l: Seq<SampleV>| {
                &&& samples_sorted(l)
                &&& l.to_multiset() == self@.samples.filter(on_day(day@)).to_multiset()
                &&& #[trigger] l.len() == r@.len()
                &&& forall|i: int| 0 <= i < l.len() ==> joined(self@.tasks, l[i], #[trigger] r@[i])
            },
    {
        let day_samples = self.get_samples_on(day);
        let ghost l = sample_views(day_samples@);
        let mut out: Vec<SampleWithTask> = Vec::new();
        let mut i: usize = 0;
        while i < day_samples.len()
            invariant
                self.wf(),
                l == sample_views(day_samples@),
                l.len() == day_samples@.len(),
                i <= day_samples.len(),
                out@.len() == i,
                forall|k: int| 0 <= k < i ==> joined(self@.tasks, l[k], #[trigger] out@[k]),
            decreases day_samples.len() - i,
        {
            let x = &day_samples[i];
            let title = match &x.task_id {
                Some(t) => match self.get_task(t.as_str()) {
                    Ok(task) => Some(task.title),
                    Err(_) => None,
                },
                None => None,
            };
            let e = SampleWithTask {
                id: x.id.clone(),
                prompt_type: x.prompt_type.clone(),
                response: x.response.clone(),
                created_at: x.created_at.clone(),
                task_id: copy_opt_string(&x.task_id),
                task_title: title,
            };
            proof {
                assert(l[i as int] == x@);
            }
            out.push(e);
            i = i + 1;
        }
        out
    }

    /// Today's samples joined with the titles of their tasks.
    pub fn get_samples_today_with_tasks(&self) -> (r: Vec<SampleWithTask>)
        requires
            self.wf(),
        ensures
            exists|secs: i64, nanos: u32| #[trigger] joined_of_instant(self@.tasks, self@.samples, secs, nanos, r@),
    {
        let (secs, nanos, now) = match crate::clock::current_time() {
            Some((secs, nanos, text)) => (secs, nanos, text),
            None => {
                let r: Vec<SampleWithTask> = Vec::new();
                proof {
                    let (ws, wn) = choose|secs: i64, nanos: u32| #[trigger] unwritable_instant(secs, nanos);
                    assert(joined_of_instant(self@.tasks, self@.samples, ws, wn, r@));
                }
                return r;
            },
        };
        let n = now.as_str().unicode_len();
        let day = now.as_str().substring_char(0, if n < 10 { n } else { 10 });
        let r = self.get_samples_on_with_tasks(day);
        proof {
            assert(day@ == day_of(now@));
            assert(joined_listing(self@.tasks, self@.samples, day@, r@));
            assert(joined_of_instant(self@.tasks, self@.samples, secs, nanos, r@));
        }
        r
    }
}

} // verus!
