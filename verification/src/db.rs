//! The database operations as the server performs them: each reads the
//! clock (and draws a fresh id where one is needed) and hands the values to
//! the verified operation of [`TaskStore`] that takes them as arguments.
use vstd::prelude::*;
use crate::model::{Task, TaskV, Sample, SampleV, CreateTask, UpdateTask, CreateSample, opt_view};
use crate::store::{
    TaskStore, StoreError, has_task, task_of, index_of_id, is_desc, created_task, updated_task,
    new_parent, toggled_defer, snoozed, toggled_focus, touch_prompt, has_sample, opt_str_view,
    focus_count, MAX_FOCUSED, parent_touched, days_secs, snoozed_interval,
};
use crate::clock::{current_time, now_instant, new_ulid, is_crockford, spec_rfc3339_of, clock_text, written_instant, unwritable_instant};

verus! {

impl TaskStore {
    /// Creates a task now, with a fresh ULID.
    pub fn create_task(&mut self, input: &CreateTask) -> (r: Result<Task, StoreError>)
        requires
            old(self).wf(),
        ensures
            final(self).wf(),
            match r {
                Ok(t) => {
                    &&& t@.id.len() == 26
                    &&& forall|i: int| 0 <= i < 26 ==> is_crockford(#[trigger] t@.id[i])
                    &&& clock_text(t@.created_at)
                    &&& t@.created_at.len() >= 25
                    &&& t@ == created_task(old(self)@.tasks, opt_view(input.parent_id), input.title@, input.notes@, t@.id, t@.created_at)
                    &&& final(self)@.tasks == parent_touched(old(self)@.tasks, opt_view(input.parent_id), t@.created_at).push(t@)
                    &&& final(self)@.samples == old(self)@.samples
                },
                Err(e) => {
                    &&& final(self)@ == old(self)@
                    &&& e == StoreError::ParentNotFound ==> (opt_view(input.parent_id) matches Some(p) && !has_task(old(self)@.tasks, p))
                    &&& e == StoreError::ClockOutOfRange ==> exists|secs: i64, nanos: u32| #[trigger] unwritable_instant(secs, nanos)
                },
            },
            (opt_view(input.parent_id) matches Some(p) && !has_task(old(self)@.tasks, p)) ==> r is Err,
    {
        let now = match current_time() {
            Some((_, _, text)) => text,
            None => {
                return Err(StoreError::ClockOutOfRange);
            },
        };
        let id = new_ulid();
        let ghost idv = id@;
        let r = self.create_task_at(input, id, now);
        match &r {
            Ok(t) => {
                assert(t@.id == idv);
            },
            Err(_) => {},
        }
        r
    }

    /// Applies a partial update now.
    pub fn update_task(&mut self, id: &str, u: &UpdateTask) -> (r: Result<Task, StoreError>)
        requires
            old(self).wf(),
        ensures
            final(self).wf(),
            match r {
                Ok(t) => {
                    &&& has_task(old(self)@.tasks, id@)
                    &&& clock_text(t@.updated_at)
                    &&& t@.updated_at.len() >= 25
                    &&& t@ == updated_task(task_of(old(self)@.tasks, id@), *u, t@.updated_at)
                    &&& final(self)@.tasks == old(self)@.tasks.update(index_of_id(old(self)@.tasks, id@), t@)
                    &&& final(self)@.samples == old(self)@.samples
                },
                Err(e) => {
                    &&& final(self)@ == old(self)@
                    &&& e == StoreError::NotFound ==> !has_task(old(self)@.tasks, id@)
                    &&& e == StoreError::ParentNotFound ==> (new_parent(task_of(old(self)@.tasks, id@), *u) matches Some(p)
                        && !has_task(old(self)@.tasks, p))
                    &&& e == StoreError::WouldCycle ==> (new_parent(task_of(old(self)@.tasks, id@), *u) matches Some(p)
                        && is_desc(old(self)@.tasks, p, id@))
                    &&& e == StoreError::ClockOutOfRange ==> exists|secs: i64, nanos: u32| #[trigger] unwritable_instant(secs, nanos)
                },
            },
            !has_task(old(self)@.tasks, id@) ==> r is Err,
            has_task(old(self)@.tasks, id@) && (new_parent(task_of(old(self)@.tasks, id@), *u) matches Some(p) ==>
                has_task(old(self)@.tasks, p) && !is_desc(old(self)@.tasks, p, id@))
                ==> (r matches Err(e) ==> e == StoreError::ClockOutOfRange),
    {
        let now = match current_time() {
            Some((_, _, text)) => text,
            None => {
                return Err(StoreError::ClockOutOfRange);
            },
        };
        self.update_task_at(id, u, now)
    }

    /// Toggles whether a task is deferred, now.
    pub fn defer_task(&mut self, id: &str) -> (r: Result<Task, StoreError>)
        requires
            old(self).wf(),
        ensures
            final(self).wf(),
            match r {
                Ok(t) => {
                    &&& has_task(old(self)@.tasks, id@)
                    &&& exists|secs: i64, nanos: u32| #[trigger] written_instant(secs, nanos, t@.updated_at)
                        && t@ == toggled_defer(task_of(old(self)@.tasks, id@), t@.updated_at,
                            spec_rfc3339_of(secs + days_secs(task_of(old(self)@.tasks, id@).review_interval as int), nanos as int)->0)
                    &&& final(self)@.tasks == old(self)@.tasks.update(index_of_id(old(self)@.tasks, id@), t@)
                    &&& final(self)@.samples == old(self)@.samples
                },
                Err(e) => final(self)@ == old(self)@ && (e == StoreError::NotFound ==> !has_task(old(self)@.tasks, id@)),
            },
            !has_task(old(self)@.tasks, id@) ==> r is Err,
    {
        let (secs, nanos) = now_instant();
        let r = self.defer_task_at(id, secs, nanos);
        match &r {
            Ok(t) => {
                assert(written_instant(secs, nanos, t@.updated_at));
            },
            Err(_) => {},
        }
        r
    }

    /// Snoozes the review of a task, now.
    pub fn snooze_review(&mut self, id: &str) -> (r: Result<Task, StoreError>)
        requires
            old(self).wf(),
        ensures
            final(self).wf(),
            match r {
                Ok(t) => {
                    &&& has_task(old(self)@.tasks, id@)
                    &&& exists|secs: i64, nanos: u32| #[trigger] written_instant(secs, nanos, t@.updated_at)
                        && t@ == snoozed(task_of(old(self)@.tasks, id@), t@.updated_at,
                            spec_rfc3339_of(secs + days_secs(snoozed_interval(task_of(old(self)@.tasks, id@).review_interval as int)), nanos as int)->0)
                    &&& final(self)@.tasks == old(self)@.tasks.update(index_of_id(old(self)@.tasks, id@), t@)
                    &&& final(self)@.samples == old(self)@.samples
                },
                Err(e) => final(self)@ == old(self)@ && (e == StoreError::NotFound ==> !has_task(old(self)@.tasks, id@)),
            },
            !has_task(old(self)@.tasks, id@) ==> r is Err,
    {
        let (secs, nanos) = now_instant();
        let r = self.snooze_review_at(id, secs, nanos);
        match &r {
            Ok(t) => {
                assert(written_instant(secs, nanos, t@.updated_at));
            },
            Err(_) => {},
        }
        r
    }

    /// Toggles the focus of a task, now.
    pub fn focus_task(&mut self, id: &str, budget: Option<i64>) -> (r: Result<Task, StoreError>)
        requires
            old(self).wf(),
        ensures
            final(self).wf(),
            match r {
                Ok(t) => {
                    &&& has_task(old(self)@.tasks, id@)
                    &&& (!task_of(old(self)@.tasks, id@).focused ==> focus_count(old(self)@.tasks) < MAX_FOCUSED)
                    &&& exists|now: Seq<char>| clock_text(now) && t@ == #[trigger] toggled_focus(task_of(old(self)@.tasks, id@), budget, now)
                    &&& final(self)@.tasks == old(self)@.tasks.update(index_of_id(old(self)@.tasks, id@), t@)
                    &&& final(self)@.samples == old(self)@.samples
                },
                Err(e) => {
                    &&& final(self)@ == old(self)@
                    &&& e == StoreError::NotFound ==> !has_task(old(self)@.tasks, id@)
                    &&& e == StoreError::FocusLimit ==> !task_of(old(self)@.tasks, id@).focused
                        && focus_count(old(self)@.tasks) >= MAX_FOCUSED
                    &&& e == StoreError::ClockOutOfRange ==> exists|secs: i64, nanos: u32| #[trigger] unwritable_instant(secs, nanos)
                },
            },
            !has_task(old(self)@.tasks, id@) ==> r is Err,
            has_task(old(self)@.tasks, id@) && (task_of(old(self)@.tasks, id@).focused || focus_count(old(self)@.tasks) < MAX_FOCUSED)
                ==> (r matches Err(e) ==> e == StoreError::ClockOutOfRange),
            has_task(old(self)@.tasks, id@) && !task_of(old(self)@.tasks, id@).focused
                && focus_count(old(self)@.tasks) >= MAX_FOCUSED ==> r is Err,
    {
        let now = match current_time() {
            Some((_, _, text)) => text,
            None => {
                return Err(StoreError::ClockOutOfRange);
            },
        };
        self.focus_task_at(id, budget, now)
    }

    /// Acknowledges a task, now.
    pub fn acknowledge_task(&mut self, id: &str) -> (r: Result<Task, StoreError>)
        requires
            old(self).wf(),
        ensures
            final(self).wf(),
            match r {
                Ok(t) => {
                    &&& has_task(old(self)@.tasks, id@)
                    &&& clock_text(t@.updated_at)
                    &&& t@.updated_at.len() >= 25
                    &&& t@ == (TaskV { acknowledged: true, updated_at: t@.updated_at, ..task_of(old(self)@.tasks, id@) })
                    &&& final(self)@.tasks == old(self)@.tasks.update(index_of_id(old(self)@.tasks, id@), t@)
                    &&& final(self)@.samples == old(self)@.samples
                },
                Err(e) => {
                    &&& final(self)@ == old(self)@
                    &&& e == StoreError::NotFound ==> !has_task(old(self)@.tasks, id@)
                    &&& e == StoreError::ClockOutOfRange ==> exists|secs: i64, nanos: u32| #[trigger] unwritable_instant(secs, nanos)
                },
            },
            !has_task(old(self)@.tasks, id@) ==> r is Err,
            has_task(old(self)@.tasks, id@) ==> (r matches Err(e) ==> e == StoreError::ClockOutOfRange),
    {
        let now = match current_time() {
            Some((_, _, text)) => text,
            None => {
                return Err(StoreError::ClockOutOfRange);
            },
        };
        self.acknowledge_task_at(id, now)
    }

    /// Records an experience sample now, with a fresh ULID.
    pub fn create_sample(&mut self, input: &CreateSample) -> (r: Result<Sample, StoreError>)
        requires
            old(self).wf(),
        ensures
            final(self).wf(),
            match r {
                Ok(x) => {
                    &&& x@.id.len() == 26
                    &&& clock_text(x@.created_at)
                    &&& x@.created_at.len() >= 25
                    &&& x@ == (SampleV {
                        id: x@.id,
                        prompt_type: input.prompt_type@,
                        response: input.response@,
                        created_at: x@.created_at,
                        task_id: opt_view(input.task_id),
                    })
                    &&& final(self)@.samples == old(self)@.samples.push(x@)
                    &&& final(self)@.tasks == old(self)@.tasks
                },
                Err(e) => {
                    &&& final(self)@ == old(self)@
                    &&& e == StoreError::ParentNotFound ==> (opt_view(input.task_id) matches Some(t) && !has_task(old(self)@.tasks, t))
                    &&& e == StoreError::ClockOutOfRange ==> exists|secs: i64, nanos: u32| #[trigger] unwritable_instant(secs, nanos)
                },
            },
            (opt_view(input.task_id) matches Some(t) && !has_task(old(self)@.tasks, t)) ==> r is Err,
    {
        let now = match current_time() {
            Some((_, _, text)) => text,
            None => {
                return Err(StoreError::ClockOutOfRange);
            },
        };
        let id = new_ulid();
        let ghost idv = id@;
        let r = self.create_sample_at(input, id, now);
        match &r {
            Ok(x) => {
                assert(x@.id == idv);
            },
            Err(_) => {},
        }
        r
    }

    /// Records, now, that a task was worked on.
    pub fn touch_task(&mut self, id: &str, response: Option<&str>) -> (r: Result<Task, StoreError>)
        requires
            old(self).wf(),
        ensures
            final(self).wf(),
            match r {
                Ok(t) => {
                    let old_t = task_of(old(self)@.tasks, id@);
                    &&& has_task(old(self)@.tasks, id@)
                    &&& clock_text(t@.updated_at)
                    &&& t@.updated_at.len() >= 25
                    &&& t@ == (TaskV { updated_at: t@.updated_at, ..old_t })
                    &&& final(self)@.tasks == old(self)@.tasks.update(index_of_id(old(self)@.tasks, id@), t@)
                    &&& final(self)@.samples.len() == old(self)@.samples.len() + 1
                    &&& final(self)@.samples.drop_last() == old(self)@.samples
                    &&& final(self)@.samples.last() == (SampleV {
                        id: final(self)@.samples.last().id,
                        prompt_type: touch_prompt(),
                        response: match opt_str_view(response) { Some(x) => x, None => old_t.title },
                        created_at: t@.updated_at,
                        task_id: Some(id@),
                    })
                },
                Err(e) => {
                    &&& final(self)@.samples == old(self)@.samples
                    &&& e == StoreError::NotFound ==> !has_task(old(self)@.tasks, id@) && final(self)@ == old(self)@
                    &&& e == StoreError::ClockOutOfRange ==> exists|secs: i64, nanos: u32| #[trigger] unwritable_instant(secs, nanos)
                },
            },
            !has_task(old(self)@.tasks, id@) ==> r is Err,
    {
        let now = match current_time() {
            Some((_, _, text)) => text,
            None => {
                return Err(StoreError::ClockOutOfRange);
            },
        };
        let sample_id = new_ulid();
        let r = self.touch_task_at(id, response, sample_id, now);
        proof {
            if r is Ok {
                assert(self@.samples.drop_last() =~= old(self)@.samples);
            }
        }
        r
    }
}

} // verus!
