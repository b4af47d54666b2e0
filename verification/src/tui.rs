//! The decisions of the terminal interface: key sequences, list selection,
//! staleness dimming, focus budgets and the undo history.
use vstd::prelude::*;
use crate::clock::{div_trunc, whole_units_between, parse_rfc3339_millis, spec_parse_rfc3339_millis, MILLIS_PER_DAY, MILLIS_PER_MINUTE};
use crate::text::{utf8_size, chars_of};
use crate::text_input::utf8_width;
use crate::model::{Task, TaskV, task_views};
use crate::text::{to_owned_string, has_prefix};

verus! {

/// The first key of a two-key command, waiting for the second.
#[derive(Clone, Copy, PartialEq, Eq, Debug, Structural)]
pub enum PendingKey {
    Idle,
    G,
    D,
    Y,
    Lt,
    Gt,
}

impl PendingKey {
    /// The key shown while it waits for its second key.
    pub fn label(&self) -> (r: Option<&'static str>)
        ensures
            match *self {
                PendingKey::Idle => r is None,
                PendingKey::G => r matches Some(s) && s@ == seq!['g'],
                PendingKey::D => r matches Some(s) && s@ == seq!['d'],
                PendingKey::Y => r matches Some(s) && s@ == seq!['y'],
                PendingKey::Lt => r matches Some(s) && s@ == seq!['<'],
                PendingKey::Gt => r matches Some(s) && s@ == seq!['>'],
            },
    {
        proof {
            reveal_strlit("g");
            reveal_strlit("d");
            reveal_strlit("y");
            reveal_strlit("<");
            reveal_strlit(">");
        }
        match self {
            PendingKey::Idle => None,
            PendingKey::G => Some("g"),
            PendingKey::D => Some("d"),
            PendingKey::Y => Some("y"),
            PendingKey::Lt => Some("<"),
            PendingKey::Gt => Some(">"),
        }
    }
}

// ── List selection ──

/// The selection after moving up one row: wrapping from the first row to
/// the last, the first row when nothing was selected, unchanged in an
/// empty list.
pub open spec fn select_up_of(selected: Option<usize>, len: usize) -> Option<usize> {
    if len == 0 {
        selected
    } else {
        Some(match selected {
            Some(0) => (len - 1) as usize,
            Some(s) => (s - 1) as usize,
            None => 0usize,
        })
    }
}

/// The selection after moving down one row: wrapping from the last row to
/// the first, the first row when nothing was selected, unchanged in an
/// empty list.
pub open spec fn select_down_of(selected: Option<usize>, len: usize) -> Option<usize> {
    if len == 0 {
        selected
    } else {
        Some(match selected {
            Some(s) => if s + 1 >= len { 0usize } else { (s + 1) as usize },
            None => 0usize,
        })
    }
}

/// Moving the selection up one row, wrapping from the first to the last.
pub fn select_up(selected: Option<usize>, len: usize) -> (r: Option<usize>)
    ensures
        r == select_up_of(selected, len),
{
    if len == 0 {
        return selected;
    }
    match selected {
        Some(0) => Some(len - 1),
        Some(s) => Some(s - 1),
        None => Some(0),
    }
}

/// Moving the selection down one row, wrapping from the last to the first.
pub fn select_down(selected: Option<usize>, len: usize) -> (r: Option<usize>)
    ensures
        r == select_down_of(selected, len),
{
    if len == 0 {
        return selected;
    }
    match selected {
        Some(s) => if s >= len - 1 { Some(0) } else { Some(s + 1) },
        None => Some(0),
    }
}

/// The selection after the list changed: the row of the remembered task if
/// it is still listed, else the old row clamped to the list.
pub fn restore_selection(found: Option<usize>, selected: Option<usize>, len: usize) -> (r: Option<usize>)
    ensures
        len == 0 ==> r is None,
        len > 0 ==> r == match found {
            Some(i) => Some(i),
            None => match selected {
                Some(s) => if s >= len { Some((len - 1) as usize) } else { Some(s) },
                None => Some(0usize),
            },
        },
{
    if len == 0 {
        return None;
    }
    match found {
        Some(i) => Some(i),
        None => match selected {
            Some(s) => if s >= len { Some(len - 1) } else { Some(s) },
            None => Some(0),
        },
    }
}

/// The selection after the selected row went away (deleted, completed or
/// deferred out of view): the same row, clamped to the shorter list.
pub fn clamp_selection(old: Option<usize>, len: usize) -> (r: Option<usize>)
    ensures
        len == 0 ==> r is None,
        len > 0 ==> r == match old {
            Some(i) => Some(if i < len { i } else { (len - 1) as usize }),
            None => None,
        },
{
    if len == 0 {
        return None;
    }
    match old {
        Some(i) => Some(if i < len { i } else { len - 1 }),
        None => None,
    }
}

/// Half a page down from the selection, stopping at the last row.
pub fn half_page_down(selected: usize, half: usize, len: usize) -> (r: usize)
    ensures
        r == if selected + half <= len - 1 { selected + half } else { if len > 0 { len - 1 } else { 0 } },
{
    let last = if len > 0 { len - 1 } else { 0 };
    if half <= last && selected <= last - half { selected + half } else { last }
}

/// Half a page up from the selection, stopping at the first row.
pub fn half_page_up(selected: usize, half: usize) -> (r: usize)
    ensures
        r == if selected >= half { selected - half } else { 0 },
{
    if selected >= half { selected - half } else { 0 }
}

// ── Staleness ──

/// How dim a task is drawn, from the days since it was last updated.
#[derive(Clone, Copy, PartialEq, Eq, Debug)]
pub enum Staleness {
    /// Updated within three days: drawn normally.
    Fresh,
    /// A gray or warm color, as red, green and blue.
    Tinted(u8, u8, u8),
}

/// The staleness color: focused tasks warm from amber to red, other tasks
/// fade to gray after three, seven and fourteen days.
pub open spec fn spec_staleness(days: int, focused: bool) -> Staleness {
    if focused {
        if days < 1 {
            Staleness::Tinted(200, 150, 50)
        } else if days < 3 {
            Staleness::Tinted(220, 100, 30)
        } else {
            Staleness::Tinted(200, 60, 20)
        }
    } else if days < 3 {
        Staleness::Fresh
    } else if days < 7 {
        Staleness::Tinted(160, 160, 160)
    } else if days < 14 {
        Staleness::Tinted(120, 120, 120)
    } else {
        Staleness::Tinted(80, 80, 80)
    }
}

/// The staleness of a task updated `days` whole days ago.
pub fn staleness_for_days(days: i64, focused: bool) -> (r: Staleness)
    ensures
        r == spec_staleness(days as int, focused),
{
    if focused {
        if days < 1 {
            Staleness::Tinted(200, 150, 50)
        } else if days < 3 {
            Staleness::Tinted(220, 100, 30)
        } else {
            Staleness::Tinted(200, 60, 20)
        }
    } else if days < 3 {
        Staleness::Fresh
    } else if days < 7 {
        Staleness::Tinted(160, 160, 160)
    } else if days < 14 {
        Staleness::Tinted(120, 120, 120)
    } else {
        Staleness::Tinted(80, 80, 80)
    }
}

/// The staleness of a task last updated at `updated_at` (RFC 3339), seen at
/// `now_ms`; none when the timestamp does not parse.
pub fn staleness(updated_at: &str, focused: bool, now_ms: i64) -> (r: Option<Staleness>)
    ensures
        match spec_parse_rfc3339_millis(updated_at@) {
            Some(then) => r == Some(spec_staleness(div_trunc(now_ms - then, MILLIS_PER_DAY as int), focused)),
            None => r is None,
        },
{
    match parse_rfc3339_millis(updated_at) {
        Some(then) => {
            let days = whole_units_between(now_ms, then, MILLIS_PER_DAY);
            Some(staleness_for_days(days, focused))
        },
        None => None,
    }
}

// ── Focus budgets ──

/// What a focused task's budget line shows.
#[derive(Clone, Copy, PartialEq, Eq, Debug)]
pub enum BudgetState {
    /// More than ten minutes left (shown in green).
    Plenty(i64),
    /// One to ten minutes left (shown in yellow).
    Low(i64),
    /// The budget is used up; holds the minutes over (shown in red).
    Over(i64),
}

/// The budget line for `budget` minutes after `elapsed` minutes.
pub open spec fn spec_budget_state(budget: int, elapsed: int) -> BudgetState {
    let remaining = budget - elapsed;
    if remaining > 10 {
        BudgetState::Plenty(remaining as i64)
    } else if remaining > 0 {
        BudgetState::Low(remaining as i64)
    } else {
        BudgetState::Over((-remaining) as i64)
    }
}

/// The budget line, when the remaining minutes fit in an `i64`.
pub fn budget_state(budget: i64, elapsed: i64) -> (r: Option<BudgetState>)
    ensures
        match r {
            Some(s) => i64::MIN < budget - elapsed <= i64::MAX && s == spec_budget_state(budget as int, elapsed as int),
            None => !(i64::MIN < budget - elapsed <= i64::MAX),
        },
{
    let remaining: i128 = budget as i128 - elapsed as i128;
    if remaining <= i64::MIN as i128 || remaining > i64::MAX as i128 {
        return None;
    }
    let rem = remaining as i64;
    if rem > 10 {
        Some(BudgetState::Plenty(rem))
    } else if rem > 0 {
        Some(BudgetState::Low(rem))
    } else {
        Some(BudgetState::Over(-rem))
    }
}

/// Whether the budget ran out within the last minute: the moment the
/// interface raises its alert.
pub fn budget_just_expired(budget: i64, elapsed: i64) -> (r: bool)
    ensures
        r == (-1 <= budget - elapsed <= 0),
{
    let remaining: i128 = budget as i128 - elapsed as i128;
    -1 <= remaining && remaining <= 0
}

/// The task's focus budget ran out within the last minute at `now_ms`:
/// it has a start time chrono reads and a budget, and the budget minus the
/// whole minutes since the start is -1 or 0.
pub open spec fn budget_expired_now(t: TaskV, now_ms: int) -> bool {
    &&& t.focused_at is Some
    &&& t.budget_minutes is Some
    &&& spec_parse_rfc3339_millis(t.focused_at->0) is Some
    &&& -1 <= t.budget_minutes->0 - div_trunc(now_ms - spec_parse_rfc3339_millis(t.focused_at->0)->0, MILLIS_PER_MINUTE as int) <= 0
}

/// The last task of a list whose budget just ran out.
pub open spec fn last_expired(s: Seq<TaskV>, now_ms: int) -> Option<int>
    decreases s.len(),
{
    if s.len() == 0 {
        None
    } else if budget_expired_now(s.last(), now_ms) {
        Some(s.len() - 1)
    } else {
        last_expired(s.drop_last(), now_ms)
    }
}

proof fn lemma_last_expired_range(s: Seq<TaskV>, now_ms: int)
    ensures
        last_expired(s, now_ms) matches Some(i) ==> 0 <= i < s.len(),
    decreases s.len(),
{
    if s.len() > 0 {
        lemma_last_expired_range(s.drop_last(), now_ms);
    }
}

/// The title the budget alert names, checked on each idle second: that of
/// the last focused task whose budget just ran out, if any.
pub fn budget_alert(focused: &Vec<Task>, now_ms: i64) -> (r: Option<String>)
    ensures
        match last_expired(task_views(focused@), now_ms as int) {
            Some(i) => r matches Some(t) && t@ == focused@[i]@.title,
            None => r is None,
        },
{
    let mut found: Option<usize> = None;
    let mut k: usize = 0;
    while k < focused.len()
        invariant
            k <= focused@.len(),
            found == match last_expired(task_views(focused@.take(k as int)), now_ms as int) {
                Some(i) => Some(i as usize),
                None => None::<usize>,
            },
            found matches Some(i) ==> i < k,
        decreases focused@.len() - k,
    {
        let t = &focused[k];
        proof {
            assert(task_views(focused@.take(k + 1)).drop_last() =~= task_views(focused@.take(k as int)));
            assert(task_views(focused@.take(k + 1)).last() == focused@[k as int]@);
        }
        let expired = match (&t.focused_at, t.budget_minutes) {
            (Some(at), Some(budget)) => match parse_rfc3339_millis(at.as_str()) {
                Some(then) => {
                    let elapsed = whole_units_between(now_ms, then, MILLIS_PER_MINUTE);
                    budget_just_expired(budget, elapsed)
                },
                None => false,
            },
            _ => false,
        };
        if expired {
            found = Some(k);
        }
        k = k + 1;
    }
    proof {
        assert(focused@.take(focused@.len() as int) =~= focused@);
        lemma_last_expired_range(task_views(focused@), now_ms as int);
    }
    match found {
        Some(i) => Some(to_owned_string(focused[i].title.as_str())),
        None => None,
    }
}

/// The whole minutes from `then_ms` to `now_ms`.
pub fn elapsed_minutes(now_ms: i64, then_ms: i64) -> (r: i64)
    ensures
        r == div_trunc(now_ms - then_ms, MILLIS_PER_MINUTE as int),
{
    whole_units_between(now_ms, then_ms, MILLIS_PER_MINUTE)
}

// ── Timestamps ──

/// The leading part of an RFC 3339 timestamp up to the minute: its first
/// 16 bytes, or all of it when shorter. Defined when the text is shorter
/// than 16 bytes or 16 bytes end on a character boundary.
pub open spec fn short_time_defined(s: Seq<char>) -> bool {
    utf8_size(s) < 16 || exists|k: int| 0 <= k <= s.len() && utf8_size(#[trigger] s.take(k)) == 16
}

/// The first 16 bytes of a timestamp (date, hour and minute), or the whole
/// text when it is shorter.
pub fn format_time(iso: &str) -> (r: &str)
    requires
        short_time_defined(iso@),
    ensures
        utf8_size(iso@) < 16 ==> r@ == iso@,
        utf8_size(iso@) >= 16 ==> utf8_size(r@) == 16 && r@ == iso@.take(r@.len() as int),
{
    let cs = chars_of(iso);
    let n = cs.len();
    let mut total: usize = 0;
    let mut i: usize = 0;
    while i < n && total < 16
        invariant
            cs@ == iso@,
            n == cs@.len(),
            i <= n,
            total == utf8_size(cs@.take(i as int)),
            total <= 19,
            forall|k: int| 0 <= k < i ==> utf8_size(#[trigger] cs@.take(k)) < 16,
        decreases n - i,
    {
        proof {
            assert(cs@.take(i + 1).drop_last() =~= cs@.take(i as int));
            assert(cs@.take(i + 1).last() == cs@[i as int]);
        }
        total = total + utf8_width(cs[i]);
        i = i + 1;
    }
    if total >= 16 {
        proof {
            lemma_utf8_size_between(cs@, i as int, n as int);
            assert(cs@.take(n as int) =~= cs@);
            if total > 16 {
                let k = choose|k: int| 0 <= k <= cs@.len() && utf8_size(#[trigger] cs@.take(k)) == 16;
                if k < i {
                    assert(utf8_size(cs@.take(k)) < 16);
                } else if k > i {
                    lemma_utf8_size_between(cs@, i as int, k);
                }
            }
        }
        iso.substring_char(0, i)
    } else {
        proof {
            assert(cs@.take(n as int) =~= cs@);
        }
        iso
    }
}

proof fn lemma_utf8_size_between(s: Seq<char>, i: int, k: int)
    requires
        0 <= i <= k <= s.len(),
    ensures
        utf8_size(s.take(i)) <= utf8_size(s.take(k)),
    decreases k - i,
{
    if k > i {
        lemma_utf8_size_between(s, i, k - 1);
        assert(s.take(k).drop_last() =~= s.take(k - 1));
    }
}

// ── Undo history ──

/// The undo and redo stacks, newest last.
pub struct HistoryV<E> {
    pub undo: Seq<E>,
    pub redo: Seq<E>,
}

/// Entries that can be undone and, once undone, redone.
pub struct UndoHistory<E> {
    undo: Vec<E>,
    redo: Vec<E>,
}

impl<E> View for UndoHistory<E> {
    type V = HistoryV<E>;

    closed spec fn view(&self) -> HistoryV<E> {
        HistoryV { undo: self.undo@, redo: self.redo@ }
    }
}

impl<E> UndoHistory<E> {
    /// Nothing to undo or redo.
    pub fn new() -> (r: UndoHistory<E>)
        ensures
            r@.undo == Seq::<E>::empty(),
            r@.redo == Seq::<E>::empty(),
    {
        UndoHistory { undo: Vec::new(), redo: Vec::new() }
    }

    /// Records a new change: it becomes the next to undo, and nothing can
    /// be redone any more.
    pub fn record(&mut self, e: E)
        ensures
            final(self)@.undo == old(self)@.undo.push(e),
            final(self)@.redo == Seq::<E>::empty(),
    {
        self.undo.push(e);
        self.redo.clear();
    }

    /// Takes the newest change to undo.
    pub fn take_undo(&mut self) -> (r: Option<E>)
        ensures
            old(self)@.undo.len() == 0 ==> r is None && final(self)@ == old(self)@,
            old(self)@.undo.len() > 0 ==> r == Some(old(self)@.undo.last())
                && final(self)@.undo == old(self)@.undo.drop_last() && final(self)@.redo == old(self)@.redo,
    {
        self.undo.pop()
    }

    /// Takes the newest undone change to redo.
    pub fn take_redo(&mut self) -> (r: Option<E>)
        ensures
            old(self)@.redo.len() == 0 ==> r is None && final(self)@ == old(self)@,
            old(self)@.redo.len() > 0 ==> r == Some(old(self)@.redo.last())
                && final(self)@.redo == old(self)@.redo.drop_last() && final(self)@.undo == old(self)@.undo,
    {
        self.redo.pop()
    }

    /// Keeps the reverse of an undone change, so that it can be redone.
    pub fn push_redo(&mut self, e: E)
        ensures
            final(self)@.redo == old(self)@.redo.push(e),
            final(self)@.undo == old(self)@.undo,
    {
        self.redo.push(e);
    }

    /// Keeps the reverse of a redone change, so that it can be undone again
    /// (without forgetting what else can be redone).
    pub fn push_undo(&mut self, e: E)
        ensures
            final(self)@.undo == old(self)@.undo.push(e),
            final(self)@.redo == old(self)@.redo,
    {
        self.undo.push(e);
    }

    /// The number of changes that can be undone.
    pub fn undo_len(&self) -> (r: usize)
        ensures
            r == self@.undo.len(),
    {
        self.undo.len()
    }

    /// The number of changes that can be redone.
    pub fn redo_len(&self) -> (r: usize)
        ensures
            r == self@.redo.len(),
    {
        self.redo.len()
    }
}

// ── What the screen shows ──

/// The list position shown at the top right: nothing to show, a list with
/// no selection, or the selected row (counted from 1) of so many.
#[derive(Clone, Copy, PartialEq, Eq, Debug, Structural)]
pub enum PositionMark {
    Empty,
    Unselected(usize),
    At(usize, usize),
}

/// The list position for a selection among `count` rows.
pub fn position_mark(selected: Option<usize>, count: usize) -> (r: PositionMark)
    requires
        selected matches Some(i) ==> i < count,
    ensures
        r == match selected {
            Some(i) => PositionMark::At((i + 1) as usize, count),
            None => if count == 0 { PositionMark::Empty } else { PositionMark::Unselected(count) },
        },
{
    match selected {
        Some(i) => PositionMark::At(i + 1, count),
        None => if count == 0 { PositionMark::Empty } else { PositionMark::Unselected(count) },
    }
}

/// How the help window shows `total` lines in `room` lines of space: the
/// scroll position held to the last one that still fills the window, and,
/// when the text does not fit, that position and the last one counted from
/// 1 for the title.
#[derive(Clone, Copy, Debug)]
pub struct HelpWindow {
    pub scroll: u16,
    pub place: Option<(u32, u32)>,
}

/// The help window for a scroll position.
pub fn help_window(scroll: u16, total: u16, room: u16) -> (r: HelpWindow)
    ensures
        ({
            let shown = if total < room { total as int } else { room as int };
            let max = total - shown;
            &&& r.scroll == if scroll < max { scroll as int } else { max }
            &&& r.place == if max > 0 { Some(((r.scroll + 1) as u32, (max + 1) as u32)) } else { None }
        }),
{
    let shown = if total < room { total } else { room };
    let max = total - shown;
    let at = if scroll < max { scroll } else { max };
    let place = if max > 0 { Some((at as u32 + 1, max as u32 + 1)) } else { None };
    HelpWindow { scroll: at, place }
}

/// What the status bar shows in the normal mode, first that applies: the
/// key waiting for its second, the filter, the status message (alarming
/// while a quit waits for its second `q` or when a focus budget ran out),
/// or the key hints.
#[derive(Clone, Copy, PartialEq, Eq, Debug, Structural)]
pub enum StatusLine {
    Pending,
    Filter,
    Message { alarm: bool },
    Hints,
}

/// The prefix of the message that announces a spent focus budget.
pub open spec fn budget_alarm_prefix() -> Seq<char> {
    seq!['B', 'U', 'D', 'G', 'E', 'T', ' ', 'E', 'X', 'P', 'I', 'R', 'E', 'D']
}

/// The status bar's content in the normal mode.
pub fn normal_status(pending: PendingKey, filter: &str, msg: Option<&str>, quit_pending: bool) -> (r: StatusLine)
    ensures
        r == if pending != PendingKey::Idle {
            StatusLine::Pending
        } else if filter@.len() > 0 {
            StatusLine::Filter
        } else {
            match msg {
                Some(m) => StatusLine::Message {
                    alarm: quit_pending || (budget_alarm_prefix().len() <= m@.len()
                        && m@.take(budget_alarm_prefix().len() as int) == budget_alarm_prefix()),
                },
                None => StatusLine::Hints,
            }
        },
{
    if pending != PendingKey::Idle {
        return StatusLine::Pending;
    }
    if filter.unicode_len() > 0 {
        return StatusLine::Filter;
    }
    match msg {
        Some(m) => {
            let prefix = "BUDGET EXPIRED";
            proof {
                reveal_strlit("BUDGET EXPIRED");
                assert(prefix@ == budget_alarm_prefix());
            }
            let alarm = quit_pending || has_prefix(m, prefix);
            StatusLine::Message { alarm }
        },
        None => StatusLine::Hints,
    }
}

} // verus!

