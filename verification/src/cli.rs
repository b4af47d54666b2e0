//! The command line: its commands and arguments, and the decisions the
//! commands make on what the server answered (which child an index names,
//! where a task is indented to, what a review answer means, how a row is
//! marked).
use vstd::prelude::*;
use crate::model::{Task, TaskV, ProjectPreview};
use crate::text::{trimmed, trimmed_nonblank, trim, text_eq, to_owned_string, append_str, push_char};

verus! {

/// The port the server listens on unless told otherwise.
pub const DEFAULT_PORT: u16 = 4242;

/// What was given on the command line.
pub struct Cli {
    /// The command; none shows the projects.
    pub command: Option<Command>,
    /// The server port.
    pub port: u16,
}

/// The commands of the command line.
pub enum Command {
    /// Start the API server.
    Server,
    /// Show the current frame: title, notes, children.
    Status,
    /// Create a child task and enter it.
    Push { title: String },
    /// Move to the parent frame.
    Pop,
    /// Move to the parent frame (the same as `Pop`).
    Up,
    /// Move into a child by index (1-based).
    Down { index: usize },
    /// Go to the root.
    Top,
    /// Add a child task without entering it.
    Add { title: String },
    /// Mark a task complete: the current frame, or a child by index.
    Done { index: Option<usize> },
    /// View, or set, the notes of the current frame.
    Note { text: Option<String> },
    /// Edit the title of a child.
    Edit { index: usize, title: String },
    /// Show the tree from the current frame.
    Tree,
    /// Delete a child by index.
    Delete { index: usize },
    /// Make a child a subtask of a sibling (by default the one above it).
    Indent { index: usize, under: Option<usize> },
    /// Defer a task, or bring it back.
    Defer { index: Option<usize> },
    /// Review the deferred tasks that are due.
    Review,
    /// Touch a task: update its time stamp and log a sample.
    Touch { index: Option<usize>, text: Option<String> },
    /// Toggle focus on a child, or show the focused tasks.
    Focus { index: Option<usize>, budget: Option<i64> },
    /// Log what you are doing right now.
    Log { text: String },
    /// Ask what you are doing right now.
    Ping,
    /// Show today's samples.
    Mirror,
    /// Launch the terminal interface.
    Tui,
}

/// Why a command refused its arguments.
#[derive(Debug, Clone, Copy, PartialEq, Eq)]
pub enum CliError {
    /// The child index is 0 or beyond the number of children.
    InvalidIndex { index: usize, count: usize },
    /// The first child has no sibling above it to be indented under.
    NoSiblingAbove,
    /// The index of the new parent is 0 or beyond the number of children.
    InvalidTarget { index: usize, count: usize },
    /// A task cannot be indented under itself.
    IndentUnderSelf,
    /// The command needs a current frame, and the cursor is at the root.
    AtRoot,
}

/// The position in the list of children that a 1-based index names.
pub fn child_slot(index: usize, count: usize) -> (r: Result<usize, CliError>)
    ensures
        1 <= index <= count ==> r == Ok::<usize, CliError>((index - 1) as usize),
        !(1 <= index <= count) ==> r == Err::<usize, CliError>(CliError::InvalidIndex { index, count }),
{
    if index == 0 || index > count {
        Err(CliError::InvalidIndex { index, count })
    } else {
        Ok(index - 1)
    }
}

/// The new parent's 1-based index when indenting the child at `index`:
/// the one given, or else the sibling above.
pub open spec fn indent_target(index: usize, under: Option<usize>) -> int {
    match under {
        Some(t) => t as int,
        None => index - 1,
    }
}

/// The positions of the child to indent and of its new parent, among
/// `count` children, for `flo indent index [--under under]`.
pub fn indent_slots(index: usize, under: Option<usize>, count: usize) -> (r: Result<(usize, usize), CliError>)
    ensures
        !(1 <= index <= count) ==> r == Err::<(usize, usize), CliError>(CliError::InvalidIndex { index, count }),
        1 <= index <= count && under is None && index == 1 ==> r == Err::<(usize, usize), CliError>(CliError::NoSiblingAbove),
        1 <= index <= count && !(under is None && index == 1) ==> {
            let t = indent_target(index, under);
            &&& !(1 <= t <= count) ==> r == Err::<(usize, usize), CliError>(CliError::InvalidTarget { index: t as usize, count })
            &&& 1 <= t <= count && t == index ==> r == Err::<(usize, usize), CliError>(CliError::IndentUnderSelf)
            &&& 1 <= t <= count && t != index ==> r == Ok::<(usize, usize), CliError>(((index - 1) as usize, (t - 1) as usize))
        },
{
    if index == 0 || index > count {
        return Err(CliError::InvalidIndex { index, count });
    }
    let target: usize = match under {
        Some(t) => t,
        None => {
            if index <= 1 {
                return Err(CliError::NoSiblingAbove);
            }
            index - 1
        },
    };
    if target == 0 || target > count {
        return Err(CliError::InvalidTarget { index: target, count });
    }
    if target == index {
        return Err(CliError::IndentUnderSelf);
    }
    Ok((index - 1, target - 1))
}

/// The id of the task a command acts on: the current frame when no index
/// is given, else the child the index names.
pub fn pick_target(index: Option<usize>, cursor: &Option<String>, children: &Vec<Task>) -> (r: Result<String, CliError>)
    ensures
        index is None && cursor is None ==> r == Err::<String, CliError>(CliError::AtRoot),
        index is None && cursor is Some ==> (r matches Ok(id) && id@ == cursor->0@),
        index is Some && !(1 <= index->0 <= children.len()) ==>
            r == Err::<String, CliError>(CliError::InvalidIndex { index: index->0, count: children.len() }),
        index is Some && 1 <= index->0 <= children.len() ==>
            (r matches Ok(id) && id@ == children@[index->0 - 1]@.id),
{
    match index {
        None => match cursor {
            None => Err(CliError::AtRoot),
            Some(c) => Ok(to_owned_string(c.as_str())),
        },
        Some(i) => match child_slot(i, children.len()) {
            Err(e) => Err(e),
            Ok(k) => Ok(to_owned_string(children[k].id.as_str())),
        },
    }
}

/// The cursor file's contents as a task id: the text without surrounding
/// white space, or none when that is empty.
pub fn cursor_from_contents(contents: &str) -> (r: Option<String>)
    ensures
        trim(contents@).len() == 0 ==> r is None,
        trim(contents@).len() > 0 ==> (r matches Some(id) && id@ == trim(contents@)),
{
    trimmed_nonblank(contents)
}

/// An answer to a review prompt.
#[derive(Debug, Clone, Copy, PartialEq, Eq)]
pub enum ReviewAnswer {
    /// Bring the task back from deferral.
    Keep,
    /// Put the review off, doubling the interval.
    Snooze,
    /// Mark the task complete.
    Done,
    /// Stop reviewing.
    Quit,
    /// Leave the task as it is.
    Skip,
}

/// What a line typed at a review prompt means, white space around it
/// ignored: `k`/`keep`, `s`/`snooze`, `d`/`done`, `q`/`quit`; anything else
/// skips the task.
pub open spec fn review_answer_of(line: Seq<char>) -> ReviewAnswer {
    let t = trim(line);
    if t == seq!['k'] || t == seq!['k', 'e', 'e', 'p'] {
        ReviewAnswer::Keep
    } else if t == seq!['s'] || t == seq!['s', 'n', 'o', 'o', 'z', 'e'] {
        ReviewAnswer::Snooze
    } else if t == seq!['d'] || t == seq!['d', 'o', 'n', 'e'] {
        ReviewAnswer::Done
    } else if t == seq!['q'] || t == seq!['q', 'u', 'i', 't'] {
        ReviewAnswer::Quit
    } else {
        ReviewAnswer::Skip
    }
}

/// Reads a review answer.
pub fn parse_review_answer(line: &str) -> (r: ReviewAnswer)
    ensures
        r == review_answer_of(line@),
{
    proof {
        reveal_strlit("k");
        reveal_strlit("keep");
        reveal_strlit("s");
        reveal_strlit("snooze");
        reveal_strlit("d");
        reveal_strlit("done");
        reveal_strlit("q");
        reveal_strlit("quit");
        assert("k"@ =~= seq!['k']);
        assert("keep"@ =~= seq!['k', 'e', 'e', 'p']);
        assert("s"@ =~= seq!['s']);
        assert("snooze"@ =~= seq!['s', 'n', 'o', 'o', 'z', 'e']);
        assert("d"@ =~= seq!['d']);
        assert("done"@ =~= seq!['d', 'o', 'n', 'e']);
        assert("q"@ =~= seq!['q']);
        assert("quit"@ =~= seq!['q', 'u', 'i', 't']);
    }
    let t = trimmed(line);
    let s = t.as_str();
    if text_eq(s, "k") || text_eq(s, "keep") {
        ReviewAnswer::Keep
    } else if text_eq(s, "s") || text_eq(s, "snooze") {
        ReviewAnswer::Snooze
    } else if text_eq(s, "d") || text_eq(s, "done") {
        ReviewAnswer::Done
    } else if text_eq(s, "q") || text_eq(s, "quit") {
        ReviewAnswer::Quit
    } else {
        ReviewAnswer::Skip
    }
}

/// The mark in the box before a child in `flo status`: `x` when complete,
/// `?` when not yet acknowledged, else a space.
pub fn status_mark(t: &Task) -> (r: &'static str)
    ensures
        t@.completed ==> r@ == seq!['x'],
        !t@.completed && !t@.acknowledged ==> r@ == seq!['?'],
        !t@.completed && t@.acknowledged ==> r@ == seq![' '],
{
    proof {
        reveal_strlit("x");
        reveal_strlit("?");
        reveal_strlit(" ");
    }
    if t.completed {
        "x"
    } else if !t.acknowledged {
        "?"
    } else {
        " "
    }
}

/// The tags after a child in `flo status`: ` [F]` when focused, then
/// ` [zzz]` when deferred.
pub open spec fn status_suffix_of(t: TaskV) -> Seq<char> {
    (if t.focused { seq![' ', '[', 'F', ']'] } else { Seq::empty() })
        + (if t.deferred { seq![' ', '[', 'z', 'z', 'z', ']'] } else { Seq::empty() })
}

/// The tags after a child in `flo status`.
pub fn status_suffix(t: &Task) -> (r: String)
    ensures
        r@ == status_suffix_of(t@),
{
    proof {
        reveal_strlit(" [F]");
        reveal_strlit(" [zzz]");
        reveal_strlit(" [F] [zzz]");
        reveal_strlit("");
    }
    if t.focused && t.deferred {
        to_owned_string(" [F] [zzz]")
    } else if t.focused {
        proof { assert(status_suffix_of(t@) =~= seq![' ', '[', 'F', ']']); }
        to_owned_string(" [F]")
    } else if t.deferred {
        proof { assert(status_suffix_of(t@) =~= seq![' ', '[', 'z', 'z', 'z', ']']); }
        to_owned_string(" [zzz]")
    } else {
        proof { assert(status_suffix_of(t@) =~= Seq::<char>::empty()); }
        to_owned_string("")
    }
}

/// The mark in the box before a task in `flo tree`: `x` when complete.
pub fn tree_mark(completed: bool) -> (r: &'static str)
    ensures
        completed ==> r@ == seq!['x'],
        !completed ==> r@ == seq![' '],
{
    proof {
        reveal_strlit("x");
        reveal_strlit(" ");
    }
    if completed { "x" } else { " " }
}

/// The tag of a sample in `flo mirror`: `ping`, ` log` for an activity,
/// `touch`, or the prompt type itself.
pub fn mirror_tag(prompt_type: &str) -> (r: &str)
    ensures
        prompt_type@ == "ping"@ ==> r@ == "ping"@,
        prompt_type@ == "activity"@ ==> r@ == " log"@,
        prompt_type@ == "touch"@ ==> r@ == "touch"@,
        prompt_type@ != "ping"@ && prompt_type@ != "activity"@ && prompt_type@ != "touch"@ ==> r@ == prompt_type@,
{
    proof {
        reveal_strlit("ping");
        reveal_strlit("activity");
        reveal_strlit("touch");
    }
    if text_eq(prompt_type, "ping") {
        "ping"
    } else if text_eq(prompt_type, "activity") {
        " log"
    } else if text_eq(prompt_type, "touch") {
        "touch"
    } else {
        prompt_type
    }
}

/// How long ago a focus session began, as `flo focus` shows it.
#[derive(Debug, Clone, Copy, PartialEq, Eq)]
pub enum Elapsed {
    /// Under an hour: `(Nm ago)`.
    Minutes(i64),
    /// An hour or more: `(HhMm ago)`.
    HoursMinutes(i64, i64),
}

/// Splits whole minutes for display: under 60 as minutes, else as hours
/// and the minutes left over.
pub fn elapsed_parts(mins: i64) -> (r: Elapsed)
    ensures
        mins < 60 ==> r == Elapsed::Minutes(mins),
        mins >= 60 ==> r == Elapsed::HoursMinutes((mins / 60) as i64, (mins % 60) as i64),
{
    if mins < 60 {
        Elapsed::Minutes(mins)
    } else {
        Elapsed::HoursMinutes(mins / 60, mins % 60)
    }
}

/// The sum of the pending counts of the first `n` projects.
pub open spec fn pending_sum(p: Seq<ProjectPreview>, n: int) -> int
    decreases n,
{
    if n <= 0 {
        0
    } else {
        pending_sum(p, n - 1) + p[n - 1].pending_count
    }
}

/// The number of pending tasks over all projects, as the home view ends.
pub fn total_pending(previews: &Vec<ProjectPreview>) -> (r: i64)
    requires
        forall|n: int| 0 <= n <= previews@.len() ==> i64::MIN <= #[trigger] pending_sum(previews@, n) <= i64::MAX,
    ensures
        r == pending_sum(previews@, previews@.len() as int),
{
    let mut total: i64 = 0;
    let mut k: usize = 0;
    while k < previews.len()
        invariant
            k <= previews@.len(),
            total == pending_sum(previews@, k as int),
            forall|n: int| 0 <= n <= previews@.len() ==> i64::MIN <= #[trigger] pending_sum(previews@, n) <= i64::MAX,
        decreases previews@.len() - k,
    {
        proof {
            assert(pending_sum(previews@, k + 1) == pending_sum(previews@, k as int) + previews@[k as int].pending_count);
        }
        total = total + previews[k].pending_count;
        k = k + 1;
    }
    total
}

// ── Files ──

/// `name` joined onto the directory `base` with one `/` between them, as
/// `Path::join` joins a relative name.
pub open spec fn joined_path(base: Seq<char>, name: Seq<char>) -> Seq<char> {
    if base.len() == 0 || base.last() == '/' {
        base + name
    } else {
        base + seq!['/'] + name
    }
}

/// Joins a relative name onto a directory.
pub fn join_path(base: &str, name: &str) -> (r: String)
    ensures
        r@ == joined_path(base@, name@),
{
    let mut r = to_owned_string(base);
    let n = base.unicode_len();
    if n > 0 && base.get_char(n - 1) != '/' {
        push_char(&mut r, '/');
    }
    append_str(&mut r, name);
    r
}

/// The data directory, `.flo` in the home directory.
pub fn data_dir(home: &str) -> (r: String)
    ensures
        r@ == joined_path(home@, ".flo"@),
{
    join_path(home, ".flo")
}

/// The file that holds the current frame's id.
pub fn cursor_path(home: &str) -> (r: String)
    ensures
        r@ == joined_path(joined_path(home@, ".flo"@), "cursor"@),
{
    let d = data_dir(home);
    join_path(d.as_str(), "cursor")
}

/// The file that holds the server's process id.
pub fn pid_path(home: &str) -> (r: String)
    ensures
        r@ == joined_path(joined_path(home@, ".flo"@), "server.pid"@),
{
    let d = data_dir(home);
    join_path(d.as_str(), "server.pid")
}

/// The database file.
pub fn database_path(home: &str) -> (r: String)
    ensures
        r@ == joined_path(joined_path(home@, ".flo"@), "flo.db"@),
{
    let d = data_dir(home);
    join_path(d.as_str(), "flo.db")
}

} // verus!
