//! A one-line text field with a cursor, as the terminal interface edits
//! titles, filters and searches with it.
use vstd::prelude::*;
use crate::text::{chars_of, push_char, to_owned_string, utf8_len, utf8_size, is_ws, is_whitespace, trim_end};

verus! {

/// The index of the last white space character of `s`, if any.
pub open spec fn last_ws(s: Seq<char>) -> Option<int>
    decreases s.len(),
{
    if s.len() == 0 {
        None
    } else if is_ws(s.last()) {
        Some(s.len() - 1)
    } else {
        last_ws(s.drop_last())
    }
}

/// What is kept before the cursor when the word before it is deleted: the
/// text up to and including the last white space that precedes the word.
pub open spec fn before_word(s: Seq<char>) -> Seq<char> {
    let t = trim_end(s);
    match last_ws(t) {
        Some(i) => t.take(i + 1),
        None => Seq::empty(),
    }
}

/// The text and cursor of a field.
pub struct TextInputV {
    pub content: Seq<char>,
    pub cursor: nat,
}

/// A line of text being edited and the cursor's position in characters.
pub struct TextInput {
    content: String,
    cursor: usize,
}

impl View for TextInput {
    type V = TextInputV;

    closed spec fn view(&self) -> TextInputV {
        TextInputV { content: self.content@, cursor: self.cursor as nat }
    }
}

impl TextInput {
    /// The cursor stands within the text or just after it.
    pub closed spec fn wf(&self) -> bool {
        self.cursor <= self.content@.len()
    }

    /// A well-formed field has its cursor within the text or just after
    /// it.
    pub proof fn lemma_wf(&self)
        requires
            self.wf(),
        ensures
            self@.cursor <= self@.content.len(),
    {
    }

    /// An empty field.
    pub fn empty() -> (r: TextInput)
        ensures
            r.wf(),
            r@.content == Seq::<char>::empty(),
            r@.cursor == 0,
    {
        TextInput { content: String::new(), cursor: 0 }
    }

    /// A field holding `s`, with the cursor at its end.
    pub fn new(s: String) -> (r: TextInput)
        ensures
            r.wf(),
            r@.content == s@,
            r@.cursor == s@.len(),
    {
        let cursor = s.as_str().unicode_len();
        TextInput { content: s, cursor }
    }

    /// The byte offset of the cursor in the UTF-8 text.
    pub fn byte_pos(&self) -> (r: usize)
        requires
            self.wf(),
        ensures
            r == utf8_size(self@.content.take(self@.cursor as int)),
    {
        let cs = chars_of(self.content.as_str());
        let mut total: usize = 0;
        let mut i: usize = 0;
        while i < self.cursor
            invariant
                cs@ == self.content@,
                self.cursor <= cs@.len(),
                i <= self.cursor,
                total == utf8_size(cs@.take(i as int)),
                utf8_size(cs@) <= isize::MAX,
            decreases self.cursor - i,
        {
            let c = cs[i];
            proof {
                assert(cs@.take(i + 1).drop_last() =~= cs@.take(i as int));
                assert(cs@.take(i + 1).last() == c);
                lemma_utf8_size_prefix(cs@, i + 1);
            }
            let n: usize = utf8_width(c);
            assert(n == utf8_len(c));
            assert(utf8_size(cs@.take(i + 1)) == utf8_size(cs@.take(i as int)) + utf8_len(c));
            total = total + n;
            i = i + 1;
        }
        total
    }

    /// The number of characters.
    pub fn char_count(&self) -> (r: usize)
        ensures
            r == self@.content.len(),
    {
        self.content.as_str().unicode_len()
    }

    /// Inserts `c` at the cursor and moves the cursor past it.
    pub fn insert(&mut self, c: char)
        requires
            old(self).wf(),
        ensures
            final(self).wf(),
            final(self)@.content == old(self)@.content.insert(old(self)@.cursor as int, c),
            final(self)@.cursor == old(self)@.cursor + 1,
    {
        let n = self.content.as_str().unicode_len();
        let cs = chars_of(self.content.as_str());
        assert(n < usize::MAX);
        let mut s = to_owned_string(self.content.as_str().substring_char(0, self.cursor));
        push_char(&mut s, c);
        s.append(self.content.as_str().substring_char(self.cursor, n));
        let ghost old_c = self.content@;
        assert(s@ =~= old_c.insert(self.cursor as int, c));
        self.content = s;
        self.cursor = self.cursor + 1;
    }

    /// Deletes the character before the cursor, if any.
    pub fn backspace(&mut self)
        requires
            old(self).wf(),
        ensures
            final(self).wf(),
            old(self)@.cursor > 0 ==> final(self)@.content == old(self)@.content.remove(old(self)@.cursor - 1)
                && final(self)@.cursor == old(self)@.cursor - 1,
            old(self)@.cursor == 0 ==> final(self)@ == old(self)@,
    {
        if self.cursor > 0 {
            self.cursor = self.cursor - 1;
            self.remove_at_cursor();
        }
    }

    fn remove_at_cursor(&mut self)
        requires
            old(self).cursor < old(self).content@.len(),
        ensures
            final(self).content@ == old(self).content@.remove(old(self).cursor as int),
            final(self).cursor == old(self).cursor,
    {
        let n = self.content.as_str().unicode_len();
        let mut s = to_owned_string(self.content.as_str().substring_char(0, self.cursor));
        s.append(self.content.as_str().substring_char(self.cursor + 1, n));
        let ghost old_c = self.content@;
        assert(s@ =~= old_c.remove(self.cursor as int));
        self.content = s;
    }

    /// Deletes the character under the cursor, if any.
    pub fn delete(&mut self)
        requires
            old(self).wf(),
        ensures
            final(self).wf(),
            old(self)@.cursor < old(self)@.content.len() ==> final(self)@.content == old(self)@.content.remove(old(self)@.cursor as int),
            old(self)@.cursor >= old(self)@.content.len() ==> final(self)@.content == old(self)@.content,
            final(self)@.cursor == old(self)@.cursor,
    {
        if self.cursor < self.content.as_str().unicode_len() {
            self.remove_at_cursor();
        }
    }

    /// Moves the cursor one character left, unless at the start.
    pub fn move_left(&mut self)
        requires
            old(self).wf(),
        ensures
            final(self).wf(),
            final(self)@.content == old(self)@.content,
            final(self)@.cursor == if old(self)@.cursor > 0 { old(self)@.cursor - 1 } else { 0 },
    {
        self.cursor = if self.cursor > 0 { self.cursor - 1 } else { 0 };
    }

    /// Moves the cursor one character right, unless at the end.
    pub fn move_right(&mut self)
        requires
            old(self).wf(),
        ensures
            final(self).wf(),
            final(self)@.content == old(self)@.content,
            final(self)@.cursor == if old(self)@.cursor < old(self)@.content.len() {
                old(self)@.cursor + 1
            } else {
                old(self)@.cursor
            },
    {
        if self.cursor < self.char_count() {
            self.cursor = self.cursor + 1;
        }
    }

    /// Moves the cursor to the start.
    pub fn home(&mut self)
        requires
            old(self).wf(),
        ensures
            final(self).wf(),
            final(self)@.content == old(self)@.content,
            final(self)@.cursor == 0,
    {
        self.cursor = 0;
    }

    /// Moves the cursor to the end.
    pub fn end(&mut self)
        requires
            old(self).wf(),
        ensures
            final(self).wf(),
            final(self)@.content == old(self)@.content,
            final(self)@.cursor == old(self)@.content.len(),
    {
        self.cursor = self.char_count();
    }

    /// Deletes the word before the cursor together with the white space
    /// between it and the cursor; the white space before the word stays,
    /// whatever its width in bytes.
    pub fn delete_word(&mut self)
        requires
            old(self).wf(),
        ensures
            final(self).wf(),
            old(self)@.cursor == 0 ==> final(self)@ == old(self)@,
            old(self)@.cursor > 0 ==> {
                let b = before_word(old(self)@.content.take(old(self)@.cursor as int));
                &&& final(self)@.content == b + old(self)@.content.skip(old(self)@.cursor as int)
                &&& final(self)@.cursor == b.len()
            },
    {
        if self.cursor == 0 {
            return;
        }
        let cs = chars_of(self.content.as_str());
        let ghost before = cs@.take(self.cursor as int);
        // trailing white space
        let mut t: usize = self.cursor;
        while t > 0 && is_whitespace(cs[t - 1])
            invariant
                cs@ == self.content@,
                self.cursor <= cs@.len(),
                t <= self.cursor,
                before == cs@.take(self.cursor as int),
                trim_end(cs@.take(t as int)) == trim_end(before),
            decreases t,
        {
            proof {
                assert(cs@.take(t as int).drop_last() =~= cs@.take(t - 1));
            }
            t = t - 1;
        }
        proof {
            if t > 0 {
                assert(cs@.take(t as int).last() == cs@[t - 1]);
            }
            assert(trim_end(cs@.take(t as int)) == cs@.take(t as int));
        }
        let ghost trimmed = cs@.take(t as int);
        // the last white space before that
        let mut w: usize = t;
        while w > 0 && !is_whitespace(cs[w - 1])
            invariant
                cs@ == self.content@,
                t <= cs@.len(),
                w <= t,
                trimmed == cs@.take(t as int),
                last_ws(cs@.take(w as int)) == last_ws(trimmed),
            decreases w,
        {
            proof {
                assert(cs@.take(w as int).drop_last() =~= cs@.take(w - 1));
            }
            w = w - 1;
        }
        proof {
            if w > 0 {
                assert(cs@.take(w as int).last() == cs@[w - 1]);
                assert(last_ws(cs@.take(w as int)) == Some(w - 1));
                assert(trimmed.take(w as int) =~= cs@.take(w as int));
            } else {
                assert(last_ws(cs@.take(0)) is None);
            }
        }
        let n = cs.len();
        let mut s = to_owned_string(self.content.as_str().substring_char(0, w));
        s.append(self.content.as_str().substring_char(self.cursor, n));
        let ghost old_c = self.content@;
        assert(s@ =~= before_word(before) + old_c.skip(self.cursor as int));
        self.content = s;
        self.cursor = w;
    }

    /// Deletes everything before the cursor.
    pub fn kill_to_start(&mut self)
        requires
            old(self).wf(),
        ensures
            final(self).wf(),
            final(self)@.content == old(self)@.content.skip(old(self)@.cursor as int),
            final(self)@.cursor == 0,
    {
        let n = self.content.as_str().unicode_len();
        self.content = to_owned_string(self.content.as_str().substring_char(self.cursor, n));
        self.cursor = 0;
    }

    /// Deletes everything from the cursor on.
    pub fn kill_to_end(&mut self)
        requires
            old(self).wf(),
        ensures
            final(self).wf(),
            final(self)@.content == old(self)@.content.take(old(self)@.cursor as int),
            final(self)@.cursor == old(self)@.cursor,
    {
        self.content = to_owned_string(self.content.as_str().substring_char(0, self.cursor));
    }

    /// The text.
    pub fn as_str(&self) -> (r: &str)
        ensures
            r@ == self@.content,
    {
        self.content.as_str()
    }

    /// The text, giving up the field.
    pub fn into_string(self) -> (r: String)
        ensures
            r@ == self@.content,
    {
        self.content
    }

    /// The cursor's position, in characters.
    pub fn cursor(&self) -> (r: usize)
        ensures
            r == self@.cursor,
    {
        self.cursor
    }

    /// The text before the cursor.
    pub fn before_cursor(&self) -> (r: &str)
        requires
            self.wf(),
        ensures
            r@ == self@.content.take(self@.cursor as int),
    {
        self.content.as_str().substring_char(0, self.cursor)
    }

    /// The character under the cursor, or nothing at the end.
    pub fn at_cursor(&self) -> (r: &str)
        requires
            self.wf(),
        ensures
            self@.cursor < self@.content.len() ==> r@ == seq![self@.content[self@.cursor as int]],
            self@.cursor >= self@.content.len() ==> r@ == Seq::<char>::empty(),
    {
        let n = self.content.as_str().unicode_len();
        if self.cursor < n {
            let r = self.content.as_str().substring_char(self.cursor, self.cursor + 1);
            assert(r@ =~= seq![self@.content[self@.cursor as int]]);
            r
        } else {
            self.content.as_str().substring_char(n, n)
        }
    }

    /// The text after the character under the cursor.
    pub fn after_cursor(&self) -> (r: &str)
        requires
            self.wf(),
        ensures
            self@.cursor < self@.content.len() ==> r@ == self@.content.skip((self@.cursor + 1) as int),
            self@.cursor >= self@.content.len() ==> r@ == Seq::<char>::empty(),
    {
        let n = self.content.as_str().unicode_len();
        if self.cursor < n {
            self.content.as_str().substring_char(self.cursor + 1, n)
        } else {
            self.content.as_str().substring_char(n, n)
        }
    }
}

/// The first character UTF-8 writes with two bytes.
pub const TWO_BYTE_START: char = '\u{80}';

/// The first character UTF-8 writes with three bytes.
pub const THREE_BYTE_START: char = '\u{800}';

/// The first character UTF-8 writes with four bytes.
pub const FOUR_BYTE_START: char = '\u{10000}';

/// The number of bytes UTF-8 takes for `c`.
pub fn utf8_width(c: char) -> (r: usize)
    ensures
        r == utf8_len(c),
{
    if c < TWO_BYTE_START {
        1
    } else if c < THREE_BYTE_START {
        2
    } else if c < FOUR_BYTE_START {
        3
    } else {
        4
    }
}

/// The number of bytes UTF-8 takes for a text (`str::len`).
pub fn utf8_byte_count(s: &str) -> (r: usize)
    ensures
        r == utf8_size(s@),
{
    let cs = chars_of(s);
    let mut total: usize = 0;
    let mut i: usize = 0;
    while i < cs.len()
        invariant
            cs@ == s@,
            i <= cs@.len(),
            total == utf8_size(cs@.take(i as int)),
            utf8_size(cs@) <= isize::MAX,
        decreases cs@.len() - i,
    {
        let c = cs[i];
        proof {
            assert(cs@.take(i + 1).drop_last() =~= cs@.take(i as int));
            assert(cs@.take(i + 1).last() == c);
            lemma_utf8_size_prefix(cs@, i + 1);
        }
        total = total + utf8_width(c);
        i = i + 1;
    }
    proof {
        assert(cs@.take(cs@.len() as int) =~= cs@);
    }
    total
}

proof fn lemma_utf8_size_prefix(s: Seq<char>, n: int)
    requires
        0 <= n <= s.len(),
    ensures
        utf8_size(s.take(n)) <= utf8_size(s),
    decreases s.len() - n,
{
    if n < s.len() {
        lemma_utf8_size_prefix(s, n + 1);
        assert(s.take(n + 1).drop_last() =~= s.take(n));
    } else {
        assert(s.take(n) =~= s);
    }
}

} // verus!
