//! Character-level helpers: lexicographic order of text (as SQLite's
//! binary collation orders it), ASCII case folding, and the wrappers for
//! the few std string operations that vstd gives no specification.
use vstd::prelude::*;

verus! {

/// Text order by code point, shortest-prefix first: the order in which
/// SQLite's BINARY collation sorts UTF-8 text.
pub open spec fn lex_le(a: Seq<char>, b: Seq<char>) -> bool
    decreases a.len(),
{
    if a.len() == 0 {
        true
    } else if b.len() == 0 {
        false
    } else if a[0] != b[0] {
        (a[0] as int) < (b[0] as int)
    } else {
        lex_le(a.drop_first(), b.drop_first())
    }
}

/// `lex_le` is total.
pub proof fn lemma_lex_total(a: Seq<char>, b: Seq<char>)
    ensures
        lex_le(a, b) || lex_le(b, a),
    decreases a.len(),
{
    if a.len() > 0 && b.len() > 0 {
        if a[0] == b[0] {
            lemma_lex_total(a.drop_first(), b.drop_first());
        } else {
            assert((a[0] as int) != (b[0] as int));
        }
    }
}

/// `lex_le` is transitive.
pub proof fn lemma_lex_trans(a: Seq<char>, b: Seq<char>, c: Seq<char>)
    requires
        lex_le(a, b),
        lex_le(b, c),
    ensures
        lex_le(a, c),
    decreases a.len(),
{
    if a.len() > 0 && b.len() > 0 && c.len() > 0 && a[0] == b[0] && b[0] == c[0] {
        lemma_lex_trans(a.drop_first(), b.drop_first(), c.drop_first());
    }
}

/// `lex_le` is antisymmetric.
pub proof fn lemma_lex_antisym(a: Seq<char>, b: Seq<char>)
    requires
        lex_le(a, b),
        lex_le(b, a),
    ensures
        a == b,
    decreases a.len(),
{
    if a.len() > 0 && b.len() > 0 && a[0] == b[0] {
        lemma_lex_antisym(a.drop_first(), b.drop_first());
        assert(a =~= seq![a[0]] + a.drop_first());
        assert(b =~= seq![b[0]] + b.drop_first());
    } else if a.len() == 0 && b.len() == 0 {
        assert(a =~= b);
    }
}

/// `lex_le` on suffixes starting at `i`, stated index-wise.
proof fn lemma_lex_skip(a: Seq<char>, b: Seq<char>, i: int)
    requires
        0 <= i <= a.len(),
        i <= b.len(),
        forall|j: int| 0 <= j < i ==> a[j] == b[j],
    ensures
        lex_le(a, b) == lex_le(a.skip(i), b.skip(i)),
    decreases i,
{
    if i > 0 {
        lemma_lex_skip(a.drop_first(), b.drop_first(), i - 1);
        assert(a.drop_first().skip(i - 1) =~= a.skip(i));
        assert(b.drop_first().skip(i - 1) =~= b.skip(i));
    } else {
        assert(a.skip(0) =~= a);
        assert(b.skip(0) =~= b);
    }
}

/// Whether `a` sorts before or equal to `b`.
pub fn text_le(a: &str, b: &str) -> (r: bool)
    ensures
        r == lex_le(a@, b@),
{
    let la = a.unicode_len();
    let lb = b.unicode_len();
    let mut i: usize = 0;
    while i < la && i < lb
        invariant
            la == a@.len(),
            lb == b@.len(),
            i <= la,
            i <= lb,
            forall|j: int| 0 <= j < i ==> a@[j] == b@[j],
        decreases la - i,
    {
        let ca = a.get_char(i);
        let cb = b.get_char(i);
        if ca != cb {
            proof {
                lemma_lex_skip(a@, b@, i as int);
                assert(a@.skip(i as int)[0] == ca);
                assert(b@.skip(i as int)[0] == cb);
            }
            return (ca as u32) < (cb as u32);
        }
        i = i + 1;
    }
    proof {
        lemma_lex_skip(a@, b@, i as int);
    }
    i == la
}

/// Whether two texts are equal.
pub fn text_eq(a: &str, b: &str) -> (r: bool)
    ensures
        r == (a@ == b@),
{
    let la = a.unicode_len();
    let lb = b.unicode_len();
    if la != lb {
        return false;
    }
    let mut i: usize = 0;
    while i < la
        invariant
            la == a@.len(),
            lb == b@.len(),
            la == lb,
            i <= la,
            forall|j: int| 0 <= j < i ==> a@[j] == b@[j],
        decreases la - i,
    {
        if a.get_char(i) != b.get_char(i) {
            return false;
        }
        i = i + 1;
    }
    assert(a@ =~= b@);
    true
}

/// Whether a text begins with a prefix.
pub fn has_prefix(s: &str, p: &str) -> (r: bool)
    ensures
        r == (p@.len() <= s@.len() && s@.take(p@.len() as int) == p@),
{
    let ls = s.unicode_len();
    let lp = p.unicode_len();
    if lp > ls {
        return false;
    }
    let mut i: usize = 0;
    while i < lp
        invariant
            ls == s@.len(),
            lp == p@.len(),
            lp <= ls,
            i <= lp,
            forall|j: int| 0 <= j < i ==> s@[j] == p@[j],
        decreases lp - i,
    {
        if s.get_char(i) != p.get_char(i) {
            assert(s@.take(lp as int)[i as int] != p@[i as int]);
            return false;
        }
        i = i + 1;
    }
    assert(s@.take(lp as int) =~= p@);
    true
}

/// An owned copy of a text.
pub fn to_owned_string(s: &str) -> (r: String)
    ensures
        r@ == s@,
{
    String::from_str(s)
}

/// Appends one character to a string.
#[verifier::external_body]
pub(crate) fn push_char(s: &mut String, c: char)
    ensures
        final(s)@ == old(s)@.push(c),
{
    s.push(c);
}

/// Whether a character is white space (Unicode `White_Space`, the set
/// `char::is_whitespace` tests).
pub open spec fn is_ws(c: char) -> bool {
    ||| ('\u{9}' <= c <= '\u{d}')
    ||| c == ' '
    ||| c == '\u{85}'
    ||| c == '\u{a0}'
    ||| c == '\u{1680}'
    ||| ('\u{2000}' <= c <= '\u{200a}')
    ||| c == '\u{2028}'
    ||| c == '\u{2029}'
    ||| c == '\u{202f}'
    ||| c == '\u{205f}'
    ||| c == '\u{3000}'
}

/// Whether a character is white space.
pub fn is_whitespace(c: char) -> (r: bool)
    ensures
        r == is_ws(c),
{
    ('\u{9}' <= c && c <= '\u{d}') || c == ' ' || c == '\u{85}' || c == '\u{a0}' || c == '\u{1680}'
        || ('\u{2000}' <= c && c <= '\u{200a}') || c == '\u{2028}' || c == '\u{2029}' || c == '\u{202f}'
        || c == '\u{205f}' || c == '\u{3000}'
}

/// `s` without its trailing white space.
pub open spec fn trim_end(s: Seq<char>) -> Seq<char>
    decreases s.len(),
{
    if s.len() > 0 && is_ws(s.last()) { trim_end(s.drop_last()) } else { s }
}

/// `s` without its leading white space.
pub open spec fn trim_start(s: Seq<char>) -> Seq<char>
    decreases s.len(),
{
    if s.len() > 0 && is_ws(s[0]) { trim_start(s.drop_first()) } else { s }
}

/// `s` without white space at either end (`str::trim`).
pub open spec fn trim(s: Seq<char>) -> Seq<char> {
    trim_start(trim_end(s))
}

proof fn lemma_trim_end_take(s: Seq<char>, j: int)
    requires
        0 <= j <= s.len(),
        forall|k: int| j <= k < s.len() ==> is_ws(#[trigger] s[k]),
    ensures
        trim_end(s) == trim_end(s.take(j)),
    decreases s.len() - j,
{
    if j < s.len() {
        assert(s.drop_last() =~= s.take(s.len() - 1));
        lemma_trim_end_take(s.drop_last(), j);
        assert(s.drop_last().take(j) =~= s.take(j));
    } else {
        assert(s.take(j) =~= s);
    }
}

proof fn lemma_trim_start_skip(s: Seq<char>, i: int)
    requires
        0 <= i <= s.len(),
        forall|k: int| 0 <= k < i ==> is_ws(#[trigger] s[k]),
    ensures
        trim_start(s) == trim_start(s.skip(i)),
    decreases i,
{
    if i > 0 {
        assert(is_ws(s[0]));
        lemma_trim_start_skip(s.drop_first(), i - 1);
        assert(s.drop_first().skip(i - 1) =~= s.skip(i));
    } else {
        assert(s.skip(0) =~= s);
    }
}

/// An owned copy of a text without white space at either end.
pub fn trimmed(s: &str) -> (r: String)
    ensures
        r@ == trim(s@),
{
    let cs = chars_of(s);
    let n = cs.len();
    let mut j: usize = n;
    while j > 0 && is_whitespace(cs[j - 1])
        invariant
            cs@ == s@,
            n == cs@.len(),
            j <= n,
            forall|k: int| j <= k < n ==> is_ws(#[trigger] cs@[k]),
        decreases j,
    {
        j = j - 1;
    }
    let mut i: usize = 0;
    while i < j && is_whitespace(cs[i])
        invariant
            cs@ == s@,
            n == cs@.len(),
            i <= j <= n,
            forall|k: int| 0 <= k < i ==> is_ws(#[trigger] cs@[k]),
        decreases j - i,
    {
        i = i + 1;
    }
    proof {
        let t = cs@.take(j as int);
        lemma_trim_end_take(cs@, j as int);
        if j > 0 {
            assert(t.drop_last() =~= cs@.take(j - 1));
        }
        assert(trim_end(t) == t);
        assert forall|k: int| 0 <= k < i implies is_ws(#[trigger] t[k]) by {
            assert(t[k] == cs@[k]);
        }
        lemma_trim_start_skip(t, i as int);
        let u = t.skip(i as int);
        if i < j {
            assert(u[0] == cs@[i as int]);
        }
        assert(trim_start(u) == u);
        assert(u =~= s@.subrange(i as int, j as int));
    }
    to_owned_string(s.substring_char(i, j))
}

/// The text without white space at either end, or none when nothing else
/// is left.
pub fn trimmed_nonblank(s: &str) -> (r: Option<String>)
    ensures
        trim(s@).len() == 0 ==> r is None,
        trim(s@).len() > 0 ==> (r matches Some(t) && t@ == trim(s@)),
{
    let t = trimmed(s);
    if t.as_str().is_empty() {
        None
    } else {
        Some(t)
    }
}

/// Appends a text to a string.
pub fn append_str(s: &mut String, t: &str)
    ensures
        final(s)@ == old(s)@ + t@,
{
    let cs = chars_of(t);
    let mut k: usize = 0;
    while k < cs.len()
        invariant
            cs@ == t@,
            k <= cs@.len(),
            s@ == old(s)@ + cs@.take(k as int),
        decreases cs@.len() - k,
    {
        push_char(s, cs[k]);
        proof {
            assert(cs@.take(k + 1) =~= cs@.take(k as int).push(cs@[k as int]));
        }
        k = k + 1;
    }
    proof {
        assert(cs@.take(cs@.len() as int) =~= cs@);
    }
}

/// The number of bytes UTF-8 takes for a character.
pub open spec fn utf8_len(c: char) -> nat {
    if (c as int) < 0x80 {
        1
    } else if (c as int) < 0x800 {
        2
    } else if (c as int) < 0x10000 {
        3
    } else {
        4
    }
}

/// The number of bytes UTF-8 takes for a text.
pub open spec fn utf8_size(s: Seq<char>) -> nat
    decreases s.len(),
{
    if s.len() == 0 {
        0
    } else {
        utf8_size(s.drop_last()) + utf8_len(s.last())
    }
}

/// The characters of a text, in order (`str::chars` collected). A vector
/// never holds more than `isize::MAX` bytes, so its length is below
/// `usize::MAX`; a `str` is UTF-8 and holds at most `isize::MAX` bytes.
#[verifier::external_body]
pub(crate) fn chars_of(s: &str) -> (r: Vec<char>)
    ensures
        r@ == s@,
        r@.len() < usize::MAX,
        utf8_size(r@) <= isize::MAX,
{
    s.chars().collect()
}

/// A character with ASCII upper case letters folded to lower case, as a
/// code point: the only case folding SQLite's LIKE performs.
pub open spec fn fold(c: char) -> int {
    if 'A' <= c <= 'Z' { c as int + 32 } else { c as int }
}

/// A LIKE pattern character matching a text character: `_` matches any
/// character, other characters match ignoring ASCII case.
pub open spec fn like_char(p: char, t: char) -> bool {
    p == '_' || fold(p) == fold(t)
}

/// The pattern from `i` matches the text from `j`, with SQLite's LIKE
/// semantics: `%` matches any run of characters, `_` any one character,
/// other characters themselves ignoring ASCII case; no escape character.
pub open spec fn like_from(p: Seq<char>, t: Seq<char>, i: int, j: int) -> bool
    decreases p.len() - i, t.len() - j,
{
    if i >= p.len() || i < 0 || j < 0 {
        j == t.len()
    } else if p[i] == '%' {
        like_from(p, t, i + 1, j) || (j < t.len() && like_from(p, t, i, j + 1))
    } else {
        j < t.len() && like_char(p[i], t[j]) && like_from(p, t, i + 1, j + 1)
    }
}

/// The whole text matches the whole pattern.
pub open spec fn like(p: Seq<char>, t: Seq<char>) -> bool {
    like_from(p, t, 0, 0)
}

fn fold_exec(c: char) -> (r: u32)
    ensures
        r as int == fold(c),
{
    if 'A' <= c && c <= 'Z' { (c as u32) + 32 } else { c as u32 }
}

/// Whether the text matches the LIKE pattern.
pub fn like_match(p: &Vec<char>, t: &Vec<char>) -> (r: bool)
    requires
        t@.len() < usize::MAX,
    ensures
        r == like(p@, t@),
{
    let m = p.len();
    let n = t.len();
    // `next` holds the row for pattern index i + 1, over text indices 0..=n
    let mut next: Vec<bool> = Vec::new();
    let mut j: usize = 0;
    while j <= n
        invariant
            n < usize::MAX,
            n == t@.len(),
            m == p@.len(),
            j <= n + 1,
            next@.len() == j,
            forall|k: int| 0 <= k < j ==> next@[k] == like_from(p@, t@, m as int, k),
        decreases n + 1 - j,
    {
        next.push(j == n);
        j = j + 1;
    }
    let mut i: usize = m;
    while i > 0
        invariant
            n < usize::MAX,
            n == t@.len(),
            m == p@.len(),
            i <= m,
            next@.len() == n + 1,
            forall|k: int| 0 <= k <= n ==> next@[k] == like_from(p@, t@, i as int, k),
        decreases i,
    {
        let pi = i - 1;
        let pc = p[pi];
        let mut cur: Vec<bool> = Vec::new();
        let mut k: usize = 0;
        while k <= n
            invariant
                n < usize::MAX,
                k <= n + 1,
                cur@.len() == k,
            decreases n + 1 - k,
        {
            cur.push(false);
            k = k + 1;
        }
        let mut jj: usize = n + 1;
        while jj > 0
            invariant
                n < usize::MAX,
                n == t@.len(),
                m == p@.len(),
                pi < m,
                pc == p@[pi as int],
                jj <= n + 1,
                cur@.len() == n + 1,
                next@.len() == n + 1,
                forall|k: int| 0 <= k <= n ==> next@[k] == like_from(p@, t@, pi + 1, k),
                forall|k: int| jj <= k <= n ==> cur@[k] == like_from(p@, t@, pi as int, k),
            decreases jj,
        {
            let j = jj - 1;
            let v = if pc == '%' {
                next[j] || (j < n && cur[j + 1])
            } else if j < n {
                (pc == '_' || fold_exec(pc) == fold_exec(t[j])) && next[j + 1]
            } else {
                false
            };
            cur.set(j, v);
            jj = j;
        }
        next = cur;
        i = pi;
    }
    next[0]
}

} // verus!
