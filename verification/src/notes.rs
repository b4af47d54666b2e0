//! Editing a task's notes in an outside editor: the file the editor is
//! given, and the notes read back from it, without the comment lines.
use vstd::prelude::*;
use crate::text::{chars_of, push_char, to_owned_string, append_str, trimmed, trim};

verus! {

/// The file handed to the editor: a comment line with the title, a comment
/// line explaining the comments, a blank line, then the notes.
pub open spec fn editor_text(title: Seq<char>, notes: Seq<char>) -> Seq<char> {
    seq!['#', ' '] + title + "\n# Lines starting with # are stripped on save.\n\n"@ + notes
}

/// The text of the file handed to the editor.
pub fn editor_file(title: &str, notes: &str) -> (r: String)
    ensures
        r@ == editor_text(title@, notes@),
{
    proof {
        reveal_strlit("# ");
    }
    let mut r = to_owned_string("# ");
    append_str(&mut r, title);
    append_str(&mut r, "\n# Lines starting with # are stripped on save.\n\n");
    append_str(&mut r, notes);
    r
}

/// The text between line feeds: one piece more than there are line feeds.
pub open spec fn pieces(s: Seq<char>) -> Seq<Seq<char>>
    decreases s.len(),
{
    if s.len() == 0 {
        seq![Seq::<char>::empty()]
    } else {
        let p = pieces(s.drop_last());
        if s.last() == '\n' {
            p.push(Seq::empty())
        } else {
            p.update(p.len() - 1, p.last().push(s.last()))
        }
    }
}

proof fn lemma_pieces_len(s: Seq<char>)
    ensures
        pieces(s).len() >= 1,
    decreases s.len(),
{
    if s.len() > 0 {
        lemma_pieces_len(s.drop_last());
    }
}

/// A line without the carriage return of a `\r\n` ending.
pub open spec fn strip_cr(l: Seq<char>) -> Seq<char> {
    if l.len() > 0 && l.last() == '\r' { l.drop_last() } else { l }
}

/// The lines a line feed has ended so far.
pub open spec fn ended_lines(s: Seq<char>) -> Seq<Seq<char>> {
    let p = pieces(s);
    p.take(p.len() - 1).map_values(|l: Seq<char>| strip_cr(l))
}

/// The lines of a text as `str::lines` gives them: split at line feeds, a
/// `\r` before a line feed dropped, and no empty line after a final line
/// feed.
pub open spec fn text_lines(s: Seq<char>) -> Seq<Seq<char>> {
    if s.len() > 0 && s.last() != '\n' {
        ended_lines(s).push(pieces(s).last())
    } else {
        ended_lines(s)
    }
}

/// A line that is kept: it does not start with `#`.
pub open spec fn kept_line(l: Seq<char>) -> bool {
    !(l.len() > 0 && l[0] == '#')
}

/// The test for kept lines.
pub open spec fn keeps() -> spec_fn(Seq<char>) -> bool {
    |l: Seq<char>| kept_line(l)
}

/// Lines joined with line feeds.
pub open spec fn joined_lines(ls: Seq<Seq<char>>) -> Seq<char>
    decreases ls.len(),
{
    if ls.len() == 0 {
        Seq::empty()
    } else if ls.len() == 1 {
        ls[0]
    } else {
        joined_lines(ls.drop_last()) + seq!['\n'] + ls.last()
    }
}

/// The notes read back from the editor: the lines that do not start with
/// `#`, joined with line feeds, without white space at either end.
pub open spec fn notes_from_text(raw: Seq<char>) -> Seq<char> {
    trim(joined_lines(text_lines(raw).filter(keeps())))
}

proof fn lemma_joined_push(ls: Seq<Seq<char>>, x: Seq<char>)
    ensures
        joined_lines(ls.push(x)) == if ls.len() == 0 { x } else { joined_lines(ls) + seq!['\n'] + x },
{
    assert(ls.push(x).drop_last() =~= ls);
    if ls.len() == 0 {
        assert(ls.push(x)[0] == x);
    }
}

fn append_chars(s: &mut String, cs: &Vec<char>)
    ensures
        final(s)@ == old(s)@ + cs@,
{
    let mut k: usize = 0;
    while k < cs.len()
        invariant
            k <= cs@.len(),
            s@ == old(s)@ + cs@.take(k as int),
        decreases cs@.len() - k,
    {
        push_char(s, cs[k]);
        proof {
            assert(cs@.take(k + 1) =~= cs@.take(k as int).push(cs@[k as int]));
        }
        k = k + 1;
    }
    proof {
        assert(cs@.take(cs@.len() as int) =~= cs@);
    }
}

/// The notes read back from the text the editor saved.
pub fn notes_from_editor(raw: &str) -> (r: String)
    ensures
        r@ == notes_from_text(raw@),
{
    let ghost keep = keeps();
    let cs = chars_of(raw);
    let mut out = String::new();
    let mut any = false;
    let mut cur: Vec<char> = Vec::new();
    let mut k: usize = 0;
    proof {
        assert(cs@.take(0) =~= Seq::<char>::empty());
        assert(ended_lines(cs@.take(0)) =~= Seq::<Seq<char>>::empty());
        assert(ended_lines(cs@.take(0)).filter(keep) =~= Seq::<Seq<char>>::empty()) by {
            reveal(Seq::filter);
        }
    }
    while k < cs.len()
        invariant
            cs@ == raw@,
            k <= cs@.len(),
            keep == keeps(),
            cur@ == pieces(cs@.take(k as int)).last(),
            out@ == joined_lines(ended_lines(cs@.take(k as int)).filter(keep)),
            any == (ended_lines(cs@.take(k as int)).filter(keep).len() > 0),
        decreases cs@.len() - k,
    {
        let c = cs[k];
        let ghost pre = cs@.take(k as int);
        let ghost post = cs@.take(k + 1);
        proof {
            assert(post.drop_last() =~= pre);
            assert(post.last() == c);
            lemma_pieces_len(pre);
        }
        if c == '\n' {
            let ghost line = strip_cr(cur@);
            let n = cur.len();
            if n > 0 && cur[n - 1] == '\r' {
                cur.pop();
            }
            proof {
                assert(cur@ == line);
                let p = pieces(pre);
                assert(pieces(post) == p.push(Seq::<char>::empty()));
                assert(pieces(post).take(pieces(post).len() - 1) =~= p);
                assert(p =~= p.take(p.len() - 1).push(p.last()));
                assert(ended_lines(post) =~= ended_lines(pre).push(line));
                ended_lines(pre).lemma_filter_push(line, keep);
            }
            let keep_it = !(cur.len() > 0 && cur[0] == '#');
            if keep_it {
                proof {
                    lemma_joined_push(ended_lines(pre).filter(keep), line);
                }
                if any {
                    push_char(&mut out, '\n');
                }
                append_chars(&mut out, &cur);
                any = true;
            }
            cur = Vec::new();
            proof {
                assert(pieces(post).last() =~= cur@);
            }
        } else {
            cur.push(c);
            proof {
                let p = pieces(pre);
                let p2 = pieces(post);
                assert(p2 == p.update(p.len() - 1, p.last().push(c)));
                assert(p2.take(p2.len() - 1) =~= p.take(p.len() - 1));
                assert(ended_lines(post) =~= ended_lines(pre));
                assert(p2.last() =~= cur@);
            }
        }
        k = k + 1;
    }
    proof {
        assert(cs@.take(cs@.len() as int) =~= cs@);
        lemma_pieces_len(cs@);
    }
    let n = cs.len();
    if n > 0 && cs[n - 1] != '\n' {
        let keep_it = !(cur.len() > 0 && cur[0] == '#');
        proof {
            ended_lines(cs@).lemma_filter_push(cur@, keep);
        }
        if keep_it {
            proof {
                lemma_joined_push(ended_lines(cs@).filter(keep), cur@);
            }
            if any {
                push_char(&mut out, '\n');
            }
            append_chars(&mut out, &cur);
        }
        proof {
            assert(text_lines(raw@) == ended_lines(cs@).push(cur@));
            assert(out@ == joined_lines(text_lines(raw@).filter(keep)));
        }
    } else {
        proof {
            assert(text_lines(raw@) == ended_lines(cs@));
        }
    }
    trimmed(out.as_str())
}

} // verus!
