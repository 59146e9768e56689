use vstd::prelude::*;
use vstd::string::StringSliceAdditionalSpecFns;

use crate::ast::LmmlAst;
use crate::parsers::{parse_lmml_until_eof, program, ParseError};

verus! {

/// Unicode `White_Space`, the characters that `str::trim_start` removes.
pub open spec fn is_white_space(c: char) -> bool {
    let u = c as u32;
    (0x09 <= u <= 0x0d) || u == 0x20 || u == 0x85 || u == 0xa0 || u == 0x1680 || (0x2000 <= u <= 0x200a)
        || u == 0x2028 || u == 0x2029 || u == 0x202f || u == 0x205f || u == 0x3000
}

pub fn is_white_space_char(c: char) -> (r: bool)
    ensures
        r == is_white_space(c),
{
    let u = c as u32;
    (0x09 <= u && u <= 0x0d) || u == 0x20 || u == 0x85 || u == 0xa0 || u == 0x1680 || (0x2000 <= u && u
        <= 0x200a) || u == 0x2028 || u == 0x2029 || u == 0x202f || u == 0x205f || u == 0x3000
}

/// A comment line: its first character that is not white space is `;`.
pub open spec fn is_comment_line(l: Seq<char>) -> bool
    decreases l.len(),
{
    if l.len() == 0 {
        false
    } else if l[0] == ';' {
        true
    } else if is_white_space(l[0]) {
        is_comment_line(l.drop_first())
    } else {
        false
    }
}

/// The first position at or after `i` that holds a line feed, or the end.
pub open spec fn line_end(s: Seq<char>, i: int) -> int
    decreases s.len() - i,
{
    if 0 <= i < s.len() && s[i] != '\n' {
        line_end(s, i + 1)
    } else {
        i
    }
}

pub proof fn lemma_line_end(s: Seq<char>, i: int)
    requires
        0 <= i <= s.len(),
    ensures
        i <= line_end(s, i) <= s.len(),
        line_end(s, i) < s.len() ==> s[line_end(s, i)] == '\n',
        forall|k: int| i <= k < line_end(s, i) ==> s[k] != '\n',
    decreases s.len() - i,
{
    if i < s.len() && s[i] != '\n' {
        lemma_line_end(s, i + 1);
    }
}

/// A line without the carriage return that ended it.
pub open spec fn strip_cr(l: Seq<char>) -> Seq<char> {
    if l.len() > 0 && l.last() == '\r' {
        l.drop_last()
    } else {
        l
    }
}

/// The lines of `s` from position `i` on, as `str::lines` gives them: split at
/// line feeds, a carriage return before a line feed dropped, and no empty
/// line after a final line feed.
pub open spec fn lines_from(s: Seq<char>, i: int) -> Seq<Seq<char>>
    decreases s.len() - i,
    via lines_from_decreases
{
    if !(0 <= i < s.len()) {
        Seq::empty()
    } else {
        let e = line_end(s, i);
        if e >= s.len() {
            seq![s.subrange(i, s.len() as int)]
        } else {
            seq![strip_cr(s.subrange(i, e))] + lines_from(s, e + 1)
        }
    }
}

#[via_fn]
proof fn lines_from_decreases(s: Seq<char>, i: int) {
    if 0 <= i < s.len() {
        lemma_line_end(s, i);
    }
}

/// Lines joined with line feeds between them.
pub open spec fn join_lines(ls: Seq<Seq<char>>) -> Seq<char>
    decreases ls.len(),
{
    if ls.len() == 0 {
        Seq::empty()
    } else if ls.len() == 1 {
        ls[0]
    } else {
        join_lines(ls.drop_last()) + seq!['\n'] + ls.last()
    }
}

/// A line with its text removed when it is a comment.
pub open spec fn blank_comment(l: Seq<char>) -> Seq<char> {
    if is_comment_line(l) {
        Seq::empty()
    } else {
        l
    }
}

pub open spec fn without_comments(s: Seq<char>) -> Seq<char> {
    join_lines(lines_from(s, 0).map_values(|l: Seq<char>| blank_comment(l)))
}

fn chars_of(input: &str) -> (r: Vec<char>)
    ensures
        r@ == input@,
{
    let mut out: Vec<char> = Vec::new();
    for c in it: input.chars()
        invariant
            out@ == it.seq().take(it.index() as int),
    {
        out.push(c);
    }
    assert(out@ =~= input@);
    out
}

/// Relies on `String`'s `FromIterator<char>`: the characters in order.
#[verifier::external_body]
pub(crate) fn string_of(cs: Vec<char>) -> (r: String)
    ensures
        r@ == cs@,
{
    cs.into_iter().collect()
}

/// Whether `cs[start..end]` is a comment line.
fn comment_between(cs: &Vec<char>, start: usize, end: usize) -> (r: bool)
    requires
        start <= end <= cs@.len(),
    ensures
        r == is_comment_line(cs@.subrange(start as int, end as int)),
{
    let mut k = start;
    while k < end && is_white_space_char(cs[k]) && cs[k] != ';'
        invariant
            start <= k <= end,
            end <= cs@.len(),
            is_comment_line(cs@.subrange(k as int, end as int)) == is_comment_line(
                cs@.subrange(start as int, end as int),
            ),
        decreases end - k,
    {
        assert(cs@.subrange(k as int, end as int).drop_first() =~= cs@.subrange(k as int + 1, end as int));
        k = k + 1;
    }
    k < end && cs[k] == ';'
}

/// Blanks every line whose first character other than white space is `;`,
/// and joins the lines with line feeds.
pub fn remove_comments(input: &str) -> (r: String)
    ensures
        r@ == without_comments(input@),
{
    let cs = chars_of(input);
    let len = cs.len();
    let mut out: Vec<char> = Vec::new();
    let ghost done: Seq<Seq<char>> = Seq::empty();
    let mut pos: usize = 0;
    while pos < len
        invariant
            len == cs@.len(),
            pos <= len,
            pos == 0 <==> done.len() == 0,
            done + lines_from(cs@, pos as int) == lines_from(cs@, 0),
            out@ == join_lines(done.map_values(|l: Seq<char>| blank_comment(l))),
        decreases len - pos,
    {
        let mut e = pos;
        while e < len && cs[e] != '\n'
            invariant
                pos <= e <= len,
                len == cs@.len(),
                line_end(cs@, e as int) == line_end(cs@, pos as int),
            decreases len - e,
        {
            e = e + 1;
        }
        let stop = if e < len && e > pos && cs[e - 1] == '\r' {
            e - 1
        } else {
            e
        };
        let ghost line = cs@.subrange(pos as int, stop as int);
        assert(line == (if e < len { strip_cr(cs@.subrange(pos as int, e as int)) } else { cs@.subrange(pos as int, len as int) })) by {
            if e < len && e > pos && cs@[e - 1] == '\r' {
                assert(cs@.subrange(pos as int, e as int).drop_last() =~= line);
            }
        }
        let ghost next: int = if e < len { e + 1 } else { len as int };
        assert(lines_from(cs@, pos as int) =~= seq![line] + lines_from(cs@, next));
        let comment = comment_between(&cs, pos, stop);
        let ghost before = out@;
        if pos > 0 {
            out.push('\n');
        }
        if !comment {
            let mut k = pos;
            while k < stop
                invariant
                    pos <= k <= stop <= len,
                    len == cs@.len(),
                    out@ == (if pos > 0 { before + seq!['\n'] } else { before }) + cs@.subrange(pos as int, k as int),
                decreases stop - k,
            {
                out.push(cs[k]);
                k = k + 1;
                assert(cs@.subrange(pos as int, k as int) =~= cs@.subrange(pos as int, k - 1) .push(cs@[k - 1]));
            }
        }
        proof {
            let bl = done.map_values(|l: Seq<char>| blank_comment(l));
            let bl2 = done.push(line).map_values(|l: Seq<char>| blank_comment(l));
            assert(bl2.drop_last() =~= bl);
            assert(bl2.last() == blank_comment(line));
            if !comment {
                assert(out@ =~= (if pos > 0 { before + seq!['\n'] } else { before }) + line);
            } else {
                assert(out@ =~= (if pos > 0 { before + seq!['\n'] } else { before }) + blank_comment(line));
            }
            if pos == 0 {
                assert(before =~= Seq::<char>::empty());
                assert(out@ =~= bl2[0]);
            }
            assert(done.push(line) + lines_from(cs@, next) =~= done + (seq![line] + lines_from(cs@, next)));
            done = done.push(line);
        }
        pos = if e < len { e + 1 } else { len };
    }
    string_of(out)
}

/// Reads a whole program from text.
pub fn parse_lmml(input: &str) -> (r: Result<LmmlAst, ParseError>)
    ensures
        match program(input.spec_bytes()) {
            Ok(cs) => r matches Ok(a) && a@ == cs,
            Err(p) => r == Err::<LmmlAst, ParseError>(ParseError { offset: p as usize }),
        },
{
    parse_lmml_until_eof(input.as_bytes())
}

} // verus!
