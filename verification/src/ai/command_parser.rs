//! Finding an `orca ...` command in a model's answer.

use vstd::prelude::*;
use vstd::string::*;

use crate::text::{
    chars_of, find, find_char, find_char_from, find_chars_from, lemma_find_char_from,
    lemma_find_from_in_bounds, lines, matches_at, next_line, owned, starts_with, string_of, strip_cr,
    sub_vec, trim, trim_bounds, trim_char_bounds, trim_end_char, trim_start_char,
};

verus! {

/// A line stripped for command detection: trimmed, then any run of
/// backticks removed from both ends.
pub open spec fn bare_line(line: Seq<char>) -> Seq<char> {
    trim_end_char(trim_start_char(trim(line), '`'), '`')
}

/// The command a whole line holds, if the stripped line starts with `orca `.
pub open spec fn whole_line_command(line: Seq<char>) -> Option<Seq<char>> {
    if starts_with(bare_line(line), "orca "@) {
        Some(bare_line(line))
    } else {
        None
    }
}

/// The command a line holds: a whole-line command, or else the text between
/// the first "`orca " and the next backtick.
pub open spec fn line_command(line: Seq<char>) -> Option<Seq<char>> {
    match whole_line_command(line) {
        Some(c) => Some(c),
        None => match find(line, "`orca "@) {
            Some(start) => {
                let rest = line.skip(start + 1);
                match find_char_from(rest, '`', 0) {
                    Some(end) => Some(rest.take(end)),
                    None => None,
                }
            },
            None => None,
        },
    }
}

/// The command of the first line of `ls` that holds one, by `f`.
pub open spec fn first_command(ls: Seq<Seq<char>>, inline: bool) -> Option<Seq<char>>
    decreases ls.len(),
{
    if ls.len() == 0 {
        None
    } else {
        let here = if inline { line_command(ls[0]) } else { whole_line_command(ls[0]) };
        match here {
            Some(c) => Some(c),
            None => first_command(ls.skip(1), inline),
        }
    }
}

/// An optional string as its character view.
pub open spec fn opt_view(o: Option<String>) -> Option<Seq<char>> {
    match o {
        Some(s) => Some(s@),
        None => None,
    }
}

/// The whole-line command of `cs[lo..hi]`, when `inline` also the inline one.
fn command_of_line(cs: &Vec<char>, lo: usize, hi: usize, inline: bool) -> (res: Option<String>)
    requires
        lo <= hi <= cs.len(),
    ensures
        opt_view(res) == (if inline {
            line_command(cs@.subrange(lo as int, hi as int))
        } else {
            whole_line_command(cs@.subrange(lo as int, hi as int))
        }),
{
    let line = sub_vec(cs, lo, hi);
    let (tlo, thi) = trim_bounds(&line);
    let (blo, bhi) = trim_char_bounds(&line, tlo, thi, '`');
    let prefix = chars_of("orca ");
    let bare = sub_vec(&line, blo, bhi);
    assert(bare@ == bare_line(line@));
    if matches_at(&bare, &prefix, 0) {
        return Some(string_of(&bare, 0, bare.len()));
    }
    if !inline {
        return None;
    }
    let opener = chars_of("`orca ");
    proof {
        reveal_strlit("`orca ");
    }
    match find_chars_from(&line, &opener, 0) {
        Some(start) => {
            proof {
                lemma_find_from_in_bounds(line@, opener@, 0);
            }
            let rest = sub_vec(&line, start + 1, line.len());
            assert(rest@ =~= line@.skip(start + 1));
            match find_char(&rest, '`', 0) {
                Some(end) => {
                    proof {
                        lemma_find_char_from(rest@, '`', 0);
                    }
                    let cmd = string_of(&rest, 0, end);
                    assert(cmd@ =~= rest@.take(end as int));
                    Some(cmd)
                },
                None => None,
            }
        },
        None => None,
    }
}

/// The first line's command in `content`, and `content` itself.
fn find_command(content: &str, inline: bool) -> (res: (Option<String>, String))
    ensures
        res.1@ == content@,
        opt_view(res.0) == first_command(lines(content@), inline),
{
    let cs = chars_of(content);
    let mut start: usize = 0;
    assert(cs@.skip(0) =~= cs@);
    while start < cs.len()
        invariant
            cs@ == content@,
            start <= cs.len(),
            first_command(lines(cs@), inline) == first_command(lines(cs@.skip(start as int)), inline),
        decreases cs.len() - start,
    {
        let (hi, next, ended) = next_line(&cs, start);
        let ghost rest_lines = lines(cs@.skip(next as int));
        let ghost here = if ended {
            strip_cr(cs@.subrange(start as int, hi as int))
        } else {
            cs@.subrange(start as int, hi as int)
        };
        let line_hi = if ended && hi > start && cs[hi - 1] == '\r' {
            hi - 1
        } else {
            hi
        };
        assert(cs@.subrange(start as int, line_hi as int) =~= here);
        assert((seq![here] + rest_lines)[0] == here);
        assert((seq![here] + rest_lines).skip(1) =~= rest_lines);
        if let Some(cmd) = command_of_line(&cs, start, line_hi, inline) {
            return (Some(cmd), owned(content));
        }
        start = next;
    }
    assert(cs@.skip(start as int) =~= Seq::<char>::empty());
    (None, owned(content))
}

/// An `orca ...` command in a model's answer, and the answer unchanged: the
/// first line that is itself a command (possibly backtick-wrapped), or else
/// holds one inline as "`orca ...`".
pub fn extract_command(content: &str) -> (res: (Option<String>, String))
    ensures
        res.1@ == content@,
        opt_view(res.0) == first_command(lines(content@), true),
{
    find_command(content, true)
}

/// An `orca ...` command in a model's answer, and the answer unchanged: the
/// first line that is itself a command, possibly backtick-wrapped. This is
/// the stricter reading the conversation engine uses.
pub fn extract_line_command(content: &str) -> (res: (Option<String>, String))
    ensures
        res.1@ == content@,
        opt_view(res.0) == first_command(lines(content@), false),
{
    find_command(content, false)
}

/// A line that, once trimmed of whitespace and then of backticks at both
/// ends, starts with `orca ` gives that trimmed text as the command, when no
/// earlier line gave one: indentation and backtick fences do not hide it.
pub proof fn law_orca_lines_are_commands(ls: Seq<Seq<char>>, k: int, inline: bool)
    requires
        0 <= k < ls.len(),
        first_command(ls.take(k), inline) is None,
        starts_with(trim_end_char(trim_start_char(trim(ls[k]), '`'), '`'), "orca "@),
    ensures
        first_command(ls, inline) == Some(trim_end_char(trim_start_char(trim(ls[k]), '`'), '`')),
    decreases k,
{
    if k > 0 {
        let pre = ls.take(k);
        assert(pre[0] == ls[0]);
        assert(pre.skip(1) =~= ls.skip(1).take(k - 1));
        assert(ls.skip(1)[k - 1] == ls[k]);
        law_orca_lines_are_commands(ls.skip(1), k - 1, inline);
    }
}

} // verus!
