//! The log lines a WebAssembly instance keeps, and what a log request gets.

use vstd::prelude::*;

use crate::text::{join, owned, push_str, views};

verus! {

/// How many log lines an instance keeps.
pub const MAX_LOG_LINES: usize = 1000;

/// The lines kept after appending `line`: the most recent 1000.
pub open spec fn kept_lines(logs: Seq<Seq<char>>, line: Seq<char>) -> Seq<Seq<char>> {
    let all = logs.push(line);
    if all.len() > MAX_LOG_LINES {
        all.skip(all.len() - MAX_LOG_LINES)
    } else {
        all
    }
}

/// Append `line` to an instance's logs, dropping the oldest beyond 1000.
pub fn append_log(logs: &mut Vec<String>, line: String)
    ensures
        views(final(logs)@) == kept_lines(views(old(logs)@), line@),
{
    let ghost lv = line@;
    logs.push(line);
    if logs.len() > MAX_LOG_LINES {
        let extra = logs.len() - MAX_LOG_LINES;
        let mut kept: Vec<String> = Vec::new();
        let mut i: usize = extra;
        while i < logs.len()
            invariant
                extra <= i <= logs.len(),
                views(kept@) == views(logs@).subrange(extra as int, i as int),
            decreases logs.len() - i,
        {
            let s = owned(logs[i].as_str());
            kept.push(s);
            assert(views(logs@).subrange(extra as int, i + 1) =~= views(logs@).subrange(extra as int, i as int).push(s@));
            i = i + 1;
        }
        let ghost all = views(logs@);
        *logs = kept;
        assert(all =~= views(old(logs)@).push(lv));
        assert(views(logs@) =~= kept_lines(views(old(logs)@), lv));
    } else {
        assert(views(logs@) =~= views(old(logs)@).push(lv));
    }
}

/// However many lines are appended, an instance keeps at most 1000, the
/// newest last, and they are the most recent ones in order.
pub proof fn law_logs_stay_bounded(logs: Seq<Seq<char>>, line: Seq<char>)
    ensures
        kept_lines(logs, line).len() <= MAX_LOG_LINES,
        kept_lines(logs, line).len() > 0,
        kept_lines(logs, line).last() == line,
        kept_lines(logs, line) == logs.push(line).skip(logs.push(line).len() - kept_lines(logs, line).len()),
{
    let all = logs.push(line);
    if all.len() <= MAX_LOG_LINES {
        assert(all.skip(0) =~= all);
    }
}

/// The last `tail` lines (all if fewer).
pub open spec fn last_lines(logs: Seq<Seq<char>>, tail: nat) -> Seq<Seq<char>> {
    if logs.len() > tail {
        logs.skip(logs.len() - tail)
    } else {
        logs
    }
}

/// What a log request gets: the last `tail` lines (100 unless asked),
/// each ending in a line end.
pub open spec fn log_text_spec(logs: Seq<Seq<char>>, tail: Option<u64>) -> Seq<char> {
    join(last_lines(logs, match tail { Some(t) => t as nat, None => 100 }), "\n"@) + "\n"@
}

/// What a log request gets.
pub fn log_text(logs: &Vec<String>, tail: Option<u64>) -> (res: String)
    ensures
        res@ == log_text_spec(views(logs@), tail),
{
    let t: u64 = match tail {
        Some(t) => t,
        None => 100,
    };
    let from: usize = if (logs.len() as u64) > t { logs.len() - (t as usize) } else { 0 };
    let mut last: Vec<String> = Vec::new();
    let mut i: usize = from;
    while i < logs.len()
        invariant
            from <= i <= logs.len(),
            views(last@) == views(logs@).subrange(from as int, i as int),
        decreases logs.len() - i,
    {
        let s = owned(logs[i].as_str());
        last.push(s);
        assert(views(logs@).subrange(from as int, i + 1) =~= views(logs@).subrange(from as int, i as int).push(s@));
        i = i + 1;
    }
    assert(views(last@) =~= last_lines(views(logs@), t as nat));
    let mut out = crate::text::join_first(&last, last.len(), "\n");
    assert(views(last@).take(last.len() as int) =~= views(last@));
    push_str(&mut out, "\n");
    out
}

} // verus!
