//! String building blocks shared by the rest of the library.
//!
//! Every operation works on the character view of a string (`s@`). Rust's
//! `str` methods that these mirror (`find`, `replace`, `trim`, `lines`, ...)
//! speak of byte offsets, but the strings they return are the same ones the
//! character-level definitions here describe.

use vstd::prelude::*;
use vstd::string::*;

verus! {

// ---------------------------------------------------------------------------
// Specifications
// ---------------------------------------------------------------------------

/// `p` occurs in `s` starting at character `i`.
pub open spec fn occurs_at(s: Seq<char>, p: Seq<char>, i: int) -> bool {
    0 <= i && i + p.len() <= s.len() && s.subrange(i, i + p.len()) == p
}

/// `s` begins with `p`.
pub open spec fn starts_with(s: Seq<char>, p: Seq<char>) -> bool {
    occurs_at(s, p, 0)
}

/// `s` ends with `p`.
pub open spec fn ends_with(s: Seq<char>, p: Seq<char>) -> bool {
    p.len() <= s.len() && occurs_at(s, p, s.len() - p.len())
}

/// The first position at or after `i` where `p` occurs in `s`.
pub open spec fn find_from(s: Seq<char>, p: Seq<char>, i: int) -> Option<int>
    decreases s.len() + 1 - i,
{
    if i < 0 || i + p.len() > s.len() {
        None
    } else if occurs_at(s, p, i) {
        Some(i)
    } else {
        find_from(s, p, i + 1)
    }
}

/// The first position where `p` occurs in `s` (`str::find`).
pub open spec fn find(s: Seq<char>, p: Seq<char>) -> Option<int> {
    find_from(s, p, 0)
}

/// `p` occurs somewhere in `s` (`str::contains`).
pub open spec fn contains(s: Seq<char>, p: Seq<char>) -> bool {
    find(s, p) is Some
}

/// The first position at or after `i` where the character `c` occurs in `s`.
pub open spec fn find_char_from(s: Seq<char>, c: char, i: int) -> Option<int>
    decreases s.len() - i,
{
    if i < 0 || i >= s.len() {
        None
    } else if s[i] == c {
        Some(i)
    } else {
        find_char_from(s, c, i + 1)
    }
}

/// Every non-overlapping occurrence of the non-empty `from`, scanned left to
/// right, replaced by `to` (`str::replace`).
pub open spec fn replace(s: Seq<char>, from: Seq<char>, to: Seq<char>) -> Seq<char>
    recommends
        from.len() > 0,
    decreases s.len(),
{
    if s.len() == 0 || from.len() == 0 {
        s
    } else if starts_with(s, from) {
        to + replace(s.skip(from.len() as int), from, to)
    } else {
        seq![s[0]] + replace(s.skip(1), from, to)
    }
}

/// Unicode `White_Space`, which is what `char::is_whitespace` tests.
pub open spec fn is_whitespace(c: char) -> bool {
    ||| ('\u{9}' <= c && c <= '\u{d}')
    ||| c == ' '
    ||| c == '\u{85}'
    ||| c == '\u{a0}'
    ||| c == '\u{1680}'
    ||| ('\u{2000}' <= c && c <= '\u{200a}')
    ||| c == '\u{2028}'
    ||| c == '\u{2029}'
    ||| c == '\u{202f}'
    ||| c == '\u{205f}'
    ||| c == '\u{3000}'
}

/// `s` without its leading whitespace (`str::trim_start`).
pub open spec fn trim_start(s: Seq<char>) -> Seq<char>
    decreases s.len(),
{
    if s.len() > 0 && is_whitespace(s[0]) {
        trim_start(s.skip(1))
    } else {
        s
    }
}

/// `s` without its trailing whitespace (`str::trim_end`).
pub open spec fn trim_end(s: Seq<char>) -> Seq<char>
    decreases s.len(),
{
    if s.len() > 0 && is_whitespace(s.last()) {
        trim_end(s.drop_last())
    } else {
        s
    }
}

/// `s` without leading and trailing whitespace (`str::trim`).
pub open spec fn trim(s: Seq<char>) -> Seq<char> {
    trim_end(trim_start(s))
}

/// `s` without any leading run of `c` (`str::trim_start_matches(c)`).
pub open spec fn trim_start_char(s: Seq<char>, c: char) -> Seq<char>
    decreases s.len(),
{
    if s.len() > 0 && s[0] == c {
        trim_start_char(s.skip(1), c)
    } else {
        s
    }
}

/// `s` without any trailing run of `c` (`str::trim_end_matches(c)`).
pub open spec fn trim_end_char(s: Seq<char>, c: char) -> Seq<char>
    decreases s.len(),
{
    if s.len() > 0 && s.last() == c {
        trim_end_char(s.drop_last(), c)
    } else {
        s
    }
}


/// Where `find_char_from` lands: at or after `i`, inside `s`, on a `c`.
pub proof fn lemma_find_char_from(s: Seq<char>, c: char, i: int)
    ensures
        find_char_from(s, c, i) matches Some(k) ==> (i <= k < s.len() && s[k] == c && 0 <= k),
        find_char_from(s, c, i) is None && 0 <= i ==> forall|j: int| i <= j < s.len() ==> s[j] != c,
    decreases s.len() - i,
{
    if i < 0 {
    } else if i < s.len() && s[i] != c {
        lemma_find_char_from(s, c, i + 1);
    }
}

/// A line without the `\r` of a `\r\n` ending.
pub open spec fn strip_cr(l: Seq<char>) -> Seq<char> {
    if l.len() > 0 && l.last() == '\r' {
        l.drop_last()
    } else {
        l
    }
}

/// The lines of `s` (`str::lines`): split at `\n`, each line that ended in
/// `\r\n` loses its `\r`, and a final line ending adds no empty line.
pub open spec fn lines(s: Seq<char>) -> Seq<Seq<char>>
    decreases s.len(),
{
    if s.len() == 0 {
        Seq::empty()
    } else {
        match find_char_from(s, '\n', 0) {
            None => seq![s],
            Some(k) => {
                proof {
                    lemma_find_char_from(s, '\n', 0);
                }
                seq![strip_cr(s.take(k))] + lines(s.skip(k + 1))
            },
        }
    }
}

/// Where `find_from` lands: at or after `i`, with `p` occurring there.
pub proof fn lemma_find_from_in_bounds(s: Seq<char>, p: Seq<char>, i: int)
    ensures
        find_from(s, p, i) matches Some(k) ==> (i <= k && 0 <= k && k + p.len() <= s.len()
            && occurs_at(s, p, k)),
    decreases s.len() + 1 - i,
{
    if i >= 0 && i + p.len() <= s.len() && !occurs_at(s, p, i) {
        lemma_find_from_in_bounds(s, p, i + 1);
    }
}

/// The decimal digit for `d < 10`.
pub open spec fn digit_char(d: nat) -> char {
    if d == 0 { '0' }
    else if d == 1 { '1' }
    else if d == 2 { '2' }
    else if d == 3 { '3' }
    else if d == 4 { '4' }
    else if d == 5 { '5' }
    else if d == 6 { '6' }
    else if d == 7 { '7' }
    else if d == 8 { '8' }
    else { '9' }
}

/// The decimal rendering of `n`, without leading zeros (`u64::to_string`).
pub open spec fn decimal(n: nat) -> Seq<char>
    decreases n,
{
    if n < 10 {
        seq![digit_char(n)]
    } else {
        decimal(n / 10).push(digit_char(n % 10))
    }
}

/// `f` applied to each item, concatenated in order.
pub open spec fn concat_map<A>(items: Seq<A>, f: spec_fn(A) -> Seq<char>) -> Seq<char>
    decreases items.len(),
{
    if items.len() == 0 {
        Seq::empty()
    } else {
        concat_map(items.drop_last(), f) + f(items.last())
    }
}

/// Extending a prefix of `items` by one item extends its `concat_map`.
pub proof fn lemma_concat_map_step<A>(items: Seq<A>, i: int, f: spec_fn(A) -> Seq<char>)
    requires
        0 <= i < items.len(),
    ensures
        concat_map(items.take(i + 1), f) == concat_map(items.take(i), f) + f(items[i]),
{
    assert(items.take(i + 1).drop_last() =~= items.take(i));
    assert(items.take(i + 1).last() == items[i]);
}

/// `parts` joined with `sep` between consecutive parts (`[T]::join`).
pub open spec fn join(parts: Seq<Seq<char>>, sep: Seq<char>) -> Seq<char>
    decreases parts.len(),
{
    if parts.len() == 0 {
        Seq::empty()
    } else if parts.len() == 1 {
        parts[0]
    } else {
        join(parts.drop_last(), sep) + sep + parts.last()
    }
}

/// Extending a prefix of `parts` by one part extends its join.
pub proof fn lemma_join_step(parts: Seq<Seq<char>>, sep: Seq<char>, i: int)
    requires
        0 <= i < parts.len(),
    ensures
        join(parts.take(i + 1), sep) == if i == 0 {
            parts[0]
        } else {
            join(parts.take(i), sep) + sep + parts[i]
        },
{
    assert(parts.take(i + 1).drop_last() =~= parts.take(i));
    assert(parts.take(i + 1).last() == parts[i]);
}

/// The character views of a sequence of strings.
pub open spec fn views(v: Seq<String>) -> Seq<Seq<char>> {
    v.map_values(|s: String| s@)
}

/// An optional character position as a mathematical integer.
pub open spec fn opt_int(o: Option<usize>) -> Option<int> {
    match o {
        Some(k) => Some(k as int),
        None => None,
    }
}

// ---------------------------------------------------------------------------
// Executable operations
// ---------------------------------------------------------------------------

/// Appends `c` to `s`: std's `String::push`, documented as appending the
/// given char to the end of the string.
#[verifier::external_body]
pub(crate) fn push_char(s: &mut String, c: char)
    ensures
        final(s)@ == old(s)@.push(c),
{
    s.push(c);
}

/// An owned copy of `s`.
pub fn owned(s: &str) -> (res: String)
    ensures
        res@ == s@,
{
    String::from_str(s)
}

/// `a` followed by `b`, as a new string.
pub fn join2(a: &str, b: &str) -> (res: String)
    ensures
        res@ == a@ + b@,
{
    let s = String::from_str(a);
    s.concat(b)
}

/// Appends `t` to `s`.
pub fn push_str(s: &mut String, t: &str)
    ensures
        final(s)@ == old(s)@ + t@,
{
    s.append(t);
}

pub fn digit(d: u64) -> (c: char)
    requires
        d < 10,
    ensures
        c == digit_char(d as nat),
{
    if d == 0 { '0' }
    else if d == 1 { '1' }
    else if d == 2 { '2' }
    else if d == 3 { '3' }
    else if d == 4 { '4' }
    else if d == 5 { '5' }
    else if d == 6 { '6' }
    else if d == 7 { '7' }
    else if d == 8 { '8' }
    else { '9' }
}

/// Appends the decimal rendering of `n` to `s`.
pub fn push_decimal(s: &mut String, n: u64)
    ensures
        final(s)@ == old(s)@ + decimal(n as nat),
    decreases n,
{
    if n >= 10 {
        push_decimal(s, n / 10);
    }
    push_char(s, digit(n % 10));
    assert(s@ =~= old(s)@ + decimal(n as nat));
}

/// The decimal rendering of `n`.
pub fn decimal_string(n: u64) -> (res: String)
    ensures
        res@ == decimal(n as nat),
{
    let mut s = String::new();
    push_decimal(&mut s, n);
    assert(s@ =~= decimal(n as nat));
    s
}

/// The first `n` strings of `parts`, joined with `sep`.
pub fn join_first(parts: &Vec<String>, n: usize, sep: &str) -> (res: String)
    ensures
        res@ == join(views(parts@).take(if n < parts.len() { n as int } else { parts.len() as int }), sep@),
{
    let k = if n < parts.len() { n } else { parts.len() };
    let ghost ps = views(parts@);
    let mut out = String::new();
    let mut i: usize = 0;
    assert(ps.take(0) =~= Seq::<Seq<char>>::empty());
    while i < k
        invariant
            k <= parts.len(),
            ps == views(parts@),
            i <= k,
            out@ == join(ps.take(i as int), sep@),
        decreases k - i,
    {
        proof {
            lemma_join_step(ps, sep@, i as int);
        }
        if i > 0 {
            push_str(&mut out, sep);
        }
        push_str(&mut out, parts[i].as_str());
        i = i + 1;
    }
    out
}

/// The characters of `s`, in order.
pub fn chars_of(s: &str) -> (res: Vec<char>)
    ensures
        res@ == s@,
{
    let mut out: Vec<char> = Vec::new();
    for c in it: s.chars()
        invariant
            out@ == it.seq().take(it.index() as int),
            it.seq() == s@,
    {
        out.push(c);
    }
    out
}

/// Appends the characters `cs[lo..hi]` to `s`.
pub fn push_chars(s: &mut String, cs: &Vec<char>, lo: usize, hi: usize)
    requires
        lo <= hi <= cs.len(),
    ensures
        final(s)@ == old(s)@ + cs@.subrange(lo as int, hi as int),
{
    let mut i = lo;
    while i < hi
        invariant
            lo <= i <= hi <= cs.len(),
            s@ == old(s)@ + cs@.subrange(lo as int, i as int),
        decreases hi - i,
    {
        push_char(s, cs[i]);
        assert(cs@.subrange(lo as int, i + 1) == cs@.subrange(lo as int, i as int).push(cs@[i as int]));
        i = i + 1;
    }
}

/// The characters `cs[lo..hi]` as a string.
pub fn string_of(cs: &Vec<char>, lo: usize, hi: usize) -> (res: String)
    requires
        lo <= hi <= cs.len(),
    ensures
        res@ == cs@.subrange(lo as int, hi as int),
{
    let mut s = String::new();
    push_chars(&mut s, cs, lo, hi);
    assert(s@ =~= cs@.subrange(lo as int, hi as int));
    s
}

/// Whether `p` occurs in `s` at character position `i`.
pub fn matches_at(s: &Vec<char>, p: &Vec<char>, i: usize) -> (b: bool)
    ensures
        b == occurs_at(s@, p@, i as int),
{
    if p.len() > s.len() || i > s.len() - p.len() {
        return false;
    }
    let mut k: usize = 0;
    while k < p.len()
        invariant
            i + p.len() <= s.len(),
            k <= p.len(),
            forall|j: int| 0 <= j < k ==> s@[i + j] == p@[j],
        decreases p.len() - k,
    {
        if s[i + k] != p[k] {
            assert(s@.subrange(i as int, i + p.len())[k as int] != p@[k as int]);
            return false;
        }
        k = k + 1;
    }
    assert(s@.subrange(i as int, i + p.len()) =~= p@);
    true
}

/// The first position at or after `from` where `p` occurs in `s`.
pub fn find_chars_from(s: &Vec<char>, p: &Vec<char>, from: usize) -> (res: Option<usize>)
    ensures
        opt_int(res) == find_from(s@, p@, from as int),
{
    if p.len() > s.len() || from > s.len() - p.len() {
        return None;
    }
    let last = s.len() - p.len();
    let mut i = from;
    loop
        invariant
            p.len() <= s.len(),
            last == s.len() - p.len(),
            from <= i <= last,
            find_from(s@, p@, from as int) == find_from(s@, p@, i as int),
        decreases last - i,
    {
        if matches_at(s, p, i) {
            return Some(i);
        }
        if i == last {
            assert(find_from(s@, p@, i + 1) is None);
            return None;
        }
        i = i + 1;
    }
}

/// A copy of `cs[lo..hi]`.
pub fn sub_vec(cs: &Vec<char>, lo: usize, hi: usize) -> (res: Vec<char>)
    requires
        lo <= hi <= cs.len(),
    ensures
        res@ == cs@.subrange(lo as int, hi as int),
{
    let mut out: Vec<char> = Vec::new();
    let mut i = lo;
    while i < hi
        invariant
            lo <= i <= hi <= cs.len(),
            out@ == cs@.subrange(lo as int, i as int),
        decreases hi - i,
    {
        out.push(cs[i]);
        assert(cs@.subrange(lo as int, i + 1) =~= cs@.subrange(lo as int, i as int).push(cs@[i as int]));
        i = i + 1;
    }
    out
}

/// The first position at or after `from` of the character `c` in `cs`.
pub fn find_char(cs: &Vec<char>, c: char, from: usize) -> (res: Option<usize>)
    ensures
        opt_int(res) == find_char_from(cs@, c, from as int),
{
    let mut i = from;
    while i < cs.len()
        invariant
            from <= i,
            find_char_from(cs@, c, from as int) == find_char_from(cs@, c, i as int),
        decreases cs.len() - i,
    {
        if cs[i] == c {
            return Some(i);
        }
        i = i + 1;
    }
    None
}

/// The line of `cs.skip(start)` that comes first: `(hi, next, ended)` where
/// `cs[start..hi]` is that line before a `\r` is dropped, `next` is where the
/// rest begins, and `ended` tells whether a `\n` closed the line.
pub fn next_line(cs: &Vec<char>, start: usize) -> (res: (usize, usize, bool))
    requires
        start < cs.len(),
    ensures
        start <= res.0 < res.1 <= cs.len() || (!res.2 && res.0 == res.1 && res.1 == cs.len()),
        start < res.1,
        lines(cs@.skip(start as int)) == seq![
            if res.2 { strip_cr(cs@.subrange(start as int, res.0 as int)) } else { cs@.subrange(start as int, res.0 as int) },
        ] + lines(cs@.skip(res.1 as int)),
{
    let ghost rest = cs@.skip(start as int);
    proof {
        lemma_find_char_from(rest, '\n', 0);
    }
    match find_char(cs, '\n', start) {
        Some(k) => {
            proof {
                lemma_find_char_from(cs@, '\n', start as int);
                assert forall|j: int| 0 <= j < k - start implies rest[j] != '\n' by {
                    lemma_find_char_from_first(cs@, '\n', start as int, start + j);
                }
                lemma_first_char(rest, '\n', (k - start) as int);
                assert(rest.take(k - start) =~= cs@.subrange(start as int, k as int));
                assert(rest.skip(k - start + 1) =~= cs@.skip(k + 1));
            }
            (k, k + 1, true)
        },
        None => {
            proof {
                lemma_find_char_from(cs@, '\n', start as int);
                if let Some(j) = find_char_from(rest, '\n', 0) {
                    assert(cs@[start + j] == '\n');
                }
                assert(rest =~= cs@.subrange(start as int, cs.len() as int));
                assert(cs@.skip(cs.len() as int) =~= Seq::<char>::empty());
                assert(seq![rest] + Seq::<Seq<char>>::empty() =~= seq![rest]);
            }
            (cs.len(), cs.len(), false)
        },
    }
}

/// Positions before the first `c` found from `i` hold no `c`.
pub proof fn lemma_find_char_from_first(s: Seq<char>, c: char, i: int, j: int)
    requires
        0 <= i <= j,
        find_char_from(s, c, i) matches Some(k) && j < k,
    ensures
        s[j] != c,
    decreases j - i,
{
    if i < j {
        assert(s[i] != c);
        lemma_find_char_from_first(s, c, i + 1, j);
    }
}

/// A position holding `c` with none before it is what `find_char_from(_, 0)` finds.
pub proof fn lemma_first_char(s: Seq<char>, c: char, k: int)
    requires
        0 <= k < s.len(),
        s[k] == c,
        forall|j: int| 0 <= j < k ==> s[j] != c,
    ensures
        find_char_from(s, c, 0) == Some(k),
{
    lemma_first_char_from(s, c, 0, k);
}

proof fn lemma_first_char_from(s: Seq<char>, c: char, i: int, k: int)
    requires
        0 <= i <= k < s.len(),
        s[k] == c,
        forall|j: int| i <= j < k ==> s[j] != c,
    ensures
        find_char_from(s, c, i) == Some(k),
    decreases k - i,
{
    if i < k {
        lemma_first_char_from(s, c, i + 1, k);
    }
}

/// Whether `c` is whitespace (`char::is_whitespace`).
pub fn is_whitespace_char(c: char) -> (b: bool)
    ensures
        b == is_whitespace(c),
{
    ('\u{9}' <= c && c <= '\u{d}') || c == ' ' || c == '\u{85}' || c == '\u{a0}' || c == '\u{1680}'
        || ('\u{2000}' <= c && c <= '\u{200a}') || c == '\u{2028}' || c == '\u{2029}' || c
        == '\u{202f}' || c == '\u{205f}' || c == '\u{3000}'
}

/// The bounds `(lo, hi)` of `trim(cs)` within `cs`.
pub fn trim_bounds(cs: &Vec<char>) -> (res: (usize, usize))
    ensures
        res.0 <= res.1 <= cs.len(),
        cs@.subrange(res.0 as int, res.1 as int) == trim(cs@),
{
    let mut lo: usize = 0;
    assert(cs@.skip(0) =~= cs@);
    while lo < cs.len() && is_whitespace_char(cs[lo])
        invariant
            lo <= cs.len(),
            trim_start(cs@) == trim_start(cs@.skip(lo as int)),
        decreases cs.len() - lo,
    {
        assert(cs@.skip(lo as int).skip(1) =~= cs@.skip(lo + 1));
        lo = lo + 1;
    }
    assert(trim_start(cs@) == cs@.skip(lo as int));
    assert(cs@.skip(lo as int) =~= cs@.subrange(lo as int, cs.len() as int));
    let mut hi: usize = cs.len();
    while hi > lo && is_whitespace_char(cs[hi - 1])
        invariant
            lo <= hi <= cs.len(),
            trim(cs@) == trim_end(cs@.subrange(lo as int, hi as int)),
        decreases hi,
    {
        assert(cs@.subrange(lo as int, hi as int).drop_last() =~= cs@.subrange(lo as int, hi - 1));
        hi = hi - 1;
    }
    (lo, hi)
}

/// The bounds `(lo, hi)` within `cs[lo0..hi0]` of that range without any
/// leading and trailing run of `c`.
pub fn trim_char_bounds(cs: &Vec<char>, lo0: usize, hi0: usize, c: char) -> (res: (usize, usize))
    requires
        lo0 <= hi0 <= cs.len(),
    ensures
        lo0 <= res.0 <= res.1 <= hi0,
        cs@.subrange(res.0 as int, res.1 as int) == trim_end_char(
            trim_start_char(cs@.subrange(lo0 as int, hi0 as int), c),
            c,
        ),
{
    let ghost t = cs@.subrange(lo0 as int, hi0 as int);
    let mut lo = lo0;
    assert(t =~= cs@.subrange(lo as int, hi0 as int));
    while lo < hi0 && cs[lo] == c
        invariant
            lo0 <= lo <= hi0 <= cs.len(),
            trim_start_char(t, c) == trim_start_char(cs@.subrange(lo as int, hi0 as int), c),
        decreases hi0 - lo,
    {
        assert(cs@.subrange(lo as int, hi0 as int).skip(1) =~= cs@.subrange(lo + 1, hi0 as int));
        lo = lo + 1;
    }
    let mut hi = hi0;
    while hi > lo && cs[hi - 1] == c
        invariant
            lo0 <= lo <= hi <= hi0 <= cs.len(),
            trim_end_char(trim_start_char(t, c), c) == trim_end_char(cs@.subrange(lo as int, hi as int), c),
        decreases hi,
    {
        assert(cs@.subrange(lo as int, hi as int).drop_last() =~= cs@.subrange(lo as int, hi - 1));
        hi = hi - 1;
    }
    (lo, hi)
}

/// `s` without leading and trailing whitespace.
pub fn trimmed(s: &str) -> (res: String)
    ensures
        res@ == trim(s@),
{
    let cs = chars_of(s);
    let (lo, hi) = trim_bounds(&cs);
    string_of(&cs, lo, hi)
}

/// Every non-overlapping occurrence of `from` in `s` replaced by `to`.
pub fn replace_all(s: &str, from: &str, to: &str) -> (res: String)
    requires
        from@.len() > 0,
    ensures
        res@ == replace(s@, from@, to@),
{
    let cs = chars_of(s);
    let fs = chars_of(from);
    let mut out = String::new();
    let mut i: usize = 0;
    assert(cs@.skip(0) =~= cs@);
    while i < cs.len()
        invariant
            fs@ == from@,
            cs@ == s@,
            fs@.len() > 0,
            i <= cs.len(),
            out@ + replace(cs@.skip(i as int), fs@, to@) == replace(cs@, fs@, to@),
        decreases cs.len() - i,
    {
        let ghost rest = cs@.skip(i as int);
        if matches_at(&cs, &fs, i) {
            assert(rest.subrange(0, fs@.len() as int) =~= cs@.subrange(i as int, i + fs@.len()));
            assert(rest.skip(fs@.len() as int) =~= cs@.skip(i + fs@.len()));
            push_str(&mut out, to);
            i = i + fs.len();
            assert(out@ + replace(cs@.skip(i as int), fs@, to@) == replace(cs@, fs@, to@)) by {
                assert((out@ + replace(cs@.skip(i as int), fs@, to@)) =~= (out@ + replace(cs@.skip(i as int), fs@, to@)));
            }
        } else {
            assert(!starts_with(rest, fs@)) by {
                if rest.len() >= fs@.len() {
                    assert(rest.subrange(0, fs@.len() as int) =~= cs@.subrange(i as int, i + fs@.len()));
                }
            }
            assert(rest.skip(1) =~= cs@.skip(i + 1));
            push_char(&mut out, cs[i]);
            i = i + 1;
        }
    }
    assert(cs@.skip(cs.len() as int) =~= Seq::<char>::empty());
    assert(out@ + Seq::<char>::empty() =~= out@);
    out
}


/// The pieces of `s` between the occurrences of `c` (`str::split`): one more
/// piece than there are occurrences, empty pieces kept.
pub open spec fn split(s: Seq<char>, c: char) -> Seq<Seq<char>>
    decreases s.len(),
{
    match find_char_from(s, c, 0) {
        None => seq![s],
        Some(k) => {
            proof {
                lemma_find_char_from(s, c, 0);
            }
            seq![s.take(k)] + split(s.skip(k + 1), c)
        },
    }
}

/// `s` cut at the first `c` (`str::split_once`).
pub open spec fn split_once(s: Seq<char>, c: char) -> Option<(Seq<char>, Seq<char>)> {
    match find_char_from(s, c, 0) {
        None => None,
        Some(k) => Some((s.take(k), s.skip(k + 1))),
    }
}

/// Searching a suffix is searching the whole from where the suffix starts.
pub proof fn lemma_find_char_skip(s: Seq<char>, c: char, st: int, j: int)
    requires
        0 <= st <= s.len(),
        0 <= j,
    ensures
        find_char_from(s.skip(st), c, j) == match find_char_from(s, c, st + j) {
            Some(k) => Some(k - st),
            None => None,
        },
    decreases s.len() - st - j,
{
    if st + j < s.len() {
        assert(s.skip(st)[j] == s[st + j]);
        if s[st + j] != c {
            lemma_find_char_skip(s, c, st, j + 1);
        }
    }
}

/// A string cut at the first `c`, as owned halves.
pub fn split_once_char(s: &str, c: char) -> (res: Option<(String, String)>)
    ensures
        match split_once(s@, c) {
            Some((a, b)) => res matches Some(p) && p.0@ == a && p.1@ == b,
            None => res is None,
        },
{
    let cs = chars_of(s);
    match find_char(&cs, c, 0) {
        Some(k) => {
            proof {
                lemma_find_char_from(cs@, c, 0);
            }
            let a = string_of(&cs, 0, k);
            let b = string_of(&cs, k + 1, cs.len());
            assert(cs@.subrange(0, k as int) =~= s@.take(k as int));
            assert(cs@.subrange(k + 1, cs.len() as int) =~= s@.skip(k + 1));
            Some((a, b))
        },
        None => None,
    }
}

/// The pieces of `s` between the occurrences of `c`.
pub fn split_char(s: &str, c: char) -> (res: Vec<String>)
    ensures
        views(res@) == split(s@, c),
{
    let cs = chars_of(s);
    let mut parts: Vec<String> = Vec::new();
    let mut start: usize = 0;
    assert(cs@.skip(0) =~= cs@);
    assert(views(parts@) + split(cs@.skip(0), c) =~= split(cs@, c));
    loop
        invariant
            cs@ == s@,
            start <= cs.len(),
            split(cs@, c) == views(parts@) + split(cs@.skip(start as int), c),
        decreases cs.len() - start,
    {
        let ghost rest = cs@.skip(start as int);
        let ghost before = parts@;
        proof {
            lemma_find_char_skip(cs@, c, start as int, 0);
            lemma_find_char_from(cs@, c, start as int);
        }
        match find_char(&cs, c, start) {
            Some(k) => {
                let piece = string_of(&cs, start, k);
                parts.push(piece);
                proof {
                    assert(rest.take(k - start) =~= cs@.subrange(start as int, k as int));
                    assert(rest.skip(k - start + 1) =~= cs@.skip(k + 1));
                    assert(split(rest, c) == seq![rest.take(k - start)] + split(rest.skip(k - start + 1), c));
                    assert(views(parts@) =~= views(before).push(piece@));
                    assert(views(parts@) + split(cs@.skip(k + 1), c) =~= views(before) + split(rest, c));
                }
                start = k + 1;
            },
            None => {
                let piece = string_of(&cs, start, cs.len());
                parts.push(piece);
                proof {
                    assert(rest =~= cs@.subrange(start as int, cs.len() as int));
                    assert(views(parts@) =~= views(before) + seq![rest]);
                }
                return parts;
            },
        }
    }
}


/// Whether two strings are the same text.
pub fn same_text(a: &str, b: &str) -> (res: bool)
    ensures
        res == (a@ == b@),
{
    let x = chars_of(a);
    let y = chars_of(b);
    if x.len() != y.len() {
        return false;
    }
    let mut i: usize = 0;
    while i < x.len()
        invariant
            x@ == a@,
            y@ == b@,
            x.len() == y.len(),
            i <= x.len(),
            forall|j: int| 0 <= j < i ==> x@[j] == y@[j],
        decreases x.len() - i,
    {
        if x[i] != y[i] {
            return false;
        }
        i = i + 1;
    }
    assert(a@ =~= b@);
    true
}

/// Whether `s` starts with `p`.
pub fn starts_with_str(s: &str, p: &str) -> (res: bool)
    ensures
        res == starts_with(s@, p@),
{
    let cs = chars_of(s);
    let ps = chars_of(p);
    if ps.len() > cs.len() {
        return false;
    }
    let mut i: usize = 0;
    while i < ps.len()
        invariant
            cs@ == s@,
            ps@ == p@,
            ps.len() <= cs.len(),
            i <= ps.len(),
            forall|j: int| 0 <= j < i ==> cs@[j] == ps@[j],
        decreases ps.len() - i,
    {
        if cs[i] != ps[i] {
            assert(s@.subrange(0, p@.len() as int)[i as int] != p@[i as int]);
            return false;
        }
        i = i + 1;
    }
    assert(s@.subrange(0, p@.len() as int) =~= p@);
    true
}

/// Whether `s` ends with `p`.
pub fn ends_with_str(s: &str, p: &str) -> (res: bool)
    ensures
        res == ends_with(s@, p@),
{
    let cs = chars_of(s);
    let ps = chars_of(p);
    if ps.len() > cs.len() {
        return false;
    }
    let off = cs.len() - ps.len();
    let mut i: usize = 0;
    while i < ps.len()
        invariant
            cs@ == s@,
            ps@ == p@,
            off + ps.len() == cs.len(),
            i <= ps.len(),
            forall|j: int| 0 <= j < i ==> cs@[off + j] == ps@[j],
        decreases ps.len() - i,
    {
        if cs[off + i] != ps[i] {
            assert(s@.subrange(off as int, s@.len() as int)[i as int] != p@[i as int]);
            return false;
        }
        i = i + 1;
    }
    assert(s@.subrange(off as int, s@.len() as int) =~= p@);
    true
}


/// The lines of `s` (`str::lines`).
pub fn lines_of(s: &str) -> (res: Vec<String>)
    ensures
        views(res@) == lines(s@),
{
    let cs = chars_of(s);
    let mut res: Vec<String> = Vec::new();
    let mut start: usize = 0;
    assert(cs@.skip(0) =~= cs@);
    assert(views(res@) + lines(cs@.skip(0)) =~= lines(s@));
    while start < cs.len()
        invariant
            cs@ == s@,
            start <= cs.len(),
            lines(s@) == views(res@) + lines(cs@.skip(start as int)),
        decreases cs.len() - start,
    {
        let (hi, next, ended) = next_line(&cs, start);
        let end = if ended && hi > start && cs[hi - 1] == '\r' { hi - 1 } else { hi };
        let line = string_of(&cs, start, end);
        proof {
            let raw = cs@.subrange(start as int, hi as int);
            if ended {
                if hi > start && cs@[hi - 1] == '\r' {
                    assert(strip_cr(raw) =~= cs@.subrange(start as int, end as int));
                } else {
                    assert(strip_cr(raw) == raw);
                }
            }
        }
        let ghost before = views(res@);
        res.push(line);
        assert(views(res@) =~= before.push(line@));
        assert(views(res@) + lines(cs@.skip(next as int)) =~= before + (seq![line@] + lines(cs@.skip(next as int))));
        start = next;
    }
    assert(cs@.skip(start as int) =~= Seq::<char>::empty());
    assert(views(res@) + Seq::<Seq<char>>::empty() =~= views(res@));
    res
}
/// `a` comes no later than `b` in the order of code points, position by
/// position, a prefix first.
pub open spec fn lex_le(a: Seq<char>, b: Seq<char>) -> bool
    decreases a.len(),
{
    if a.len() == 0 {
        true
    } else if b.len() == 0 {
        false
    } else if a[0] != b[0] {
        a[0] < b[0]
    } else {
        lex_le(a.skip(1), b.skip(1))
    }
}

pub proof fn lemma_lex_total(a: Seq<char>, b: Seq<char>)
    ensures
        lex_le(a, b) || lex_le(b, a),
    decreases a.len(),
{
    if a.len() > 0 && b.len() > 0 && a[0] == b[0] {
        lemma_lex_total(a.skip(1), b.skip(1));
    }
}

pub proof fn lemma_lex_trans(a: Seq<char>, b: Seq<char>, c: Seq<char>)
    requires
        lex_le(a, b),
        lex_le(b, c),
    ensures
        lex_le(a, c),
    decreases a.len(),
{
    if a.len() > 0 && b.len() > 0 && c.len() > 0 && a[0] == b[0] && b[0] == c[0] {
        lemma_lex_trans(a.skip(1), b.skip(1), c.skip(1));
    }
}

pub proof fn lemma_lex_refl(a: Seq<char>)
    ensures
        lex_le(a, a),
    decreases a.len(),
{
    if a.len() > 0 {
        lemma_lex_refl(a.skip(1));
    }
}

pub proof fn lemma_lex_antisym(a: Seq<char>, b: Seq<char>)
    requires
        lex_le(a, b),
        lex_le(b, a),
    ensures
        a == b,
    decreases a.len(),
{
    if a.len() > 0 && b.len() > 0 {
        lemma_lex_antisym(a.skip(1), b.skip(1));
        assert(a =~= seq![a[0]] + a.skip(1));
        assert(b =~= seq![b[0]] + b.skip(1));
    } else {
        assert(a.len() == 0 && b.len() == 0);
        assert(a =~= b);
    }
}

/// Whether `a` comes no later than `b`.
pub fn lex_le_exec(a: &str, b: &str) -> (res: bool)
    ensures
        res == lex_le(a@, b@),
{
    let x = chars_of(a);
    let y = chars_of(b);
    let mut i: usize = 0;
    assert(x@.skip(0) =~= x@);
    assert(y@.skip(0) =~= y@);
    loop
        invariant
            x@ == a@,
            y@ == b@,
            i <= x.len(),
            i <= y.len(),
            lex_le(a@, b@) == lex_le(x@.skip(i as int), y@.skip(i as int)),
        decreases x.len() - i,
    {
        let ghost xs = x@.skip(i as int);
        let ghost ys = y@.skip(i as int);
        if i == x.len() {
            return true;
        }
        if i == y.len() {
            return false;
        }
        assert(xs[0] == x@[i as int] && ys[0] == y@[i as int]);
        if x[i] != y[i] {
            return x[i] < y[i];
        }
        assert(xs.skip(1) =~= x@.skip(i + 1));
        assert(ys.skip(1) =~= y@.skip(i + 1));
        i = i + 1;
    }
}

} // verus!
