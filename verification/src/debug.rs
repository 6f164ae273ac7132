//! Names and places for debug information: how a mangled symbol reads in
//! a backtrace, and how a source path splits into directory and file.

use vstd::prelude::*;
use vstd::string::StringExecFns;
use crate::ctx::EmitContext;
use crate::ir::IRSymbol;

verus! {

/// The place behind the first `$` at or after `i`, or the end.
pub open spec fn after_dollar(s: Seq<char>, i: int) -> int
    decreases s.len() - i,
{
    if i >= s.len() {
        s.len() as int
    } else if s[i] == '$' {
        i + 1
    } else {
        after_dollar(s, i + 1)
    }
}

/// Skipping to a `$` never goes back.
pub proof fn after_dollar_advances(s: Seq<char>, i: int)
    requires
        0 <= i <= s.len(),
    ensures
        i <= after_dollar(s, i) <= s.len(),
    decreases s.len() - i,
{
    if i < s.len() && s[i] != '$' {
        after_dollar_advances(s, i + 1);
    }
}

/// The place behind the next `$` from `from` on.
pub fn skip_to_dollar(text: &str, from: usize) -> (r: usize)
    requires
        from <= text@.len(),
    ensures
        r == after_dollar(text@, from as int),
        from <= r <= text@.len(),
{
    let n: usize = text.unicode_len();
    let mut i: usize = from;
    while i < n
        invariant
            from <= i <= n,
            n == text@.len(),
            after_dollar(text@, from as int) == after_dollar(text@, i as int),
        decreases n - i,
    {
        if text.get_char(i) == '$' {
            return i + 1;
        }
        i = i + 1;
    }
    n
}

/// A `$` opens an argument list at `i`, with or without an underscore in
/// front of it: the place where the arguments begin.
pub open spec fn arguments_at(s: Seq<char>, i: int) -> Option<int> {
    if s[i] == '_' && i + 1 < s.len() && s[i + 1] == '$' {
        Some(i + 2)
    } else if s[i] == '$' {
        Some(i + 1)
    } else {
        None
    }
}

/// A name from `i` on without its `$...$` argument lists.
pub open spec fn stripped(s: Seq<char>, i: int) -> Seq<char>
    decreases s.len() - i,
{
    if i < 0 || i >= s.len() {
        Seq::empty()
    } else {
        match arguments_at(s, i) {
            Some(at) => {
                proof {
                    after_dollar_advances(s, at);
                }
                stripped(s, after_dollar(s, at))
            },
            None => seq![s[i]] + stripped(s, i + 1),
        }
    }
}

/// A name without its `$...$` argument lists.
pub fn strip_generic_args(name: &str) -> (r: String)
    ensures
        r@ == stripped(name@, 0),
{
    let n: usize = name.unicode_len();
    let mut out = String::new();
    let mut i: usize = 0;
    assert(out@ + stripped(name@, 0) =~= stripped(name@, 0));
    while i < n
        invariant
            i <= n,
            n == name@.len(),
            stripped(name@, 0) == out@ + stripped(name@, i as int),
        decreases n - i,
    {
        let ch = name.get_char(i);
        if ch == '_' && i + 1 < n && name.get_char(i + 1) == '$' {
            i = skip_to_dollar(name, i + 2);
        } else if ch == '$' {
            i = skip_to_dollar(name, i + 1);
        } else {
            let ghost before = out@;
            out.append(name.substring_char(i, i + 1));
            assert(name@.subrange(i as int, i + 1) =~= seq![name@[i as int]]);
            assert(out@ + stripped(name@, i + 1) =~= before + stripped(name@, i as int));
            i = i + 1;
        }
    }
    assert(stripped(name@, n as int) =~= Seq::empty());
    assert(stripped(name@, 0) =~= out@);
    out
}

/// The part of a dotted name behind its first dot, the whole name where
/// there is none.
pub open spec fn behind_dot(s: Seq<char>, i: int) -> Seq<char>
    decreases s.len() - i,
{
    if i >= s.len() {
        s
    } else if s[i] == '.' {
        s.subrange(i + 1, s.len() as int)
    } else {
        behind_dot(s, i + 1)
    }
}

/// The part of a mangled name behind its package.
pub fn without_package(name: &str) -> (r: &str)
    ensures
        r@ == behind_dot(name@, 0),
{
    let n: usize = name.unicode_len();
    let mut i: usize = 0;
    while i < n
        invariant
            i <= n,
            n == name@.len(),
            behind_dot(name@, 0) == behind_dot(name@, i as int),
        decreases n - i,
    {
        if name.get_char(i) == '.' {
            return name.substring_char(i + 1, n);
        }
        i = i + 1;
    }
    name
}

/// How a symbol reads in a backtrace: without its package and without
/// type arguments.
pub fn display_name(c: &EmitContext, symbol: IRSymbol) -> (r: String)
    ensures
        r@ == stripped(behind_dot(c.mangled(symbol), 0), 0),
{
    strip_generic_args(without_package(c.name_of(symbol)))
}

/// Where the segments of a path begin: behind the root or behind a
/// leading `.` segment.
pub open spec fn body_start(p: Seq<char>) -> int {
    if p.len() > 0 && p[0] == '/' {
        1
    } else if p.len() > 0 && p[0] == '.' && (p.len() == 1 || p[1] == '/') {
        1
    } else {
        0
    }
}

/// Where the segment of a path that ends at `end` begins.
pub open spec fn segment_start(p: Seq<char>, start: int, end: int) -> int
    decreases end - start,
{
    if end <= start || p[end - 1] == '/' {
        end
    } else {
        segment_start(p, start, end - 1)
    }
}

/// The last segment of a path before `end` that names something: neither
/// nothing nor `.`.
pub open spec fn last_named_segment(p: Seq<char>, start: int, end: int) -> Option<(int, int)>
    decreases end - start,
{
    if end <= start {
        None
    } else {
        proof {
            segment_start_bounds(p, start, end);
        }
        let from = segment_start(p, start, end);
        let empty = from == end || (end - from == 1 && p[from] == '.');
        if !empty {
            Some((from, end))
        } else if from <= start {
            None
        } else {
            last_named_segment(p, start, from - 1)
        }
    }
}

/// A segment begins between the start of the path and its own end.
pub proof fn segment_start_bounds(p: Seq<char>, start: int, end: int)
    requires
        start <= end,
    ensures
        start <= segment_start(p, start, end) <= end,
    decreases end - start,
{
    if end > start && p[end - 1] != '/' {
        segment_start_bounds(p, start, end - 1);
    }
}

/// The directory of a path: up to the segment before the last one, `.`
/// where that is nothing.
pub open spec fn directory_of(p: Seq<char>) -> Seq<char> {
    let start = body_start(p);
    match last_named_segment(p, start, p.len() as int) {
        Some((from, _)) => {
            let end = match last_named_segment(p, start, from) {
                Some((_, to)) => to,
                None => start,
            };
            if end == 0 {
                "."@
            } else {
                p.subrange(0, end)
            }
        },
        None => "."@,
    }
}

/// The file of a path: its last segment, the whole path where that names
/// no file.
pub open spec fn filename_of(p: Seq<char>) -> Seq<char> {
    match last_named_segment(p, body_start(p), p.len() as int) {
        Some((from, to)) => if p.subrange(from, to) == seq!['.', '.'] {
            p
        } else {
            p.subrange(from, to)
        },
        None => p,
    }
}

fn find_segment(path: &str, start: usize, end: usize) -> (r: Option<(usize, usize)>)
    requires
        start <= end <= path@.len(),
    ensures
        match r {
            Some((from, to)) => start <= from < to <= end && last_named_segment(
                path@,
                start as int,
                end as int,
            ) == Some((from as int, to as int)),
            None => last_named_segment(path@, start as int, end as int) is None,
        },
{
    let mut to: usize = end;
    while to > start
        invariant
            start <= to <= end <= path@.len(),
            last_named_segment(path@, start as int, end as int) == last_named_segment(
                path@,
                start as int,
                to as int,
            ),
        decreases to,
    {
        let mut from: usize = to;
        while from > start && path.get_char(from - 1) != '/'
            invariant
                start <= from <= to <= path@.len(),
                segment_start(path@, start as int, to as int) == segment_start(
                    path@,
                    start as int,
                    from as int,
                ),
            decreases from,
        {
            from = from - 1;
        }
        let empty = from == to || (to - from == 1 && path.get_char(from) == '.');
        if !empty {
            return Some((from, to));
        }
        if from <= start {
            return None;
        }
        to = from - 1;
    }
    None
}

/// Splits a source path into its directory and its file. Paths are
/// separated by `/`.
pub fn split_path(path: &str) -> (r: (String, String))
    ensures
        r.0@ == directory_of(path@),
        r.1@ == filename_of(path@),
{
    let n: usize = path.unicode_len();
    let start: usize = if n > 0 && path.get_char(0) == '/' {
        1
    } else if n > 0 && path.get_char(0) == '.' && (n == 1 || path.get_char(1) == '/') {
        1
    } else {
        0
    };
    match find_segment(path, start, n) {
        Some((from, to)) => {
            let end: usize = match find_segment(path, start, from) {
                Some((_, before)) => before,
                None => start,
            };
            let directory = if end == 0 {
                ".".to_owned()
            } else {
                path.substring_char(0, end).to_owned()
            };
            let parent = to - from == 2 && path.get_char(from) == '.' && path.get_char(from + 1)
                == '.';
            let ghost segment = path@.subrange(from as int, to as int);
            assert(parent == (segment =~= seq!['.', '.'])) by {
                if to - from == 2 {
                    assert(segment[0] == path@[from as int]);
                    assert(segment[1] == path@[from + 1]);
                }
            }
            let filename = if parent {
                path.to_owned()
            } else {
                path.substring_char(from, to).to_owned()
            };
            (directory, filename)
        },
        None => (".".to_owned(), path.to_owned()),
    }
}

/// No `$` remains in a stripped name.
pub proof fn stripped_names_hold_no_dollar(s: Seq<char>, i: int)
    ensures
        !stripped(s, i).contains('$'),
    decreases s.len() - i,
{
    if 0 <= i < s.len() {
        match arguments_at(s, i) {
            Some(at) => {
                after_dollar_advances(s, at);
                stripped_names_hold_no_dollar(s, after_dollar(s, at));
            },
            None => {
                stripped_names_hold_no_dollar(s, i + 1);
                let rest = stripped(s, i + 1);
                let all = seq![s[i]] + rest;
                if all.contains('$') {
                    let k = choose|k: int| 0 <= k < all.len() && all[k] == '$';
                    assert(k > 0 && rest[k - 1] == '$');
                }
            },
        }
    }
}

/// A name without `$` is kept as it is.
pub proof fn plain_names_are_kept(s: Seq<char>, i: int)
    requires
        !s.contains('$'),
        0 <= i <= s.len(),
    ensures
        stripped(s, i) == s.subrange(i, s.len() as int),
    decreases s.len() - i,
{
    if i < s.len() {
        assert(s[i] != '$');
        if i + 1 < s.len() {
            assert(s[i + 1] != '$');
        }
        plain_names_are_kept(s, i + 1);
        assert(stripped(s, i) =~= s.subrange(i, s.len() as int));
    } else {
        assert(stripped(s, i) =~= s.subrange(i, s.len() as int));
    }
}

/// Stripping a name twice strips it no further.
pub proof fn stripping_is_idempotent(s: Seq<char>)
    ensures
        stripped(stripped(s, 0), 0) == stripped(s, 0),
{
    stripped_names_hold_no_dollar(s, 0);
    plain_names_are_kept(stripped(s, 0), 0);
    assert(stripped(s, 0).subrange(0, stripped(s, 0).len() as int) =~= stripped(s, 0));
}

/// The segments of a path between `start` and `end` that name something.
pub open spec fn segments(p: Seq<char>, start: int, end: int) -> Seq<Seq<char>>
    decreases end - start,
{
    if end <= start {
        Seq::empty()
    } else {
        proof {
            segment_start_bounds(p, start, end);
        }
        let from = segment_start(p, start, end);
        let before = if from <= start {
            Seq::empty()
        } else {
            segments(p, start, from - 1)
        };
        if from == end || (end - from == 1 && p[from] == '.') {
            before
        } else {
            before.push(p.subrange(from, end))
        }
    }
}

/// What a path says: what it begins with, the root or `.`, and the
/// segments that name something.
pub open spec fn components(p: Seq<char>) -> (Seq<char>, Seq<Seq<char>>) {
    (p.subrange(0, body_start(p)), segments(p, body_start(p), p.len() as int))
}

/// A file in a directory.
pub open spec fn joined(directory: Seq<char>, file: Seq<char>) -> Seq<char> {
    if directory.len() > 0 && directory.last() == '/' {
        directory + file
    } else {
        directory + seq!['/'] + file
    }
}

/// A path has a directory and a file: its last segment is not `..`, and
/// something stands before it.
pub open spec fn has_parts(p: Seq<char>) -> bool {
    let start = body_start(p);
    match last_named_segment(p, start, p.len() as int) {
        Some((from, to)) => p.subrange(from, to) != seq!['.', '.'] && (start > 0
            || last_named_segment(p, start, from) is Some),
        None => false,
    }
}

/// Where a segment begins, and what it holds.
proof fn segment_is_whole(p: Seq<char>, start: int, end: int)
    requires
        0 <= start <= end <= p.len(),
    ensures
        ({
            let from = segment_start(p, start, end);
            &&& start <= from <= end
            &&& forall|i: int| from <= i < end ==> p[i] != '/'
            &&& from > start ==> p[from - 1] == '/'
        }),
    decreases end - start,
{
    if end > start && p[end - 1] != '/' {
        segment_is_whole(p, start, end - 1);
    }
}

/// A segment without `/` behind one begins there.
proof fn segment_begins(p: Seq<char>, start: int, from: int, end: int)
    requires
        0 <= start <= from <= end <= p.len(),
        forall|i: int| from <= i < end ==> p[i] != '/',
        from > start ==> p[from - 1] == '/',
    ensures
        segment_start(p, start, end) == from,
    decreases end - from,
{
    if end > from {
        segment_begins(p, start, from, end - 1);
    }
}

/// What names nothing at the end of a path adds no segment.
proof fn last_segment_ends(p: Seq<char>, start: int, end: int)
    requires
        0 <= start <= end <= p.len(),
    ensures
        match last_named_segment(p, start, end) {
            None => segments(p, start, end) == Seq::<Seq<char>>::empty(),
            Some((from, to)) => {
                &&& start <= from < to <= end
                &&& segment_start(p, start, to) == from
                &&& !(to - from == 1 && p[from] == '.')
                &&& segments(p, start, end) == segments(p, start, to)
            },
        },
    decreases end - start,
{
    if end > start {
        segment_is_whole(p, start, end);
        let from = segment_start(p, start, end);
        if (from == end || (end - from == 1 && p[from] == '.')) && from > start {
            last_segment_ends(p, start, from - 1);
        }
    }
}

/// The segments up to a place rest on what stands before it.
proof fn segments_of_prefix(p: Seq<char>, q: Seq<char>, start: int, end: int)
    requires
        0 <= start <= end <= p.len(),
        end <= q.len(),
        forall|i: int| 0 <= i < end ==> p[i] == q[i],
    ensures
        segments(p, start, end) == segments(q, start, end),
    decreases end - start,
{
    if end > start {
        segment_is_whole(p, start, end);
        let from = segment_start(p, start, end);
        segment_begins(q, start, from, end);
        if from > start {
            segments_of_prefix(p, q, start, from - 1);
        }
        assert(p.subrange(from, end) =~= q.subrange(from, end));
    }
}

/// The directory of a path is never nothing.
pub proof fn directory_is_something(p: Seq<char>)
    ensures
        directory_of(p).len() > 0,
{
    reveal_strlit(".");
    let start = body_start(p);
    let n = p.len() as int;
    last_segment_ends(p, start, n);
    if let Some((from, to)) = last_named_segment(p, start, n) {
        last_segment_ends(p, start, from);
    }
}

/// The file of a path in its directory is the path again, component by
/// component.
pub proof fn joining_gives_the_path(p: Seq<char>)
    requires
        has_parts(p),
    ensures
        components(joined(directory_of(p), filename_of(p))) == components(p),
{
    let start = body_start(p);
    let n = p.len() as int;
    let (from, to) = last_named_segment(p, start, n)->0;
    let d = directory_of(p);
    let f = filename_of(p);
    let j = joined(d, f);
    last_segment_ends(p, start, n);
    last_segment_ends(p, start, from);
    segment_is_whole(p, start, to);
    let end = match last_named_segment(p, start, from) {
        Some((_, e)) => e,
        None => start,
    };
    assert(d == p.subrange(0, end) && end > 0);
    assert(f == p.subrange(from, to));
    if last_named_segment(p, start, from) is Some {
        let (a, _) = last_named_segment(p, start, from)->0;
        segment_is_whole(p, start, end);
        assert(p[end - 1] != '/');
        assert(d.last() == p[end - 1]);
        if from > start {
            segment_begins(p, start, from, from);
        }
    } else {
        assert(segments(p, start, from) == Seq::<Seq<char>>::empty());
    }
    let m = j.len() as int;
    let at = m - f.len();
    assert(forall|i: int| at <= i < m ==> j[i] == f[i - at]);
    assert(forall|i: int| 0 <= i < end ==> j[i] == p[i]);
    assert(body_start(j) == start) by {
        assert(j[0] == p[0]);
        if end > 1 {
            assert(j[1] == p[1]);
        }
    }
    assert(j.subrange(0, start) =~= p.subrange(0, start));
    segment_begins(j, start, at, m);
    assert(j.subrange(at, m) =~= f);
    assert(f.len() == 1 ==> f[0] == p[from]);
    assert(segments(p, start, to) == (if from <= start {
        Seq::empty()
    } else {
        segments(p, start, from - 1)
    }).push(f));
    before_last(p, start, from);
    if at > start {
        segments_of_prefix(p, j, start, end);
    }
    assert(segments(j, start, m) =~= segments(p, start, to));
}

/// The segments before a segment are those up to the one before it.
proof fn before_last(p: Seq<char>, start: int, from: int)
    requires
        0 <= start <= from <= p.len(),
        from > start ==> p[from - 1] == '/',
    ensures
        from > start ==> segments(p, start, from) == segments(p, start, from - 1),
{
    if from > start {
        segment_begins(p, start, from, from);
    }
}

} // verus!
