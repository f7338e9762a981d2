//! Paths as texts: their segments are separated by `/`.

use crate::text::{chars_of, has_prefix, holds_text, push_all, push_str, starts_with, string_views};
use vstd::prelude::*;

verus! {

/// The position of the last `c` in `s`, or -1 where `s` holds none.
pub open spec fn last_index_of(s: Seq<char>, c: char) -> int
    decreases s.len(),
{
    if s.len() == 0 {
        -1
    } else if s.last() == c {
        s.len() - 1
    } else {
        last_index_of(s.drop_last(), c)
    }
}

/// A position that holds `c` and that no `c` follows is the last one; and
/// where nothing from `at + 1` on is `c` and `at` is -1, there is none.
pub proof fn lemma_last_index_of(s: Seq<char>, c: char, at: int)
    requires
        -1 <= at < s.len(),
        at >= 0 ==> s[at] == c,
        forall|j: int| at < j < s.len() ==> #[trigger] s[j] != c,
    ensures
        last_index_of(s, c) == at,
    decreases s.len(),
{
    if s.len() > 0 && s.last() != c {
        let front = s.drop_last();
        assert forall|j: int| at < j < front.len() implies #[trigger] front[j] != c by {
            assert(front[j] == s[j]);
        }
        lemma_last_index_of(front, c, at);
    }
}

/// No `c` stands after the last `c` of `s`, which stands inside `s` where
/// there is one.
pub proof fn lemma_nothing_after_last(s: Seq<char>, c: char)
    ensures
        -1 <= last_index_of(s, c) < s.len(),
        last_index_of(s, c) >= 0 ==> s[last_index_of(s, c)] == c,
        forall|j: int| last_index_of(s, c) < j < s.len() ==> #[trigger] s[j] != c,
    decreases s.len(),
{
    if s.len() > 0 && s.last() != c {
        let front = s.drop_last();
        lemma_nothing_after_last(front, c);
        assert forall|j: int| last_index_of(s, c) < j < s.len() implies #[trigger] s[j] != c by {
            if j < front.len() {
                assert(front[j] == s[j]);
            }
        }
    }
}

/// The position after the last `c` in the part of `s` from `from` up to
/// `to`, or `from` where that part holds none.
fn after_last(s: &Vec<char>, from: usize, to: usize, c: char) -> (at: usize)
    requires
        from <= to <= s.len(),
    ensures
        from <= at <= to,
        at - from == last_index_of(s@.subrange(from as int, to as int), c) + 1,
{
    let ghost part = s@.subrange(from as int, to as int);
    let mut i: usize = to;
    while i > from && s[i - 1] != c
        invariant
            from <= i <= to <= s.len(),
            part == s@.subrange(from as int, to as int),
            forall|j: int| i - from <= j < part.len() ==> #[trigger] part[j] != c,
        decreases i,
    {
        i -= 1;
    }
    proof {
        lemma_last_index_of(part, c, i - from - 1);
    }
    i
}

/// The characters of `s` from `from` up to `to`.
fn part_of(s: &Vec<char>, from: usize, to: usize) -> (part: Vec<char>)
    requires
        from <= to <= s.len(),
    ensures
        part@ == s@.subrange(from as int, to as int),
{
    let mut part: Vec<char> = Vec::new();
    let mut i: usize = from;
    while i < to
        invariant
            from <= i <= to <= s.len(),
            part@ == s@.subrange(from as int, i as int),
        decreases to - i,
    {
        part.push(s[i]);
        i += 1;
        assert(part@ =~= s@.subrange(from as int, i as int));
    }
    part
}

/// The last segment of a path: what follows its last separator.
pub open spec fn last_segment(path: Seq<char>) -> Seq<char> {
    path.subrange(last_index_of(path, '/') + 1, path.len() as int)
}

/// The segment `.`, which stands for the directory it is in.
pub open spec fn is_current_dir(segment: Seq<char>) -> bool {
    segment.len() == 1 && segment[0] == '.'
}

/// The segment `..`, which stands for the directory above.
pub open spec fn is_parent_dir(segment: Seq<char>) -> bool {
    segment.len() == 2 && segment[0] == '.' && segment[1] == '.'
}

/// The file name of a path: its last segment that is neither empty nor `.`.
/// A path without such a segment has no file name, nor one in which that
/// segment is `..`. So separators at the end do not count, and neither does
/// a `.` after them.
pub open spec fn file_name(path: Seq<char>) -> Option<Seq<char>>
    decreases path.len(),
{
    let cut = last_index_of(path, '/');
    let segment = last_segment(path);
    if segment.len() == 0 || is_current_dir(segment) {
        if 0 <= cut < path.len() {
            file_name(path.subrange(0, cut))
        } else {
            None
        }
    } else if is_parent_dir(segment) {
        None
    } else {
        Some(segment)
    }
}

/// A file name is a segment of the path: it is not empty, it is neither `.`
/// nor `..`, and it holds no separator.
pub proof fn lemma_file_name_is_a_segment(path: Seq<char>)
    ensures
        file_name(path) matches Some(name) ==> {
            &&& name.len() > 0
            &&& !is_current_dir(name)
            &&& !is_parent_dir(name)
            &&& forall|i: int| 0 <= i < name.len() ==> #[trigger] name[i] != '/'
        },
    decreases path.len(),
{
    let cut = last_index_of(path, '/');
    let segment = last_segment(path);
    lemma_nothing_after_last(path, '/');
    if segment.len() == 0 || is_current_dir(segment) {
        if 0 <= cut < path.len() {
            lemma_file_name_is_a_segment(path.subrange(0, cut));
        }
    } else if !is_parent_dir(segment) {
        assert forall|i: int| 0 <= i < segment.len() implies #[trigger] segment[i] != '/' by {
            assert(segment[i] == path[cut + 1 + i]);
        }
    }
}

/// The name under which a path is shown: its file name, or `unknown` where
/// it has none.
pub open spec fn display_name(path: Seq<char>) -> Seq<char> {
    match file_name(path) {
        Some(name) => name,
        None => "unknown"@,
    }
}

/// The extension of a file name: what follows its last period. A name
/// without a period has none, nor one whose only period comes first.
pub open spec fn name_extension(name: Seq<char>) -> Option<Seq<char>> {
    let dot = last_index_of(name, '.');
    if dot <= 0 {
        None
    } else {
        Some(name.subrange(dot + 1, name.len() as int))
    }
}

/// The extension of a path: that of its file name.
pub open spec fn extension_of(path: Seq<char>) -> Option<Seq<char>> {
    match file_name(path) {
        Some(name) => name_extension(name),
        None => None,
    }
}

/// The path has one of the given extensions, character for character.
pub open spec fn has_extension(path: Seq<char>, extensions: Seq<Seq<char>>) -> bool {
    match extension_of(path) {
        Some(extension) => extensions.contains(extension),
        None => false,
    }
}

/// What the file name of the first `end` characters of a path is, given
/// where their last segment begins.
proof fn lemma_file_name_step(path: Seq<char>, start: int, end: int)
    requires
        0 <= start <= end <= path.len(),
        start - 1 == last_index_of(path.subrange(0, end), '/'),
    ensures
        last_segment(path.subrange(0, end)) == path.subrange(start, end),
        start > 0 ==> path.subrange(0, end).subrange(0, start - 1) == path.subrange(0, start - 1),
{
    let front = path.subrange(0, end);
    assert(front.subrange(start, end) =~= path.subrange(start, end));
    if start > 0 {
        assert(front.subrange(0, start - 1) =~= path.subrange(0, start - 1));
    }
}

/// The file name of a path, if it has one.
pub fn file_name_of(path: &Vec<char>) -> (name: Option<Vec<char>>)
    ensures
        match name {
            Some(found) => file_name(path@) == Some(found@),
            None => file_name(path@) is None,
        },
{
    let mut end: usize = path.len();
    proof {
        assert(path@.subrange(0, end as int) =~= path@);
    }
    loop
        invariant
            end <= path.len(),
            file_name(path@) == file_name(path@.subrange(0, end as int)),
        decreases end,
    {
        let start = after_last(path, 0, end, '/');
        let len = end - start;
        proof {
            lemma_file_name_step(path@, start as int, end as int);
        }
        if len == 0 || (len == 1 && path[start] == '.') {
            if start == 0 {
                return None;
            }
            end = start - 1;
        } else if len == 2 && path[start] == '.' && path[start + 1] == '.' {
            return None;
        } else {
            return Some(part_of(path, start, end));
        }
    }
}

/// The extension of a file name, if it has one.
pub fn extension_in(name: &Vec<char>) -> (extension: Option<Vec<char>>)
    ensures
        match extension {
            Some(found) => name_extension(name@) == Some(found@),
            None => name_extension(name@) is None,
        },
{
    assert(name@.subrange(0, name@.len() as int) =~= name@);
    let after_dot = after_last(name, 0, name.len(), '.');
    if after_dot <= 1 {
        None
    } else {
        Some(part_of(name, after_dot, name.len()))
    }
}

/// The name under which a path is shown.
pub fn shown_name(path: &Vec<char>) -> (name: Vec<char>)
    ensures
        name@ == display_name(path@),
{
    match file_name_of(path) {
        Some(name) => name,
        None => chars_of("unknown"),
    }
}

/// Tests whether a path has one of the given extensions.
pub fn matches_extension(path: &Vec<char>, extensions: &Vec<String>) -> (b: bool)
    ensures
        b == has_extension(path@, string_views(extensions@)),
{
    match file_name_of(path) {
        None => false,
        Some(name) => match extension_in(&name) {
            None => false,
            Some(extension) => holds_text(extensions, &extension),
        },
    }
}

/// A path without the `./` it may begin with.
pub open spec fn without_current_dir(path: Seq<char>) -> Seq<char> {
    if starts_with(path, "./"@) {
        path.subrange(2, path.len() as int)
    } else {
        path
    }
}

/// A path without the `./` it may begin with.
pub fn strip_current_dir(path: &Vec<char>) -> (stripped: Vec<char>)
    ensures
        stripped@ == without_current_dir(path@),
{
    let prefix = chars_of("./");
    proof {
        reveal_strlit("./");
    }
    if has_prefix(path, &prefix) {
        part_of(path, 2, path.len())
    } else {
        assert(path@.subrange(0, path@.len() as int) =~= path@);
        part_of(path, 0, path.len())
    }
}

/// The character that stands for `c` in the name of a page: a hyphen for a
/// period, an underscore for a separator.
pub open spec fn page_char(c: char) -> char {
    if c == '.' {
        '-'
    } else if c == '/' || c == '\\' {
        '_'
    } else {
        c
    }
}

/// The file name of the page for a source path: the path with its periods
/// and separators replaced, and `.html` after it.
pub open spec fn page_name(path: Seq<char>) -> Seq<char> {
    Seq::new(path.len(), |i: int| page_char(path[i])) + ".html"@
}

/// The file name of the page for a source path.
pub fn output_name(path: &Vec<char>) -> (name: Vec<char>)
    ensures
        name@ == page_name(path@),
{
    let mut name: Vec<char> = Vec::new();
    let mut i: usize = 0;
    while i < path.len()
        invariant
            i <= path.len(),
            name@ == Seq::new(i as nat, |k: int| page_char(path@[k])),
        decreases path.len() - i,
    {
        let c = path[i];
        let mapped = if c == '.' {
            '-'
        } else if c == '/' || c == '\\' {
            '_'
        } else {
            c
        };
        name.push(mapped);
        i += 1;
        assert(name@ =~= Seq::new(i as nat, |k: int| page_char(path@[k])));
    }
    push_str(&mut name, ".html");
    name
}

/// The path of the entry `name` in the directory `dir`. An empty `dir` is
/// the current directory, and a `dir` that ends with a separator gets no
/// second one.
pub open spec fn child_path(dir: Seq<char>, name: Seq<char>) -> Seq<char> {
    if dir.len() == 0 || dir.last() == '/' {
        dir + name
    } else {
        dir + "/"@ + name
    }
}

/// The path of the entry `name` in the directory `dir`.
pub fn join_path(dir: &Vec<char>, name: &Vec<char>) -> (path: Vec<char>)
    ensures
        path@ == child_path(dir@, name@),
{
    let mut path: Vec<char> = Vec::new();
    push_all(&mut path, dir);
    if dir.len() > 0 && dir[dir.len() - 1] != '/' {
        push_str(&mut path, "/");
    }
    push_all(&mut path, name);
    assert(path@ =~= child_path(dir@, name@));
    path
}

} // verus!
