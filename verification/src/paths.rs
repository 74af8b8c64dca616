//! File paths, as texts with slashes between their parts.
//!
//! A part that is a single dot counts for nothing, except at the very start,
//! and neither do doubled slashes.
use vstd::prelude::*;

use crate::text;
use crate::text::{join2, join3};

verus! {

/// Whether a path starts at the root.
pub open spec fn absolute(path: Seq<char>) -> bool {
    path.len() > 0 && path[0] == '/'
}

/// A path taken as seen from a directory.
pub open spec fn joined(dir: Seq<char>, path: Seq<char>) -> Seq<char> {
    if absolute(path) {
        path
    } else if dir.len() == 0 || dir.last() == '/' {
        dir + path
    } else {
        dir + "/"@ + path
    }
}

/// A path without the slashes and single dots that it ends in.
pub open spec fn stripped(path: Seq<char>) -> Seq<char>
    decreases path.len(),
{
    if path.len() > 0 && path.last() == '/' {
        stripped(path.drop_last())
    } else if path.len() > 1 && path.last() == '.' && path[path.len() - 2] == '/' {
        stripped(path.drop_last())
    } else {
        path
    }
}

/// How many characters stand after the last slash.
pub open spec fn tail_len(path: Seq<char>) -> int
    decreases path.len(),
{
    if path.len() == 0 || path.last() == '/' {
        0
    } else {
        1 + tail_len(path.drop_last())
    }
}

/// The last part of a path that `stripped` has nothing to take from.
pub open spec fn last_part(path: Seq<char>) -> Seq<char> {
    path.skip(path.len() - tail_len(path))
}

/// The directory that holds what a path names. The root has none.
pub open spec fn parent(path: Seq<char>) -> Option<Seq<char>> {
    let whole = stripped(path);
    let dir = stripped(whole.take(whole.len() - tail_len(whole)));
    if whole.len() == 0 {
        None
    } else if dir.len() == 0 && absolute(path) {
        Some("/"@)
    } else {
        Some(dir)
    }
}

/// The name of the file that a path names, if it names one.
pub open spec fn file_name(path: Seq<char>) -> Option<Seq<char>> {
    let whole = stripped(path);
    let name = last_part(whole);
    if whole.len() == 0 || name == "."@ || name == ".."@ {
        None
    } else {
        Some(name)
    }
}

/// How many characters stand before the last dot, or all of them where there
/// is no dot or nothing before it.
pub open spec fn stem_len(name: Seq<char>) -> int {
    let cut = before_last_dot(name);
    if cut <= 0 {
        name.len() as int
    } else {
        cut
    }
}

/// How many characters stand before the last dot, or less than none.
pub open spec fn before_last_dot(name: Seq<char>) -> int
    decreases name.len(),
{
    if name.len() == 0 {
        -1
    } else if name.last() == '.' {
        name.len() - 1
    } else {
        before_last_dot(name.drop_last())
    }
}

/// The name of the file without its extension.
pub open spec fn file_stem(path: Seq<char>) -> Option<Seq<char>> {
    match file_name(path) {
        None => None,
        Some(name) => Some(name.take(stem_len(name))),
    }
}

/// The path with the name of its file replaced, or added where it has none.
pub open spec fn with_file_name(path: Seq<char>, name: Seq<char>) -> Seq<char> {
    match (file_name(path), parent(path)) {
        (Some(_), Some(dir)) => joined(dir, name),
        _ => joined(path, name),
    }
}

/// Whether a path starts at the root.
pub fn is_absolute(path: &str) -> (result: bool)
    ensures
        result == absolute(path@),
{
    if path.unicode_len() == 0 {
        return false;
    }
    path.get_char(0) == '/'
}

/// Takes a path as seen from a directory.
pub fn join_path(dir: &str, path: &str) -> (result: String)
    ensures
        result@ == joined(dir@, path@),
{
    if is_absolute(path) {
        return path.to_owned();
    }
    let len: usize = dir.unicode_len();
    if len == 0 || dir.get_char(len - 1) == '/' {
        join2(dir, path)
    } else {
        join3(dir, "/", path)
    }
}

/// Finds where the part of a path that counts ends.
fn stripped_end(path: &str, end: usize) -> (result: usize)
    requires
        end <= path@.len(),
    ensures
        result <= end,
        path@.take(result as int) == stripped(path@.take(end as int)),
{
    let mut e: usize = end;
    loop
        invariant
            e <= end <= path@.len(),
            stripped(path@.take(e as int)) == stripped(path@.take(end as int)),
        ensures
            e <= end,
            path@.take(e as int) == stripped(path@.take(end as int)),
        decreases e,
    {
        let ghost head = path@.take(e as int);
        proof {
            assert(e > 0 ==> head.last() == path@[e - 1]);
            assert(e > 1 ==> head[e - 2] == path@[e - 2]);
            assert(e > 0 ==> head.drop_last() =~= path@.take(e - 1));
        }
        if e > 0 && path.get_char(e - 1) == '/' {
            e = e - 1;
        } else if e > 1 && path.get_char(e - 1) == '.' && path.get_char(e - 2) == '/' {
            e = e - 1;
        } else {
            break;
        }
    }
    e
}

/// Finds where the last part of a path starts.
fn tail_start(path: &str, end: usize) -> (result: usize)
    requires
        end <= path@.len(),
    ensures
        result <= end,
        result == end - tail_len(path@.take(end as int)),
{
    let mut s: usize = end;
    loop
        invariant
            s <= end <= path@.len(),
            tail_len(path@.take(end as int)) == end - s + tail_len(path@.take(s as int)),
        ensures
            s <= end,
            s == end - tail_len(path@.take(end as int)),
        decreases s,
    {
        let ghost head = path@.take(s as int);
        proof {
            assert(s > 0 ==> head.last() == path@[s - 1]);
            assert(s > 0 ==> head.drop_last() =~= path@.take(s - 1));
        }
        if s == 0 || path.get_char(s - 1) == '/' {
            break;
        }
        s = s - 1;
    }
    s
}

/// The directory that holds what a path names.
pub fn parent_path(path: &str) -> (result: Option<String>)
    ensures
        crate::options::text_option(result) == parent(path@),
{
    let len: usize = path.unicode_len();
    proof {
        assert(path@.take(len as int) =~= path@);
    }
    let end: usize = stripped_end(path, len);
    if end == 0 {
        return None;
    }
    let start: usize = tail_start(path, end);
    proof {
        assert(path@.take(end as int).take(start as int) =~= path@.take(start as int));
    }
    let dir_end: usize = stripped_end(path, start);
    if dir_end == 0 && is_absolute(path) {
        return Some("/".to_owned());
    }
    let dir = path.substring_char(0, dir_end);
    assert(dir@ =~= path@.take(dir_end as int));
    Some(dir.to_owned())
}

/// The name of the file that a path names.
pub fn file_name_of(path: &str) -> (result: Option<String>)
    ensures
        crate::options::text_option(result) == file_name(path@),
{
    let len: usize = path.unicode_len();
    proof {
        assert(path@.take(len as int) =~= path@);
    }
    let end: usize = stripped_end(path, len);
    if end == 0 {
        return None;
    }
    let start: usize = tail_start(path, end);
    let name = path.substring_char(start, end);
    proof {
        assert(name@ =~= last_part(path@.take(end as int)));
    }
    if text::same(name, ".") || text::same(name, "..") {
        return None;
    }
    Some(name.to_owned())
}

/// The name of the file without its extension.
pub fn file_stem_of(path: &str) -> (result: Option<String>)
    ensures
        crate::options::text_option(result) == file_stem(path@),
{
    match file_name_of(path) {
        None => None,
        Some(name) => {
            let s = name.as_str();
            let len: usize = s.unicode_len();
            let mut i: usize = len;
            proof {
                assert(s@.take(len as int) =~= s@);
            }
            loop
                invariant
                    i <= len,
                    len == s@.len(),
                    before_last_dot(s@) == before_last_dot(s@.take(i as int)),
                ensures
                    i <= len,
                    i == 0 ==> before_last_dot(s@) < 0,
                    i > 0 ==> before_last_dot(s@) == i - 1,
                decreases i,
            {
                let ghost head = s@.take(i as int);
                proof {
                    assert(i > 0 ==> head.last() == s@[i - 1]);
                    assert(i > 0 ==> head.drop_last() =~= s@.take(i - 1));
                }
                if i == 0 || s.get_char(i - 1) == '.' {
                    break;
                }
                i = i - 1;
            }
            let cut: usize = if i <= 1 {
                len
            } else {
                i - 1
            };
            let stem = s.substring_char(0, cut);
            assert(stem@ =~= name@.take(stem_len(name@)));
            Some(stem.to_owned())
        },
    }
}

/// Replaces the name of the file that a path names.
pub fn replace_file_name(path: &str, name: &str) -> (result: String)
    ensures
        result@ == with_file_name(path@, name@),
{
    match (file_name_of(path), parent_path(path)) {
        (Some(_), Some(dir)) => join_path(dir.as_str(), name),
        _ => join_path(path, name),
    }
}

proof fn lemma_tail(dir: Seq<char>, name: Seq<char>)
    requires
        dir.len() == 0 || dir.last() == '/',
        forall|i: int| 0 <= i < name.len() ==> #[trigger] name[i] != '/',
    ensures
        tail_len(dir + name) == name.len(),
    decreases name.len(),
{
    let path = dir + name;
    if name.len() == 0 {
        assert(path =~= dir);
    } else {
        let rest = name.drop_last();
        assert(path.last() == name.last());
        assert(name[name.len() - 1] != '/');
        assert(path.drop_last() =~= dir + rest);
        assert forall|i: int| 0 <= i < rest.len() implies #[trigger] rest[i] != '/' by {
            assert(name[i] != '/');
        }
        lemma_tail(dir, rest);
    }
}

proof fn lemma_stripped_shorter(path: Seq<char>)
    ensures
        stripped(path).len() <= path.len(),
    decreases path.len(),
{
    if path.len() > 0 && (path.last() == '/' || (path.len() > 1 && path.last() == '.'
        && path[path.len() - 2] == '/')) {
        lemma_stripped_shorter(path.drop_last());
    }
}

/// A name that is joined to a directory is the name of the file there, and the
/// directory is around it.
pub proof fn joined_names_come_back(dir: Seq<char>, name: Seq<char>)
    requires
        name.len() > 0,
        forall|i: int| 0 <= i < name.len() ==> #[trigger] name[i] != '/',
        name != "."@,
        name != ".."@,
        stripped(dir) == dir,
        dir.len() > 0,
    ensures
        file_name(joined(dir, name)) == Some(name),
        parent(joined(dir, name)) == Some(dir),
{
    reveal_strlit("/");
    reveal_strlit(".");
    let path = joined(dir, name);
    assert(name[0] != '/');
    if dir.last() == '/' {
        lemma_stripped_shorter(dir.drop_last());
    }
    assert(dir.last() != '/');
    let front = dir + "/"@;
    assert(path =~= front + name);
    assert(path.last() == name.last());
    assert(name[name.len() - 1] != '/');
    if path.last() == '.' && path[path.len() - 2] == '/' {
        if name.len() > 1 {
            assert(path[path.len() - 2] == name[name.len() - 2]);
        }
        assert(name.len() == 1);
        assert(name =~= "."@);
    }
    assert(stripped(path) == path);
    assert(front.last() == '/');
    lemma_tail(front, name);
    assert(path.skip(path.len() - tail_len(path)) =~= name);
    assert(path.take(path.len() - tail_len(path)) =~= front);
    assert(front.drop_last() =~= dir);
    assert(stripped(front) == stripped(front.drop_last()));
    assert(stripped(front) == dir);
}

proof fn lemma_last_dot(stem: Seq<char>, ending: Seq<char>)
    requires
        forall|i: int| 0 <= i < ending.len() ==> #[trigger] ending[i] != '.',
    ensures
        before_last_dot(stem.push('.') + ending) == stem.len(),
    decreases ending.len(),
{
    let name = stem.push('.') + ending;
    if ending.len() == 0 {
        assert(name.last() == '.');
    } else {
        let rest = ending.drop_last();
        assert(name.last() == ending.last());
        assert(ending[ending.len() - 1] != '.');
        assert(name.drop_last() =~= stem.push('.') + rest);
        assert forall|i: int| 0 <= i < rest.len() implies #[trigger] rest[i] != '.' by {
            assert(ending[i] != '.');
        }
        lemma_last_dot(stem, rest);
    }
}

/// The stem of a name is what stands before its last dot.
pub proof fn stems_end_at_the_last_dot(stem: Seq<char>, ending: Seq<char>)
    requires
        stem.len() > 0,
        forall|i: int| 0 <= i < ending.len() ==> #[trigger] ending[i] != '.',
    ensures
        ({
            let name = stem.push('.') + ending;
            name.take(stem_len(name)) == stem
        }),
{
    let name = stem.push('.') + ending;
    lemma_last_dot(stem, ending);
    assert(name.take(stem.len() as int) =~= stem);
}

/// A path that starts at the root stays as it is, whatever it is joined to. Any other
/// is put behind what it is joined to.
pub proof fn absolute_paths_stay(dir: &str, path: &str, result: String)
    requires
        call_ensures(join_path, (dir, path), result),
    ensures
        path@.len() > 0 && path@[0] == '/' ==> result@ == path@,
        !(path@.len() > 0 && path@[0] == '/') ==> {
            &&& dir@.is_prefix_of(result@)
            &&& path@.is_suffix_of(result@)
            &&& dir@.len() + path@.len() <= result@.len() <= dir@.len() + path@.len() + 1
            &&& dir@.len() > 0 ==> result@[result@.len() - path@.len() - 1] == '/'
            &&& dir@.len() == 0 ==> result@ == path@
        },
{
    reveal_strlit("/");
    if dir@.len() == 0 {
        assert(dir@ + path@ =~= path@);
    }
}

} // verus!
