//! Paths within the versioned tree, and the names under which entries are
//! published.
//!
//! A path within the tree is a text whose components are separated by `/`.
//! Empty components and components that are a single `.` do not count.

use vstd::prelude::*;
use vstd::string::*;

verus! {

/// Where the last component of `path` begins: behind its last separator, or
/// at its start where it has none.
pub open spec fn component_start(path: Seq<char>) -> int
    decreases path.len(),
{
    if path.len() == 0 || path.last() == '/' {
        path.len() as int
    } else {
        component_start(path.drop_last())
    }
}

/// Whether the last component of `path` is a single `.`.
pub open spec fn ends_in_dot_component(path: Seq<char>) -> bool {
    &&& path.len() > 0
    &&& path.last() == '.'
    &&& (path.len() == 1 || path[path.len() - 2] == '/')
}

/// The file name of `path`: its last component that counts, unless that is
/// `..`, which names no file.
pub open spec fn file_name_of(path: Seq<char>) -> Option<Seq<char>>
    decreases path.len(),
{
    if path.len() == 0 {
        None
    } else if path.last() == '/' || ends_in_dot_component(path) {
        file_name_of(path.drop_last())
    } else {
        let name = path.skip(component_start(path));
        if name.len() == 2 && name[0] == '.' && name[1] == '.' {
            None
        } else {
            Some(name)
        }
    }
}

/// Where the last `.` of `name` stands, or `-1` where it has none.
pub open spec fn last_dot(name: Seq<char>) -> int
    decreases name.len(),
{
    if name.len() == 0 {
        -1
    } else if name.last() == '.' {
        name.len() - 1
    } else {
        last_dot(name.drop_last())
    }
}

/// The stem of a file name: what stands before its last `.`, or all of it
/// where it has no `.` or only the one it begins with.
pub open spec fn stem_of(name: Seq<char>) -> Seq<char> {
    if last_dot(name) > 0 {
        name.take(last_dot(name))
    } else {
        name
    }
}

/// The stem of the file that `path` names, if it names one.
pub open spec fn file_stem_of(path: Seq<char>) -> Option<Seq<char>> {
    match file_name_of(path) {
        Some(name) => Some(stem_of(name)),
        None => None,
    }
}

/// A stretch without a separator, behind a separator or the start, is the
/// last component.
proof fn lemma_component_start(path: Seq<char>, start: int)
    requires
        0 <= start <= path.len(),
        forall|j: int| start <= j < path.len() ==> path[j] != '/',
        start == 0 || path[start - 1] == '/',
    ensures
        component_start(path) == start,
    decreases path.len() - start,
{
    if start < path.len() {
        lemma_component_start(path.drop_last(), start);
    }
}

/// A `.` with none behind it is the last one.
proof fn lemma_last_dot(name: Seq<char>, dot: int)
    requires
        -1 <= dot < name.len(),
        forall|j: int| dot < j < name.len() ==> name[j] != '.',
        dot >= 0 ==> name[dot] == '.',
    ensures
        last_dot(name) == dot,
    decreases name.len(),
{
    if name.len() > 0 && dot < name.len() - 1 {
        lemma_last_dot(name.drop_last(), dot);
    }
}

/// The characters of `text`, one by one.
fn chars_of(text: &str) -> (chars: Vec<char>)
    ensures
        chars@ == text@,
{
    let mut chars: Vec<char> = Vec::new();
    for c in it: text.chars()
        invariant
            it.seq() == text@,
            chars@ == text@.take(it.index()),
    {
        chars.push(c);
    }
    chars
}

/// The stem of the file that `path` names: its file name without the
/// extension. `None` where the path names no file: where it is empty, holds
/// separators and `.` only, or ends in `..`.
pub fn file_stem(path: &str) -> (stem: Option<String>)
    ensures
        match stem {
            Some(text) => file_stem_of(path@) == Some(text@),
            None => file_stem_of(path@) is None,
        },
{
    let chars = chars_of(path);
    let mut end: usize = chars.len();
    assert(path@.take(end as int) =~= path@);
    while end > 0 && (chars[end - 1] == '/' || (chars[end - 1] == '.' && (end == 1 || chars[end
        - 2] == '/')))
        invariant
            end <= chars.len(),
            chars@ == path@,
            file_name_of(path@) == file_name_of(path@.take(end as int)),
        decreases end,
    {
        assert(path@.take(end as int).drop_last() =~= path@.take(end as int - 1));
        end -= 1;
    }
    if end == 0 {
        return None;
    }
    let mut start: usize = end;
    while start > 0 && chars[start - 1] != '/'
        invariant
            start <= end <= chars.len(),
            chars@ == path@,
            forall|j: int| start <= j < end ==> path@[j] != '/',
        decreases start,
    {
        start -= 1;
    }
    let ghost head = path@.take(end as int);
    let ghost name = head.skip(start as int);
    proof {
        lemma_component_start(head, start as int);
    }
    if end - start == 2 && chars[start] == '.' && chars[start + 1] == '.' {
        return None;
    }
    let mut dot: usize = end;
    while dot > start && chars[dot - 1] != '.'
        invariant
            start <= dot <= end <= chars.len(),
            chars@ == path@,
            forall|j: int| dot <= j < end ==> path@[j] != '.',
        decreases dot,
    {
        dot -= 1;
    }
    proof {
        lemma_last_dot(name, dot as int - 1 - start as int);
    }
    let stem_end = if dot > start + 1 {
        dot - 1
    } else {
        end
    };
    let stem = path.substring_char(start, stem_end);
    Some(stem.to_owned())
}

/// The slug of the entry at `path`: the stem of the file that it names.
pub fn path_to_slug(path: &str) -> (slug: String)
    requires
        file_stem_of(path@) is Some,
    ensures
        file_stem_of(path@) == Some(slug@),
{
    file_stem(path).unwrap()
}

/// The relative path that `pathdiff::diff_paths` constructs from `base` to
/// `path`, both given as text, or `None` where it constructs none.
///
/// `diff_paths` looks at nothing but its two arguments: it splits them into
/// components as `std::path` does and compares the components. It reads no
/// file system and no working directory.
pub uninterp spec fn diff_paths_of(path: Seq<char>, base: Seq<char>) -> Option<Seq<char>>;

/// Calls `pathdiff::diff_paths` on two paths given as text.
///
/// Not proved, but taken from `pathdiff`: the result is the path that
/// `diff_paths` returns for `path` and `base`, as text, and it is `None`
/// exactly where `diff_paths` returns `None`. What that path is, the
/// contract does not say. Both arguments are valid UTF-8, and the result is
/// made of their components and of `..`, so writing it as text loses
/// nothing.
#[verifier::external_body]
fn diff_paths(path: &str, base: &str) -> (relative: Option<String>)
    ensures
        match relative {
            Some(text) => diff_paths_of(path@, base@) == Some(text@),
            None => diff_paths_of(path@, base@) is None,
        },
{
    match pathdiff::diff_paths(path, base) {
        Some(relative) => Some(relative.to_string_lossy().into_owned()),
        None => None,
    }
}

/// Where `file` lies within the tree whose root is the directory `root`:
/// the path that leads from `root` to `file`, if one can be constructed.
pub fn tree_path(file: &str, root: &str) -> (path: Option<String>)
    ensures
        match path {
            Some(text) => diff_paths_of(file@, root@) == Some(text@),
            None => diff_paths_of(file@, root@) is None,
        },
{
    diff_paths(file, root)
}

} // verus!
