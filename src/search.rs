use vstd::prelude::*;
use crate::text::{chars_of, fields, push_all, split_char, views};

verus! {

/// `name` placed in directory `dir`, as `Path::join` does it: an absolute name stands
/// alone, an empty directory adds nothing, and a separator is added when missing.
pub open spec fn joined_path(dir: Seq<char>, name: Seq<char>) -> Seq<char> {
    if name.len() > 0 && name[0] == '/' {
        name
    } else if dir.len() == 0 {
        name
    } else if dir.last() == '/' {
        dir + name
    } else {
        dir.push('/') + name
    }
}

pub fn join_path(dir: &str, name: &str) -> (r: String)
    ensures
        r@ == joined_path(dir@, name@),
{
    let d = chars_of(dir);
    let n = chars_of(name);
    if n.len() > 0 && n[0] == '/' {
        return name.to_owned();
    }
    let mut r = dir.to_owned();
    if d.len() > 0 && d[d.len() - 1] != '/' {
        r.push('/');
    }
    push_all(&mut r, name);
    r
}

/// The directories of a search-path value, separated by `:`, in order.
pub fn search_dirs(path_var: &str) -> (r: Vec<String>)
    ensures
        views(r@) == fields(path_var@, ':'),
{
    split_char(path_var, ':')
}

/// The paths where `name` is looked for, one per search-path directory, in order.
pub fn candidate_paths(path_var: &str, name: &str) -> (r: Vec<String>)
    ensures
        r@.len() == fields(path_var@, ':').len(),
        forall|k: int|
            0 <= k < r@.len() ==> (#[trigger] r@[k])@ == joined_path(
                fields(path_var@, ':')[k],
                name@,
            ),
{
    let dirs = search_dirs(path_var);
    let mut r: Vec<String> = Vec::new();
    let mut i: usize = 0;
    while i < dirs.len()
        invariant
            views(dirs@) == fields(path_var@, ':'),
            i <= dirs@.len(),
            r@.len() == i,
            forall|k: int|
                0 <= k < i ==> (#[trigger] r@[k])@ == joined_path(
                    fields(path_var@, ':')[k],
                    name@,
                ),
        decreases dirs@.len() - i,
    {
        assert(views(dirs@)[i as int] == dirs@[i as int]@);
        r.push(join_path(dirs[i].as_str(), name));
        i = i + 1;
    }
    r
}

/// The message for a command that is neither a builtin nor on the search path.
pub fn command_not_found(name: &str) -> (r: String)
    ensures
        r@ == name@ + ": command not found"@,
{
    let mut r = name.to_owned();
    push_all(&mut r, ": command not found");
    r
}

} // verus!
