//! Paths as text, with `/` between the components.

use vstd::prelude::*;
use vstd::string::*;
use crate::name::{is_directory_name, is_separator};

verus! {

/// `root` as the start of the paths below it: `root` itself where it is empty or
/// ends in `/`, else `root` followed by `/`.
pub open spec fn dir_prefix(root: Seq<char>) -> Seq<char> {
    if root.len() == 0 || root.last() == '/' {
        root
    } else {
        root.push('/')
    }
}

/// Whether `name` is an absolute path: it starts with `/`.
pub open spec fn is_absolute(name: Seq<char>) -> bool {
    name.len() > 0 && name[0] == '/'
}

/// The path of `name` under `root`. An absolute `name` takes the place of `root`;
/// any other is put behind `root`, with one `/` between them.
pub open spec fn joined(root: Seq<char>, name: Seq<char>) -> Seq<char> {
    if is_absolute(name) {
        name
    } else {
        dir_prefix(root) + name
    }
}

/// Whether `path` is a directory directly under `root`: `root`, a separator where
/// `root` does not end in one, and a directory name.
pub open spec fn is_child_of(path: Seq<char>, root: Seq<char>) -> bool {
    exists|name: Seq<char>| is_directory_name(name) && path == dir_prefix(root) + name
}

/// The path of `name` under `root`.
pub fn join(root: &str, name: &str) -> (path: String)
    ensures
        path@ == joined(root@, name@),
{
    let name_len = name.unicode_len();
    if name_len > 0 && name.get_char(0) == '/' {
        return String::from_str(name);
    }
    let root_len = root.unicode_len();
    let mut path = String::from_str(root);
    if root_len > 0 && root.get_char(root_len - 1) != '/' {
        path.push('/');
    }
    path.append(name);
    path
}

/// A directory name joined to a root gives a directory directly under the root.
pub proof fn lemma_join_directory_name(root: Seq<char>, name: Seq<char>)
    requires
        is_directory_name(name),
    ensures
        joined(root, name) == dir_prefix(root) + name,
        is_child_of(joined(root, name), root),
{
    assert(!is_separator(name[0]));
}

/// Under one root, different relative names give different paths.
pub proof fn lemma_join_is_injective(root: Seq<char>, a: Seq<char>, b: Seq<char>)
    requires
        !is_absolute(a),
        !is_absolute(b),
        joined(root, a) == joined(root, b),
    ensures
        a == b,
{
    let prefix = dir_prefix(root);
    assert((prefix + a).skip(prefix.len() as int) =~= a);
    assert((prefix + b).skip(prefix.len() as int) =~= b);
}

} // verus!
