//! Which file is the program's entry file: the one named `main.zed`.

use vstd::prelude::*;
use crate::text::ends_with;

verus! {

/// Whether a character ends a component of a path on some platform: the
/// slash everywhere, the backslash and the colon of a drive on Windows.
pub open spec fn is_separator(c: char) -> bool {
    c == '/' || c == '\\' || c == ':'
}

/// Whether a text stands in a path where a component can begin: at the
/// start of the path, or after a separator.
pub open spec fn begins_component(part: Seq<char>, path: Seq<char>) -> bool {
    exists|i: int|
        0 <= i && i + part.len() <= path.len() && #[trigger] path.subrange(i, i + part.len())
            == part && (i == 0 || is_separator(path[i - 1]))
}

/// Whether every platform reads a path alike: it holds neither a backslash
/// nor a colon, and it does not start with two slashes, which on Windows
/// open the name of a server and its share.
pub open spec fn is_portable(path: Seq<char>) -> bool {
    &&& forall|j: int| 0 <= j < path.len() ==> path[j] != '\\' && path[j] != ':'
    &&& !(path.len() >= 2 && path[0] == '/' && path[1] == '/')
}

/// Whether a text can be the name of a file: it is not empty, it is neither
/// `.` nor `..`, and it holds no slash.
pub open spec fn is_file_name(name: Seq<char>) -> bool {
    name.len() > 0 && name != seq!['.'] && name != seq!['.', '.'] && forall|j: int|
        0 <= j < name.len() ==> name[j] != '/'
}

/// Whether a portable path ends in the file name `name`: it is the name, or
/// it ends with a slash and the name.
pub open spec fn names_file(path: Seq<char>, name: Seq<char>) -> bool {
    is_portable(path) && is_file_name(name) && (path == name || ends_with(
        path,
        seq!['/'] + name,
    ))
}

/// `Path::file_name` of the standard library: the final component of a
/// path, if it has one. Where the components of a path begin and end depends
/// on the platform. The claims are what holds on each of them. A name that
/// is returned is a component of the path: it stands in the path as it is,
/// at the start or after a slash, a backslash or a colon. And a path that
/// every platform reads alike, and that is a file name or ends with a slash
/// and a file name, has that name as its final component.
#[verifier::external_body]
fn file_name(path: &str) -> (name: Option<String>)
    ensures
        name matches Some(text) ==> begins_component(text@, path@),
        match name {
            Some(text) => forall|last: Seq<char>| #[trigger]
                names_file(path@, last) ==> text@ == last,
            None => forall|last: Seq<char>| !#[trigger] names_file(path@, last),
        },
{
    match std::path::Path::new(path).file_name() {
        Some(name) => match name.to_str() {
            Some(text) => Some(text.to_string()),
            None => None,
        },
        None => None,
    }
}

/// Whether a file name is that of the entry file.
pub fn is_main_name(name: Option<&str>) -> (main: bool)
    ensures
        main == (name matches Some(text) && text@ == "main.zed"@),
{
    match name {
        Some(text) => *text == *"main.zed",
        None => false,
    }
}

/// Whether a path names the entry file: its final component is `main.zed`.
///
/// Which part of a path is its final component is the platform's to say.
/// On every platform, a path that is taken for the entry file holds
/// `main.zed` at the start or after a separator; and a path that every
/// platform reads alike is taken for the entry file if it is `main.zed` or
/// ends with `/main.zed`.
pub fn is_main_file(filepath: &str) -> (main: bool)
    ensures
        main ==> begins_component("main.zed"@, filepath@),
        is_portable(filepath@) && (filepath@ == "main.zed"@ || ends_with(
            filepath@,
            "/main.zed"@,
        )) ==> main,
{
    proof {
        reveal_strlit("main.zed");
        reveal_strlit("/main.zed");
        assert(seq!['/'] + "main.zed"@ =~= "/main.zed"@);
        assert(is_file_name("main.zed"@)) by {
            assert("main.zed"@[0] == 'm');
        }
        if is_portable(filepath@) && (filepath@ == "main.zed"@ || ends_with(
            filepath@,
            "/main.zed"@,
        )) {
            assert(names_file(filepath@, "main.zed"@));
        }
    }
    match file_name(filepath) {
        Some(name) => is_main_name(Some(name.as_str())),
        None => is_main_name(None),
    }
}

} // verus!
