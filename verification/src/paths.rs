//! Joining a file name onto a path, and taking the file name off one.
use crate::text::{seq_ends_with, seq_starts_with};
use vstd::prelude::*;

verus! {

/// A single plain path component: not empty, and without separators, drive colons,
/// or the special names `.` and `..`.
pub open spec fn plain_component(part: Seq<char>) -> bool {
    &&& part.len() > 0
    &&& part != "."@
    &&& part != ".."@
    &&& forall|i: int| 0 <= i < part.len() ==> #[trigger] part[i] != '/' && part[i] != '\\' && part[i] != ':'
}

/// A Windows verbatim path (`\\?\...`), which `PathBuf::push` normalises.
pub open spec fn verbatim(path: Seq<char>) -> bool {
    seq_starts_with(path, "\\\\?\\"@)
}

/// A Windows drive prefix on its own, such as `C:`.
pub open spec fn drive_prefix(base: Seq<char>) -> bool {
    base.len() == 2 && base[1] == ':' && (('a' <= base[0] <= 'z') || ('A' <= base[0] <= 'Z'))
}

/// A base that needs no separator before a further component: empty, ending in a
/// separator, or a bare drive prefix.
pub open spec fn needs_no_separator(base: Seq<char>) -> bool {
    ||| base.len() == 0
    ||| base.last() == '/'
    ||| base.last() == '\\'
    ||| drive_prefix(base)
}

/// `part` appended to `base`, with one path separator between them when `base`
/// needs one; with none when it ends in `/` or is empty.
pub open spec fn joined_with_separator(base: Seq<char>, part: Seq<char>, r: Seq<char>) -> bool {
    &&& (base.len() == 0 || base.last() == '/') ==> r == base + part
    &&& r == base + part ==> needs_no_separator(base)
    &&& {
        ||| r == base + part
        ||| r == base + seq!['/'] + part
        ||| r == base + seq!['\\'] + part
    }
}

/// `std::path::Path::join` with a plain component. Its documentation says that a
/// relative path without prefix or root is appended after a separator if one is
/// needed, that is unless the base is empty, already ends in a separator or is a
/// bare drive prefix; which separator is the platform's (`/` is one everywhere), and on Windows a verbatim base is
/// normalised first, so for such a base only the ending is stated.
#[verifier::external_body]
pub(crate) fn join_path(base: &str, part: &str) -> (r: String)
    requires
        plain_component(part@),
    ensures
        seq_ends_with(r@, part@),
        !verbatim(base@) ==> joined_with_separator(base@, part@, r@),
{
    std::path::Path::new(base).join(part).to_string_lossy().into_owned()
}

/// A path that no platform reads with a prefix other than a drive: it has no `\`
/// and does not start with `//` (Windows prefixes such as `\\server\share` or
/// `\\?\` start with two separators).
pub open spec fn without_share_prefix(path: Seq<char>) -> bool {
    !path.contains('\\') && !seq_starts_with(path, "//"@)
}

/// `std::path::Path::file_name` read as text: the final component of a path, none
/// where the path ends in `..` or has no final name. `/` separates components on
/// every platform (but in Windows verbatim paths), so a file name never holds one
/// there, and the plain component after the last `/` is the file name unless a
/// Windows share prefix could swallow it; which other characters separate
/// components is the platform's.
#[verifier::external_body]
pub(crate) fn file_name_of(path: &str) -> (r: Option<String>)
    ensures
        plain_component(path@) ==> (r is Some && r.unwrap()@ == path@),
        !verbatim(path@) && r is Some ==> !r.unwrap()@.contains('/'),
        without_share_prefix(path@) ==> forall|p: Seq<char>, f: Seq<char>|
            #![trigger p + seq!['/'] + f]
            path@ == p + seq!['/'] + f && plain_component(f) ==> (r is Some && r.unwrap()@ == f),
{
    std::path::Path::new(path).file_name().map(|name| name.to_string_lossy().into_owned())
}

} // verus!
