//! Paths as text: pushing one path onto another, and making a path
//! absolute.

use vstd::prelude::*;
use crate::text::chars_of;

verus! {

/// A path is absolute when it begins with `/`.
pub open spec fn is_absolute(path: Seq<char>) -> bool {
    path.len() > 0 && path[0] == '/'
}

/// `rel` pushed onto `base` (`PathBuf::push`): an absolute `rel` replaces
/// `base`; else `rel` follows `base`, with one `/` between them unless
/// `base` is empty or already ends with `/`.
pub open spec fn joined_path(base: Seq<char>, rel: Seq<char>) -> Seq<char> {
    if is_absolute(rel) {
        rel
    } else if base.len() == 0 {
        rel
    } else if base.last() == '/' {
        base + rel
    } else {
        base + seq!['/'] + rel
    }
}

/// Pushes `rel` onto `base` (`Path::join`), as `joined_path` states.
pub fn join_path(base: &str, rel: &str) -> (r: String)
    ensures
        r@ == joined_path(base@, rel@),
{
    let base_chars = chars_of(base);
    let mut out = String::new();
    if starts_with_slash(rel) {
        out.append(rel);
        return out;
    }
    if base_chars.len() > 0 {
        out.append(base);
        if base_chars[base_chars.len() - 1] != '/' {
            out.append("/");
        }
    }
    out.append(rel);
    proof {
        reveal_strlit("/");
        assert(out@ =~= joined_path(base@, rel@));
    }
    out
}

/// A relative path made of plain components: not empty, and no component
/// is empty (no leading, trailing or doubled `/`) or `.`.
pub open spec fn plain_relative(path: Seq<char>) -> bool {
    &&& path.len() > 0
    &&& path[0] != '/'
    &&& path.last() != '/'
    &&& forall|i: int| 0 <= i < path.len() - 1 ==> !(path[i] == '/' && #[trigger] path[i + 1] == '/')
    &&& path != seq!['.']
    &&& !(path.len() >= 2 && path[0] == '.' && path[1] == '/')
    &&& !(path.len() >= 2 && path[path.len() - 2] == '/' && path.last() == '.')
    &&& forall|i: int| 0 <= i < path.len() - 2 ==> !(path[i] == '/' && path[i + 1] == '.' && #[trigger] path[i + 2] == '/')
}

/// `s` ends with `suffix`.
pub open spec fn has_suffix(s: Seq<char>, suffix: Seq<char>) -> bool {
    suffix.len() <= s.len() && s.subrange(s.len() - suffix.len(), s.len() as int) == suffix
}

/// `std::path::absolute`: the path made absolute against the current
/// directory. The current directory is not an argument, so the result is
/// stated as far as every outcome allows: it is an absolute path; an empty
/// path is refused; and a relative path of plain components, which the
/// resolution leaves as it is, ends the result after a `/`. A result that
/// is not valid UTF-8 is reported as a failure.
#[verifier::external_body]
pub(crate) fn absolute_path(path: &str) -> (r: Option<String>)
    ensures
        r matches Some(p) ==> is_absolute(p@),
        path@.len() == 0 ==> r is None,
        plain_relative(path@) ==> (r matches Some(p) ==> has_suffix(p@, seq!['/'] + path@)),
{
    match std::path::absolute(path) {
        Ok(p) => p.into_os_string().into_string().ok(),
        Err(_) => None,
    }
}

/// Whether a path is absolute.
pub fn starts_with_slash(path: &str) -> (r: bool)
    ensures
        r == is_absolute(path@),
{
    let chars = chars_of(path);
    chars.len() > 0 && chars[0] == '/'
}

} // verus!
