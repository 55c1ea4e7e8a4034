//! Unix paths as text.

use vstd::prelude::*;

verus! {

/// A path with a relative name below it.
pub open spec fn below(base: Seq<char>, name: Seq<char>) -> Seq<char> {
    if base.len() == 0 || base.last() == '/' {
        base + name
    } else {
        base + "/"@ + name
    }
}

/// Whether a path starts at the root.
pub open spec fn absolute(path: Seq<char>) -> bool {
    path.len() > 0 && path[0] == '/'
}

/// A path with a relative name below it.
pub fn join_path(base: &str, name: &str) -> (r: String)
    ensures
        r@ == below(base@, name@),
{
    let mut out = String::new();
    out.append(base);
    let length: usize = base.unicode_len();
    if length > 0 && base.get_char(length - 1) != '/' {
        out.append("/");
    }
    out.append(name);
    assert(out@ =~= below(base@, name@));
    out
}

/// Whether a path starts at the root.
pub fn is_absolute(path: &str) -> (r: bool)
    ensures
        r == absolute(path@),
{
    path.unicode_len() > 0 && path.get_char(0) == '/'
}

} // verus!
