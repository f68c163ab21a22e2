//! File system paths as text.

use crate::text::{cat, cat3, chars_of, owned};
use vstd::prelude::*;

verus! {

/// `rest` seen from `base`: an absolute path stands for itself; any other is
/// put behind `base`, with a slash between them where `base` has none.
pub open spec fn path_joined(base: Seq<char>, rest: Seq<char>) -> Seq<char> {
    if rest.len() > 0 && rest[0] == '/' {
        rest
    } else if base.len() == 0 || base.last() == '/' {
        base + rest
    } else {
        base + "/"@ + rest
    }
}

/// Joins two paths.
pub fn join_path(base: &str, rest: &str) -> (r: String)
    ensures
        r@ == path_joined(base@, rest@),
{
    let b = chars_of(base);
    let c = chars_of(rest);
    if c.len() > 0 && c[0] == '/' {
        owned(rest)
    } else if b.len() == 0 || b[b.len() - 1] == '/' {
        cat(base, rest)
    } else {
        cat3(base, "/", rest)
    }
}

} // verus!
