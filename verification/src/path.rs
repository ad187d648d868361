//! Joining file system paths held as text.
use vstd::prelude::*;

use crate::text::{ends_with_char, has_prefix, starts_with};

verus! {

/// `base` joined with `name` as `Path::join` joins them on Unix: an
/// absolute `name` replaces `base`; otherwise a separator goes between the
/// two unless `base` is empty or already ends with one.
pub open spec fn joined(base: Seq<char>, name: Seq<char>) -> Seq<char> {
    if has_prefix(name, "/"@) {
        name
    } else if base.len() == 0 || base.last() == '/' {
        base + name
    } else {
        base + "/"@ + name
    }
}

/// `base` joined with `name`, as `Path::join` joins them on Unix.
pub fn join_path(base: &str, name: &str) -> (r: String)
    ensures
        r@ == joined(base@, name@),
{
    if starts_with(name, "/") {
        return name.to_owned();
    }
    let mut r = base.to_owned();
    if !(base.unicode_len() == 0 || ends_with_char(base, '/')) {
        r.append("/");
    }
    r.append(name);
    r
}

} // verus!
