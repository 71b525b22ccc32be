//! Paths on the card as the device firmware joins them.
use vstd::prelude::*;
use vstd::string::StrSliceExecFns;
use vstd::string::StringExecFns;
use crate::fs::PATH_CAPACITY;
use crate::fs::PathError;
use crate::fs::joined_path;
use crate::fs::lemma_slash_literal;
use crate::fs::trim_end_slashes_str;
use crate::fs::trim_start_slashes_str;

verus! {

/// `child` inside `parent`: the parent made absolute without its trailing
/// `/`, one `/`, and the child without its leading `/`, not normalized;
/// `TooLong` once it would exceed the path capacity.
pub fn join_child_path(parent: &str, child: &str) -> (r: Result<String, PathError>)
    ensures
        match r {
            Ok(s) => joined_path(parent@, child@) == Some(s@),
            Err(e) => joined_path(parent@, child@) is None && e == PathError::TooLong,
        },
{
    proof {
        lemma_slash_literal();
    }
    let mut path = String::new();
    if !(parent.unicode_len() > 0 && parent.get_char(0) == '/') {
        path.append("/");
    }
    let ghost p0 = path@;
    let pt = trim_end_slashes_str(parent);
    let piece: &str = if pt.unicode_len() == 0 { "/" } else { pt };
    let used = path.as_str().as_bytes().len();
    if used > PATH_CAPACITY || piece.as_bytes().len() > PATH_CAPACITY - used {
        return Err(PathError::TooLong);
    }
    path.append(piece);
    let ghost p1 = path@;
    let plen = path.as_str().unicode_len();
    let needs_slash = !(plen > 0 && path.as_str().get_char(plen - 1) == '/');
    if needs_slash {
        if path.as_str().as_bytes().len() >= PATH_CAPACITY {
            return Err(PathError::TooLong);
        }
        path.append("/");
        assert(path@ =~= p1.push('/'));
    }
    let ct = trim_start_slashes_str(child);
    let used2 = path.as_str().as_bytes().len();
    if used2 > PATH_CAPACITY || ct.as_bytes().len() > PATH_CAPACITY - used2 {
        return Err(PathError::TooLong);
    }
    path.append(ct);
    assert(joined_path(parent@, child@) == Some(path@));
    Ok(path)
}

} // verus!
