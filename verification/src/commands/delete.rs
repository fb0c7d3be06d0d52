//! `delete`: the printed outcome.
use vstd::prelude::*;
use crate::output::DeleteResult;

verus! {

/// `Deleted PATH`, with ` (recursive)` after a recursive delete.
pub open spec fn spec_delete_text(r: DeleteResult) -> Seq<char> {
    "Deleted "@ + r.path@ + if r.recursive {
        " (recursive)"@
    } else {
        Seq::empty()
    }
}

/// Prints the result of `delete`.
pub fn format_human(r: &DeleteResult) -> (out: String)
    ensures
        out@ == spec_delete_text(*r),
{
    let mut s = "Deleted ".to_owned();
    s.append(r.path.as_str());
    if r.recursive {
        s.append(" (recursive)");
    }
    assert(s@ =~= spec_delete_text(*r));
    s
}

} // verus!
