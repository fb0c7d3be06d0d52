//! `cp`: the printed outcome, and the skipping of ephemeral sources.
use vstd::prelude::*;
use crate::output::CpResult;

verus! {

/// `Copied SRC -> DST`, with ` (recursive)` after a recursive copy.
pub open spec fn spec_cp_text(r: CpResult) -> Seq<char> {
    "Copied "@ + r.src@ + " -> "@ + r.dst@ + if r.recursive {
        " (recursive)"@
    } else {
        Seq::empty()
    }
}

/// Prints the result of `cp`.
pub fn format_human(r: &CpResult) -> (out: String)
    ensures
        out@ == spec_cp_text(*r),
{
    let mut s = "Copied ".to_owned();
    s.append(r.src.as_str());
    s.append(" -> ");
    s.append(r.dst.as_str());
    if r.recursive {
        s.append(" (recursive)");
    }
    assert(s@ =~= spec_cp_text(*r));
    s
}

/// The warning printed when a node to copy is ephemeral (its owner is not
/// 0): such nodes are skipped. `None` for a persistent node, which is copied.
pub fn ephemeral_copy_warning(src: &str, ephemeral_owner: i64) -> (r: Option<String>)
    ensures
        ephemeral_owner == 0 <==> r is None,
        r matches Some(w) ==> w@ == "Warning: "@ + src@ + " is ephemeral, skipping"@,
{
    if ephemeral_owner != 0 {
        let mut s = "Warning: ".to_owned();
        s.append(src);
        s.append(" is ephemeral, skipping");
        Some(s)
    } else {
        None
    }
}

} // verus!
