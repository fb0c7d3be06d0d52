//! `mv`: the printed outcome, its warnings, and the refusal to move
//! ephemeral nodes.
use vstd::prelude::*;
use crate::output::MvResult;

verus! {

/// `Moved SRC -> DST`.
pub open spec fn spec_mv_text(r: MvResult) -> Seq<char> {
    "Moved "@ + r.src@ + " -> "@ + r.dst@
}

/// Prints the result of `mv`.
pub fn format_human(r: &MvResult) -> (out: String)
    ensures
        out@ == spec_mv_text(*r),
{
    let mut s = "Moved ".to_owned();
    s.append(r.src.as_str());
    s.append(" -> ");
    s.append(r.dst.as_str());
    s
}

/// What a dry run reports.
pub fn dry_run_notice(src: &str, dst: &str) -> (r: String)
    ensures
        r@ == "Would move "@ + src@ + " -> "@ + dst@
            + " (non-atomic: read -> create -> delete)"@,
{
    let mut s = "Would move ".to_owned();
    s.append(src);
    s.append(" -> ");
    s.append(dst);
    s.append(" (non-atomic: read -> create -> delete)");
    s
}

/// The warning printed before a real move.
pub fn non_atomic_warning() -> (r: String)
    ensures
        r@
            == "Warning: mv is non-atomic (read -> create -> delete). If interrupted, data may be duplicated."@,
{
    "Warning: mv is non-atomic (read -> create -> delete). If interrupted, data may be duplicated.".to_owned()
}

/// The error for moving a node: ephemeral nodes (owner not 0) are refused.
/// `None` when the node may be moved.
pub fn ephemeral_refusal(src: &str, ephemeral_owner: i64) -> (r: Option<String>)
    ensures
        ephemeral_owner == 0 <==> r is None,
        r matches Some(e) ==> e@ == "Cannot move ephemeral node "@ + src@,
{
    if ephemeral_owner != 0 {
        let mut s = "Cannot move ephemeral node ".to_owned();
        s.append(src);
        Some(s)
    } else {
        None
    }
}

} // verus!
