//! `add-auth`: the printed outcome.
use vstd::prelude::*;
use crate::style::{Piece, Rendering, Tone, renders};

verus! {

/// The scheme a session authenticated with.
#[derive(Clone, Debug, PartialEq, Eq)]
pub struct AddAuthResult {
    pub scheme: String,
}

/// A tick in green, ` Authenticated via `, and the scheme in cyan.
pub open spec fn auth_pieces(r: AddAuthResult) -> Seq<Piece> {
    seq![
        Piece::Styled(Tone::Success, seq!['\u{2713}']),
        Piece::Plain(" Authenticated via "@),
        Piece::Styled(Tone::Path, r.scheme@),
    ]
}

/// Prints the result of `add-auth`.
pub fn format_human(r: &AddAuthResult) -> (out: String)
    ensures
        renders(out@, auth_pieces(*r)),
{
    let mut o = Rendering::new();
    proof {
        reveal_strlit("\u{2713}");
        assert("\u{2713}"@ =~= seq!['\u{2713}']);
    }
    o.styled(Tone::Success, "\u{2713}");
    o.plain(" Authenticated via ");
    o.styled(Tone::Path, r.scheme.as_str());
    assert(o.shown() =~= auth_pieces(*r));
    o.finish()
}

} // verus!
