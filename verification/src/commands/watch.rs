//! `watch`: the line printed for each change seen under a watched node.
use vstd::prelude::*;
use crate::style::{Piece, Rendering, Tone, renders};

verus! {

/// A change seen by a watch: where, and what kind.
#[derive(Clone, Debug, PartialEq, Eq)]
pub struct WatchEvent {
    pub path: String,
    pub event_type: String,
}

/// The `Debug` form of a string (`format!("{:?}", s)`): quoted, with
/// special characters escaped.
pub uninterp spec fn debug_text(s: Seq<char>) -> Seq<char>;

/// `format!("{:?}", s)` from std. Trusted: the result is `debug_text(s)`.
#[verifier::external_body]
fn debug_string(s: &str) -> (r: String)
    ensures
        r@ == debug_text(s@),
{
    format!("{:?}", s)
}

/// `WatchEvent:` in yellow, then the path and the quoted kind in cyan.
pub open spec fn watch_pieces(e: WatchEvent) -> Seq<Piece> {
    seq![
        Piece::Styled(Tone::Warn, "WatchEvent:"@),
        Piece::Plain(seq![' ']),
        Piece::Styled(Tone::Path, e.path@ + seq![' '] + debug_text(e.event_type@)),
    ]
}

/// The line printed for a change.
pub fn format_event(e: &WatchEvent) -> (out: String)
    ensures
        renders(out@, watch_pieces(*e)),
{
    let mut o = Rendering::new();
    o.styled(Tone::Warn, "WatchEvent:");
    proof {
        reveal_strlit(" ");
        assert(" "@ =~= seq![' ']);
    }
    o.plain(" ");
    let mut t = e.path.clone();
    crate::text::push_char(&mut t, ' ');
    let d = debug_string(e.event_type.as_str());
    t.append(d.as_str());
    assert(t@ =~= e.path@ + seq![' '] + debug_text(e.event_type@));
    o.styled(Tone::Path, t.as_str());
    assert(o.shown() =~= watch_pieces(*e));
    o.finish()
}

} // verus!
