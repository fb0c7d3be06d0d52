//! `exists`: the result and its printed form.
use vstd::prelude::*;
use crate::output::{ExistsResult, StatJson};
use crate::style::{Piece, Rendering, Tone, renders};
use crate::text::{decimal, push_decimal};

verus! {

/// The result of `exists` for `path`, given the node's metadata when it
/// exists; the metadata is kept only when `verbose`.
pub fn exists_result(path: String, stat: Option<StatJson>, verbose: bool) -> (r: ExistsResult)
    ensures
        r.path == path,
        r.exists == stat is Some,
        r.stat == if verbose { stat } else { None },
{
    let exists = stat.is_some();
    ExistsResult { path, exists, stat: if verbose { stat } else { None } }
}

/// The detail line: a green tick, the path in cyan, and the version,
/// data length and number of children dimmed.
pub open spec fn exists_pieces(path: Seq<char>, s: StatJson) -> Seq<Piece> {
    seq![
        Piece::Styled(Tone::Success, seq!['\u{2713}']),
        Piece::Plain(seq![' ']),
        Piece::Styled(Tone::Path, path),
        Piece::Plain(seq![' ']),
        Piece::Styled(
            Tone::Dim,
            "(version="@ + decimal(s.version as int) + ", dataLength="@ + decimal(
                s.data_length as int,
            ) + ", numChildren="@ + decimal(s.num_children as int) + seq![')'],
        ),
    ]
}

/// The detail line of `exists`, printed when the metadata was kept.
pub fn format_human(r: &ExistsResult) -> (out: Option<String>)
    ensures
        r.stat is None <==> out is None,
        out matches Some(t) ==> renders(t@, exists_pieces(r.path@, r.stat->0)),
{
    match &r.stat {
        None => None,
        Some(s) => {
            let mut o = Rendering::new();
            proof {
                reveal_strlit("\u{2713}");
                assert("\u{2713}"@ =~= seq!['\u{2713}']);
                reveal_strlit(" ");
                assert(" "@ =~= seq![' ']);
            }
            o.styled(Tone::Success, "\u{2713}");
            o.plain(" ");
            o.styled(Tone::Path, r.path.as_str());
            o.plain(" ");
            let mut d = "(version=".to_owned();
            push_decimal(&mut d, s.version as i64);
            d.append(", dataLength=");
            push_decimal(&mut d, s.data_length as i64);
            d.append(", numChildren=");
            push_decimal(&mut d, s.num_children as i64);
            crate::text::push_char(&mut d, ')');
            assert(d@ =~= "(version="@ + decimal(s.version as int) + ", dataLength="@ + decimal(
                s.data_length as int,
            ) + ", numChildren="@ + decimal(s.num_children as int) + seq![')']);
            o.styled(Tone::Dim, d.as_str());
            assert(o.shown() =~= exists_pieces(r.path@, *s));
            Some(o.finish())
        },
    }
}

} // verus!
