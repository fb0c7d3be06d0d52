//! `set`: the outcome of writing a node's data.
use vstd::prelude::*;
use crate::output::{SetResult, StatJson};
use crate::style::{Piece, Rendering, Tone, renders, kv_pieces};
use crate::text::decimal;

verus! {

/// The result of setting the data of `path`, whose metadata is now `stat`.
pub fn set_result(path: String, stat: StatJson) -> (r: SetResult)
    ensures
        r.path == path,
        r.version == stat.version,
        r.stat == stat,
{
    SetResult { path, version: stat.version, stat }
}

/// `Updated PATH (version: N)`, the word in green, the path in cyan and the
/// field name in bold.
pub open spec fn set_pieces(r: SetResult) -> Seq<Piece> {
    seq![
        Piece::Styled(Tone::Success, "Updated"@),
        Piece::Plain(seq![' ']),
        Piece::Styled(Tone::Path, r.path@),
        Piece::Plain(seq![' ', '(']),
    ] + kv_pieces("version"@, decimal(r.version as int)) + seq![Piece::Plain(seq![')'])]
}

/// Prints the result of `set`.
pub fn format_human(r: &SetResult) -> (out: String)
    ensures
        renders(out@, set_pieces(*r)),
{
    let mut o = Rendering::new();
    o.styled(Tone::Success, "Updated");
    proof {
        reveal_strlit(" ");
        reveal_strlit(" (");
        reveal_strlit(")");
        assert(" "@ =~= seq![' ']);
        assert(" ("@ =~= seq![' ', '(']);
        assert(")"@ =~= seq![')']);
    }
    o.plain(" ");
    o.styled(Tone::Path, r.path.as_str());
    o.plain(" (");
    let ghost before = o.shown();
    crate::commands::stat::push_kv(&mut o, "version", r.version as i64);
    o.plain(")");
    assert(o.shown() =~= set_pieces(*r));
    o.finish()
}

} // verus!
