//! `create`: the mode a node is created in, and the printed outcome.
use vstd::prelude::*;
use crate::client::NodeMode;
use crate::output::CreateResult;
use crate::style::{Piece, Rendering, Tone, renders};
use crate::text::push_char;

verus! {

/// The mode for the `--ephemeral` and `--sequential` flags.
pub open spec fn spec_mode_for(ephemeral: bool, sequential: bool) -> NodeMode {
    match (ephemeral, sequential) {
        (true, true) => NodeMode::EphemeralSequential,
        (true, false) => NodeMode::Ephemeral,
        (false, true) => NodeMode::PersistentSequential,
        (false, false) => NodeMode::Persistent,
    }
}

/// The mode for the `--ephemeral` and `--sequential` flags.
pub fn mode_for(ephemeral: bool, sequential: bool) -> (m: NodeMode)
    ensures
        m == spec_mode_for(ephemeral, sequential),
{
    match (ephemeral, sequential) {
        (true, true) => NodeMode::EphemeralSequential,
        (true, false) => NodeMode::Ephemeral,
        (false, true) => NodeMode::PersistentSequential,
        (false, false) => NodeMode::Persistent,
    }
}

/// The name under which a mode is reported.
pub open spec fn spec_mode_name(m: NodeMode) -> Seq<char> {
    match m {
        NodeMode::Persistent => "persistent"@,
        NodeMode::Ephemeral => "ephemeral"@,
        NodeMode::PersistentSequential => "persistent_sequential"@,
        NodeMode::EphemeralSequential => "ephemeral_sequential"@,
        NodeMode::Container => "container"@,
    }
}

/// The name under which a mode is reported.
pub fn mode_name(m: NodeMode) -> (r: String)
    ensures
        r@ == spec_mode_name(m),
{
    match m {
        NodeMode::Persistent => "persistent".to_owned(),
        NodeMode::Ephemeral => "ephemeral".to_owned(),
        NodeMode::PersistentSequential => "persistent_sequential".to_owned(),
        NodeMode::EphemeralSequential => "ephemeral_sequential".to_owned(),
        NodeMode::Container => "container".to_owned(),
    }
}

/// The result of creating a node that ended up at `created_path` in mode `m`.
pub fn create_result(created_path: String, m: NodeMode) -> (r: CreateResult)
    ensures
        r.path == created_path,
        r.mode@ == spec_mode_name(m),
{
    CreateResult { path: created_path, mode: mode_name(m) }
}

/// `Created PATH (MODE)`, the word in green, the path in cyan and the mode dimmed.
pub open spec fn create_pieces(r: CreateResult) -> Seq<Piece> {
    seq![
        Piece::Styled(Tone::Success, "Created"@),
        Piece::Plain(seq![' ']),
        Piece::Styled(Tone::Path, r.path@),
        Piece::Plain(seq![' ']),
        Piece::Styled(Tone::Dim, seq!['('] + r.mode@ + seq![')']),
    ]
}

/// Prints the result of `create`.
pub fn format_human(r: &CreateResult) -> (out: String)
    ensures
        renders(out@, create_pieces(*r)),
{
    let mut o = Rendering::new();
    o.styled(Tone::Success, "Created");
    proof {
        reveal_strlit(" ");
        assert(" "@ =~= seq![' ']);
    }
    o.plain(" ");
    o.styled(Tone::Path, r.path.as_str());
    o.plain(" ");
    let mut m = String::new();
    push_char(&mut m, '(');
    m.append(r.mode.as_str());
    push_char(&mut m, ')');
    assert(m@ =~= seq!['('] + r.mode@ + seq![')']);
    o.styled(Tone::Dim, m.as_str());
    assert(o.shown() =~= create_pieces(*r));
    o.finish()
}

} // verus!
