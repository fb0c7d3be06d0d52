//! `stat`: the printed metadata of a node.
use vstd::prelude::*;
use crate::output::StatJson;
use crate::style::{Piece, Rendering, Tone, kv_pieces, renders};
use crate::text::decimal_string;
use crate::text::decimal;

verus! {

/// The eleven `Name: value` lines of a node's metadata, separated by line breaks.
pub open spec fn stat_pieces(s: StatJson) -> Seq<Piece> {
    kv_pieces("cZxid"@, decimal(s.czxid as int)) + seq![Piece::Plain(seq!['\n'])] + kv_pieces(
        "mZxid"@,
        decimal(s.mzxid as int),
    ) + seq![Piece::Plain(seq!['\n'])] + kv_pieces("cTime"@, decimal(s.ctime as int)) + seq![
        Piece::Plain(seq!['\n']),
    ] + kv_pieces("mTime"@, decimal(s.mtime as int)) + seq![Piece::Plain(seq!['\n'])]
        + kv_pieces("Version"@, decimal(s.version as int)) + seq![Piece::Plain(seq!['\n'])]
        + kv_pieces("cVersion"@, decimal(s.cversion as int)) + seq![Piece::Plain(seq!['\n'])]
        + kv_pieces("aVersion"@, decimal(s.aversion as int)) + seq![Piece::Plain(seq!['\n'])]
        + kv_pieces("EphemeralOwner"@, decimal(s.ephemeral_owner as int)) + seq![
        Piece::Plain(seq!['\n']),
    ] + kv_pieces("DataLength"@, decimal(s.data_length as int)) + seq![Piece::Plain(seq!['\n'])]
        + kv_pieces("NumChildren"@, decimal(s.num_children as int)) + seq![
        Piece::Plain(seq!['\n']),
    ] + kv_pieces("pZxid"@, decimal(s.pzxid as int))
}

/// Pieces `i` and `i + 1` show the line `label: value`, with the label in bold.
pub open spec fn shows_field(pieces: Seq<Piece>, i: int, label: Seq<char>, value: int) -> bool {
    &&& pieces[i] == Piece::Styled(Tone::Label, label + seq![':'])
    &&& pieces[i + 1] == Piece::Plain(seq![' '] + decimal(value))
}

/// Each metadata line shows the field that its label names, in the order
/// cZxid, mZxid, cTime, mTime, Version, cVersion, aVersion, EphemeralOwner,
/// DataLength, NumChildren, pZxid, with a line break between lines.
pub proof fn law_stat_lines_name_their_fields(s: StatJson)
    ensures
        stat_pieces(s).len() == 32,
        forall|i: int|
            0 <= i < 32 && i % 3 == 2 ==> #[trigger] stat_pieces(s)[i] == Piece::Plain(seq!['\n']),
        shows_field(stat_pieces(s), 0, "cZxid"@, s.czxid as int),
        shows_field(stat_pieces(s), 3, "mZxid"@, s.mzxid as int),
        shows_field(stat_pieces(s), 6, "cTime"@, s.ctime as int),
        shows_field(stat_pieces(s), 9, "mTime"@, s.mtime as int),
        shows_field(stat_pieces(s), 12, "Version"@, s.version as int),
        shows_field(stat_pieces(s), 15, "cVersion"@, s.cversion as int),
        shows_field(stat_pieces(s), 18, "aVersion"@, s.aversion as int),
        shows_field(stat_pieces(s), 21, "EphemeralOwner"@, s.ephemeral_owner as int),
        shows_field(stat_pieces(s), 24, "DataLength"@, s.data_length as int),
        shows_field(stat_pieces(s), 27, "NumChildren"@, s.num_children as int),
        shows_field(stat_pieces(s), 30, "pZxid"@, s.pzxid as int),
{
    let p = stat_pieces(s);
    assert forall|i: int| 0 <= i < 32 && i % 3 == 2 implies #[trigger] p[i] == Piece::Plain(
        seq!['\n'],
    ) by {
        assert(i == 2 || i == 5 || i == 8 || i == 11 || i == 14 || i == 17 || i == 20 || i == 23
            || i == 26 || i == 29);
    }
}

/// Adds one `key: value` line.
pub fn push_kv(out: &mut Rendering, key: &str, value: i64)
    requires
        old(out).wf(),
    ensures
        final(out).wf(),
        final(out).shown() == old(out).shown() + kv_pieces(key@, decimal(value as int)),
{
    let mut k = key.to_owned();
    crate::text::push_char(&mut k, ':');
    let mut v = String::new();
    crate::text::push_char(&mut v, ' ');
    let d = decimal_string(value);
    v.append(d.as_str());
    assert(k@ =~= key@ + seq![':']);
    assert(v@ =~= seq![' '] + decimal(value as int));
    let ghost before = out.shown();
    out.styled(Tone::Label, k.as_str());
    out.plain(v.as_str());
    assert(out.shown() =~= before + kv_pieces(key@, decimal(value as int)));
}

/// Adds a line break.
pub fn push_newline(out: &mut Rendering)
    requires
        old(out).wf(),
    ensures
        final(out).wf(),
        final(out).shown() == old(out).shown() + seq![Piece::Plain(seq!['\n'])],
{
    let ghost before = out.shown();
    proof {
        reveal_strlit("\n");
        assert("\n"@ =~= seq!['\n']);
    }
    out.plain("\n");
    assert(out.shown() =~= before + seq![Piece::Plain(seq!['\n'])]);
}

/// Adds the metadata lines of `s`.
pub fn push_stat_lines(out: &mut Rendering, s: &StatJson)
    requires
        old(out).wf(),
    ensures
        final(out).wf(),
        final(out).shown() == old(out).shown() + stat_pieces(*s),
{
    let ghost b = out.shown();
    push_kv(out, "cZxid", s.czxid);
    push_newline(out);
    push_kv(out, "mZxid", s.mzxid);
    push_newline(out);
    push_kv(out, "cTime", s.ctime);
    push_newline(out);
    push_kv(out, "mTime", s.mtime);
    push_newline(out);
    push_kv(out, "Version", s.version as i64);
    push_newline(out);
    push_kv(out, "cVersion", s.cversion as i64);
    push_newline(out);
    push_kv(out, "aVersion", s.aversion as i64);
    push_newline(out);
    push_kv(out, "EphemeralOwner", s.ephemeral_owner);
    push_newline(out);
    push_kv(out, "DataLength", s.data_length as i64);
    push_newline(out);
    push_kv(out, "NumChildren", s.num_children as i64);
    push_newline(out);
    push_kv(out, "pZxid", s.pzxid);
    assert(out.shown() =~= b + stat_pieces(*s));
}

/// The printed metadata of a node.
pub fn format_human(s: &StatJson) -> (r: String)
    ensures
        renders(r@, stat_pieces(*s)),
{
    let mut out = Rendering::new();
    push_stat_lines(&mut out, s);
    assert(out.shown() =~= stat_pieces(*s));
    out.finish()
}

} // verus!
