//! `get`: a node's data as text (UTF-8, or a hex dump for other bytes)
//! and its printed form.
use vstd::prelude::*;
use vstd::utf8::{valid_utf8, decode_utf8};
use crate::output::{GetResult, StatJson};
use crate::style::{Piece, Rendering, Tone, renders, piece_shows, law_renders_concat, law_renders_pair};
use crate::text::{decimal, push_char, push_digits, chars_of, chars_eq};
use crate::commands::stat::{push_stat_lines, stat_pieces};

verus! {

/// `String::from_utf8(data).ok()` from std. Trusted: the text is there
/// exactly when the bytes are valid UTF-8, and is what they encode.
#[verifier::external_body]
fn utf8_text(data: Vec<u8>) -> (r: Option<String>)
    ensures
        r is Some <==> valid_utf8(data@),
        r matches Some(s) ==> s@ == decode_utf8(data@),
{
    String::from_utf8(data).ok()
}

/// A lowercase hexadecimal digit.
pub open spec fn hex_digit(d: int) -> char {
    if d < 10 {
        ((48 + d) as u8) as char
    } else {
        ((87 + d) as u8) as char
    }
}

/// Each byte as two lowercase hex digits (`format!("{:02x}", b)` per byte).
pub open spec fn hex_of(data: Seq<u8>) -> Seq<char>
    decreases data.len(),
{
    if data.len() == 0 {
        Seq::empty()
    } else {
        hex_of(data.drop_last()) + seq![
            hex_digit(data.last() as int / 16),
            hex_digit(data.last() as int % 16),
        ]
    }
}

/// How data that is not UTF-8 is shown: `<binary:LENGTH:HEX>`.
pub open spec fn binary_text(data: Seq<u8>) -> Seq<char> {
    "<binary:"@ + decimal(data.len() as int) + seq![':'] + hex_of(data) + seq!['>']
}

/// The text and encoding name under which data is shown: the text itself
/// with `utf-8` when the bytes are UTF-8, otherwise the hex form with `hex`.
pub open spec fn spec_render_data(data: Seq<u8>) -> (Seq<char>, Seq<char>) {
    if valid_utf8(data) {
        (decode_utf8(data), "utf-8"@)
    } else {
        (binary_text(data), "hex"@)
    }
}

fn hex_char(d: u8) -> (c: char)
    requires
        d < 16,
    ensures
        c == hex_digit(d as int),
{
    if d < 10 {
        (48 + d) as char
    } else {
        (87 + d) as char
    }
}

/// Data as text, with the name of its encoding.
pub fn render_data(data: &Vec<u8>) -> (r: (String, String))
    ensures
        (r.0@, r.1@) == spec_render_data(data@),
{
    match utf8_text(data.clone()) {
        Some(s) => (s, "utf-8".to_owned()),
        None => {
            let mut s = "<binary:".to_owned();
            push_digits(&mut s, data.len() as u64);
            push_char(&mut s, ':');
            let ghost head = s@;
            let mut i: usize = 0;
            assert(data@.take(0) =~= Seq::<u8>::empty());
            while i < data.len()
                invariant
                    i <= data@.len(),
                    s@ == head + hex_of(data@.take(i as int)),
                decreases data.len() - i,
            {
                let b = data[i];
                push_char(&mut s, hex_char(b / 16));
                push_char(&mut s, hex_char(b % 16));
                assert(data@.take(i + 1).drop_last() =~= data@.take(i as int));
                i = i + 1;
            }
            assert(data@.take(data@.len() as int) =~= data@);
            push_char(&mut s, '>');
            assert(s@ =~= binary_text(data@));
            (s, "hex".to_owned())
        },
    }
}

/// The result of `get` for the node at `path` holding `data`.
pub fn get_result(path: String, data: &Vec<u8>, stat: StatJson) -> (r: GetResult)
    ensures
        r.path == path,
        (r.data@, r.data_encoding@) == spec_render_data(data@),
        r.stat == stat,
{
    let (text, encoding) = render_data(data);
    GetResult { path, data: text, data_encoding: encoding, stat }
}

/// How `get` shows the data: in yellow when it is a hex dump.
pub open spec fn data_piece(r: GetResult) -> Piece {
    if r.data_encoding@ == "hex"@ {
        Piece::Styled(Tone::Warn, r.data@)
    } else {
        Piece::Plain(r.data@)
    }
}

/// The printed form of `get`: the data, a blank line, and the metadata lines.
pub open spec fn get_pieces(r: GetResult) -> Seq<Piece> {
    seq![data_piece(r), Piece::Plain(seq!['\n', '\n'])] + stat_pieces(r.stat)
}

/// What `get` prints is the data as it shows (the data itself unless it is
/// a hex dump), a blank line, and then a text that `stat` could print for
/// the node's metadata; and each such text is what `get` may print.
pub proof fn law_get_prints_data_then_stat(r: GetResult, out: Seq<char>)
    ensures
        renders(out, get_pieces(r)) <==> exists|d: Seq<char>, s: Seq<char>|
            out == d + seq!['\n', '\n'] + s && #[trigger] piece_shows(d, data_piece(r))
                && #[trigger] renders(s, stat_pieces(r.stat)),
{
    let nl = Piece::Plain(seq!['\n', '\n']);
    let head = seq![data_piece(r), nl];
    law_renders_concat(out, head, stat_pieces(r.stat));
    if renders(out, get_pieces(r)) {
        let (o1, o2) = choose|o1: Seq<char>, o2: Seq<char>|
            out == o1 + o2 && #[trigger] renders(o1, head) && #[trigger] renders(
                o2,
                stat_pieces(r.stat),
            );
        law_renders_pair(o1, data_piece(r), nl);
        let (x, y) = choose|x: Seq<char>, y: Seq<char>|
            o1 == x + y && #[trigger] piece_shows(x, data_piece(r)) && #[trigger] piece_shows(
                y,
                nl,
            );
        assert(out == x + seq!['\n', '\n'] + o2);
    }
    if exists|d: Seq<char>, s: Seq<char>|
        out == d + seq!['\n', '\n'] + s && #[trigger] piece_shows(d, data_piece(r))
            && #[trigger] renders(s, stat_pieces(r.stat)) {
        let (d, s) = choose|d: Seq<char>, s: Seq<char>|
            out == d + seq!['\n', '\n'] + s && #[trigger] piece_shows(d, data_piece(r))
                && #[trigger] renders(s, stat_pieces(r.stat));
        law_renders_pair(d + seq!['\n', '\n'], data_piece(r), nl);
        assert(piece_shows(seq!['\n', '\n'], nl));
        assert(renders(d + seq!['\n', '\n'], head));
    }
}

/// Prints the result of `get`.
pub fn format_human(r: &GetResult) -> (out: String)
    ensures
        renders(out@, get_pieces(*r)),
{
    let mut o = Rendering::new();
    let hex = chars_of("hex");
    if chars_eq(&chars_of(r.data_encoding.as_str()), &hex) {
        o.styled(Tone::Warn, r.data.as_str());
    } else {
        o.plain(r.data.as_str());
    }
    proof {
        reveal_strlit("\n\n");
        assert("\n\n"@ =~= seq!['\n', '\n']);
    }
    o.plain("\n\n");
    let ghost before = o.shown();
    push_stat_lines(&mut o, &r.stat);
    assert(o.shown() =~= get_pieces(*r));
    o.finish()
}

} // verus!
