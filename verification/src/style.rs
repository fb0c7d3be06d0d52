//! Terminal styling of output text. The escape codes come from the
//! `colored` crate, which decides by itself (from the environment and
//! whether standard output is a terminal) whether to colour at all; the
//! contracts therefore say what holds of the text either way.
use vstd::prelude::*;
use crate::text::{has_prefix, occurs_in};

verus! {

/// The styles that the output uses.
#[derive(Clone, Copy, Debug, PartialEq, Eq)]
pub enum Tone {
    /// Cyan, for node paths.
    Path,
    /// Bold, for field names.
    Label,
    /// Bright black, for secondary details.
    Dim,
    /// Green.
    Success,
    /// Red.
    Error,
    /// Yellow.
    Warn,
}

/// The escape sequence that switches a style on.
pub open spec fn tone_code(t: Tone) -> Seq<char> {
    match t {
        Tone::Path => seq!['\x1b', '[', '3', '6', 'm'],
        Tone::Label => seq!['\x1b', '[', '1', 'm'],
        Tone::Dim => seq!['\x1b', '[', '9', '0', 'm'],
        Tone::Success => seq!['\x1b', '[', '3', '2', 'm'],
        Tone::Error => seq!['\x1b', '[', '3', '1', 'm'],
        Tone::Warn => seq!['\x1b', '[', '3', '3', 'm'],
    }
}

/// The escape sequence that switches all styles off.
pub open spec fn reset_code() -> Seq<char> {
    seq!['\x1b', '[', '0', 'm']
}

/// `s` ends with `p`.
pub open spec fn has_suffix(s: Seq<char>, p: Seq<char>) -> bool {
    p.len() <= s.len() && s.subrange(s.len() - p.len(), s.len() as int) == p
}

/// `out` is `text` shown in style `t`: either the text itself (colouring
/// off) or the text between the style's code and the reset code. When the
/// text itself holds reset codes, `colored` re-applies the style after each
/// of them; the exact text in that case is not stated.
pub open spec fn painted(out: Seq<char>, t: Tone, text: Seq<char>) -> bool {
    ||| out == text
    ||| {
        &&& has_prefix(out, tone_code(t))
        &&& has_suffix(out, reset_code())
        &&& !occurs_in(text, reset_code()) ==> out == tone_code(t) + text + reset_code()
    }
}

/// `s.cyan().to_string()` from `colored`. Trusted: the result is `s`, or `s`
/// between the cyan code and the reset code (see `painted`).
#[verifier::external_body]
fn paint_cyan(s: &str) -> (r: String)
    ensures
        painted(r@, Tone::Path, s@),
{
    colored::Colorize::cyan(s).to_string()
}

/// `s.bold().to_string()` from `colored`. Trusted as for `paint_cyan`.
#[verifier::external_body]
fn paint_bold(s: &str) -> (r: String)
    ensures
        painted(r@, Tone::Label, s@),
{
    colored::Colorize::bold(s).to_string()
}

/// `s.bright_black().to_string()` from `colored`. Trusted as for `paint_cyan`.
#[verifier::external_body]
fn paint_bright_black(s: &str) -> (r: String)
    ensures
        painted(r@, Tone::Dim, s@),
{
    colored::Colorize::bright_black(s).to_string()
}

/// `s.green().to_string()` from `colored`. Trusted as for `paint_cyan`.
#[verifier::external_body]
fn paint_green(s: &str) -> (r: String)
    ensures
        painted(r@, Tone::Success, s@),
{
    colored::Colorize::green(s).to_string()
}

/// `s.red().to_string()` from `colored`. Trusted as for `paint_cyan`.
#[verifier::external_body]
fn paint_red(s: &str) -> (r: String)
    ensures
        painted(r@, Tone::Error, s@),
{
    colored::Colorize::red(s).to_string()
}

/// `s.yellow().to_string()` from `colored`. Trusted as for `paint_cyan`.
#[verifier::external_body]
fn paint_yellow(s: &str) -> (r: String)
    ensures
        painted(r@, Tone::Warn, s@),
{
    colored::Colorize::yellow(s).to_string()
}

/// A node path, in cyan.
pub fn path(s: &str) -> (r: String)
    ensures
        painted(r@, Tone::Path, s@),
{
    paint_cyan(s)
}

/// A field name, in bold.
pub fn label(s: &str) -> (r: String)
    ensures
        painted(r@, Tone::Label, s@),
{
    paint_bold(s)
}

/// A secondary detail, dimmed.
pub fn dim(s: &str) -> (r: String)
    ensures
        painted(r@, Tone::Dim, s@),
{
    paint_bright_black(s)
}

/// A success word, in green.
pub fn success(s: &str) -> (r: String)
    ensures
        painted(r@, Tone::Success, s@),
{
    paint_green(s)
}

/// An error, in red.
pub fn error(s: &str) -> (r: String)
    ensures
        painted(r@, Tone::Error, s@),
{
    paint_red(s)
}

/// A warning, in yellow.
pub fn warn(s: &str) -> (r: String)
    ensures
        painted(r@, Tone::Warn, s@),
{
    paint_yellow(s)
}

/// Text in a given style.
pub fn paint(t: Tone, s: &str) -> (r: String)
    ensures
        painted(r@, t, s@),
{
    match t {
        Tone::Path => path(s),
        Tone::Label => label(s),
        Tone::Dim => dim(s),
        Tone::Success => success(s),
        Tone::Error => error(s),
        Tone::Warn => warn(s),
    }
}

/// One piece of a line of output: plain text, or text in a style.
pub enum Piece {
    Plain(Seq<char>),
    Styled(Tone, Seq<char>),
}

/// `out` is what `p` shows as.
pub open spec fn piece_shows(out: Seq<char>, p: Piece) -> bool {
    match p {
        Piece::Plain(t) => out == t,
        Piece::Styled(tone, t) => painted(out, tone, t),
    }
}

/// The texts one after the other.
pub open spec fn flatten(outs: Seq<Seq<char>>) -> Seq<char>
    decreases outs.len(),
{
    if outs.len() == 0 {
        Seq::empty()
    } else {
        flatten(outs.drop_last()) + outs.last()
    }
}

/// `outs[i]` is what `pieces[i]` shows as, for each `i`.
pub open spec fn shows_each(outs: Seq<Seq<char>>, pieces: Seq<Piece>) -> bool {
    &&& outs.len() == pieces.len()
    &&& forall|i: int| 0 <= i < outs.len() ==> piece_shows(#[trigger] outs[i], pieces[i])
}

/// `out` is the pieces shown one after the other.
pub open spec fn renders(out: Seq<char>, pieces: Seq<Piece>) -> bool {
    exists|outs: Seq<Seq<char>>| shows_each(outs, pieces) && flatten(outs) == out
}

proof fn lemma_flatten_concat(a: Seq<Seq<char>>, b: Seq<Seq<char>>)
    ensures
        flatten(a + b) == flatten(a) + flatten(b),
    decreases b.len(),
{
    if b.len() == 0 {
        assert(a + b =~= a);
        assert(flatten(a) + flatten(b) =~= flatten(a));
    } else {
        assert((a + b).drop_last() =~= a + b.drop_last());
        assert((a + b).last() == b.last());
        lemma_flatten_concat(a, b.drop_last());
        assert(flatten(a + b) =~= flatten(a) + flatten(b));
    }
}

/// Text shows the pieces `a` followed by the pieces `b` exactly when it is
/// a text that shows `a` followed by a text that shows `b`.
pub proof fn law_renders_concat(out: Seq<char>, a: Seq<Piece>, b: Seq<Piece>)
    ensures
        renders(out, a + b) <==> exists|o1: Seq<char>, o2: Seq<char>|
            out == o1 + o2 && #[trigger] renders(o1, a) && #[trigger] renders(o2, b),
{
    if renders(out, a + b) {
        let outs = choose|outs: Seq<Seq<char>>| shows_each(outs, a + b) && flatten(outs) == out;
        let n = a.len() as int;
        let x = outs.subrange(0, n);
        let y = outs.subrange(n, outs.len() as int);
        assert(outs =~= x + y);
        lemma_flatten_concat(x, y);
        assert forall|i: int| 0 <= i < x.len() implies piece_shows(#[trigger] x[i], a[i]) by {
            assert(x[i] == outs[i] && (a + b)[i] == a[i]);
        }
        assert forall|i: int| 0 <= i < y.len() implies piece_shows(#[trigger] y[i], b[i]) by {
            assert(y[i] == outs[n + i] && (a + b)[n + i] == b[i]);
        }
        assert(shows_each(x, a) && flatten(x) == flatten(x));
        assert(shows_each(y, b) && flatten(y) == flatten(y));
        assert(renders(flatten(x), a));
        assert(renders(flatten(y), b));
    }
    if exists|o1: Seq<char>, o2: Seq<char>|
        out == o1 + o2 && #[trigger] renders(o1, a) && #[trigger] renders(o2, b) {
        let (o1, o2) = choose|o1: Seq<char>, o2: Seq<char>|
            out == o1 + o2 && #[trigger] renders(o1, a) && #[trigger] renders(o2, b);
        let x = choose|outs: Seq<Seq<char>>| shows_each(outs, a) && flatten(outs) == o1;
        let y = choose|outs: Seq<Seq<char>>| shows_each(outs, b) && flatten(outs) == o2;
        lemma_flatten_concat(x, y);
        assert forall|i: int| 0 <= i < (x + y).len() implies piece_shows(
            #[trigger] (x + y)[i],
            (a + b)[i],
        ) by {
            if i < x.len() {
                assert((x + y)[i] == x[i] && (a + b)[i] == a[i]);
            } else {
                assert((x + y)[i] == y[i - x.len()] && (a + b)[i] == b[i - x.len()]);
            }
        }
        assert(shows_each(x + y, a + b));
    }
}

/// Text shows the two pieces `p` and `q` exactly when it is a text that
/// shows `p` followed by a text that shows `q`.
pub proof fn law_renders_pair(out: Seq<char>, p: Piece, q: Piece)
    ensures
        renders(out, seq![p, q]) <==> exists|x: Seq<char>, y: Seq<char>|
            out == x + y && #[trigger] piece_shows(x, p) && #[trigger] piece_shows(y, q),
{
    if renders(out, seq![p, q]) {
        let outs = choose|outs: Seq<Seq<char>>| shows_each(outs, seq![p, q]) && flatten(outs) == out;
        assert(outs.len() == 2);
        assert(outs.drop_last().drop_last() =~= Seq::<Seq<char>>::empty());
        assert(flatten(outs.drop_last().drop_last()) =~= Seq::<char>::empty());
        assert(outs.drop_last().last() == outs[0]);
        assert(flatten(outs.drop_last()) =~= outs[0]);
        assert(piece_shows(outs[0], p) && piece_shows(outs[1], q));
    }
    if exists|x: Seq<char>, y: Seq<char>|
        out == x + y && #[trigger] piece_shows(x, p) && #[trigger] piece_shows(y, q) {
        let (x, y) = choose|x: Seq<char>, y: Seq<char>|
            out == x + y && #[trigger] piece_shows(x, p) && #[trigger] piece_shows(y, q);
        let outs = seq![x, y];
        assert(outs.drop_last() =~= seq![x]);
        assert(outs.drop_last().drop_last() =~= Seq::<Seq<char>>::empty());
        assert(seq![x].drop_last() =~= Seq::<Seq<char>>::empty());
        assert(flatten(Seq::<Seq<char>>::empty()) =~= Seq::<char>::empty());
        assert(flatten(seq![x]) =~= x);
        assert(flatten(outs) =~= out);
        assert(shows_each(outs, seq![p, q]));
    }
}

/// Output under construction, with the pieces it shows.
pub struct Rendering {
    text: String,
    outs: Ghost<Seq<Seq<char>>>,
    pieces: Ghost<Seq<Piece>>,
}

impl Rendering {
    /// The pieces shown so far.
    pub closed spec fn shown(&self) -> Seq<Piece> {
        self.pieces@
    }

    /// The text holds exactly the pieces shown so far.
    pub closed spec fn wf(&self) -> bool {
        &&& shows_each(self.outs@, self.pieces@)
        &&& flatten(self.outs@) == self.text@
    }

    /// Nothing shown yet.
    pub fn new() -> (r: Rendering)
        ensures
            r.wf(),
            r.shown() == Seq::<Piece>::empty(),
    {
        Rendering { text: String::new(), outs: Ghost(Seq::empty()), pieces: Ghost(Seq::empty()) }
    }

    fn push_out(&mut self, s: &str, Ghost(p): Ghost<Piece>)
        requires
            old(self).wf(),
            piece_shows(s@, p),
        ensures
            final(self).wf(),
            final(self).shown() == old(self).shown().push(p),
    {
        let ghost old_outs = self.outs@;
        self.text.append(s);
        self.outs = Ghost(self.outs@.push(s@));
        self.pieces = Ghost(self.pieces@.push(p));
        assert(self.outs@.drop_last() =~= old_outs);
        assert forall|i: int| 0 <= i < self.outs@.len() implies piece_shows(
            #[trigger] self.outs@[i],
            self.pieces@[i],
        ) by {
            if i < old_outs.len() {
                assert(self.outs@[i] == old_outs[i]);
            }
        }
    }

    /// Adds plain text.
    pub fn plain(&mut self, s: &str)
        requires
            old(self).wf(),
        ensures
            final(self).wf(),
            final(self).shown() == old(self).shown().push(Piece::Plain(s@)),
    {
        self.push_out(s, Ghost(Piece::Plain(s@)));
    }

    /// Adds text in style `t`.
    pub fn styled(&mut self, t: Tone, s: &str)
        requires
            old(self).wf(),
        ensures
            final(self).wf(),
            final(self).shown() == old(self).shown().push(Piece::Styled(t, s@)),
    {
        let p = paint(t, s);
        self.push_out(p.as_str(), Ghost(Piece::Styled(t, s@)));
    }

    /// The finished text.
    pub fn finish(self) -> (r: String)
        requires
            self.wf(),
        ensures
            renders(r@, self.shown()),
    {
        let r = self.text;
        assert(shows_each(self.outs@, self.pieces@) && flatten(self.outs@) == r@);
        r
    }
}

/// The pieces of a `key: value` line.
pub open spec fn kv_pieces(key: Seq<char>, value: Seq<char>) -> Seq<Piece> {
    seq![Piece::Styled(Tone::Label, key + seq![':']), Piece::Plain(seq![' '] + value)]
}

/// A `key: value` line with the key in bold.
pub fn kv(key: &str, value: &str) -> (r: String)
    ensures
        renders(r@, kv_pieces(key@, value@)),
{
    let mut k = key.to_owned();
    crate::text::push_char(&mut k, ':');
    let mut v = String::new();
    crate::text::push_char(&mut v, ' ');
    v.append(value);
    assert(k@ =~= key@ + seq![':']);
    assert(v@ =~= seq![' '] + value@);
    let mut out = Rendering::new();
    out.styled(Tone::Label, k.as_str());
    out.plain(v.as_str());
    assert(out.shown() =~= kv_pieces(key@, value@));
    out.finish()
}

/// Lines of pieces, with a line break between each two.
pub open spec fn joined_lines(lines: Seq<Seq<Piece>>) -> Seq<Piece>
    decreases lines.len(),
{
    if lines.len() == 0 {
        Seq::empty()
    } else if lines.len() == 1 {
        lines[0]
    } else {
        joined_lines(lines.drop_last()) + seq![Piece::Plain(seq!['\n'])] + lines.last()
    }
}

} // verus!
