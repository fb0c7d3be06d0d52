//! `tree`: the depth limit and the printed tree.
use vstd::prelude::*;
use crate::output::{TreeEntry, TreeResult};
use crate::style::{Piece, Rendering, Tone, renders, joined_lines};
use crate::commands::find::{node_name, spec_node_name};

verus! {

/// Whether a node at `depth` is shown under the optional depth limit.
pub open spec fn spec_within_depth(depth: usize, max_depth: Option<usize>) -> bool {
    match max_depth {
        Some(m) => depth <= m,
        None => true,
    }
}

/// Whether a node at `depth` is shown under the optional depth limit.
pub fn within_depth(depth: usize, max_depth: Option<usize>) -> (r: bool)
    ensures
        r == spec_within_depth(depth, max_depth),
{
    match max_depth {
        Some(m) => depth <= m,
        None => true,
    }
}

/// `s` repeated `n` times.
pub open spec fn repeat(s: Seq<char>, n: nat) -> Seq<char>
    decreases n,
{
    if n == 0 {
        Seq::empty()
    } else {
        repeat(s, (n - 1) as nat) + s
    }
}

/// The branch drawn before a node at depth `d > 0`: a `│ ` for each level
/// above its parent, then `├─`.
pub open spec fn branch(d: nat) -> Seq<char> {
    repeat(seq!['\u{2502}', ' '], (d - 1) as nat) + seq!['\u{251c}', '\u{2500}']
}

/// One line of the tree: the root's path, or a dimmed branch and the node's
/// name, both names in cyan.
pub open spec fn tree_line(root: Seq<char>, e: TreeEntry) -> Seq<Piece> {
    if e.depth == 0 {
        seq![Piece::Styled(Tone::Path, root)]
    } else {
        seq![
            Piece::Styled(Tone::Dim, branch(e.depth as nat)),
            Piece::Styled(Tone::Path, spec_node_name(e.path@)),
        ]
    }
}

/// The printed tree, one node per line.
pub open spec fn tree_pieces(r: TreeResult) -> Seq<Piece> {
    joined_lines(r.tree@.map_values(|e: TreeEntry| tree_line(r.path@, e)))
}

fn branch_text(d: usize) -> (r: String)
    requires
        d > 0,
    ensures
        r@ == branch(d as nat),
{
    let mut s = String::new();
    let mut k: usize = 0;
    while k < d - 1
        invariant
            k <= d - 1,
            s@ == repeat(seq!['\u{2502}', ' '], k as nat),
        decreases d - 1 - k,
    {
        crate::text::push_char(&mut s, '\u{2502}');
        crate::text::push_char(&mut s, ' ');
        k = k + 1;
        assert(s@ =~= repeat(seq!['\u{2502}', ' '], k as nat));
    }
    crate::text::push_char(&mut s, '\u{251c}');
    crate::text::push_char(&mut s, '\u{2500}');
    assert(s@ =~= branch(d as nat));
    s
}

/// Prints the tree.
pub fn format_human(r: &TreeResult) -> (out: String)
    ensures
        renders(out@, tree_pieces(*r)),
{
    let ghost lines = r.tree@.map_values(|e: TreeEntry| tree_line(r.path@, e));
    let mut o = Rendering::new();
    let mut i: usize = 0;
    assert(lines.take(0) =~= Seq::<Seq<Piece>>::empty());
    while i < r.tree.len()
        invariant
            lines == r.tree@.map_values(|e: TreeEntry| tree_line(r.path@, e)),
            i <= r.tree@.len(),
            o.wf(),
            o.shown() == joined_lines(lines.take(i as int)),
        decreases r.tree.len() - i,
    {
        let ghost before = o.shown();
        assert(lines.take(i + 1).drop_last() =~= lines.take(i as int));
        assert(lines.take(i + 1).last() == lines[i as int]);
        if i > 0 {
            proof {
                reveal_strlit("\n");
                assert("\n"@ =~= seq!['\n']);
            }
            o.plain("\n");
        } else {
            assert(lines.take(1).len() == 1);
        }
        let ghost mid = o.shown();
        let e = &r.tree[i];
        if e.depth == 0 {
            o.styled(Tone::Path, r.path.as_str());
            assert(o.shown() =~= mid + tree_line(r.path@, *e));
        } else {
            let b = branch_text(e.depth);
            o.styled(Tone::Dim, b.as_str());
            let name = node_name(e.path.as_str());
            o.styled(Tone::Path, name.as_str());
            assert(o.shown() =~= mid + tree_line(r.path@, *e));
        }
        i = i + 1;
        assert(o.shown() =~= joined_lines(lines.take(i as int)));
    }
    assert(lines.take(r.tree@.len() as int) =~= lines);
    o.finish()
}

} // verus!
