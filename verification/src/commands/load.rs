//! Importing a subtree: base64 decoding of node data and the paths that
//! imported nodes land at.
use vstd::prelude::*;
use vstd::string::StringSliceAdditionalSpecFns;
use vstd::utf8::{encode_utf8, is_ascii_chars, is_ascii_chars_encode_utf8};
use crate::commands::dump::{b64_digit, encode_group, spec_base64_encode, DumpNode};
use crate::client::{child_path, spec_child_path};
use crate::text::decimal;

verus! {

/// The value of a base64 digit byte; bytes outside the alphabet count as 0.
pub open spec fn b64_value(b: u8) -> int {
    if 65 <= b <= 90 {
        b - 65
    } else if 97 <= b <= 122 {
        b - 71
    } else if 48 <= b <= 57 {
        b + 4
    } else if b == 43 {
        62
    } else if b == 47 {
        63
    } else {
        0
    }
}

/// The bytes of one group of one to four base64 digits: one byte, one more
/// when there are three digits, and one more when there are four.
pub open spec fn decode_group(g: Seq<u8>) -> Seq<u8> {
    let v0 = b64_value(g[0]);
    let v1 = if g.len() > 1 { b64_value(g[1]) } else { 0 };
    let v2 = if g.len() > 2 { b64_value(g[2]) } else { 0 };
    let v3 = if g.len() > 3 { b64_value(g[3]) } else { 0 };
    seq![(v0 * 4 + v1 / 16) as u8] + (if g.len() > 2 {
        seq![((v1 % 16) * 16 + v2 / 4) as u8]
    } else {
        Seq::empty()
    }) + (if g.len() > 3 {
        seq![((v2 % 4) * 64 + v3) as u8]
    } else {
        Seq::empty()
    })
}

/// The bytes of base64 digits, four at a time.
pub open spec fn decode_chunks(s: Seq<u8>) -> Seq<u8>
    decreases s.len(),
{
    if s.len() == 0 {
        Seq::empty()
    } else if s.len() <= 4 {
        decode_group(s)
    } else {
        decode_group(s.take(4)) + decode_chunks(s.skip(4))
    }
}

/// `s` without its trailing `=` bytes.
pub open spec fn trim_padding(s: Seq<u8>) -> Seq<u8>
    decreases s.len(),
{
    if s.len() > 0 && s.last() == 61 {
        trim_padding(s.drop_last())
    } else {
        s
    }
}

/// The bytes that base64 text (given by its UTF-8 bytes) stands for.
pub open spec fn spec_base64_decode(bytes: Seq<u8>) -> Seq<u8> {
    decode_chunks(trim_padding(bytes))
}

fn value(b: u8) -> (v: u8)
    ensures
        v == b64_value(b),
        v < 64,
{
    if 65 <= b && b <= 90 {
        b - 65
    } else if 97 <= b && b <= 122 {
        b - 71
    } else if 48 <= b && b <= 57 {
        b + 4
    } else if b == 43 {
        62
    } else if b == 47 {
        63
    } else {
        0
    }
}

/// Decodes base64 text, ignoring trailing `=` (`base64_decode`).
pub fn base64_decode(input: &str) -> (r: Vec<u8>)
    ensures
        r@ == spec_base64_decode(input.spec_bytes()),
{
    let bytes = input.as_bytes();
    let mut end = bytes.len();
    let ghost all = bytes@;
    assert(all.take(end as int) =~= all);
    while end > 0 && bytes[end - 1] == 61
        invariant
            end <= all.len(),
            all == bytes@,
            trim_padding(all) == trim_padding(all.take(end as int)),
        decreases end,
    {
        assert(all.take(end as int).drop_last() =~= all.take(end - 1));
        end = end - 1;
    }
    proof {
        let t = all.take(end as int);
        if end > 0 {
            assert(t.last() == bytes@[end - 1]);
        }
    }
    let ghost s = all.take(end as int);
    let mut out: Vec<u8> = Vec::new();
    let mut i: usize = 0;
    assert(s.skip(0) =~= s);
    assert(out@ + decode_chunks(s) =~= decode_chunks(s));
    while i < end
        invariant
            end <= all.len(),
            all == bytes@,
            s == all.take(end as int),
            i <= end,
            decode_chunks(s) == out@ + decode_chunks(s.skip(i as int)),
        decreases end - i,
    {
        let rest = end - i;
        let ghost tail = s.skip(i as int);
        let v0: u32 = value(bytes[i]) as u32;
        let v1: u32 = if rest > 1 { value(bytes[i + 1]) as u32 } else { 0 };
        let v2: u32 = if rest > 2 { value(bytes[i + 2]) as u32 } else { 0 };
        let v3: u32 = if rest > 3 { value(bytes[i + 3]) as u32 } else { 0 };
        let ghost g = if rest <= 4 { tail } else { tail.take(4) };
        assert(g.len() == if rest < 4 { rest } else { 4 });
        assert(v0 == b64_value(g[0]));
        assert(g.len() > 1 ==> v1 == b64_value(g[1]));
        assert(g.len() > 2 ==> v2 == b64_value(g[2]));
        assert(g.len() > 3 ==> v3 == b64_value(g[3]));
        let ghost before = out@;
        out.push((v0 * 4 + v1 / 16) as u8);
        if rest > 2 {
            out.push(((v1 % 16) * 16 + v2 / 4) as u8);
        }
        if rest > 3 {
            out.push(((v2 % 4) * 64 + v3) as u8);
        }
        assert(out@ =~= before + decode_group(g));
        if rest <= 4 {
            assert(s.skip(end as int) =~= Seq::<u8>::empty());
            i = end;
        } else {
            assert(tail.skip(4) =~= s.skip(i + 4));
            i = i + 4;
        }
    }
    assert(s.skip(end as int) =~= Seq::<u8>::empty());
    assert(out@ + Seq::<u8>::empty() =~= out@);
    out
}

/// The bytes of ASCII characters.
pub open spec fn ascii_bytes(cs: Seq<char>) -> Seq<u8> {
    Seq::new(cs.len(), |i: int| cs[i] as u8)
}

proof fn lemma_digit(i: int)
    requires
        0 <= i < 64,
    ensures
        (b64_digit(i) as u32) < 128,
        b64_digit(i) as u8 != 61,
        b64_value(b64_digit(i) as u8) == i,
{
}

proof fn lemma_group_ascii(g: Seq<u8>)
    requires
        1 <= g.len() <= 3,
    ensures
        encode_group(g).len() == 4,
        forall|k: int| 0 <= k < 4 ==> (#[trigger] encode_group(g)[k] as u32) < 128,
        encode_group(g)[0] as u8 != 61,
        encode_group(g)[1] as u8 != 61,
        g.len() > 1 ==> encode_group(g)[2] as u8 != 61,
        g.len() > 2 ==> encode_group(g)[3] as u8 != 61,
        g.len() <= 1 ==> encode_group(g)[2] == '=',
        g.len() <= 2 ==> encode_group(g)[3] == '=',
{
    let b0 = g[0] as int;
    let b1 = if g.len() > 1 { g[1] as int } else { 0 };
    let b2 = if g.len() > 2 { g[2] as int } else { 0 };
    lemma_digit(b0 / 4);
    lemma_digit((b0 % 4) * 16 + b1 / 16);
    lemma_digit((b1 % 16) * 4 + b2 / 64);
    lemma_digit(b2 % 64);
}

proof fn lemma_encode_ascii(data: Seq<u8>)
    ensures
        is_ascii_chars(spec_base64_encode(data)),
    decreases data.len(),
{
    if data.len() == 0 {
    } else if data.len() <= 3 {
        lemma_group_ascii(data);
        assert forall|i: int| 0 <= i < 4 implies '\0' <= #[trigger] spec_base64_encode(data)[i] <= '\u{7f}' by {
            assert((encode_group(data)[i] as u32) < 128);
        }
    } else {
        lemma_group_ascii(data.take(3));
        lemma_encode_ascii(data.skip(3));
        let a = encode_group(data.take(3));
        let b = spec_base64_encode(data.skip(3));
        assert forall|i: int| 0 <= i < (a + b).len() implies '\0' <= #[trigger] (a + b)[i] <= '\u{7f}' by {
            if i < 4 {
                assert((a[i] as u32) < 128);
            } else {
                assert((a + b)[i] == b[i - 4]);
            }
        }
    }
}

/// The bytes of one group, decoded again, give the group back.
proof fn lemma_group_roundtrip(g: Seq<u8>)
    requires
        1 <= g.len() <= 3,
    ensures
        decode_group(ascii_bytes(encode_group(g)).take(g.len() + 1int)) == g,
{
    lemma_group_ascii(g);
    let b0 = g[0] as int;
    let b1 = if g.len() > 1 { g[1] as int } else { 0 };
    let b2 = if g.len() > 2 { g[2] as int } else { 0 };
    let i0 = b0 / 4;
    let i1 = (b0 % 4) * 16 + b1 / 16;
    let i2 = (b1 % 16) * 4 + b2 / 64;
    let i3 = b2 % 64;
    lemma_digit(i0);
    lemma_digit(i1);
    lemma_digit(i2);
    lemma_digit(i3);
    let e = ascii_bytes(encode_group(g)).take(g.len() + 1int);
    assert(b64_value(e[0]) == i0);
    assert(b64_value(e[1]) == i1);
    assert(0 <= b0 < 256 && 0 <= b1 < 256 && 0 <= b2 < 256);
    assert(i0 * 4 + i1 / 16 == b0) by (nonlinear_arith)
        requires
            0 <= b0 < 256,
            0 <= b1 < 256,
            i0 == b0 / 4,
            i1 == (b0 % 4) * 16 + b1 / 16,
    ;
    assert((i1 % 16) * 16 + i2 / 4 == b1) by (nonlinear_arith)
        requires
            0 <= b0 < 256,
            0 <= b1 < 256,
            0 <= b2 < 256,
            i1 == (b0 % 4) * 16 + b1 / 16,
            i2 == (b1 % 16) * 4 + b2 / 64,
    ;
    assert((i2 % 4) * 64 + i3 == b2) by (nonlinear_arith)
        requires
            0 <= b1 < 256,
            0 <= b2 < 256,
            i2 == (b1 % 16) * 4 + b2 / 64,
            i3 == b2 % 64,
    ;
    if g.len() > 1 {
        assert(b64_value(e[2]) == i2);
    }
    if g.len() > 2 {
        assert(b64_value(e[3]) == i3);
    }
    assert(decode_group(e) =~= g);
}

/// Trailing `=` are only taken from the part after `a` when that part does
/// not start with one.
proof fn lemma_trim_concat(a: Seq<u8>, b: Seq<u8>)
    requires
        b.len() > 0,
        b[0] != 61,
    ensures
        trim_padding(a + b) == a + trim_padding(b),
        trim_padding(b).len() > 0,
        trim_padding(b)[0] == b[0],
    decreases b.len(),
{
    if b.last() == 61 {
        assert(b.len() >= 2);
        assert((a + b).drop_last() =~= a + b.drop_last());
        lemma_trim_concat(a, b.drop_last());
    }
}

/// Trimming the padding of an encoded group keeps one digit more than the
/// group has bytes.
proof fn lemma_trim_group(g: Seq<u8>)
    requires
        1 <= g.len() <= 3,
    ensures
        trim_padding(ascii_bytes(encode_group(g))) == ascii_bytes(encode_group(g)).take(
            g.len() + 1int,
        ),
{
    lemma_group_ascii(g);
    let e = ascii_bytes(encode_group(g));
    assert(e.len() == 4);
    if g.len() == 3 {
        assert(e.take(4) =~= e);
    } else if g.len() == 2 {
        assert(e[3] == 61);
        assert(e.drop_last() =~= e.take(3));
        assert(e.take(3).last() != 61);
        assert(trim_padding(e) == trim_padding(e.take(3)));
    } else {
        assert(e[3] == 61);
        assert(e[2] == 61);
        assert(e.drop_last() =~= e.take(3));
        assert(e.take(3).drop_last() =~= e.take(2));
        assert(e.take(2).last() != 61);
        assert(trim_padding(e) == trim_padding(e.take(3)));
        assert(trim_padding(e.take(3)) == trim_padding(e.take(2)));
    }
}

proof fn lemma_roundtrip_bytes(data: Seq<u8>)
    ensures
        decode_chunks(trim_padding(ascii_bytes(spec_base64_encode(data)))) == data,
        data.len() > 0 ==> ascii_bytes(spec_base64_encode(data)).len() > 0 && ascii_bytes(
            spec_base64_encode(data),
        )[0] != 61,
    decreases data.len(),
{
    if data.len() == 0 {
        assert(ascii_bytes(spec_base64_encode(data)) =~= Seq::<u8>::empty());
    } else if data.len() <= 3 {
        lemma_group_ascii(data);
        lemma_trim_group(data);
        lemma_group_roundtrip(data);
    } else {
        let g = data.take(3);
        let rest = data.skip(3);
        lemma_group_ascii(g);
        lemma_roundtrip_bytes(rest);
        let eg = ascii_bytes(encode_group(g));
        let er = ascii_bytes(spec_base64_encode(rest));
        assert(ascii_bytes(spec_base64_encode(data)) =~= eg + er);
        lemma_trim_concat(eg, er);
        let t = trim_padding(er);
        assert((eg + t).take(4) =~= eg);
        assert((eg + t).skip(4) =~= t);
        assert(eg.take(4) =~= eg);
        lemma_group_roundtrip(g);
        assert(g + rest =~= data);
    }
}

/// Decoding the base64 that `base64_encode` produces gives back the
/// original bytes: what `dump` exports, `load` imports unchanged.
pub proof fn law_base64_roundtrip(data: Seq<u8>)
    ensures
        spec_base64_decode(encode_utf8(spec_base64_encode(data))) == data,
{
    let cs = spec_base64_encode(data);
    lemma_encode_ascii(data);
    is_ascii_chars_encode_utf8(cs);
    assert(encode_utf8(cs) =~= ascii_bytes(cs));
    lemma_roundtrip_bytes(data);
}

/// Where an imported node goes and the data it gets, for a node and all
/// its descendants in pre-order: each node at its recorded path placed
/// under `root`.
pub open spec fn spec_load_steps(root: Seq<char>, node: DumpNode) -> Seq<(Seq<char>, Seq<u8>)>
    decreases node, 1int,
{
    seq![(spec_child_path(root, node.path@), spec_base64_decode(encode_utf8(node.data@)))]
        + children_steps(root, node.children@)
}

/// The import steps of a list of nodes, one after the other.
pub open spec fn children_steps(root: Seq<char>, nodes: Seq<DumpNode>) -> Seq<(Seq<char>, Seq<u8>)>
    decreases nodes, 0int,
{
    if nodes.len() == 0 {
        Seq::empty()
    } else {
        children_steps(root, nodes.drop_last()) + spec_load_steps(root, nodes.last())
    }
}

/// Appends the import steps of `node` and its descendants.
fn push_load_steps(root: &str, node: &DumpNode, out: &mut Vec<(String, Vec<u8>)>)
    ensures
        final(out).deep_view() == old(out).deep_view() + spec_load_steps(root@, *node),
    decreases node,
{
    let target = child_path(root, node.path.as_str());
    let data = base64_decode(node.data.as_str());
    let ghost start = out.deep_view();
    let ghost first = (target@, data@);
    assert(data.deep_view() =~= data@);
    out.push((target, data));
    assert(out.deep_view() =~= start.push(first));
    let ghost kids = node.children@;
    let mut i: usize = 0;
    assert(kids.take(0) =~= Seq::<DumpNode>::empty());
    while i < node.children.len()
        invariant
            kids == node.children@,
            i <= kids.len(),
            out.deep_view() == start + seq![first] + children_steps(root@, kids.take(i as int)),
        decreases node.children.len() - i,
    {
        assert(decreases_to!(node => node.children));
        assert(decreases_to!(node.children => node.children@));
        assert(decreases_to!(node.children@ => node.children@[i as int]));
        push_load_steps(root, &node.children[i], out);
        assert(kids.take(i + 1).drop_last() =~= kids.take(i as int));
        assert(kids.take(i + 1).last() == kids[i as int]);
        i = i + 1;
    }
    assert(kids.take(kids.len() as int) =~= kids);
    assert(out.deep_view() =~= start + spec_load_steps(root@, *node));
}

/// The import steps for an exported tree loaded under `root`, in pre-order:
/// for each node, the path it is created at and the data it gets.
pub fn load_steps(root: &str, tree: &DumpNode) -> (r: Vec<(String, Vec<u8>)>)
    ensures
        r.deep_view() == spec_load_steps(root@, *tree),
{
    let mut out: Vec<(String, Vec<u8>)> = Vec::new();
    push_load_steps(root, tree, &mut out);
    assert(out.deep_view() =~= spec_load_steps(root@, *tree));
    out
}

/// What `load` reports: `Loaded N nodes into ROOT`.
pub fn load_summary(count: usize, root: &str) -> (r: String)
    ensures
        r@ == "Loaded "@ + decimal(count as int) + " nodes into "@ + root@,
{
    let mut s = "Loaded ".to_owned();
    crate::text::push_digits(&mut s, count as u64);
    s.append(" nodes into ");
    s.append(root);
    s
}

/// The nodes of an exported tree in pre-order: the node, then the
/// subtrees of its children in order.
pub open spec fn dump_preorder(node: DumpNode) -> Seq<DumpNode>
    decreases node, 1int,
{
    seq![node] + children_preorder(node.children@)
}

/// The pre-orders of a list of exported subtrees, one after the other.
pub open spec fn children_preorder(nodes: Seq<DumpNode>) -> Seq<DumpNode>
    decreases nodes, 0int,
{
    if nodes.len() == 0 {
        Seq::empty()
    } else {
        children_preorder(nodes.drop_last()) + dump_preorder(nodes.last())
    }
}

/// The import step for one exported node: its recorded path under `root`,
/// and its data decoded.
pub open spec fn load_step(root: Seq<char>, n: DumpNode) -> (Seq<char>, Seq<u8>) {
    (spec_child_path(root, n.path@), spec_base64_decode(encode_utf8(n.data@)))
}

proof fn lemma_steps_follow_preorder(root: Seq<char>, node: DumpNode)
    ensures
        spec_load_steps(root, node) == dump_preorder(node).map_values(
            |n: DumpNode| load_step(root, n),
        ),
    decreases node, 1int,
{
    lemma_children_steps_follow_preorder(root, node.children@);
    let f = |n: DumpNode| load_step(root, n);
    assert((seq![node] + children_preorder(node.children@)).map_values(f) =~= seq![
        load_step(root, node),
    ] + children_preorder(node.children@).map_values(f));
}

proof fn lemma_children_steps_follow_preorder(root: Seq<char>, nodes: Seq<DumpNode>)
    ensures
        children_steps(root, nodes) == children_preorder(nodes).map_values(
            |n: DumpNode| load_step(root, n),
        ),
    decreases nodes, 0int,
{
    let f = |n: DumpNode| load_step(root, n);
    if nodes.len() == 0 {
        assert(children_preorder(nodes).map_values(f) =~= Seq::<(Seq<char>, Seq<u8>)>::empty());
    } else {
        lemma_children_steps_follow_preorder(root, nodes.drop_last());
        lemma_steps_follow_preorder(root, nodes.last());
        assert((children_preorder(nodes.drop_last()) + dump_preorder(nodes.last())).map_values(f)
            =~= children_preorder(nodes.drop_last()).map_values(f) + dump_preorder(
            nodes.last(),
        ).map_values(f));
    }
}

/// Loading an exported tree under `root` makes one step per exported node,
/// in pre-order; the step of each node puts it at its recorded path under
/// the root, and when the node was exported from `bytes` it gets exactly
/// those bytes back.
pub proof fn law_load_restores_dumped(root: Seq<char>, node: DumpNode, i: int, bytes: Seq<u8>)
    requires
        0 <= i < dump_preorder(node).len(),
        dump_preorder(node)[i].data@ == spec_base64_encode(bytes),
    ensures
        spec_load_steps(root, node).len() == dump_preorder(node).len(),
        spec_load_steps(root, node)[i] == (spec_child_path(root, dump_preorder(node)[i].path@), bytes),
{
    lemma_steps_follow_preorder(root, node);
    law_base64_roundtrip(bytes);
}

/// How an imported node is written.
#[derive(Clone, Copy, Debug, PartialEq, Eq)]
pub enum LoadWrite {
    /// Replace the data of the existing node.
    SetData,
    /// Create the node (and missing ancestors); fail if that fails.
    CreateOrFail,
    /// Create the node (and missing ancestors); if that fails, replace its data.
    CreateOrSet,
}

/// How a node is written on import: with `--overwrite`, an existing node
/// gets its data replaced and any other is created, replacing the data if
/// creation fails; without it, the node is created. `present` (whether
/// the node exists) is only consulted when overwriting.
pub fn load_write(overwrite: bool, present: bool) -> (r: LoadWrite)
    ensures
        r == if !overwrite {
            LoadWrite::CreateOrFail
        } else if present {
            LoadWrite::SetData
        } else {
            LoadWrite::CreateOrSet
        },
{
    if !overwrite {
        LoadWrite::CreateOrFail
    } else if present {
        LoadWrite::SetData
    } else {
        LoadWrite::CreateOrSet
    }
}

} // verus!
