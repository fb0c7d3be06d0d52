//! Exporting a subtree: the exported form of a node, and the base64
//! encoding of node data.
use vstd::prelude::*;
use crate::text::string_of;
use crate::output::StatJson;

verus! {

/// The base64 digit for a value below 64 (`A-Z a-z 0-9 + /`).
pub open spec fn b64_digit(i: int) -> char {
    if i < 26 {
        ((65 + i) as u8) as char
    } else if i < 52 {
        ((71 + i) as u8) as char
    } else if i < 62 {
        ((i - 4) as u8) as char
    } else if i == 62 {
        '+'
    } else {
        '/'
    }
}

/// Base64 of one group of one to three bytes: four characters, with `=`
/// for each missing byte.
pub open spec fn encode_group(g: Seq<u8>) -> Seq<char> {
    let b0 = g[0] as int;
    let b1 = if g.len() > 1 { g[1] as int } else { 0 };
    let b2 = if g.len() > 2 { g[2] as int } else { 0 };
    seq![
        b64_digit(b0 / 4),
        b64_digit((b0 % 4) * 16 + b1 / 16),
        if g.len() > 1 { b64_digit((b1 % 16) * 4 + b2 / 64) } else { '=' },
        if g.len() > 2 { b64_digit(b2 % 64) } else { '=' },
    ]
}

/// Standard padded base64 of `data`, three bytes at a time.
pub open spec fn spec_base64_encode(data: Seq<u8>) -> Seq<char>
    decreases data.len(),
{
    if data.len() == 0 {
        Seq::empty()
    } else if data.len() <= 3 {
        encode_group(data)
    } else {
        encode_group(data.take(3)) + spec_base64_encode(data.skip(3))
    }
}

fn digit(i: u8) -> (c: char)
    requires
        i < 64,
    ensures
        c == b64_digit(i as int),
{
    if i < 26 {
        (65 + i) as char
    } else if i < 52 {
        (71 + i) as char
    } else if i < 62 {
        (i - 4) as char
    } else if i == 62 {
        '+'
    } else {
        '/'
    }
}

/// Standard padded base64 of `data`.
pub fn base64_encode(data: &[u8]) -> (r: String)
    ensures
        r@ == spec_base64_encode(data@),
{
    let n = data.len();
    let mut out: Vec<char> = Vec::new();
    let mut i: usize = 0;
    assert(data@.skip(0) =~= data@);
    assert(out@ + spec_base64_encode(data@) =~= spec_base64_encode(data@));
    while i < n
        invariant
            n == data@.len(),
            i <= n,
            spec_base64_encode(data@) == out@ + spec_base64_encode(data@.skip(i as int)),
        decreases n - i,
    {
        let rest = n - i;
        let ghost tail = data@.skip(i as int);
        let b0: u8 = data[i];
        let b1: u8 = if rest > 1 { data[i + 1] } else { 0 };
        let b2: u8 = if rest > 2 { data[i + 2] } else { 0 };
        let ghost g = if rest <= 3 { tail } else { tail.take(3) };
        assert(g.len() == if rest < 3 { rest } else { 3 });
        assert(g[0] == b0);
        assert(g.len() > 1 ==> g[1] == b1);
        assert(g.len() > 2 ==> g[2] == b2);
        let ghost before = out@;
        out.push(digit(b0 / 4));
        out.push(digit((b0 % 4) * 16 + b1 / 16));
        if rest > 1 {
            out.push(digit((b1 % 16) * 4 + b2 / 64));
        } else {
            out.push('=');
        }
        if rest > 2 {
            out.push(digit(b2 % 64));
        } else {
            out.push('=');
        }
        assert(out@ =~= before + encode_group(g));
        if rest <= 3 {
            assert(data@.skip(n as int) =~= Seq::<u8>::empty());
            i = n;
        } else {
            assert(tail.skip(3) =~= data@.skip(i + 3));
            i = i + 3;
        }
    }
    assert(data@.skip(n as int) =~= Seq::<u8>::empty());
    assert(out@ + Seq::<char>::empty() =~= out@);
    string_of(&out)
}

/// The metadata kept in an export.
#[derive(Clone, Copy, Debug, PartialEq, Eq)]
pub struct DumpStat {
    pub version: i32,
    pub cversion: i32,
    pub aversion: i32,
    pub data_length: i32,
    pub num_children: i32,
    pub ephemeral_owner: i64,
}

/// An exported node: its path, its data in base64, its metadata and its
/// exported children.
#[derive(Debug, PartialEq, Eq)]
pub struct DumpNode {
    pub path: String,
    pub data: String,
    pub stat: DumpStat,
    pub children: Vec<DumpNode>,
}

impl DumpStat {
    /// The metadata of `s` that an export keeps.
    pub fn from_stat(s: &StatJson) -> (r: DumpStat)
        ensures
            r.version == s.version,
            r.cversion == s.cversion,
            r.aversion == s.aversion,
            r.data_length == s.data_length,
            r.num_children == s.num_children,
            r.ephemeral_owner == s.ephemeral_owner,
    {
        DumpStat {
            version: s.version,
            cversion: s.cversion,
            aversion: s.aversion,
            data_length: s.data_length,
            num_children: s.num_children,
            ephemeral_owner: s.ephemeral_owner,
        }
    }
}

/// The export of the node at `path` holding `data` with metadata `stat`,
/// whose children were exported as `children`.
pub fn dump_node(path: &str, data: &[u8], stat: &StatJson, children: Vec<DumpNode>) -> (r: DumpNode)
    ensures
        r.path@ == path@,
        r.data@ == spec_base64_encode(data@),
        r.stat == (DumpStat {
            version: stat.version,
            cversion: stat.cversion,
            aversion: stat.aversion,
            data_length: stat.data_length,
            num_children: stat.num_children,
            ephemeral_owner: stat.ephemeral_owner,
        }),
        r.children == children,
{
    DumpNode {
        path: path.to_owned(),
        data: base64_encode(data),
        stat: DumpStat::from_stat(stat),
        children,
    }
}

} // verus!
