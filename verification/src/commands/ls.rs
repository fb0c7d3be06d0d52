//! `ls`: listings and their printed form.
use vstd::prelude::*;
use crate::output::{ChildInfo, LsDetailedResult, LsResult, StatJson};
use crate::text::{decimal, join_strings, join_with, push_char, push_decimal};

verus! {

/// A plain or a detailed listing.
#[derive(Clone, Debug, PartialEq, Eq)]
pub enum LsOutput {
    Simple(LsResult),
    Detailed(LsDetailedResult),
}

/// The entry of a detailed listing for child `name` with metadata `s`: it
/// is ephemeral when it has an owner.
pub fn child_info(name: String, s: &StatJson) -> (r: ChildInfo)
    ensures
        r.name == name,
        r.ephemeral == (s.ephemeral_owner != 0),
        r.data_length == s.data_length,
        r.num_children == s.num_children,
{
    ChildInfo {
        name,
        ephemeral: s.ephemeral_owner != 0,
        data_length: s.data_length,
        num_children: s.num_children,
    }
}

/// One line of a detailed listing: `E` or `P`, data length, number of
/// children and name, separated by tabs.
pub open spec fn detail_line(c: ChildInfo) -> Seq<char> {
    seq![if c.ephemeral { 'E' } else { 'P' }, '\t'] + decimal(c.data_length as int) + seq!['\t']
        + decimal(c.num_children as int) + seq!['\t'] + c.name@
}

/// The printed listing: one child per line.
pub open spec fn spec_ls_text(out: LsOutput) -> Seq<char> {
    match out {
        LsOutput::Simple(r) => join_with(r.children.deep_view(), seq!['\n']),
        LsOutput::Detailed(r) => join_with(
            r.children@.map_values(|c: ChildInfo| detail_line(c)),
            seq!['\n'],
        ),
    }
}

/// Prints a listing.
pub fn format_human(out: &LsOutput) -> (r: String)
    ensures
        r@ == spec_ls_text(*out),
{
    proof {
        reveal_strlit("\n");
        assert("\n"@ =~= seq!['\n']);
    }
    match out {
        LsOutput::Simple(r) => join_strings(&r.children, "\n"),
        LsOutput::Detailed(r) => {
            let mut lines: Vec<String> = Vec::new();
            let mut i: usize = 0;
            while i < r.children.len()
                invariant
                    i <= r.children@.len(),
                    lines@.len() == i,
                    forall|j: int|
                        0 <= j < i ==> #[trigger] lines@[j]@ == detail_line(r.children@[j]),
                decreases r.children.len() - i,
            {
                let c = &r.children[i];
                let mut line = String::new();
                push_char(&mut line, if c.ephemeral { 'E' } else { 'P' });
                push_char(&mut line, '\t');
                push_decimal(&mut line, c.data_length as i64);
                push_char(&mut line, '\t');
                push_decimal(&mut line, c.num_children as i64);
                push_char(&mut line, '\t');
                line.append(c.name.as_str());
                assert(line@ =~= detail_line(*c));
                lines.push(line);
                i = i + 1;
            }
            assert(lines.deep_view() =~= r.children@.map_values(|c: ChildInfo| detail_line(c)));
            join_strings(&lines, "\n")
        },
    }
}

} // verus!
