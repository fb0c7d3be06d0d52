//! `diff`: comparing the same subtree on two servers, and the printed
//! comparison.
use vstd::prelude::*;
use crate::output::DiffResult;
use crate::text::{join_strings, join_with};
use crate::client::{segments_on, split_state_on, lemma_split_name};

verus! {

/// A subtree as collected from one server: `(path, data)` for each node.
pub type Snapshot = Vec<(String, Vec<u8>)>;

/// The data recorded for `k` (the last record wins, as in a map), if any.
pub open spec fn lookup(t: Seq<(Seq<char>, Seq<u8>)>, k: Seq<char>) -> Option<Seq<u8>>
    decreases t.len(),
{
    if t.len() == 0 {
        None
    } else if t.last().0 == k {
        Some(t.last().1)
    } else {
        lookup(t.drop_last(), k)
    }
}

/// `k` is only on the first server (`only_in_a`), or on both with different
/// data (`!only_in_a`).
pub open spec fn selected(
    a: Seq<(Seq<char>, Seq<u8>)>,
    b: Seq<(Seq<char>, Seq<u8>)>,
    only_in_a: bool,
    k: Seq<char>,
) -> bool {
    if only_in_a {
        lookup(a, k) is Some && lookup(b, k) is None
    } else {
        lookup(a, k) is Some && lookup(b, k) is Some && lookup(a, k) != lookup(b, k)
    }
}

/// A path was recorded.
pub open spec fn recorded(t: Seq<(Seq<char>, Seq<u8>)>, k: Seq<char>) -> bool {
    exists|j: int| 0 <= j < t.len() && #[trigger] t[j].0 == k
}

proof fn lemma_lookup(t: Seq<(Seq<char>, Seq<u8>)>, k: Seq<char>)
    ensures
        lookup(t, k) is Some <==> recorded(t, k),
    decreases t.len(),
{
    if t.len() > 0 {
        lemma_lookup(t.drop_last(), k);
        if recorded(t, k) && t.last().0 != k {
            let j = choose|j: int| 0 <= j < t.len() && #[trigger] t[j].0 == k;
            assert(t.drop_last()[j].0 == k);
        }
        if recorded(t.drop_last(), k) {
            let j = choose|j: int| 0 <= j < t.drop_last().len() && #[trigger] t.drop_last()[j].0 == k;
            assert(t[j].0 == k);
        }
        if t.last().0 == k {
            assert(t[t.len() - 1].0 == k);
        }
    }
}

proof fn lemma_record_view(t: &Snapshot, i: int)
    requires
        0 <= i < t@.len(),
    ensures
        t.deep_view()[i].0 == t@[i].0@,
        t.deep_view()[i].1 == t@[i].1@,
{
    assert(t@[i].1.deep_view() =~= t@[i].1@);
}

fn bytes_eq(a: &Vec<u8>, b: &Vec<u8>) -> (r: bool)
    ensures
        r == (a@ == b@),
{
    if a.len() != b.len() {
        return false;
    }
    let mut i: usize = 0;
    while i < a.len()
        invariant
            a@.len() == b@.len(),
            i <= a@.len(),
            forall|j: int| 0 <= j < i ==> a@[j] == b@[j],
        decreases a.len() - i,
    {
        if a[i] != b[i] {
            return false;
        }
        i = i + 1;
    }
    assert(a@ =~= b@);
    true
}

/// Position of the record that `lookup` uses.
fn find_record(t: &Snapshot, k: &String) -> (r: Option<usize>)
    ensures
        match r {
            Some(i) => i < t@.len() && lookup(t.deep_view(), k@) == Some(t.deep_view()[i as int].1),
            None => lookup(t.deep_view(), k@) is None,
        },
{
    let ghost dv = t.deep_view();
    let mut m: usize = t.len();
    assert(dv.take(m as int) =~= dv);
    while m > 0
        invariant
            dv == t.deep_view(),
            m <= t@.len(),
            lookup(dv, k@) == lookup(dv.take(m as int), k@),
        decreases m,
    {
        assert(dv.take(m as int).drop_last() =~= dv.take(m - 1));
        assert(dv.take(m as int).last() == dv[m - 1]);
        proof {
            lemma_record_view(t, m - 1);
        }
        if t[m - 1].0.eq(k) {
            return Some(m - 1);
        }
        m = m - 1;
    }
    None
}

/// The paths of `a` that are only in `a` (`only_in_a`), or that are in both
/// with different data, each once, in the order of their first record in `a`.
fn select_keys(a: &Snapshot, b: &Snapshot, only_in_a: bool) -> (r: Vec<String>)
    ensures
        forall|k: Seq<char>|
            r.deep_view().contains(k) <==> selected(a.deep_view(), b.deep_view(), only_in_a, k),
        r.deep_view().no_duplicates(),
{
    let ghost da = a.deep_view();
    let ghost db = b.deep_view();
    let mut out: Vec<String> = Vec::new();
    let mut i: usize = 0;
    while i < a.len()
        invariant
            da == a.deep_view(),
            db == b.deep_view(),
            i <= a@.len(),
            forall|k: Seq<char>|
                out.deep_view().contains(k) <==> (recorded(da.take(i as int), k) && selected(
                    da,
                    db,
                    only_in_a,
                    k,
                )),
            out.deep_view().no_duplicates(),
        decreases a.len() - i,
    {
        let key = &a[i].0;
        let ghost kv = key@;
        proof {
            lemma_record_view(a, i as int);
        }
        assert(da[i as int].0 == kv);
        // Has this path been seen before?
        let mut seen = false;
        let mut j: usize = 0;
        while j < i
            invariant
                da == a.deep_view(),
                i < a@.len(),
                j <= i,
                kv == da[i as int].0,
                key@ == kv,
                seen <==> exists|q: int| 0 <= q < j && #[trigger] da[q].0 == kv,
            decreases i - j,
        {
            proof {
                lemma_record_view(a, j as int);
            }
            if a[j].0.eq(key) {
                assert(da[j as int].0 == kv);
                seen = true;
            }
            j = j + 1;
        }
        assert(seen <==> recorded(da.take(i as int), kv)) by {
            if seen {
                let q = choose|q: int| 0 <= q < i && #[trigger] da[q].0 == kv;
                assert(da.take(i as int)[q].0 == kv);
            }
            if recorded(da.take(i as int), kv) {
                let q = choose|q: int| 0 <= q < i && #[trigger] da.take(i as int)[q].0 == kv;
                assert(da[q].0 == kv);
            }
        }
        proof {
            lemma_lookup(da, kv);
            assert(recorded(da, kv)) by {
                assert(da[i as int].0 == kv);
            }
        }
        let ra = find_record(a, key);
        let rb = find_record(b, key);
        proof {
            if let Some(x) = ra {
                lemma_record_view(a, x as int);
            }
            if let Some(y) = rb {
                lemma_record_view(b, y as int);
            }
        }
        let want = match (ra, rb) {
            (Some(_), None) => only_in_a,
            (Some(x), Some(y)) => !only_in_a && !bytes_eq(&a[x].1, &b[y].1),
            _ => false,
        };
        assert(want == selected(da, db, only_in_a, kv));
        let ghost old_out = out.deep_view();
        if !seen && want {
            out.push(key.clone());
            assert(out.deep_view() =~= old_out.push(kv));
        }
        assert forall|k: Seq<char>| #[trigger] recorded(da.take(i + 1), k) <==> (recorded(
            da.take(i as int),
            k,
        ) || k == kv) by {
            if recorded(da.take(i + 1), k) {
                let q = choose|q: int| 0 <= q < i + 1 && #[trigger] da.take(i + 1)[q].0 == k;
                if q < i {
                    assert(da.take(i as int)[q].0 == k);
                }
            }
            if recorded(da.take(i as int), k) {
                let q = choose|q: int| 0 <= q < i && #[trigger] da.take(i as int)[q].0 == k;
                assert(da.take(i + 1)[q].0 == k);
            }
            if k == kv {
                assert(da.take(i + 1)[i as int].0 == k);
            }
        }
        assert forall|k: Seq<char>|
            out.deep_view().contains(k) <==> (recorded(da.take(i + 1), k) && selected(
                da,
                db,
                only_in_a,
                k,
            )) by {
            if !seen && want {
                if out.deep_view().contains(k) && k != kv {
                    let q = choose|q: int| 0 <= q < out.deep_view().len() && out.deep_view()[q] == k;
                    assert(q < old_out.len());
                    assert(old_out[q] == k);
                }
                if old_out.contains(k) {
                    let q = choose|q: int| 0 <= q < old_out.len() && old_out[q] == k;
                    assert(out.deep_view()[q] == k);
                }
                if k == kv {
                    assert(out.deep_view()[old_out.len() as int] == k);
                }
            }
        }
        assert(out.deep_view().no_duplicates()) by {
            if !seen && want {
                assert(!old_out.contains(kv));
                assert forall|x: int, y: int|
                    0 <= x < out.deep_view().len() && 0 <= y < out.deep_view().len() && x
                        != y implies out.deep_view()[x] != out.deep_view()[y] by {
                    if x < old_out.len() && y < old_out.len() {
                        assert(old_out[x] != old_out[y]);
                    } else if x < old_out.len() {
                        assert(old_out.contains(old_out[x]));
                    } else if y < old_out.len() {
                        assert(old_out.contains(old_out[y]));
                    }
                }
            }
        }
        i = i + 1;
    }
    assert(da.take(a@.len() as int) =~= da);
    assert forall|k: Seq<char>| selected(da, db, only_in_a, k) implies recorded(da, k) by {
        lemma_lookup(da, k);
    }
    out
}

/// Paths only on the second server.
pub open spec fn spec_added(t1: Seq<(Seq<char>, Seq<u8>)>, t2: Seq<(Seq<char>, Seq<u8>)>, k: Seq<char>) -> bool {
    lookup(t2, k) is Some && lookup(t1, k) is None
}

/// Paths only on the first server.
pub open spec fn spec_removed(t1: Seq<(Seq<char>, Seq<u8>)>, t2: Seq<(Seq<char>, Seq<u8>)>, k: Seq<char>) -> bool {
    lookup(t1, k) is Some && lookup(t2, k) is None
}

/// Paths on both servers with different data.
pub open spec fn spec_modified(t1: Seq<(Seq<char>, Seq<u8>)>, t2: Seq<(Seq<char>, Seq<u8>)>, k: Seq<char>) -> bool {
    lookup(t1, k) is Some && lookup(t2, k) is Some && lookup(t1, k) != lookup(t2, k)
}

/// Compares the subtree at `path` as recorded on the first server (`tree1`)
/// and on the second (`tree2`). Each list holds each path once; their order
/// is not part of the result's meaning.
pub fn diff_snapshots(path: String, tree1: &Snapshot, tree2: &Snapshot) -> (r: DiffResult)
    ensures
        r.path == path,
        forall|k: Seq<char>|
            r.added.deep_view().contains(k) <==> spec_added(tree1.deep_view(), tree2.deep_view(), k),
        forall|k: Seq<char>|
            r.removed.deep_view().contains(k) <==> spec_removed(tree1.deep_view(), tree2.deep_view(), k),
        forall|k: Seq<char>|
            r.modified.deep_view().contains(k) <==> spec_modified(tree1.deep_view(), tree2.deep_view(), k),
        r.added.deep_view().no_duplicates(),
        r.removed.deep_view().no_duplicates(),
        r.modified.deep_view().no_duplicates(),
{
    let added = select_keys(tree2, tree1, true);
    let removed = select_keys(tree1, tree2, true);
    let modified = select_keys(tree1, tree2, false);
    DiffResult { path, added, removed, modified }
}

/// The printed comparison: `- PATH (only in host1)` for each removed path,
/// `+ PATH (only in host2)` for each added one, `~ PATH (data differs)` for
/// each modified one, or `No differences found`.
pub open spec fn spec_diff_text(r: DiffResult) -> Seq<char> {
    let lines = r.removed.deep_view().map_values(|k: Seq<char>| "- "@ + k + " (only in host1)"@)
        + r.added.deep_view().map_values(|k: Seq<char>| "+ "@ + k + " (only in host2)"@)
        + r.modified.deep_view().map_values(|k: Seq<char>| "~ "@ + k + " (data differs)"@);
    if lines.len() == 0 {
        "No differences found"@
    } else {
        crate::text::join_with(lines, seq!['\n'])
    }
}

fn push_lines(lines: &mut Vec<String>, keys: &Vec<String>, head: &str, tail: &str)
    ensures
        final(lines).deep_view() == old(lines).deep_view() + keys.deep_view().map_values(
            |k: Seq<char>| head@ + k + tail@,
        ),
{
    let ghost start = lines.deep_view();
    let mut i: usize = 0;
    while i < keys.len()
        invariant
            i <= keys@.len(),
            lines.deep_view() == start + keys.deep_view().take(i as int).map_values(
                |k: Seq<char>| head@ + k + tail@,
            ),
        decreases keys.len() - i,
    {
        let mut line = head.to_owned();
        line.append(keys[i].as_str());
        line.append(tail);
        let ghost before = lines.deep_view();
        lines.push(line);
        assert(lines.deep_view() =~= before.push(line@));
        assert(keys.deep_view().take(i + 1).map_values(|k: Seq<char>| head@ + k + tail@)
            =~= keys.deep_view().take(i as int).map_values(|k: Seq<char>| head@ + k + tail@).push(
            line@,
        ));
        i = i + 1;
    }
    assert(keys.deep_view().take(keys@.len() as int) =~= keys.deep_view());
}

/// Prints the comparison.
pub fn format_human(r: &DiffResult) -> (out: String)
    ensures
        out@ == spec_diff_text(*r),
{
    let mut lines: Vec<String> = Vec::new();
    push_lines(&mut lines, &r.removed, "- ", " (only in host1)");
    push_lines(&mut lines, &r.added, "+ ", " (only in host2)");
    push_lines(&mut lines, &r.modified, "~ ", " (data differs)");
    assert(lines.deep_view() =~= r.removed.deep_view().map_values(
        |k: Seq<char>| "- "@ + k + " (only in host1)"@,
    ) + r.added.deep_view().map_values(|k: Seq<char>| "+ "@ + k + " (only in host2)"@)
        + r.modified.deep_view().map_values(|k: Seq<char>| "~ "@ + k + " (data differs)"@));
    if lines.len() == 0 {
        "No differences found".to_owned()
    } else {
        proof {
            reveal_strlit("\n");
            assert("\n"@ =~= seq!['\n']);
        }
        join_strings(&lines, "\n")
    }
}

/// The lines of the printed comparison, when there is a difference: the
/// removed paths, then the added ones, then the modified ones, each on a
/// line of its own.
pub open spec fn diff_lines(r: DiffResult) -> Seq<Seq<char>> {
    r.removed.deep_view().map_values(|k: Seq<char>| "- "@ + k + " (only in host1)"@)
        + r.added.deep_view().map_values(|k: Seq<char>| "+ "@ + k + " (only in host2)"@)
        + r.modified.deep_view().map_values(|k: Seq<char>| "~ "@ + k + " (data differs)"@)
}

/// No path in `keys` holds a line break.
pub open spec fn single_line(keys: Seq<Seq<char>>) -> bool {
    forall|i: int, j: int| 0 <= i < keys.len() && 0 <= j < keys[i].len() ==> keys[i][j] != '\n'
}

proof fn lemma_join_first(parts: Seq<Seq<char>>, sep: Seq<char>)
    requires
        parts.len() > 0,
        parts[0].len() > 0,
    ensures
        join_with(parts, sep).len() > 0,
        join_with(parts, sep)[0] == parts[0][0],
    decreases parts.len(),
{
    if parts.len() > 1 {
        lemma_join_first(parts.drop_last(), sep);
    }
}

proof fn lemma_split_plain(t: Seq<char>, sep: char)
    requires
        forall|i: int| 0 <= i < t.len() ==> t[i] != sep,
    ensures
        split_state_on(t, sep) == (Seq::<Seq<char>>::empty(), t),
    decreases t.len(),
{
    if t.len() > 0 {
        lemma_split_plain(t.drop_last(), sep);
        assert(t.drop_last().push(t.last()) =~= t);
    }
}

proof fn lemma_split_join(parts: Seq<Seq<char>>, sep: char)
    requires
        parts.len() > 0,
        forall|i: int| 0 <= i < parts.len() ==> #[trigger] parts[i].len() > 0,
        forall|i: int, j: int| 0 <= i < parts.len() && 0 <= j < parts[i].len() ==> parts[i][j] != sep,
    ensures
        segments_on(join_with(parts, seq![sep]), sep) == parts,
    decreases parts.len(),
{
    let last = parts.last();
    assert(last.len() > 0);
    assert(forall|j: int| 0 <= j < last.len() ==> last[j] != sep);
    if parts.len() == 1 {
        lemma_split_plain(parts[0], sep);
        assert(Seq::<Seq<char>>::empty().push(parts[0]) =~= parts);
    } else {
        let init = parts.drop_last();
        assert forall|i: int| 0 <= i < init.len() implies #[trigger] init[i].len() > 0 by {
            assert(init[i] == parts[i]);
        }
        lemma_split_join(init, sep);
        lemma_split_name(join_with(init, seq![sep]), last, sep);
        assert(join_with(init, seq![sep]) + seq![sep] + last =~= join_with(init, seq![sep]).push(sep)
            + last);
        assert(init.push(last) =~= parts);
    }
}

/// The printed comparison is `No differences found` exactly when no path
/// was removed, added or modified. Otherwise (for paths without line
/// breaks) its lines are one per listed path: `- PATH (only in host1)` for
/// each removed path, then `+ PATH (only in host2)` for each added one,
/// then `~ PATH (data differs)` for each modified one.
pub proof fn law_diff_text(r: DiffResult)
    ensures
        (spec_diff_text(r) == "No differences found"@) <==> (r.removed@.len() == 0
            && r.added@.len() == 0 && r.modified@.len() == 0),
        (single_line(r.removed.deep_view()) && single_line(r.added.deep_view()) && single_line(
            r.modified.deep_view(),
        ) && (r.removed@.len() > 0 || r.added@.len() > 0 || r.modified@.len() > 0))
            ==> segments_on(spec_diff_text(r), '\n') == diff_lines(r),
{
    reveal_strlit("- ");
    reveal_strlit("+ ");
    reveal_strlit("~ ");
    reveal_strlit(" (only in host1)");
    reveal_strlit(" (only in host2)");
    reveal_strlit(" (data differs)");
    reveal_strlit("No differences found");
    let rm = r.removed.deep_view();
    let ad = r.added.deep_view();
    let md = r.modified.deep_view();
    let lines = diff_lines(r);
    let a = rm.len();
    let b = ad.len();
    assert(lines.len() == rm.len() + ad.len() + md.len());
    assert forall|i: int| 0 <= i < lines.len() implies #[trigger] lines[i].len() > 0 && lines[i][0]
        != 'N' && (forall|j: int|
        0 <= j < lines[i].len() && single_line(rm) && single_line(ad) && single_line(md)
            ==> lines[i][j] != '\n') by {
        if i < a {
            assert(lines[i] == "- "@ + rm[i] + " (only in host1)"@);
            let k = rm[i];
            if single_line(rm) {
                assert forall|j: int| 0 <= j < k.len() implies k[j] != '\n' by {}
            }
        } else if i < a + b {
            assert(lines[i] == "+ "@ + ad[i - a] + " (only in host2)"@);
            let k = ad[i - a];
            if single_line(ad) {
                assert forall|j: int| 0 <= j < k.len() implies k[j] != '\n' by {}
            }
        } else {
            assert(lines[i] == "~ "@ + md[i - a - b] + " (data differs)"@);
            let k = md[i - a - b];
            if single_line(md) {
                assert forall|j: int| 0 <= j < k.len() implies k[j] != '\n' by {}
            }
        }
    }
    if lines.len() > 0 {
        lemma_join_first(lines, seq!['\n']);
        assert(spec_diff_text(r)[0] != "No differences found"@[0]);
        if single_line(rm) && single_line(ad) && single_line(md) {
            lemma_split_join(lines, '\n');
        }
    }
}

/// Comparing a subtree with itself finds no difference.
pub proof fn law_diff_self(t: Seq<(Seq<char>, Seq<u8>)>, k: Seq<char>)
    ensures
        !spec_added(t, t, k),
        !spec_removed(t, t, k),
        !spec_modified(t, t, k),
{
}

/// A path is in at most one of added, removed and modified.
pub proof fn law_diff_disjoint(t1: Seq<(Seq<char>, Seq<u8>)>, t2: Seq<(Seq<char>, Seq<u8>)>, k: Seq<char>)
    ensures
        !(spec_added(t1, t2, k) && spec_removed(t1, t2, k)),
        !(spec_added(t1, t2, k) && spec_modified(t1, t2, k)),
        !(spec_removed(t1, t2, k) && spec_modified(t1, t2, k)),
{
}

/// Swapping the servers swaps added and removed and keeps modified.
pub proof fn law_diff_swap(t1: Seq<(Seq<char>, Seq<u8>)>, t2: Seq<(Seq<char>, Seq<u8>)>, k: Seq<char>)
    ensures
        spec_added(t1, t2, k) == spec_removed(t2, t1, k),
        spec_removed(t1, t2, k) == spec_added(t2, t1, k),
        spec_modified(t1, t2, k) == spec_modified(t2, t1, k),
{
}

/// A path recorded on either server is added, removed or modified exactly
/// when it is not recorded on both with the same data.
pub proof fn law_diff_complete(t1: Seq<(Seq<char>, Seq<u8>)>, t2: Seq<(Seq<char>, Seq<u8>)>, k: Seq<char>)
    requires
        lookup(t1, k) is Some || lookup(t2, k) is Some,
    ensures
        (spec_added(t1, t2, k) || spec_removed(t1, t2, k) || spec_modified(t1, t2, k)) <==> lookup(
            t1,
            k,
        ) != lookup(t2, k),
{
}

} // verus!
