//! Path handling shared by every command: normalisation, child paths,
//! splitting a path into its names, and the plan for creating a node
//! together with its missing ancestors.
use vstd::prelude::*;
use crate::text::{chars_of, push_char, push_chars, string_of};

verus! {

/// A path as the commands use it: one leading `/` is added when missing.
pub open spec fn spec_normalize_path(p: Seq<char>) -> Seq<char> {
    if p.len() > 0 && p[0] == '/' {
        p
    } else {
        seq!['/'] + p
    }
}

/// Every non-overlapping `//`, taken from the left, replaced by `/`
/// (what `str::replace("//", "/")` does).
pub open spec fn collapse_double_slash(s: Seq<char>) -> Seq<char>
    decreases s.len(),
{
    if s.len() < 2 {
        s
    } else if s[0] == '/' && s[1] == '/' {
        seq!['/'] + collapse_double_slash(s.subrange(2, s.len() as int))
    } else {
        seq![s[0]] + collapse_double_slash(s.subrange(1, s.len() as int))
    }
}

/// The path of child `child` under `parent`: `parent/child` with `//` collapsed.
pub open spec fn spec_child_path(parent: Seq<char>, child: Seq<char>) -> Seq<char> {
    collapse_double_slash(parent + seq!['/'] + child)
}

/// Scanning `s` from the left for names separated by `sep`: the names
/// finished so far and the name being read.
pub open spec fn split_state_on(s: Seq<char>, sep: char) -> (Seq<Seq<char>>, Seq<char>)
    decreases s.len(),
{
    if s.len() == 0 {
        (Seq::empty(), Seq::empty())
    } else {
        let (done, cur) = split_state_on(s.drop_last(), sep);
        if s.last() == sep {
            if cur.len() > 0 {
                (done.push(cur), Seq::empty())
            } else {
                (done, cur)
            }
        } else {
            (done, cur.push(s.last()))
        }
    }
}

/// The non-empty pieces of `s` between the `sep` characters, in order
/// (`s.split(sep).filter(|p| !p.is_empty())`).
pub open spec fn segments_on(s: Seq<char>, sep: char) -> Seq<Seq<char>> {
    let (done, cur) = split_state_on(s, sep);
    if cur.len() > 0 {
        done.push(cur)
    } else {
        done
    }
}

/// The non-empty names between the `/` characters of `s`, in order.
pub open spec fn segments(s: Seq<char>) -> Seq<Seq<char>> {
    segments_on(s, '/')
}

/// The names joined by `/`.
pub open spec fn join_slash(parts: Seq<Seq<char>>) -> Seq<char>
    decreases parts.len(),
{
    if parts.len() == 0 {
        Seq::empty()
    } else if parts.len() == 1 {
        parts[0]
    } else {
        join_slash(parts.drop_last()) + seq!['/'] + parts.last()
    }
}

/// The absolute path made of the names: `/` alone when there is none.
pub open spec fn absolute_of(parts: Seq<Seq<char>>) -> Seq<char> {
    seq!['/'] + join_slash(parts)
}

/// Adds a leading `/` to a path that lacks one.
pub fn normalize_path(path: &str) -> (r: String)
    ensures
        r@ == spec_normalize_path(path@),
{
    let v = chars_of(path);
    if v.len() > 0 && v[0] == '/' {
        path.to_owned()
    } else {
        let mut r = String::new();
        push_char(&mut r, '/');
        push_chars(&mut r, &v, 0, v.len());
        assert(v@.subrange(0, v@.len() as int) =~= v@);
        r
    }
}

/// `//` collapsed in `s`, as characters.
pub fn collapse_double_slash_chars(s: &Vec<char>) -> (r: Vec<char>)
    ensures
        r@ == collapse_double_slash(s@),
{
    let n = s.len();
    let mut out: Vec<char> = Vec::new();
    let mut i: usize = 0;
    assert(s@.subrange(0, n as int) =~= s@);
    assert(out@ + s@ =~= s@);
    while i < n
        invariant
            n == s@.len(),
            i <= n,
            collapse_double_slash(s@) == out@ + collapse_double_slash(s@.subrange(i as int, n as int)),
        decreases n - i,
    {
        let ghost rest = s@.subrange(i as int, n as int);
        if i + 1 < n && s[i] == '/' && s[i + 1] == '/' {
            assert(rest.subrange(2, rest.len() as int) =~= s@.subrange(i + 2, n as int));
            out.push('/');
            i = i + 2;
        } else {
            if i + 1 < n {
                assert(rest.subrange(1, rest.len() as int) =~= s@.subrange(i + 1, n as int));
            } else {
                assert(rest.len() == 1);
                assert(s@.subrange(i + 1, n as int) =~= Seq::<char>::empty());
                assert(collapse_double_slash(Seq::<char>::empty()) == Seq::<char>::empty());
                assert(rest =~= seq![s@[i as int]]);
            }
            out.push(s[i]);
            i = i + 1;
        }
    }
    assert(s@.subrange(n as int, n as int) =~= Seq::<char>::empty());
    out
}

/// The path of a child node: `format!("{}/{}", parent, child).replace("//", "/")`.
pub fn child_path(parent: &str, child: &str) -> (r: String)
    ensures
        r@ == spec_child_path(parent@, child@),
{
    let mut v = chars_of(parent);
    v.push('/');
    let c = chars_of(child);
    let mut i: usize = 0;
    let ghost base = v@;
    while i < c.len()
        invariant
            i <= c@.len(),
            v@ == base + c@.subrange(0, i as int),
        decreases c.len() - i,
    {
        v.push(c[i]);
        i = i + 1;
        assert(c@.subrange(0, i as int) =~= c@.subrange(0, i - 1).push(c@[i - 1]));
    }
    assert(c@.subrange(0, c@.len() as int) =~= c@);
    assert(v@ =~= parent@ + seq!['/'] + child@);
    let out = collapse_double_slash_chars(&v);
    string_of(&out)
}

/// The non-empty names of the path `v`, in order.
pub fn segments_of(v: &Vec<char>) -> (r: Vec<Vec<char>>)
    ensures
        r.deep_view() == segments(v@),
{
    let n = v.len();
    let mut done: Vec<Vec<char>> = Vec::new();
    let mut cur: Vec<char> = Vec::new();
    let mut i: usize = 0;
    assert(v@.take(0) =~= Seq::<char>::empty());
    while i < n
        invariant
            n == v@.len(),
            i <= n,
            done.deep_view() == split_state_on(v@.take(i as int), '/').0,
            cur@ == split_state_on(v@.take(i as int), '/').1,
        decreases n - i,
    {
        let ghost pre = v@.take(i as int);
        assert(v@.take(i + 1).drop_last() =~= pre);
        assert(v@.take(i + 1).last() == v@[i as int]);
        if v[i] == '/' {
            if cur.len() > 0 {
                let ghost old_done = done.deep_view();
                let ghost old_cur = cur@;
                assert(cur.deep_view() =~= cur@);
                done.push(cur);
                cur = Vec::new();
                assert(done.deep_view() =~= old_done.push(old_cur));
                assert(cur@ =~= Seq::<char>::empty());
            }
        } else {
            cur.push(v[i]);
        }
        i = i + 1;
    }
    assert(v@.take(n as int) =~= v@);
    if cur.len() > 0 {
        let ghost old_done = done.deep_view();
        let ghost old_cur = cur@;
        assert(cur.deep_view() =~= cur@);
        done.push(cur);
        assert(done.deep_view() =~= old_done.push(old_cur));
    }
    done
}

/// `join_slash` of the first `k + 1` names, one step at a time.
proof fn lemma_join_step(parts: Seq<Seq<char>>, k: int)
    requires
        0 <= k < parts.len(),
    ensures
        join_slash(parts.take(k + 1)) == if k == 0 {
            parts[0]
        } else {
            join_slash(parts.take(k)) + seq!['/'] + parts[k]
        },
{
    assert(parts.take(k + 1).drop_last() =~= parts.take(k));
    assert(parts.take(k + 1).last() == parts[k]);
    if k == 0 {
        assert(parts.take(1).len() == 1);
    }
}

/// The absolute path made of the first `count` names: `/n0/n1/...`, or `/`.
pub fn absolute_chars(parts: &Vec<Vec<char>>, count: usize) -> (r: Vec<char>)
    requires
        count <= parts@.len(),
    ensures
        r@ == absolute_of(parts.deep_view().take(count as int)),
{
    let ghost dv = parts.deep_view();
    let mut out: Vec<char> = Vec::new();
    out.push('/');
    let mut k: usize = 0;
    assert(dv.take(0) =~= Seq::<Seq<char>>::empty());
    assert(out@ =~= seq!['/'] + join_slash(dv.take(0)));
    while k < count
        invariant
            dv == parts.deep_view(),
            count <= parts@.len(),
            k <= count,
            out@ == seq!['/'] + join_slash(dv.take(k as int)),
        decreases count - k,
    {
        proof {
            lemma_join_step(dv, k as int);
        }
        let ghost before = out@;
        if k > 0 {
            out.push('/');
        }
        let part = &parts[k];
        assert(part@ == dv[k as int]);
        let ghost mid = out@;
        let mut j: usize = 0;
        while j < part.len()
            invariant
                j <= part@.len(),
                out@ == mid + part@.subrange(0, j as int),
            decreases part.len() - j,
        {
            out.push(part[j]);
            j = j + 1;
            assert(part@.subrange(0, j as int) =~= part@.subrange(0, j - 1).push(part@[j - 1]));
        }
        assert(part@.subrange(0, part@.len() as int) =~= part@);
        k = k + 1;
        assert(out@ =~= seq!['/'] + join_slash(dv.take(k as int)));
    }
    out
}

/// The plan for creating `path` together with its missing ancestors: the
/// absolute path of every ancestor, outermost first, and then of the node
/// itself. `None` when the path names no node (`create_recursive` fails
/// with "empty path" there).
pub fn creation_plan(path: &str) -> (r: Option<Vec<String>>)
    ensures
        segments(path@).len() == 0 <==> r is None,
        r matches Some(steps) ==> {
            &&& steps@.len() == segments(path@).len()
            &&& forall|i: int|
                0 <= i < steps@.len() ==> #[trigger] steps@[i]@ == absolute_of(
                    segments(path@).take(i + 1),
                )
        },
{
    let v = chars_of(path);
    let parts = segments_of(&v);
    if parts.len() == 0 {
        return None;
    }
    let mut steps: Vec<String> = Vec::new();
    let mut i: usize = 0;
    while i < parts.len()
        invariant
            parts.deep_view() == segments(path@),
            i <= parts@.len(),
            steps@.len() == i,
            forall|j: int|
                0 <= j < i ==> #[trigger] steps@[j]@ == absolute_of(segments(path@).take(j + 1)),
        decreases parts.len() - i,
    {
        let step = absolute_chars(&parts, i + 1);
        steps.push(string_of(&step));
        i = i + 1;
    }
    Some(steps)
}

/// How a node is created.
#[derive(Clone, Copy, Debug, PartialEq, Eq)]
pub enum NodeMode {
    Persistent,
    Ephemeral,
    PersistentSequential,
    EphemeralSequential,
    Container,
}

impl NodeMode {
    /// The server appends a sequence number to the name.
    pub open spec fn spec_is_sequential(self) -> bool {
        self == NodeMode::PersistentSequential || self == NodeMode::EphemeralSequential
    }

    /// Whether the server appends a sequence number to the name.
    pub fn is_sequential(&self) -> (r: bool)
        ensures
            r == self.spec_is_sequential(),
    {
        match self {
            NodeMode::PersistentSequential | NodeMode::EphemeralSequential => true,
            _ => false,
        }
    }
}

/// The path a node ends up at: for a sequential node, the requested path
/// followed by the sequence number the server assigned (as the server's
/// reply prints it); otherwise the requested path.
pub fn created_path(path: &str, mode: NodeMode, sequence: &str) -> (r: String)
    ensures
        r@ == if mode.spec_is_sequential() {
            path@ + sequence@
        } else {
            path@
        },
{
    let mut r = path.to_owned();
    if mode.is_sequential() {
        r.append(sequence);
    }
    r
}

/// A normalised path starts with `/`, and normalising it again changes nothing.
pub proof fn law_normalize_path(p: Seq<char>)
    ensures
        spec_normalize_path(p).len() > 0,
        spec_normalize_path(p)[0] == '/',
        spec_normalize_path(spec_normalize_path(p)) == spec_normalize_path(p),
{
}

/// After a separator nothing is being read, and the finished names are the
/// names before it.
pub proof fn lemma_split_after_sep(s: Seq<char>, sep: char)
    ensures
        split_state_on(s.push(sep), sep) == (segments_on(s, sep), Seq::<char>::empty()),
{
    assert(s.push(sep).drop_last() =~= s);
}

/// Reading a name without separators after a separator.
pub proof fn lemma_split_name(s: Seq<char>, t: Seq<char>, sep: char)
    requires
        forall|i: int| 0 <= i < t.len() ==> t[i] != sep,
    ensures
        split_state_on(s.push(sep) + t, sep) == (segments_on(s, sep), t),
    decreases t.len(),
{
    if t.len() == 0 {
        assert(s.push(sep) + t =~= s.push(sep));
        lemma_split_after_sep(s, sep);
    } else {
        lemma_split_name(s, t.drop_last(), sep);
        assert((s.push(sep) + t).drop_last() =~= s.push(sep) + t.drop_last());
        assert(t.drop_last().push(t.last()) =~= t);
    }
}

/// The names of `s/name` are those of `s` followed by `name`.
pub proof fn law_segments_child(s: Seq<char>, name: Seq<char>)
    requires
        name.len() > 0,
        forall|i: int| 0 <= i < name.len() ==> name[i] != '/',
    ensures
        segments(s + seq!['/'] + name) == segments(s).push(name),
{
    lemma_split_name(s, name, '/');
    assert(s + seq!['/'] + name =~= s.push('/') + name);
}

/// The creation plan walks down from the root: its first step is `/` and
/// the first name, each further step is the previous one, a `/` and the
/// next name, and the last step is the whole path in canonical form.
pub proof fn law_creation_plan_steps(path: Seq<char>, i: int)
    requires
        0 <= i < segments(path).len(),
    ensures
        absolute_of(segments(path).take(segments(path).len() as int)) == absolute_of(segments(path)),
        absolute_of(segments(path).take(i + 1)) == if i == 0 {
            seq!['/'] + segments(path)[0]
        } else {
            absolute_of(segments(path).take(i)) + seq!['/'] + segments(path)[i]
        },
{
    assert(segments(path).take(segments(path).len() as int) =~= segments(path));
    lemma_join_step(segments(path), i);
}

} // verus!
