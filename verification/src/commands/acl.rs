//! ACLs: the `cdrwa` permission letters, the `scheme:id:perms` notation,
//! and the printed form of a node's ACL.
use vstd::prelude::*;
use crate::output::{AclEntry, AclResult};
use crate::text::{chars_of, find_char, first_index_of, join_strings, join_with, push_char, slice_chars, string_of};

verus! {

/// The permissions of an ACL entry.
#[derive(Clone, Copy, Debug, PartialEq, Eq)]
pub struct Perms {
    pub create: bool,
    pub delete: bool,
    pub read: bool,
    pub write: bool,
    pub admin: bool,
}

/// The permission letters in the order they are printed: `c d r w a`,
/// each present when its permission is.
pub open spec fn spec_perm_letters(p: Perms) -> Seq<char> {
    (if p.create { seq!['c'] } else { Seq::empty() }) + (if p.delete {
        seq!['d']
    } else {
        Seq::empty()
    }) + (if p.read { seq!['r'] } else { Seq::empty() }) + (if p.write {
        seq!['w']
    } else {
        Seq::empty()
    }) + (if p.admin { seq!['a'] } else { Seq::empty() })
}

/// A letter that names a permission.
pub open spec fn is_perm_letter(c: char) -> bool {
    c == 'c' || c == 'd' || c == 'r' || c == 'w' || c == 'a'
}

/// Index of the first character of `s` that names no permission, or -1.
pub open spec fn first_bad_letter(s: Seq<char>) -> int
    decreases s.len(),
{
    if s.len() == 0 {
        -1
    } else if !is_perm_letter(s[0]) {
        0
    } else if first_bad_letter(s.drop_first()) < 0 {
        -1
    } else {
        first_bad_letter(s.drop_first()) + 1
    }
}

/// A permission string read letter by letter: the first character that is
/// not one of `cdrwa` is refused; otherwise each permission is granted when
/// its letter occurs (in any order, any number of times).
pub open spec fn spec_parse_perms(s: Seq<char>) -> Result<Perms, char> {
    if first_bad_letter(s) >= 0 {
        Err(s[first_bad_letter(s)])
    } else {
        Ok(
            Perms {
                create: s.contains('c'),
                delete: s.contains('d'),
                read: s.contains('r'),
                write: s.contains('w'),
                admin: s.contains('a'),
            },
        )
    }
}

/// Why an ACL could not be read.
#[derive(Clone, Copy, Debug, PartialEq, Eq)]
pub enum AclError {
    /// Not of the form `scheme:id:perms`.
    Format,
    /// A character that names no permission.
    InvalidPermission(char),
}

impl AclError {
    /// The message shown for the error.
    pub fn message(&self) -> (r: String)
        ensures
            r@ == match self {
                AclError::Format => "ACL format: scheme:id:perms (e.g. world:anyone:cdrwa)"@,
                AclError::InvalidPermission(c) => "Invalid permission char: '"@ + seq![*c]
                    + "'. Use: cdrwa"@,
            },
    {
        match self {
            AclError::Format => "ACL format: scheme:id:perms (e.g. world:anyone:cdrwa)".to_owned(),
            AclError::InvalidPermission(c) => {
                let mut r = "Invalid permission char: '".to_owned();
                push_char(&mut r, *c);
                r.append("'. Use: cdrwa");
                r
            },
        }
    }
}

/// An ACL entry as written on the command line.
#[derive(Clone, Debug, PartialEq, Eq)]
pub struct ParsedAcl {
    pub scheme: String,
    pub id: String,
    pub perms: Perms,
}

/// `scheme:id:perms` read as `s.splitn(3, ':')`: the scheme ends at the
/// first `:`, the id at the second, and the permissions are the rest.
pub open spec fn spec_parse_acl(s: Seq<char>) -> Result<(Seq<char>, Seq<char>, Perms), AclError> {
    let i1 = first_index_of(s, ':');
    let rest = s.subrange(i1 + 1, s.len() as int);
    let i2 = first_index_of(rest, ':');
    if i1 < 0 || i2 < 0 {
        Err(AclError::Format)
    } else {
        match spec_parse_perms(rest.subrange(i2 + 1, rest.len() as int)) {
            Ok(p) => Ok((s.subrange(0, i1), rest.subrange(0, i2), p)),
            Err(c) => Err(AclError::InvalidPermission(c)),
        }
    }
}

/// The permission letters, `cdrwa` order (`format_perms`).
pub fn format_perms(p: Perms) -> (r: String)
    ensures
        r@ == spec_perm_letters(p),
{
    let mut s = String::new();
    if p.create {
        push_char(&mut s, 'c');
    }
    if p.delete {
        push_char(&mut s, 'd');
    }
    if p.read {
        push_char(&mut s, 'r');
    }
    if p.write {
        push_char(&mut s, 'w');
    }
    if p.admin {
        push_char(&mut s, 'a');
    }
    assert(s@ =~= spec_perm_letters(p));
    s
}

proof fn lemma_first_bad_none(s: Seq<char>)
    requires
        forall|j: int| 0 <= j < s.len() ==> is_perm_letter(s[j]),
    ensures
        first_bad_letter(s) == -1,
    decreases s.len(),
{
    if s.len() > 0 {
        lemma_first_bad_none(s.drop_first());
    }
}

proof fn lemma_first_bad_at(s: Seq<char>, i: int)
    requires
        0 <= i < s.len(),
        !is_perm_letter(s[i]),
        forall|j: int| 0 <= j < i ==> is_perm_letter(s[j]),
    ensures
        first_bad_letter(s) == i,
    decreases i,
{
    if i > 0 {
        lemma_first_bad_at(s.drop_first(), i - 1);
    }
}

/// Reads a permission string (`parse_perms`).
pub fn parse_perms(s: &str) -> (r: Result<Perms, char>)
    ensures
        r == spec_parse_perms(s@),
{
    let v = chars_of(s);
    let mut p = Perms { create: false, delete: false, read: false, write: false, admin: false };
    let mut i: usize = 0;
    while i < v.len()
        invariant
            v@ == s@,
            i <= v@.len(),
            forall|j: int| 0 <= j < i ==> is_perm_letter(v@[j]),
            p.create == v@.take(i as int).contains('c'),
            p.delete == v@.take(i as int).contains('d'),
            p.read == v@.take(i as int).contains('r'),
            p.write == v@.take(i as int).contains('w'),
            p.admin == v@.take(i as int).contains('a'),
        decreases v.len() - i,
    {
        let c = v[i];
        let ghost pre = v@.take(i as int);
        let ghost post = v@.take(i + 1);
        assert(post =~= pre.push(c));
        assert forall|x: char| post.contains(x) <==> (pre.contains(x) || x == c) by {
            if post.contains(x) {
                let k = choose|k: int| 0 <= k < post.len() && post[k] == x;
                if k < pre.len() {
                    assert(pre[k] == x);
                }
            }
            if pre.contains(x) {
                let k = choose|k: int| 0 <= k < pre.len() && pre[k] == x;
                assert(post[k] == x);
            }
            if x == c {
                assert(post[i as int] == x);
            }
        }
        if c == 'c' {
            p.create = true;
        } else if c == 'd' {
            p.delete = true;
        } else if c == 'r' {
            p.read = true;
        } else if c == 'w' {
            p.write = true;
        } else if c == 'a' {
            p.admin = true;
        } else {
            proof {
                lemma_first_bad_at(s@, i as int);
            }
            return Err(c);
        }
        i = i + 1;
    }
    proof {
        lemma_first_bad_none(s@);
        assert(v@.take(v@.len() as int) =~= v@);
    }
    Ok(p)
}

/// Reads `scheme:id:perms` (`parse_acl`).
pub fn parse_acl(s: &str) -> (r: Result<ParsedAcl, AclError>)
    ensures
        match spec_parse_acl(s@) {
            Ok((scheme, id, perms)) => r matches Ok(a) && a.scheme@ == scheme && a.id@ == id
                && a.perms == perms,
            Err(e) => r == Err::<ParsedAcl, AclError>(e),
        },
{
    let v = chars_of(s);
    let n = v.len();
    let i1 = match find_char(&v, ':') {
        Some(i) => i,
        None => return Err(AclError::Format),
    };
    let rest = slice_chars(&v, i1 + 1, n);
    let i2 = match find_char(&rest, ':') {
        Some(i) => i,
        None => return Err(AclError::Format),
    };
    let perm_str = string_of(&slice_chars(&rest, i2 + 1, rest.len()));
    match parse_perms(perm_str.as_str()) {
        Ok(perms) => Ok(
            ParsedAcl {
                scheme: string_of(&slice_chars(&v, 0, i1)),
                id: string_of(&slice_chars(&rest, 0, i2)),
                perms,
            },
        ),
        Err(c) => Err(AclError::InvalidPermission(c)),
    }
}

/// The ACL entry shown for `scheme`, `id` and `perms`.
pub fn acl_entry(scheme: &str, id: &str, perms: Perms) -> (r: AclEntry)
    ensures
        r.scheme@ == scheme@,
        r.id@ == id@,
        r.permissions@ == spec_perm_letters(perms),
{
    AclEntry { scheme: scheme.to_owned(), id: id.to_owned(), permissions: format_perms(perms) }
}

/// An ACL entry in `scheme:id:perms` notation.
pub open spec fn acl_line(e: AclEntry) -> Seq<char> {
    e.scheme@ + seq![':'] + e.id@ + seq![':'] + e.permissions@
}

/// The printed ACL: one `scheme:id:perms` line per entry.
pub fn format_human(r: &AclResult) -> (out: String)
    ensures
        out@ == join_with(r.acls@.map_values(|e: AclEntry| acl_line(e)), seq!['\n']),
{
    let mut lines: Vec<String> = Vec::new();
    let mut i: usize = 0;
    while i < r.acls.len()
        invariant
            i <= r.acls@.len(),
            lines@.len() == i,
            forall|j: int| 0 <= j < i ==> #[trigger] lines@[j]@ == acl_line(r.acls@[j]),
        decreases r.acls.len() - i,
    {
        let e = &r.acls[i];
        let mut line = e.scheme.clone();
        push_char(&mut line, ':');
        line.append(e.id.as_str());
        push_char(&mut line, ':');
        line.append(e.permissions.as_str());
        lines.push(line);
        i = i + 1;
    }
    let out = join_strings(&lines, "\n");
    proof {
        reveal_strlit("\n");
        assert("\n"@ =~= seq!['\n']);
        assert(lines.deep_view() =~= r.acls@.map_values(|e: AclEntry| acl_line(e)));
    }
    out
}

/// Every letter of the printed permissions names a permission, and each
/// permission's letter occurs exactly when the permission is granted.
proof fn lemma_perm_letters(p: Perms)
    ensures
        forall|j: int| 0 <= j < spec_perm_letters(p).len() ==> is_perm_letter(
            #[trigger] spec_perm_letters(p)[j],
        ),
        spec_perm_letters(p).contains('c') == p.create,
        spec_perm_letters(p).contains('d') == p.delete,
        spec_perm_letters(p).contains('r') == p.read,
        spec_perm_letters(p).contains('w') == p.write,
        spec_perm_letters(p).contains('a') == p.admin,
{
    let e = Seq::<char>::empty();
    let a = if p.create { seq!['c'] } else { e };
    let b = if p.delete { seq!['d'] } else { e };
    let c = if p.read { seq!['r'] } else { e };
    let d = if p.write { seq!['w'] } else { e };
    let f = if p.admin { seq!['a'] } else { e };
    let s = spec_perm_letters(p);
    assert(s == a + b + c + d + f);
    // Each letter sits in the part of its own permission.
    assert forall|j: int| 0 <= j < s.len() implies {
        &&& is_perm_letter(#[trigger] s[j])
        &&& (s[j] == 'c' ==> p.create)
        &&& (s[j] == 'd' ==> p.delete)
        &&& (s[j] == 'r' ==> p.read)
        &&& (s[j] == 'w' ==> p.write)
        &&& (s[j] == 'a' ==> p.admin)
    } by {
        let l1 = a.len() as int;
        let l2 = l1 + b.len();
        let l3 = l2 + c.len();
        let l4 = l3 + d.len();
        if j < l1 {
            assert(s[j] == a[j]);
        } else if j < l2 {
            assert(s[j] == b[j - l1]);
        } else if j < l3 {
            assert(s[j] == c[j - l2]);
        } else if j < l4 {
            assert(s[j] == d[j - l3]);
        } else {
            assert(s[j] == f[j - l4]);
        }
    }
    if p.create {
        assert(s[0] == 'c');
    }
    if p.delete {
        assert(s[a.len() as int] == 'd');
    }
    if p.read {
        assert(s[(a.len() + b.len()) as int] == 'r');
    }
    if p.write {
        assert(s[(a.len() + b.len() + c.len()) as int] == 'w');
    }
    if p.admin {
        assert(s[(a.len() + b.len() + c.len() + d.len()) as int] == 'a');
    }
}

/// Reading back the printed permissions gives the same permissions.
pub proof fn law_perms_roundtrip(p: Perms)
    ensures
        spec_parse_perms(spec_perm_letters(p)) == Ok::<Perms, char>(p),
{
    lemma_perm_letters(p);
    lemma_first_bad_none(spec_perm_letters(p));
}

/// An ACL entry written as `scheme:id:perms`, with a scheme and an id that
/// hold no `:`, reads back as the same scheme, id and permissions.
pub proof fn law_acl_roundtrip(scheme: Seq<char>, id: Seq<char>, p: Perms)
    requires
        !scheme.contains(':'),
        !id.contains(':'),
    ensures
        spec_parse_acl(scheme + seq![':'] + id + seq![':'] + spec_perm_letters(p)) == Ok::<
            (Seq<char>, Seq<char>, Perms),
            AclError,
        >((scheme, id, p)),
{
    let letters = spec_perm_letters(p);
    let s = scheme + seq![':'] + id + seq![':'] + letters;
    lemma_first_index_in_concat(scheme, seq![':'] + id + seq![':'] + letters);
    assert(s == scheme + (seq![':'] + id + seq![':'] + letters));
    let i1 = first_index_of(s, ':');
    assert(i1 == scheme.len());
    let rest = s.subrange(i1 + 1, s.len() as int);
    assert(rest =~= id + (seq![':'] + letters));
    lemma_first_index_in_concat(id, seq![':'] + letters);
    let i2 = first_index_of(rest, ':');
    assert(i2 == id.len());
    assert(rest.subrange(i2 + 1, rest.len() as int) =~= letters);
    assert(s.subrange(0, i1) =~= scheme);
    assert(rest.subrange(0, i2) =~= id);
    law_perms_roundtrip(p);
}

/// The first `:` of `a + b`, when `a` holds none and `b` starts with one,
/// is at the end of `a`.
proof fn lemma_first_index_in_concat(a: Seq<char>, b: Seq<char>)
    requires
        !a.contains(':'),
        b.len() > 0,
        b[0] == ':',
    ensures
        first_index_of(a + b, ':') == a.len(),
    decreases a.len(),
{
    if a.len() == 0 {
        assert(a + b =~= b);
    } else {
        assert((a + b).drop_first() =~= a.drop_first() + b);
        assert(a[0] != ':');
        assert(!a.drop_first().contains(':')) by {
            if a.drop_first().contains(':') {
                let k = choose|k: int| 0 <= k < a.drop_first().len() && a.drop_first()[k] == ':';
                assert(a[k + 1] == ':');
            }
        }
        lemma_first_index_in_concat(a.drop_first(), b);
    }
}

} // verus!
