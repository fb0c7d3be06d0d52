//! The decisions of the interactive shell: resolving paths against the
//! working directory, splitting a command line into words, planning tab
//! completion, recognising the shell's own commands and wording errors.
use vstd::prelude::*;
use vstd::string::StringSliceAdditionalSpecFns;
use vstd::utf8::{decode_utf8, encode_utf8, is_char_boundary};
use crate::text::{has_prefix, starts_with, find_char, first_index_of, string_of_range,
    chars_of, concat_chars, slice_chars, string_of, rfind_char, chars_eq, last_index_of,
    occurs_in, str_contains, trim, spec_trim,
};
use crate::client::{
    segments, split_state_on, collapse_double_slash, spec_child_path, join_slash, segments_of, absolute_of, absolute_chars, spec_normalize_path, normalize_path,
};

verus! {

/// The parent directory of `cwd`: its names without the last one, as an
/// absolute path (`/` when nothing is left).
pub open spec fn parent_of(cwd: Seq<char>) -> Seq<char> {
    let segs = segments(cwd);
    absolute_of(if segs.len() > 0 { segs.drop_last() } else { segs })
}

/// `rest` placed under directory `dir`.
pub open spec fn join_under(dir: Seq<char>, rest: Seq<char>) -> Seq<char> {
    if dir.len() == 1 && dir[0] == '/' {
        seq!['/'] + rest
    } else {
        dir + seq!['/'] + rest
    }
}

/// `path` resolved against the working directory `cwd`: absolute paths stay
/// as they are, `.` and `./x` are relative to `cwd`, `..` and `../x` to its
/// parent, and a bare name is placed under `cwd`.
pub open spec fn spec_resolve_path(cwd: Seq<char>, path: Seq<char>) -> Seq<char> {
    if path.len() >= 1 && path[0] == '/' {
        path
    } else if path.len() == 1 && path[0] == '.' {
        cwd
    } else if path.len() >= 2 && path[0] == '.' && path[1] == '/' {
        join_under(cwd, path.subrange(2, path.len() as int))
    } else if path.len() == 2 && path[0] == '.' && path[1] == '.' {
        parent_of(cwd)
    } else if path.len() >= 3 && path[0] == '.' && path[1] == '.' && path[2] == '/' {
        join_under(parent_of(cwd), path.subrange(3, path.len() as int))
    } else {
        (if cwd.len() == 1 && cwd[0] == '/' {
            Seq::empty()
        } else {
            cwd
        }) + spec_normalize_path(path)
    }
}

fn join_under_chars(dir: &Vec<char>, rest: &Vec<char>) -> (r: Vec<char>)
    ensures
        r@ == join_under(dir@, rest@),
{
    let mut head: Vec<char>;
    if dir.len() == 1 && dir[0] == '/' {
        head = Vec::new();
        head.push('/');
    } else {
        head = concat_chars(dir, &Vec::new());
        head.push('/');
    }
    let r = concat_chars(&head, rest);
    assert(r@ =~= join_under(dir@, rest@));
    r
}

fn parent_chars(cwd: &Vec<char>) -> (r: Vec<char>)
    ensures
        r@ == parent_of(cwd@),
{
    let segs = segments_of(cwd);
    if segs.len() > 0 {
        let r = absolute_chars(&segs, segs.len() - 1);
        assert(segs.deep_view().take(segs.len() - 1) =~= segs.deep_view().drop_last());
        r
    } else {
        let r = absolute_chars(&segs, 0);
        assert(segs.deep_view().take(0) =~= segs.deep_view());
        r
    }
}

/// Resolves `path` against the working directory `cwd`.
pub fn resolve_path(cwd: &str, path: &str) -> (r: String)
    ensures
        r@ == spec_resolve_path(cwd@, path@),
{
    let p = chars_of(path);
    let c = chars_of(cwd);
    let n = p.len();
    if n >= 1 && p[0] == '/' {
        path.to_owned()
    } else if n == 1 && p[0] == '.' {
        cwd.to_owned()
    } else if n >= 2 && p[0] == '.' && p[1] == '/' {
        let rest = slice_chars(&p, 2, n);
        string_of(&join_under_chars(&c, &rest))
    } else if n == 2 && p[0] == '.' && p[1] == '.' {
        string_of(&parent_chars(&c))
    } else if n >= 3 && p[0] == '.' && p[1] == '.' && p[2] == '/' {
        let rest = slice_chars(&p, 3, n);
        string_of(&join_under_chars(&parent_chars(&c), &rest))
    } else {
        let norm = chars_of(normalize_path(path).as_str());
        if c.len() == 1 && c[0] == '/' {
            string_of(&norm)
        } else {
            let r = concat_chars(&c, &norm);
            string_of(&r)
        }
    }
}

/// What completion splits a partial path into: the directory to list, the
/// beginning of the name typed so far, and whether the partial path holds a `/`.
pub open spec fn spec_split_path(cwd: Seq<char>, partial: Seq<char>) -> (Seq<char>, Seq<char>, bool) {
    let resolved = spec_resolve_path(cwd, partial);
    let j = last_index_of(resolved, '/');
    let second = occurs_in(partial, seq!['/']);
    if j >= 0 {
        (
            if j == 0 {
                seq!['/']
            } else {
                resolved.subrange(0, j)
            },
            resolved.subrange(j + 1, resolved.len() as int),
            second,
        )
    } else {
        (cwd, resolved, second)
    }
}

/// Splits a partial path, resolved against `cwd`, into the directory to
/// list and the beginning of the name.
pub fn split_path(cwd: &str, partial: &str) -> (r: (String, String, bool))
    ensures
        (r.0@, r.1@, r.2) == spec_split_path(cwd@, partial@),
{
    let resolved = resolve_path(cwd, partial);
    let v = chars_of(resolved.as_str());
    let n = v.len();
    let second = str_contains(partial, "/");
    proof {
        reveal_strlit("/");
        assert("/"@ =~= seq!['/']);
    }
    match rfind_char(&v, '/') {
        Some(j) => {
            let parent = if j == 0 {
                let mut one: Vec<char> = Vec::new();
                one.push('/');
                string_of(&one)
            } else {
                string_of(&slice_chars(&v, 0, j))
            };
            assert(j < n);
            let prefix = string_of(&slice_chars(&v, j + 1, n));
            (parent, prefix, second)
        },
        None => (cwd.to_owned(), resolved, second),
    }
}

/// The working directory as the prompt shows it.
pub fn abbrev_path(path: &str) -> (r: String)
    ensures
        r@ == path@,
{
    path.to_owned()
}

/// The message shown for an error whose text is `msg`: well-known
/// ZooKeeper failures get a plain explanation, anything else is shown as it is.
pub open spec fn spec_error_message(msg: Seq<char>) -> Seq<char> {
    if occurs_in(msg, "ConnectionLoss"@) || occurs_in(msg, "timeout"@) {
        "Connection lost. Is the server running?"@
    } else if occurs_in(msg, "NoNode"@) {
        "Node not found"@
    } else if occurs_in(msg, "NodeExists"@) {
        "Node already exists"@
    } else if occurs_in(msg, "BadVersion"@) {
        "Version mismatch (use stat to check current version)"@
    } else if occurs_in(msg, "NoChildrenForEphemerals"@) {
        "Cannot create children of ephemeral nodes"@
    } else if occurs_in(msg, "InvalidACL"@) || occurs_in(msg, "InvalidAcl"@) {
        "Invalid ACL. Format: scheme:id:perms (e.g. world:anyone:cdrwa)"@
    } else if occurs_in(msg, "NotEmpty"@) {
        "Node has children. Use --recursive to delete."@
    } else if occurs_in(msg, "ConnectionRefused"@) {
        "Connection refused. Is the server running?"@
    } else {
        msg
    }
}

/// Words an error message for the shell (`format_error` on the error's text).
pub fn format_error_message(msg: &str) -> (r: String)
    ensures
        r@ == spec_error_message(msg@),
{
    if str_contains(msg, "ConnectionLoss") || str_contains(msg, "timeout") {
        "Connection lost. Is the server running?".to_owned()
    } else if str_contains(msg, "NoNode") {
        "Node not found".to_owned()
    } else if str_contains(msg, "NodeExists") {
        "Node already exists".to_owned()
    } else if str_contains(msg, "BadVersion") {
        "Version mismatch (use stat to check current version)".to_owned()
    } else if str_contains(msg, "NoChildrenForEphemerals") {
        "Cannot create children of ephemeral nodes".to_owned()
    } else if str_contains(msg, "InvalidACL") || str_contains(msg, "InvalidAcl") {
        "Invalid ACL. Format: scheme:id:perms (e.g. world:anyone:cdrwa)".to_owned()
    } else if str_contains(msg, "NotEmpty") {
        "Node has children. Use --recursive to delete.".to_owned()
    } else if str_contains(msg, "ConnectionRefused") {
        "Connection refused. Is the server running?".to_owned()
    } else {
        msg.to_owned()
    }
}

/// Scanning a command line from the left: the words finished so far, the
/// word being read, whether a `"` is open, and whether the last character
/// was an unused `\\`.
pub open spec fn shell_scan(s: Seq<char>) -> (Seq<Seq<char>>, Seq<char>, bool, bool)
    decreases s.len(),
{
    if s.len() == 0 {
        (Seq::empty(), Seq::empty(), false, false)
    } else {
        let (words, cur, quoted, escaped) = shell_scan(s.drop_last());
        let c = s.last();
        if escaped {
            (words, cur.push(c), quoted, false)
        } else if c == '\\' {
            (words, cur, quoted, true)
        } else if c == '"' {
            (words, cur, !quoted, false)
        } else if c == ' ' && !quoted {
            if cur.len() > 0 {
                (words.push(cur), Seq::empty(), quoted, false)
            } else {
                (words, cur, quoted, false)
            }
        } else {
            (words, cur.push(c), quoted, false)
        }
    }
}

/// The words of a command line: split at spaces outside `"` quotes, with
/// the quotes removed and a `\\` taking the next character as it is.
pub open spec fn spec_shell_words(s: Seq<char>) -> Seq<Seq<char>> {
    let (words, cur, _, _) = shell_scan(s);
    if cur.len() > 0 {
        words.push(cur)
    } else {
        words
    }
}

/// Splits a command line into words.
pub fn shell_words(s: &str) -> (r: Vec<String>)
    ensures
        r.deep_view() == spec_shell_words(s@),
{
    let v = chars_of(s);
    let n = v.len();
    let mut words: Vec<String> = Vec::new();
    let mut current: Vec<char> = Vec::new();
    let mut in_quotes = false;
    let mut escape = false;
    let mut i: usize = 0;
    assert(v@.take(0) =~= Seq::<char>::empty());
    while i < n
        invariant
            n == v@.len(),
            i <= n,
            shell_scan(v@.take(i as int)) == (words.deep_view(), current@, in_quotes, escape),
        decreases n - i,
    {
        assert(v@.take(i + 1).drop_last() =~= v@.take(i as int));
        assert(v@.take(i + 1).last() == v@[i as int]);
        let c = v[i];
        if escape {
            current.push(c);
            escape = false;
        } else if c == '\\' {
            escape = true;
        } else if c == '"' {
            in_quotes = !in_quotes;
        } else if c == ' ' && !in_quotes {
            if current.len() > 0 {
                let ghost old_words = words.deep_view();
                let w = string_of(&current);
                words.push(w);
                assert(words.deep_view() =~= old_words.push(current@));
                current = Vec::new();
                assert(current@ =~= Seq::<char>::empty());
            }
        } else {
            current.push(c);
        }
        i = i + 1;
    }
    assert(v@.take(n as int) =~= v@);
    if current.len() > 0 {
        let ghost old_words = words.deep_view();
        let w = string_of(&current);
        words.push(w);
        assert(words.deep_view() =~= old_words.push(current@));
    }
    words
}

/// A path in canonical form: `/` followed by its names joined by single
/// `/`s (no empty names, no trailing `/` except for the root).
pub open spec fn is_canonical(p: Seq<char>) -> bool {
    p == absolute_of(segments(p))
}

/// A bare node name: not empty, without `/`, and not starting with `.`.
pub open spec fn is_plain_name(n: Seq<char>) -> bool {
    &&& n.len() > 0
    &&& n[0] != '.'
    &&& forall|i: int| 0 <= i < n.len() ==> n[i] != '/'
}

/// An absolute path resolves to itself, whatever the working directory.
pub proof fn law_resolve_absolute(cwd: Seq<char>, p: Seq<char>)
    requires
        p.len() > 0,
        p[0] == '/',
    ensures
        spec_resolve_path(cwd, p) == p,
{
}

/// `.` is the working directory.
pub proof fn law_resolve_dot(cwd: Seq<char>)
    ensures
        spec_resolve_path(cwd, seq!['.']) == cwd,
{
}

/// From the root, a bare name resolves to `/name`.
pub proof fn law_resolve_name_at_root(name: Seq<char>)
    requires
        is_plain_name(name),
    ensures
        spec_resolve_path(seq!['/'], name) == seq!['/'] + name,
{
    assert(Seq::<char>::empty() + (seq!['/'] + name) =~= seq!['/'] + name);
}

/// Going into a child by its bare name and then to `..` comes back to a
/// canonical working directory (`cd name` then `cd ..`).
pub proof fn law_child_then_parent(cwd: Seq<char>, name: Seq<char>)
    requires
        is_canonical(cwd),
        is_plain_name(name),
    ensures
        spec_resolve_path(spec_resolve_path(cwd, name), seq!['.', '.']) == cwd,
{
    let child = spec_resolve_path(cwd, name);
    let base = if cwd.len() == 1 && cwd[0] == '/' { Seq::<char>::empty() } else { cwd };
    assert(child =~= base + seq!['/'] + name);
    crate::client::law_segments_child(base, name);
    if cwd.len() == 1 && cwd[0] == '/' {
        assert(segments(base) =~= Seq::<Seq<char>>::empty());
        assert(segments(cwd) == segments(cwd.drop_last().push('/'))) by {
            assert(cwd.drop_last().push('/') =~= cwd);
        }
        crate::client::lemma_split_after_sep(cwd.drop_last(), '/');
        assert(cwd.drop_last() =~= Seq::<char>::empty());
    }
    assert(segments(child).drop_last() =~= segments(base));
    assert(child.len() >= 2);
    if child[0] == '.' {
        assert(false);
    }
}

/// Every word of a command line is non-empty.
pub proof fn law_shell_words_nonempty(s: Seq<char>)
    ensures
        forall|i: int|
            0 <= i < spec_shell_words(s).len() ==> #[trigger] spec_shell_words(s)[i].len() > 0,
{
    lemma_shell_scan_nonempty(s);
}

proof fn lemma_shell_scan_nonempty(s: Seq<char>)
    ensures
        forall|i: int| 0 <= i < shell_scan(s).0.len() ==> #[trigger] shell_scan(s).0[i].len() > 0,
    decreases s.len(),
{
    if s.len() > 0 {
        lemma_shell_scan_nonempty(s.drop_last());
        let prev = shell_scan(s.drop_last());
        let now = shell_scan(s);
        assert forall|i: int| 0 <= i < now.0.len() implies #[trigger] now.0[i].len() > 0 by {
            if i < prev.0.len() {
                assert(now.0[i] == prev.0[i]);
            }
        }
    }
}

/// Without quotes or backslashes, the words of a line are its space-separated
/// pieces.
pub proof fn law_shell_words_plain(s: Seq<char>)
    requires
        forall|i: int| 0 <= i < s.len() ==> s[i] != '"' && s[i] != '\\',
    ensures
        spec_shell_words(s) == crate::client::segments_on(s, ' '),
{
    lemma_shell_scan_plain(s);
}

proof fn lemma_shell_scan_plain(s: Seq<char>)
    requires
        forall|i: int| 0 <= i < s.len() ==> s[i] != '"' && s[i] != '\\',
    ensures
        shell_scan(s) == (
            crate::client::split_state_on(s, ' ').0,
            crate::client::split_state_on(s, ' ').1,
            false,
            false,
        ),
    decreases s.len(),
{
    if s.len() > 0 {
        lemma_shell_scan_plain(s.drop_last());
    }
}

/// A relative path that starts neither with `/` nor with `.` is placed
/// under the working directory as it is, `/`s and all: under `/` it becomes
/// `/` and the path, anywhere else the directory, a `/` and the path.
pub proof fn law_resolve_relative_under_cwd(cwd: Seq<char>, p: Seq<char>)
    requires
        p.len() > 0,
        p[0] != '/',
        p[0] != '.',
    ensures
        cwd == seq!['/'] ==> spec_resolve_path(cwd, p) == seq!['/'] + p,
        cwd != seq!['/'] ==> spec_resolve_path(cwd, p) == cwd + seq!['/'] + p,
{
    if cwd.len() == 1 && cwd[0] == '/' {
        assert(cwd =~= seq!['/']);
        assert(Seq::<char>::empty() + (seq!['/'] + p) =~= seq!['/'] + p);
    } else {
        assert(cwd != seq!['/']);
        assert(cwd + (seq!['/'] + p) =~= cwd + seq!['/'] + p);
    }
}

/// Resolving `a/b` for a bare name `a` gives the resolution of `a`, a `/`
/// and then `b`: the rest of a relative path stays under the first name.
pub proof fn law_resolve_relative_nests(cwd: Seq<char>, a: Seq<char>, b: Seq<char>)
    requires
        is_plain_name(a),
    ensures
        spec_resolve_path(cwd, a + seq!['/'] + b) == spec_resolve_path(cwd, a) + seq!['/'] + b,
{
    let ab = a + seq!['/'] + b;
    assert(ab[0] == a[0]);
    law_resolve_relative_under_cwd(cwd, a);
    law_resolve_relative_under_cwd(cwd, ab);
    if cwd == seq!['/'] {
        assert(seq!['/'] + ab =~= seq!['/'] + a + seq!['/'] + b);
    } else {
        assert(cwd + seq!['/'] + ab =~= cwd + seq!['/'] + a + seq!['/'] + b);
    }
}

/// A word written for the shell: a `\\` before each `"` and each `\\`.
pub open spec fn escape_word(w: Seq<char>) -> Seq<char>
    decreases w.len(),
{
    if w.len() == 0 {
        Seq::empty()
    } else {
        escape_word(w.drop_last()) + if w.last() == '"' || w.last() == '\\' {
            seq!['\\', w.last()]
        } else {
            seq![w.last()]
        }
    }
}

proof fn lemma_scan_quoted(w: Seq<char>)
    ensures
        shell_scan(seq!['"'] + escape_word(w)) == (Seq::<Seq<char>>::empty(), w, true, false),
    decreases w.len(),
{
    if w.len() == 0 {
        assert(seq!['"'] + escape_word(w) =~= seq!['"']);
        assert(seq!['"'].drop_last() =~= Seq::<char>::empty());
        assert(shell_scan(Seq::<char>::empty()) == (Seq::<Seq<char>>::empty(), Seq::<char>::empty(), false, false));
        assert(w =~= Seq::<char>::empty());
    } else {
        let c = w.last();
        let head = seq!['"'] + escape_word(w.drop_last());
        lemma_scan_quoted(w.drop_last());
        assert(w.drop_last().push(c) =~= w);
        if c == '"' || c == '\\' {
            assert(seq!['"'] + escape_word(w) =~= head.push('\\').push(c));
            assert(head.push('\\').push(c).drop_last() =~= head.push('\\'));
            assert(head.push('\\').drop_last() =~= head);
            assert(shell_scan(head.push('\\')) == (Seq::<Seq<char>>::empty(), w.drop_last(), true, true));
            assert(shell_scan(head.push('\\').push(c)) == (Seq::<Seq<char>>::empty(), w.drop_last().push(c), true, false));
        } else {
            assert(seq!['"'] + escape_word(w) =~= head.push(c));
            assert(head.push(c).drop_last() =~= head);
            assert(shell_scan(head.push(c)) == (Seq::<Seq<char>>::empty(), w.drop_last().push(c), true, false));
        }
    }
}

/// A backslash takes the next character as it is inside double quotes as
/// well as outside: a non-empty word written between quotes, with a `\\`
/// before each of its `"` and `\\`, is read back as exactly that one word.
pub proof fn law_shell_words_quoted(w: Seq<char>)
    requires
        w.len() > 0,
    ensures
        spec_shell_words(seq!['"'] + escape_word(w) + seq!['"']) == seq![w],
{
    let line = seq!['"'] + escape_word(w) + seq!['"'];
    lemma_scan_quoted(w);
    assert(line.drop_last() =~= seq!['"'] + escape_word(w));
    assert(Seq::<Seq<char>>::empty().push(w) =~= seq![w]);
}

/// A command that the shell handles itself.
#[derive(Clone, Debug, PartialEq, Eq)]
pub enum Builtin {
    /// Change to the (resolved) directory, if it exists.
    Cd(String),
    /// Connect to another server.
    Connect(String),
    /// `connect` without an address.
    ConnectUsage,
    /// Print the working directory.
    Pwd,
    /// Print the command reference.
    Help,
}

/// What a line typed at the prompt asks for.
#[derive(Clone, Debug, PartialEq, Eq)]
pub enum ReplInput {
    /// Nothing (only white space).
    Empty,
    /// Leave the shell.
    Exit,
    /// A command of the shell itself.
    Builtin(Builtin),
    /// A client command, as words to parse.
    Command(Vec<String>),
}

/// The words that name the shell's own commands.
pub open spec fn is_builtin_word(w: Seq<char>) -> bool {
    w == "cd"@ || w == "connect"@ || w == "pwd"@ || w == "help"@
}

/// `b` is what the words `w` (starting with a builtin word) ask for, with
/// `cd`'s target resolved against `cwd` (the root when none is given).
pub open spec fn builtin_of(w: Seq<Seq<char>>, cwd: Seq<char>, b: Builtin) -> bool {
    match b {
        Builtin::Cd(p) => w[0] == "cd"@ && p@ == spec_resolve_path(
            cwd,
            if w.len() > 1 {
                w[1]
            } else {
                seq!['/']
            },
        ),
        Builtin::Connect(a) => w[0] == "connect"@ && w.len() >= 2 && a@ == w[1],
        Builtin::ConnectUsage => w[0] == "connect"@ && w.len() < 2,
        Builtin::Pwd => w[0] == "pwd"@,
        Builtin::Help => w[0] == "help"@,
    }
}

fn word_is(w: &String, lit: &str) -> (r: bool)
    ensures
        r == (w@ == lit@),
{
    chars_eq(&chars_of(w.as_str()), &chars_of(lit))
}

/// Reads a line typed at the prompt, with `cwd` the working directory.
pub fn classify_line(line: &str, cwd: &str) -> (r: ReplInput)
    ensures
        ({
            let t = spec_trim(line@);
            let w = spec_shell_words(t);
            &&& (r is Empty <==> t.len() == 0)
            &&& (r is Exit <==> (t.len() > 0 && (t == "exit"@ || t == "quit"@)))
            &&& (r is Builtin <==> (t.len() > 0 && t != "exit"@ && t != "quit"@ && w.len() > 0
                && is_builtin_word(w[0])))
            &&& (r matches ReplInput::Builtin(b) ==> builtin_of(w, cwd@, b))
            &&& (r matches ReplInput::Command(args) ==> args.deep_view() == w)
        }),
{
    let t = trim(line);
    if t.as_str().is_empty() {
        return ReplInput::Empty;
    }
    if word_is(&t, "exit") || word_is(&t, "quit") {
        return ReplInput::Exit;
    }
    let args = shell_words(t.as_str());
    if args.len() == 0 {
        return ReplInput::Command(args);
    }
    let ghost w = args.deep_view();
    assert(w[0] == args@[0]@);
    if word_is(&args[0], "cd") {
        let target = if args.len() > 1 {
            assert(w[1] == args@[1]@);
            resolve_path(cwd, args[1].as_str())
        } else {
            proof {
                reveal_strlit("/");
                assert("/"@ =~= seq!['/']);
            }
            resolve_path(cwd, "/")
        };
        ReplInput::Builtin(Builtin::Cd(target))
    } else if word_is(&args[0], "connect") {
        if args.len() < 2 {
            ReplInput::Builtin(Builtin::ConnectUsage)
        } else {
            assert(w[1] == args@[1]@);
            ReplInput::Builtin(Builtin::Connect(args[1].clone()))
        }
    } else if word_is(&args[0], "pwd") {
        ReplInput::Builtin(Builtin::Pwd)
    } else if word_is(&args[0], "help") {
        ReplInput::Builtin(Builtin::Help)
    } else {
        ReplInput::Command(args)
    }
}

/// The shell's state between lines: its working directory.
#[derive(Clone, Debug, PartialEq, Eq)]
pub struct ReplState {
    pub cwd: String,
}

impl ReplState {
    /// A new shell starts at the root.
    pub fn new() -> (r: ReplState)
        ensures
            r.cwd@ == seq!['/'],
    {
        let mut cwd = String::new();
        crate::text::push_char(&mut cwd, '/');
        ReplState { cwd }
    }

    /// The prompt: `ochki:CWD> `.
    pub fn prompt(&self) -> (r: String)
        ensures
            r@ == "ochki:"@ + self.cwd@ + "> "@,
    {
        let mut p = "ochki:".to_owned();
        p.append(abbrev_path(self.cwd.as_str()).as_str());
        p.append("> ");
        p
    }

    /// Ends a `cd` to `target`: the working directory becomes `target` when
    /// the node exists; otherwise it stays and the message to show is returned.
    pub fn finish_cd(&mut self, target: String, exists: bool) -> (msg: Option<String>)
        ensures
            exists ==> final(self).cwd == target && msg is None,
            !exists ==> (final(self).cwd == old(self).cwd && (msg matches Some(m) && m@
                == "Node not found: "@ + target@)),
    {
        if exists {
            self.cwd = target;
            None
        } else {
            let mut m = "Node not found: ".to_owned();
            m.append(target.as_str());
            Some(m)
        }
    }

    /// After connecting to `addr`: back at the root; returns the message to show.
    pub fn finish_connect(&mut self, addr: &str) -> (msg: String)
        ensures
            final(self).cwd@ == seq!['/'],
            msg@ == "Connected to "@ + addr@,
    {
        *self = ReplState::new();
        let mut m = "Connected to ".to_owned();
        m.append(addr);
        m
    }
}

/// The command reference that `help` prints.
pub fn help_text() -> (r: String)
    ensures
        r@ == HELP@,
{
    HELP.to_owned()
}

/// The command reference.
pub const HELP: &'static str = "Commands:
  ls <path> [-R] [-l]      List children
  get <path>               Get node data
  set <path> <data>        Set node data
  create <path> [data]     Create node (--ephemeral, --sequential, --recursive)
  delete <path> [-R]       Delete node
  stat <path>              Node metadata
  exists <path>            Check if node exists
  tree <path> [--depth N]  Tree view
  find <path> <pattern>    Find nodes by name
  watch <path>             Watch node changes
  cp <src> <dst> [-R]      Copy subtree
  mv <src> <dst>           Move node
  get-acl <path>           Get ACL
  set-acl <path> <acl>     Set ACL
  dump <path>              Export subtree as JSON
  load <path> <file>       Import subtree from JSON
  health ruok <host>       Health check
  diff <path> <host1> <host2>  Compare subtrees

REPL only:
  cd <path>                Change working directory
  connect <host:port>      Connect to different server
  pwd                      Print working directory
  exit / quit              Exit
  help                     This help";

/// The command names offered when completing the first word.
pub open spec fn command_names() -> Seq<Seq<char>> {
    seq![
        "ls"@, "get"@, "set"@, "create"@, "delete"@, "stat"@, "exists"@, "tree"@, "find"@,
        "watch"@, "cp"@, "mv"@, "get-acl"@, "set-acl"@, "dump"@, "load"@, "health"@, "diff"@,
        "cd"@, "connect"@, "exit"@, "quit"@, "help"@, "pwd"@,
    ]
}

/// The commands whose arguments are completed as node paths.
pub open spec fn path_command_names() -> Seq<Seq<char>> {
    seq![
        "ls"@, "get"@, "set"@, "create"@, "delete"@, "stat"@, "exists"@, "tree"@, "find"@,
        "watch"@, "cp"@, "mv"@, "get-acl"@, "set-acl"@, "dump"@, "load"@, "diff"@, "cd"@,
    ]
}

fn command_list() -> (r: Vec<&'static str>)
    ensures
        r.deep_view() == command_names(),
{
    let r = vec![
        "ls", "get", "set", "create", "delete", "stat", "exists", "tree", "find", "watch", "cp",
        "mv", "get-acl", "set-acl", "dump", "load", "health", "diff", "cd", "connect", "exit",
        "quit", "help", "pwd",
    ];
    assert(r.deep_view() =~= command_names());
    r
}

fn path_command_list() -> (r: Vec<&'static str>)
    ensures
        r.deep_view() == path_command_names(),
{
    let r = vec![
        "ls", "get", "set", "create", "delete", "stat", "exists", "tree", "find", "watch", "cp",
        "mv", "get-acl", "set-acl", "dump", "load", "diff", "cd",
    ];
    assert(r.deep_view() =~= path_command_names());
    r
}

/// The text before the cursor at byte position `pos`.
pub open spec fn text_before(line: &str, pos: usize) -> Seq<char> {
    decode_utf8(line.spec_bytes().subrange(0, pos as int))
}

/// Where the word under the cursor starts (after the last space), in characters.
pub open spec fn word_start(before: Seq<char>) -> int {
    last_index_of(before, ' ') + 1
}

/// The command of a line whose word under the cursor starts at `k > 0`:
/// the first space-separated part of the trimmed text before that word.
pub open spec fn command_word(before: Seq<char>, k: int) -> Seq<char> {
    let cw = spec_trim(before.subrange(0, k - 1));
    let f = first_index_of(cw, ' ');
    if f >= 0 {
        cw.subrange(0, f)
    } else {
        cw
    }
}

/// Whether the word under the cursor is completed as a node path.
pub open spec fn completes_path(before: Seq<char>) -> bool {
    word_start(before) > 0 && path_command_names().contains(
        command_word(before, word_start(before)),
    )
}

/// How a matching child `c` is offered: under its directory when the
/// partial path is absolute or starts with `.`, as typed so far followed
/// by the name otherwise.
pub open spec fn offered(partial: Seq<char>, parent: Seq<char>, prefix: Seq<char>, c: Seq<char>) -> Seq<char> {
    if partial.len() > 0 && (partial[0] == '/' || partial[0] == '.') {
        join_under(parent, c)
    } else if prefix.len() == 0 {
        c
    } else {
        partial.subrange(0, partial.len() - prefix.len()) + c
    }
}

/// The completion of the text before the cursor: where the replaced word
/// starts (in bytes) and the candidates. The first word is completed from
/// the command names; a word after a path command from `children`, the
/// children of the directory that `split_path` picks; any other word not at all.
pub open spec fn spec_completion(
    before: Seq<char>,
    pos: int,
    cwd: Seq<char>,
    children: Seq<Seq<char>>,
) -> (int, Seq<Seq<char>>) {
    let k = word_start(before);
    let partial = before.subrange(k, before.len() as int);
    if k == 0 {
        (
            0,
            command_names().filter_map(
                |c: Seq<char>|
                    if has_prefix(c, partial) {
                        Some(c)
                    } else {
                        None
                    },
            ),
        )
    } else if !completes_path(before) {
        (pos, Seq::empty())
    } else {
        let (parent, prefix, _) = spec_split_path(cwd, partial);
        (
            encode_utf8(before.subrange(0, k)).len() as int,
            children.filter_map(
                |c: Seq<char>|
                    if has_prefix(c, prefix) {
                        Some(offered(partial, parent, prefix, c))
                    } else {
                        None
                    },
            ),
        )
    }
}

proof fn lemma_last_index_at_least(s: Seq<char>, c: char, i: int)
    requires
        0 <= i < s.len(),
        s[i] == c,
    ensures
        last_index_of(s, c) >= i,
    decreases s.len(),
{
    if s.last() != c {
        lemma_last_index_at_least(s.drop_last(), c, i);
    }
}

/// For a partial path that neither is absolute nor starts with `.`, the
/// name being completed is the end of what was typed.
proof fn lemma_prefix_within_partial(cwd: Seq<char>, partial: Seq<char>)
    requires
        !(partial.len() > 0 && (partial[0] == '/' || partial[0] == '.')),
    ensures
        spec_split_path(cwd, partial).1.len() <= partial.len(),
{
    let base = if cwd.len() == 1 && cwd[0] == '/' { Seq::<char>::empty() } else { cwd };
    let r = spec_resolve_path(cwd, partial);
    assert(r =~= base + seq!['/'] + partial);
    assert(r[base.len() as int] == '/');
    lemma_last_index_at_least(r, '/', base.len() as int);
    crate::text::lemma_last_index_of_bounds(r, '/');
}

/// The UTF-8 encoding of `a + b` is that of `a` followed by that of `b`.
proof fn lemma_encode_concat(a: Seq<char>, b: Seq<char>)
    ensures
        encode_utf8(a + b) == encode_utf8(a) + encode_utf8(b),
    decreases a.len(),
{
    if a.len() == 0 {
        assert(a + b =~= b);
        assert(encode_utf8(a) + encode_utf8(b) =~= encode_utf8(b));
    } else {
        assert((a + b).drop_first() =~= a.drop_first() + b);
        lemma_encode_concat(a.drop_first(), b);
        assert(encode_utf8(a + b) =~= encode_utf8(a) + encode_utf8(b));
    }
}

/// A completion candidate.
#[derive(Clone, Debug, PartialEq, Eq)]
pub struct PathCandidate(pub String);

impl PathCandidate {
    /// The text shown in the list of candidates.
    pub fn display(&self) -> (r: &str)
        ensures
            r@ == self.0@,
    {
        self.0.as_str()
    }

    /// The text that replaces the word.
    pub fn replacement(&self) -> (r: &str)
        ensures
            r@ == self.0@,
    {
        self.0.as_str()
    }
}

/// The text before the cursor, and where the word under the cursor starts.
fn cursor_word(line: &str, pos: usize) -> (r: (Vec<char>, usize))
    requires
        pos <= line.spec_bytes().len(),
        is_char_boundary(line.spec_bytes(), pos as int),
    ensures
        r.0@ == text_before(line, pos),
        r.1 == word_start(r.0@),
        r.1 <= r.0@.len(),
        encode_utf8(r.0@).len() == pos,
{
    let (head, _) = line.split_at(pos);
    proof {
        vstd::utf8::encode_utf8_decode_utf8(head@);
    }
    let before = chars_of(head);
    let n = before.len();
    let k = match rfind_char(&before, ' ') {
        Some(i) => {
            assert(i < n);
            i + 1
        },
        None => 0,
    };
    (before, k)
}

/// The command of a line whose word under the cursor starts at `k > 0`.
fn command_of(before: &Vec<char>, k: usize) -> (r: Vec<char>)
    requires
        0 < k <= before@.len(),
    ensures
        r@ == command_word(before@, k as int),
{
    let cw = chars_of(trim(string_of_range(before, 0, k - 1).as_str()).as_str());
    match find_char(&cw, ' ') {
        Some(f) => slice_chars(&cw, 0, f),
        None => cw,
    }
}

fn is_path_command(cmd: &Vec<char>) -> (r: bool)
    ensures
        r == path_command_names().contains(cmd@),
{
    let names = path_command_list();
    let mut i: usize = 0;
    while i < names.len()
        invariant
            names.deep_view() == path_command_names(),
            i <= names@.len(),
            forall|j: int| 0 <= j < i ==> path_command_names()[j] != cmd@,
        decreases names.len() - i,
    {
        let name = chars_of(names[i]);
        assert(names.deep_view()[i as int] == names@[i as int]@);
        if chars_eq(&name, cmd) {
            assert(path_command_names()[i as int] == cmd@);
            return true;
        }
        i = i + 1;
    }
    false
}

/// The directory whose children complete the word under the cursor, when
/// that word is a node path (`None` otherwise). `pos` is a byte position
/// on a character boundary, as the line editor gives it.
pub fn children_to_fetch(line: &str, pos: usize, cwd: &str) -> (r: Option<String>)
    requires
        pos <= line.spec_bytes().len(),
        is_char_boundary(line.spec_bytes(), pos as int),
    ensures
        ({
            let before = text_before(line, pos);
            let partial = before.subrange(word_start(before), before.len() as int);
            &&& (r is Some <==> completes_path(before))
            &&& (r matches Some(p) ==> p@ == spec_split_path(cwd@, partial).0)
        }),
{
    let (before, k) = cursor_word(line, pos);
    if k == 0 {
        return None;
    }
    let cmd = command_of(&before, k);
    if !is_path_command(&cmd) {
        return None;
    }
    let partial = string_of_range(&before, k, before.len());
    let (parent, _, _) = split_path(cwd, partial.as_str());
    Some(parent)
}

/// Completes the word under the cursor at byte position `pos`, given the
/// children of the directory that `children_to_fetch` named (ignored when
/// it named none): where the replaced word starts, and the candidates.
pub fn complete_path(line: &str, pos: usize, cwd: &str, children: &Vec<String>) -> (r: (usize, Vec<PathCandidate>))
    requires
        pos <= line.spec_bytes().len(),
        is_char_boundary(line.spec_bytes(), pos as int),
    ensures
        ({
            let c = spec_completion(text_before(line, pos), pos as int, cwd@, children.deep_view());
            r.0 == c.0 && r.1@.map_values(|p: PathCandidate| p.0@) == c.1
        }),
{
    let (before, k) = cursor_word(line, pos);
    let ghost b = before@;
    let n = before.len();
    let partial_chars = slice_chars(&before, k, n);
    let partial = string_of(&partial_chars);
    let mut out: Vec<PathCandidate> = Vec::new();
    if k == 0 {
        let names = command_list();
        let ghost pred = |c: Seq<char>|
            if has_prefix(c, partial@) {
                Some(c)
            } else {
                None
            };
        let mut i: usize = 0;
        assert(names.deep_view().take(0) =~= Seq::<Seq<char>>::empty());
        while i < names.len()
            invariant
                names.deep_view() == command_names(),
                i <= names@.len(),
                partial_chars@ == partial@,
                pred == (|c: Seq<char>|
                    if has_prefix(c, partial@) {
                        Some(c)
                    } else {
                        None
                    }),
                out@.map_values(|p: PathCandidate| p.0@) == names.deep_view().take(i as int).filter_map(pred),
            decreases names.len() - i,
        {
            let name = chars_of(names[i]);
            assert(names.deep_view()[i as int] == names@[i as int]@);
            assert(names.deep_view().take(i + 1).drop_last() =~= names.deep_view().take(i as int));
            let ghost old_out = out@;
            assert(pred(name@) == if has_prefix(name@, partial@) { Some(name@) } else { None });
            assert(names.deep_view().take(i + 1).last() == name@);
            if starts_with(&name, &partial_chars) {
                out.push(PathCandidate(string_of(&name)));
                assert(out@.map_values(|p: PathCandidate| p.0@) =~= old_out.map_values(
                    |p: PathCandidate| p.0@,
                ).push(name@));
            }
            i = i + 1;
        }
        assert(names.deep_view().take(names@.len() as int) =~= names.deep_view());
        return (0, out);
    }
    let cmd = command_of(&before, k);
    if !is_path_command(&cmd) {
        assert(out@.map_values(|p: PathCandidate| p.0@) =~= Seq::<Seq<char>>::empty());
        return (pos, out);
    }
    let (parent, prefix, _) = split_path(cwd, partial.as_str());
    let prefix_chars = chars_of(prefix.as_str());
    let parent_chars = chars_of(parent.as_str());
    let absolute_like = n > k && (before[k] == '/' || before[k] == '.');
    let ghost f = |c: Seq<char>|
        if has_prefix(c, prefix@) {
            Some(offered(partial@, parent@, prefix@, c))
        } else {
            None
        };
    let mut i: usize = 0;
    assert(children.deep_view().take(0) =~= Seq::<Seq<char>>::empty());
    while i < children.len()
        invariant
            i <= children@.len(),
            partial_chars@ == partial@,
            prefix_chars@ == prefix@,
            prefix@ == spec_split_path(cwd@, partial@).1,
            parent@ == spec_split_path(cwd@, partial@).0,
            parent_chars@ == parent@,
            absolute_like == (partial@.len() > 0 && (partial@[0] == '/' || partial@[0] == '.')),
            f == (|c: Seq<char>|
                if has_prefix(c, prefix@) {
                    Some(offered(partial@, parent@, prefix@, c))
                } else {
                    None
                }),
            out@.map_values(|p: PathCandidate| p.0@) == children.deep_view().take(i as int).filter_map(f),
        decreases children.len() - i,
    {
        let c = chars_of(children[i].as_str());
        assert(children.deep_view()[i as int] == children@[i as int]@);
        assert(children.deep_view().take(i + 1).drop_last() =~= children.deep_view().take(i as int));
        let ghost old_out = out@;
        if starts_with(&c, &prefix_chars) {
            let text: Vec<char> = if absolute_like {
                join_under_chars(&parent_chars, &c)
            } else if prefix_chars.len() == 0 {
                c
            } else {
                proof {
                    lemma_prefix_within_partial(cwd@, partial@);
                }
                let head = slice_chars(&partial_chars, 0, partial_chars.len() - prefix_chars.len());
                concat_chars(&head, &c)
            };
            out.push(PathCandidate(string_of(&text)));
            assert(out@.map_values(|p: PathCandidate| p.0@) =~= old_out.map_values(
                |p: PathCandidate| p.0@,
            ).push(text@));
        }
        i = i + 1;
    }
    assert(children.deep_view().take(children@.len() as int) =~= children.deep_view());
    proof {
        lemma_encode_concat(b.subrange(0, k as int), b.subrange(k as int, b.len() as int));
        assert(b.subrange(0, k as int) + b.subrange(k as int, b.len() as int) =~= b);
    }
    let start = string_of_range(&before, 0, k).as_str().len();
    (start, out)
}

/// No two `/` follow each other in `s`.
pub open spec fn no_double_slash(s: Seq<char>) -> bool {
    forall|i: int| 0 <= i < s.len() - 1 ==> !(#[trigger] s[i] == '/' && s[i + 1] == '/')
}

/// `s` holds no `/`.
pub open spec fn slash_free(s: Seq<char>) -> bool {
    forall|i: int| 0 <= i < s.len() ==> #[trigger] s[i] != '/'
}

proof fn lemma_collapse_identity(s: Seq<char>)
    requires
        no_double_slash(s),
    ensures
        collapse_double_slash(s) == s,
    decreases s.len(),
{
    if s.len() >= 2 {
        let t = s.subrange(1, s.len() as int);
        assert(!(s[0] == '/' && s[1] == '/'));
        assert forall|i: int| 0 <= i < t.len() - 1 implies !(#[trigger] t[i] == '/' && t[i + 1]
            == '/') by {
            assert(t[i] == s[i + 1] && t[i + 1] == s[i + 2]);
        }
        lemma_collapse_identity(t);
        assert(seq![s[0]] + t =~= s);
    }
}

proof fn lemma_split_parts(s: Seq<char>)
    ensures
        forall|k: int|
            0 <= k < split_state_on(s, '/').0.len() ==> #[trigger] split_state_on(s, '/').0[k].len()
                > 0 && slash_free(split_state_on(s, '/').0[k]),
        slash_free(split_state_on(s, '/').1),
    decreases s.len(),
{
    if s.len() > 0 {
        lemma_split_parts(s.drop_last());
        let prev = split_state_on(s.drop_last(), '/');
        let now = split_state_on(s, '/');
        assert forall|k: int| 0 <= k < now.0.len() implies #[trigger] now.0[k].len() > 0
            && slash_free(now.0[k]) by {
            if k < prev.0.len() {
                assert(now.0[k] == prev.0[k]);
            }
        }
        if s.last() != '/' {
            assert forall|i: int| 0 <= i < now.1.len() implies #[trigger] now.1[i] != '/' by {
                if i < prev.1.len() {
                    assert(now.1[i] == prev.1[i]);
                }
            }
        }
    }
}

proof fn lemma_segments_parts(s: Seq<char>)
    ensures
        forall|k: int|
            0 <= k < segments(s).len() ==> #[trigger] segments(s)[k].len() > 0 && slash_free(
                segments(s)[k],
            ),
{
    lemma_split_parts(s);
    let st = split_state_on(s, '/');
    assert forall|k: int| 0 <= k < segments(s).len() implies #[trigger] segments(s)[k].len() > 0
        && slash_free(segments(s)[k]) by {
        if k < st.0.len() {
            assert(segments(s)[k] == st.0[k]);
        }
    }
}

proof fn lemma_join_shape(parts: Seq<Seq<char>>)
    requires
        parts.len() > 0,
        forall|k: int| 0 <= k < parts.len() ==> #[trigger] parts[k].len() > 0 && slash_free(parts[k]),
    ensures
        join_slash(parts).len() > 0,
        join_slash(parts)[0] != '/',
        join_slash(parts).last() != '/',
        no_double_slash(join_slash(parts)),
    decreases parts.len(),
{
    if parts.len() == 1 {
        let p = parts[0];
        assert(p[0] != '/' && p.last() != '/');
    } else {
        let init = parts.drop_last();
        assert forall|k: int| 0 <= k < init.len() implies #[trigger] init[k].len() > 0 && slash_free(
            init[k],
        ) by {
            assert(init[k] == parts[k]);
        }
        lemma_join_shape(init);
        let a = join_slash(init);
        let l = parts.last();
        assert(l.len() > 0 && slash_free(l)) by {
            assert(l == parts[parts.len() - 1]);
        }
        let j = a + seq!['/'] + l;
        assert(join_slash(parts) == j);
        assert(j[0] == a[0]);
        assert(j.last() == l.last());
        assert forall|i: int| 0 <= i < j.len() - 1 implies !(#[trigger] j[i] == '/' && j[i + 1]
            == '/') by {
            if i < a.len() - 1 {
                assert(j[i] == a[i] && j[i + 1] == a[i + 1]);
            } else if i == a.len() - 1 {
                assert(j[i] == a.last());
            } else if i == a.len() {
                assert(j[i + 1] == l[0]);
            } else {
                assert(j[i] == l[i - a.len() - 1]);
            }
        }
    }
}

/// For a canonical working directory, a bare name resolves to exactly the
/// child path that listings use for that child (`cd name` lands where `ls`
/// shows `name`).
pub proof fn law_resolve_name_is_child(cwd: Seq<char>, name: Seq<char>)
    requires
        is_canonical(cwd),
        is_plain_name(name),
    ensures
        spec_resolve_path(cwd, name) == spec_child_path(cwd, name),
{
    let segs = segments(cwd);
    let full = cwd + seq!['/'] + name;
    assert(slash_free(name));
    if cwd.len() == 1 && cwd[0] == '/' {
        assert(full =~= seq!['/', '/'] + name);
        assert(full.subrange(2, full.len() as int) =~= name);
        assert(no_double_slash(name)) by {
            assert forall|i: int| 0 <= i < name.len() - 1 implies !(#[trigger] name[i] == '/'
                && name[i + 1] == '/') by {
                assert(name[i] != '/');
            }
        }
        lemma_collapse_identity(name);
        assert(spec_resolve_path(cwd, name) =~= seq!['/'] + name);
    } else {
        assert(segs.len() > 0) by {
            if segs.len() == 0 {
                assert(absolute_of(segs) =~= seq!['/']);
            }
        }
        lemma_segments_parts(cwd);
        lemma_join_shape(segs);
        let jn = join_slash(segs);
        assert(cwd == seq!['/'] + jn);
        assert forall|i: int| 0 <= i < full.len() - 1 implies !(#[trigger] full[i] == '/'
            && full[i + 1] == '/') by {
            if i == 0 {
                assert(full[1] == jn[0]);
            } else if i < cwd.len() - 1 {
                assert(full[i] == jn[i - 1] && full[i + 1] == jn[i]);
            } else if i == cwd.len() - 1 {
                assert(full[i] == jn.last());
            } else if i == cwd.len() {
                assert(full[i + 1] == name[0]);
            } else {
                assert(full[i] == name[i - cwd.len() - 1]);
            }
        }
        lemma_collapse_identity(full);
        assert(spec_resolve_path(cwd, name) =~= full);
    }
}

} // verus!
