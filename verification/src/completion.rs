//! Tab completion and history hints: what is being completed at the
//! cursor, and which candidates are offered, in order. Listing directories
//! and searching history are left to the binary, which hands the names and
//! entries it found to these functions.
use vstd::prelude::*;
use vstd::string::StringExecFns;

use crate::builtins::default_builtin_names;
use crate::shell::state::strings_view;
use crate::table::{lemma_lex_irreflexive, lemma_lex_total, lemma_lex_transitive, lex_lt, str_lt};
use crate::text::{
    all_ws, char_at, chars_of, contains_char, has_non_whitespace, is_prefix, is_suffix,
    is_whitespace, is_ws, starts_with, str_eq, string_from_chars, trim_end, trim_end_chars,
    trim_start, trim_start_count, lemma_trim_start_count_bound,
};

verus! {

/// What the word at the cursor is: a command, a path, or a variable.
#[derive(Debug, Clone, Copy, PartialEq, Eq, Structural)]
pub enum CompletionKind {
    Command,
    Path,
    EnvVar,
}

/// The characters that end the word being completed.
pub open spec fn is_token_break(c: char) -> bool {
    is_ws(c) || c == '|' || c == ';' || c == '(' || c == ')' || c == '<' || c == '>'
}

/// Where the word that ends at `j` starts: after the last break before it.
pub open spec fn token_start(s: Seq<char>, j: int) -> int
    decreases j,
{
    if j <= 0 {
        0
    } else if is_token_break(s[j - 1]) {
        j
    } else {
        token_start(s, j - 1)
    }
}

pub open spec fn ends_with_char(s: Seq<char>, c: char) -> bool {
    s.len() > 0 && s.last() == c
}

/// Whether a command goes after `before` (the line before the word, with
/// trailing whitespace off): at the start, or after `|`, `||`, `&&`, `;`
/// or `(`.
pub open spec fn command_position(before: Seq<char>) -> bool {
    ||| before.len() == 0
    ||| ends_with_char(before, '|')
    ||| is_suffix(seq!['&', '&'], before)
    ||| ends_with_char(before, ';')
    ||| ends_with_char(before, '(')
}

/// Whether the word is a path: it holds `/`, starts with `.` or `~`, or
/// follows a redirection.
pub open spec fn needs_path(before: Seq<char>, token: Seq<char>) -> bool {
    ||| token.contains('/')
    ||| (token.len() > 0 && (token[0] == '.' || token[0] == '~'))
    ||| ends_with_char(before, '<')
    ||| ends_with_char(before, '>')
}

/// The kind of the word `line[start..end]`.
pub open spec fn context_kind(line: Seq<char>, start: int, end: int) -> CompletionKind {
    let token = line.subrange(start, end);
    let before = trim_end(line.subrange(0, start));
    if token.len() > 0 && token[0] == '$' {
        CompletionKind::EnvVar
    } else if needs_path(before, token) {
        CompletionKind::Path
    } else if command_position(before) {
        CompletionKind::Command
    } else {
        CompletionKind::Path
    }
}

pub proof fn lemma_token_start(s: Seq<char>, j: int)
    requires
        0 <= j,
    ensures
        0 <= token_start(s, j) <= j,
    decreases j,
{
    if j > 0 && !is_token_break(s[j - 1]) {
        lemma_token_start(s, j - 1);
    }
}

/// The word being completed: its kind, its text, and the character
/// positions it spans in the line.
#[derive(Debug, Clone)]
pub struct CompletionContext {
    pub kind: CompletionKind,
    pub token: String,
    pub start: usize,
    pub end: usize,
}

fn is_break_char(c: char) -> (b: bool)
    ensures
        b == is_token_break(c),
{
    is_whitespace(c) || c == '|' || c == ';' || c == '(' || c == ')' || c == '<' || c == '>'
}

fn ends_with_one(s: &[char], c: char) -> (b: bool)
    ensures
        b == ends_with_char(s@, c),
{
    s.len() > 0 && char_at(s, s.len() - 1) == c
}

/// The word that ends at the cursor `pos` (a character position, past the
/// end meaning the end) and what kind of word it is.
pub fn completion_context(line: &str, pos: usize) -> (r: CompletionContext)
    ensures
        r.end == if pos < line@.len() {
            pos as int
        } else {
            line@.len() as int
        },
        r.start == token_start(line@, r.end as int),
        r.token@ == line@.subrange(r.start as int, r.end as int),
        r.kind == context_kind(line@, r.start as int, r.end as int),
{
    let chars = chars_of(line);
    let s = chars.as_slice();
    let end = if pos < s.len() {
        pos
    } else {
        s.len()
    };
    let mut start = end;
    while start > 0 && !is_break_char(char_at(s, start - 1))
        invariant
            start <= end <= s@.len(),
            token_start(s@, start as int) == token_start(s@, end as int),
        decreases start,
    {
        start -= 1;
    }
    let token_chars = vstd::slice::slice_subrange(s, start, end);
    let token = string_from_chars(token_chars);
    let before = trim_end_chars(vstd::slice::slice_subrange(s, 0, start));
    let b = before.as_slice();
    let is_var = token_chars.len() > 0 && char_at(token_chars, 0) == '$';
    let path = contains_char(token_chars, '/') || (token_chars.len() > 0 && (char_at(
        token_chars,
        0,
    ) == '.' || char_at(token_chars, 0) == '~')) || ends_with_one(b, '<') || ends_with_one(b, '>');
    let amp = ['&', '&'];
    let command = b.len() == 0 || ends_with_one(b, '|') || crate::text::ends_with(b, &amp)
        || ends_with_one(b, ';') || ends_with_one(b, '(');
    proof {
        assert(amp@ =~= seq!['&', '&']);
    }
    let kind = if is_var {
        CompletionKind::EnvVar
    } else if path {
        CompletionKind::Path
    } else if command {
        CompletionKind::Command
    } else {
        CompletionKind::Path
    };
    CompletionContext { kind, token, start, end }
}

/// `~` or a path under `~/` with the home directory put for the `~`, when
/// there is one; anything else as it is.
pub open spec fn tilde_expanded(input: Seq<char>, home: Option<Seq<char>>) -> Seq<char> {
    match home {
        Some(h) => if input.len() > 0 && input[0] == '~' && (input.len() == 1 || input[1] == '/') {
            h + input.subrange(1, input.len() as int)
        } else {
            input
        },
        None => input,
    }
}

pub fn expand_tilde(input: &str, home: Option<&str>) -> (r: String)
    ensures
        r@ == tilde_expanded(
            input@,
            match home {
                Some(h) => Some(h@),
                None => None,
            },
        ),
{
    let s = chars_of(input);
    match home {
        Some(h) => {
            if s.len() > 0 && s[0] == '~' && (s.len() == 1 || s[1] == '/') {
                let mut out = h.to_string();
                let rest = string_from_chars(vstd::slice::slice_subrange(s.as_slice(), 1, s.len()));
                out.append(rest.as_str());
                out
            } else {
                input.to_string()
            }
        },
        None => input.to_string(),
    }
}

/// `path` read from the working directory `cwd`: itself when it is
/// absolute, else `cwd` joined with it as `Path::join` joins.
pub open spec fn absolutized(cwd: Seq<char>, path: Seq<char>) -> Seq<char> {
    if path.len() > 0 && path[0] == '/' {
        path
    } else {
        crate::history::joined_path(cwd, path)
    }
}

/// The directory that a typed path names, seen from `cwd`.
pub fn absolutize_path(cwd: &str, path: &str) -> (r: String)
    ensures
        r@ == absolutized(cwd@, path@),
{
    let p = chars_of(path);
    if p.len() > 0 && p[0] == '/' {
        path.to_string()
    } else {
        crate::history::join_path(cwd, path)
    }
}

/// The part of a typed path up to and including its last `/`, which
/// each offered path keeps; empty without a `/`.
pub open spec fn last_slash(s: Seq<char>, j: int) -> int
    decreases j,
{
    if j <= 0 {
        -1
    } else if s[j - 1] == '/' {
        j - 1
    } else {
        last_slash(s, j - 1)
    }
}

pub open spec fn replace_base(prefix: Seq<char>) -> Seq<char> {
    prefix.subrange(0, last_slash(prefix, prefix.len() as int) + 1)
}

proof fn lemma_last_slash(s: Seq<char>, j: int)
    requires
        0 <= j <= s.len(),
    ensures
        -1 <= last_slash(s, j) < j,
    decreases j,
{
    if j > 0 && s[j - 1] != '/' {
        lemma_last_slash(s, j - 1);
    }
}

pub fn replace_base_of(prefix: &str) -> (r: String)
    ensures
        r@ == replace_base(prefix@),
{
    let s = chars_of(prefix);
    let mut j = s.len();
    while j > 0 && s[j - 1] != '/'
        invariant
            j <= s@.len(),
            last_slash(s@, j as int) == last_slash(s@, s@.len() as int),
        decreases j,
    {
        j -= 1;
    }
    proof {
        lemma_last_slash(s@, j as int);
    }
    string_from_chars(vstd::slice::slice_subrange(s.as_slice(), 0, j))
}

/// Whether names increase strictly, in code-point order.
pub open spec fn strictly_sorted(s: Seq<Seq<char>>) -> bool {
    forall|i: int, j: int| 0 <= i < j < s.len() ==> lex_lt(#[trigger] s[i], #[trigger] s[j])
}

/// Files `x` in the sorted vector `v`, unless it is there already.
fn insert_sorted(v: &mut Vec<String>, x: String)
    requires
        strictly_sorted(strings_view(old(v)@)),
    ensures
        strictly_sorted(strings_view(final(v)@)),
        forall|n: Seq<char>|
            #![trigger strings_view(final(v)@).contains(n)]
            strings_view(final(v)@).contains(n) <==> (strings_view(old(v)@).contains(n) || n
                == x@),
{
    let ghost s = strings_view(v@);
    let mut i: usize = 0;
    while i < v.len() && str_lt(v[i].as_str(), x.as_str())
        invariant
            0 <= i <= v@.len(),
            s == strings_view(v@),
            forall|k: int| 0 <= k < i ==> lex_lt(#[trigger] s[k], x@),
        decreases v@.len() - i,
    {
        i += 1;
    }
    if i < v.len() && str_eq(v[i].as_str(), x.as_str()) {
        assert(s[i as int] == x@);
        assert forall|n: Seq<char>| #![trigger s.contains(n)] s.contains(n) <==> (s.contains(n) || n
            == x@) by {
            if n == x@ {
                assert(s[i as int] == n);
            }
        }
        return;
    }
    proof {
        if i < s.len() {
            lemma_lex_total(s[i as int], x@);
        }
    }
    let ghost xv = x@;
    v.insert(i, x);
    proof {
        let t = strings_view(v@);
        assert(t =~= s.insert(i as int, xv));
        assert forall|a: int, b: int| 0 <= a < b < t.len() implies lex_lt(
            #[trigger] t[a],
            #[trigger] t[b],
        ) by {
            if b == i {
                assert(t[a] == s[a]);
            } else if a == i {
                assert(t[b] == s[b - 1]);
                if b - 1 > i {
                    assert(lex_lt(s[i as int], s[b - 1]));
                    lemma_lex_transitive(xv, s[i as int], s[b - 1]);
                }
            } else if b < i {
                assert(t[a] == s[a] && t[b] == s[b]);
            } else if a < i {
                assert(t[a] == s[a] && t[b] == s[b - 1]);
                if b - 1 > i {
                    assert(lex_lt(s[i as int], s[b - 1]));
                    lemma_lex_transitive(xv, s[i as int], s[b - 1]);
                }
                lemma_lex_transitive(s[a], xv, s[b - 1]);
            } else {
                assert(t[a] == s[a - 1] && t[b] == s[b - 1]);
            }
        }
        assert forall|n: Seq<char>| #![trigger t.contains(n)] t.contains(n) <==> (s.contains(n) || n
            == xv) by {
            if t.contains(n) {
                let k = choose|k: int| 0 <= k < t.len() && t[k] == n;
                if k < i {
                    assert(s[k] == n);
                } else if k > i {
                    assert(s[k - 1] == n);
                }
            }
            if s.contains(n) {
                let k = choose|k: int| 0 <= k < s.len() && s[k] == n;
                if k < i {
                    assert(t[k] == n);
                } else {
                    assert(t[k + 1] == n);
                }
            }
            if n == xv {
                assert(t[i as int] == n);
            }
        }
    }
}

/// The names of `vals`, each once, in increasing order.
pub fn sorted_unique(vals: Vec<String>) -> (r: Vec<String>)
    ensures
        strictly_sorted(strings_view(r@)),
        forall|n: Seq<char>|
            #![trigger strings_view(r@).contains(n)]
            strings_view(r@).contains(n) <==> strings_view(vals@).contains(n),
{
    let ghost all = strings_view(vals@);
    let mut out: Vec<String> = Vec::new();
    let mut k: usize = 0;
    while k < vals.len()
        invariant
            k <= vals@.len(),
            all == strings_view(vals@),
            strictly_sorted(strings_view(out@)),
            forall|n: Seq<char>|
                #![trigger strings_view(out@).contains(n)]
                strings_view(out@).contains(n) <==> all.subrange(0, k as int).contains(n),
        decreases vals@.len() - k,
    {
        let ghost before = strings_view(out@);
        insert_sorted(&mut out, vals[k].clone());
        proof {
            let sub = all.subrange(0, k + 1);
            assert(sub =~= all.subrange(0, k as int).push(all[k as int]));
            assert forall|n: Seq<char>| #![trigger strings_view(out@).contains(n)] strings_view(
                out@,
            ).contains(n) <==> sub.contains(n) by {
                broadcast use vstd::seq_lib::group_seq_properties;

                assert(before.contains(n) <==> all.subrange(0, k as int).contains(n));
            }
        }
        k += 1;
    }
    proof {
        assert(all.subrange(0, vals@.len() as int) =~= all);
    }
    out
}

/// The names of `items` that start with `p`, in their order.
pub open spec fn prefixed(p: Seq<char>, items: Seq<Seq<char>>) -> Seq<Seq<char>>
    decreases items.len(),
{
    if items.len() == 0 {
        seq![]
    } else {
        let rest = prefixed(p, items.drop_last());
        if is_prefix(p, items.last()) {
            rest.push(items.last())
        } else {
            rest
        }
    }
}

/// Every name offered for a prefix starts with it, and comes from the
/// names it was chosen from.
pub proof fn law_offered_names_start_with_the_prefix(p: Seq<char>, items: Seq<Seq<char>>, n: Seq<char>)
    requires
        prefixed(p, items).contains(n),
    ensures
        is_prefix(p, n),
        items.contains(n),
    decreases items.len(),
{
    let rest = prefixed(p, items.drop_last());
    if rest.contains(n) {
        law_offered_names_start_with_the_prefix(p, items.drop_last(), n);
        let k = choose|k: int| 0 <= k < items.drop_last().len() && items.drop_last()[k] == n;
        assert(items[k] == n);
    } else {
        assert(is_prefix(p, items.last()) && n == items.last()) by {
            if is_prefix(p, items.last()) {
                let k = choose|k: int| 0 <= k < rest.push(items.last()).len() && rest.push(items.last())[k] == n;
                if k < rest.len() {
                    assert(rest[k] == n);
                }
            }
        }
        assert(items[items.len() - 1] == n);
    }
}

fn push_prefixed(out: &mut Vec<String>, p: &str, items: &[String])
    ensures
        strings_view(final(out)@) == strings_view(old(out)@) + prefixed(p@, strings_view(items@)),
{
    let ghost all = strings_view(items@);
    let ghost start = strings_view(out@);
    let pc = chars_of(p);
    let mut k: usize = 0;
    assert(all.subrange(0, 0) =~= Seq::<Seq<char>>::empty());
    assert(start + prefixed(p@, all.subrange(0, 0)) =~= start);
    while k < items.len()
        invariant
            k <= items@.len(),
            all == strings_view(items@),
            pc@ == p@,
            strings_view(out@) == start + prefixed(p@, all.subrange(0, k as int)),
        decreases items@.len() - k,
    {
        let name = chars_of(items[k].as_str());
        let ghost sub = all.subrange(0, k + 1);
        assert(sub.drop_last() =~= all.subrange(0, k as int));
        assert(sub.last() == all[k as int]);
        if starts_with(name.as_slice(), pc.as_slice()) {
            let ghost before = strings_view(out@);
            out.push(items[k].clone());
            assert(strings_view(out@) =~= before.push(all[k as int]));
        }
        k += 1;
    }
    assert(all.subrange(0, items@.len() as int) =~= all);
}

/// The builtins' names.
pub fn builtin_names() -> (r: Vec<String>)
    ensures
        strings_view(r@) == default_builtin_names(),
{
    let mut v: Vec<String> = Vec::new();
    v.push("history".to_string());
    v.push("cd".to_string());
    v.push("pwd".to_string());
    v.push("echo".to_string());
    v.push("clear".to_string());
    v.push("type".to_string());
    v.push("exit".to_string());
    v.push("alias".to_string());
    v.push("unalias".to_string());
    v.push("jobs".to_string());
    v.push("fg".to_string());
    v.push("bg".to_string());
    v.push("kill".to_string());
    assert(strings_view(v@) =~= default_builtin_names());
    v
}

/// The commands offered for `prefix`: the builtins and the programs found
/// on the search path whose names start with it, each once, in order.
pub fn command_candidates(prefix: &str, path_names: &[String]) -> (r: Vec<String>)
    ensures
        strictly_sorted(strings_view(r@)),
        forall|n: Seq<char>|
            #![trigger strings_view(r@).contains(n)]
            strings_view(r@).contains(n) <==> (prefixed(prefix@, default_builtin_names()).contains(n)
                || prefixed(prefix@, strings_view(path_names@)).contains(n)),
{
    let builtins = builtin_names();
    let mut vals: Vec<String> = Vec::new();
    push_prefixed(&mut vals, prefix, builtins.as_slice());
    push_prefixed(&mut vals, prefix, path_names);
    let ghost v = strings_view(vals@);
    let r = sorted_unique(vals);
    proof {
        broadcast use vstd::seq_lib::group_seq_properties;

        assert(v =~= Seq::<Seq<char>>::empty() + prefixed(prefix@, default_builtin_names())
            + prefixed(prefix@, strings_view(path_names@)));
    }
    r
}

/// The variables offered for `prefix` (a leading `$` set aside): `$` and
/// each name that starts with it.
pub open spec fn env_values(needle: Seq<char>, env: Seq<(Seq<char>, Seq<char>)>) -> Seq<Seq<char>>
    decreases env.len(),
{
    if env.len() == 0 {
        seq![]
    } else {
        let rest = env_values(needle, env.drop_last());
        if is_prefix(needle, env.last().0) {
            rest.push(seq!['$'] + env.last().0)
        } else {
            rest
        }
    }
}

pub open spec fn without_dollar(prefix: Seq<char>) -> Seq<char> {
    if prefix.len() > 0 && prefix[0] == '$' {
        prefix.subrange(1, prefix.len() as int)
    } else {
        prefix
    }
}

/// The variables offered for `prefix`, each once, in order.
pub fn env_candidates(prefix: &str, env: &[(String, String)]) -> (r: Vec<String>)
    ensures
        strictly_sorted(strings_view(r@)),
        forall|n: Seq<char>|
            #![trigger strings_view(r@).contains(n)]
            strings_view(r@).contains(n) <==> env_values(
                without_dollar(prefix@),
                crate::shell::state::text_pairs(env@),
            ).contains(n),
{
    let ghost pairs = crate::shell::state::text_pairs(env@);
    let pc = chars_of(prefix);
    let needle: Vec<char> = if pc.len() > 0 && pc[0] == '$' {
        let mut n: Vec<char> = Vec::new();
        let mut i: usize = 1;
        while i < pc.len()
            invariant
                1 <= i <= pc@.len(),
                n@ == pc@.subrange(1, i as int),
            decreases pc@.len() - i,
        {
            n.push(char_at(pc.as_slice(), i));
            i += 1;
            assert(n@ =~= pc@.subrange(1, i as int));
        }
        n
    } else {
        pc
    };
    assert(needle@ == without_dollar(prefix@));
    let mut vals: Vec<String> = Vec::new();
    let mut k: usize = 0;
    assert(pairs.subrange(0, 0) =~= Seq::<(Seq<char>, Seq<char>)>::empty());
    while k < env.len()
        invariant
            k <= env@.len(),
            pairs == crate::shell::state::text_pairs(env@),
            needle@ == without_dollar(prefix@),
            strings_view(vals@) == env_values(needle@, pairs.subrange(0, k as int)),
        decreases env@.len() - k,
    {
        let key = chars_of(env[k].0.as_str());
        let ghost sub = pairs.subrange(0, k + 1);
        assert(sub.drop_last() =~= pairs.subrange(0, k as int));
        assert(sub.last() == pairs[k as int]);
        if starts_with(key.as_slice(), needle.as_slice()) {
            let mut item = "$".to_string();
            item.append(env[k].0.as_str());
            proof {
                reveal_strlit("$");
                assert("$"@ =~= seq!['$']);
                assert(pairs[k as int].0 == env@[k as int].0@);
            }
            let ghost before = strings_view(vals@);
            vals.push(item);
            assert(strings_view(vals@) =~= before.push(seq!['$'] + pairs[k as int].0));
        }
        k += 1;
    }
    assert(pairs.subrange(0, env@.len() as int) =~= pairs);
    sorted_unique(vals)
}

/// What a directory entry is offered as: the typed base, its name, and a
/// `/` when it is a directory.
pub open spec fn path_value(base: Seq<char>, name: Seq<char>, is_dir: bool) -> Seq<char> {
    if is_dir {
        base + name + seq!['/']
    } else {
        base + name
    }
}

pub open spec fn path_values(needle: Seq<char>, base: Seq<char>, entries: Seq<(Seq<char>, bool)>) -> Seq<
    Seq<char>,
>
    decreases entries.len(),
{
    if entries.len() == 0 {
        seq![]
    } else {
        let rest = path_values(needle, base, entries.drop_last());
        let e = entries.last();
        if is_prefix(needle, e.0) {
            rest.push(path_value(base, e.0, e.1))
        } else {
            rest
        }
    }
}

pub open spec fn entries_view(v: Seq<(String, bool)>) -> Seq<(Seq<char>, bool)> {
    v.map_values(|e: (String, bool)| (e.0@, e.1))
}

/// The paths offered for the directory entries (name, whether a
/// directory) whose names start with `needle`, each once, in order.
pub fn path_candidates(needle: &str, base: &str, entries: &[(String, bool)]) -> (r: Vec<String>)
    ensures
        strictly_sorted(strings_view(r@)),
        forall|n: Seq<char>|
            #![trigger strings_view(r@).contains(n)]
            strings_view(r@).contains(n) <==> path_values(needle@, base@, entries_view(entries@)).contains(
                n,
            ),
{
    let ghost es = entries_view(entries@);
    let nc = chars_of(needle);
    let mut vals: Vec<String> = Vec::new();
    let mut k: usize = 0;
    assert(es.subrange(0, 0) =~= Seq::<(Seq<char>, bool)>::empty());
    while k < entries.len()
        invariant
            k <= entries@.len(),
            es == entries_view(entries@),
            nc@ == needle@,
            strings_view(vals@) == path_values(needle@, base@, es.subrange(0, k as int)),
        decreases entries@.len() - k,
    {
        let name = chars_of(entries[k].0.as_str());
        let ghost sub = es.subrange(0, k + 1);
        assert(sub.drop_last() =~= es.subrange(0, k as int));
        assert(sub.last() == es[k as int]);
        if starts_with(name.as_slice(), nc.as_slice()) {
            let mut item = base.to_string();
            item.append(entries[k].0.as_str());
            if entries[k].1 {
                item.append("/");
                proof {
                    reveal_strlit("/");
                    assert("/"@ =~= seq!['/']);
                }
            }
            assert(es[k as int] == (entries@[k as int].0@, entries@[k as int].1));
            let ghost before = strings_view(vals@);
            vals.push(item);
            assert(strings_view(vals@) =~= before.push(path_value(base@, es[k as int].0, es[k as int].1)));
        }
        k += 1;
    }
    assert(es.subrange(0, entries@.len() as int) =~= es);
    sorted_unique(vals)
}

/// The hint after `line`: when the cursor is at its end and it is not
/// blank, what the most recent history entry starting with it adds.
pub open spec fn hint_for(line: Seq<char>, at_end: bool, found: Option<Seq<char>>) -> Seq<char> {
    if !at_end || all_ws(line) {
        seq![]
    } else {
        match found {
            Some(entry) => if entry != line && is_prefix(line, entry) {
                entry.subrange(line.len() as int, entry.len() as int)
            } else {
                seq![]
            },
            None => seq![],
        }
    }
}

/// The end of the word that starts at `i`: the next whitespace or the end.
pub open spec fn word_stop(s: Seq<char>, i: int) -> int
    decreases s.len() - i,
{
    if i < 0 || i >= s.len() || is_ws(s[i]) {
        i
    } else {
        word_stop(s, i + 1)
    }
}

/// The first whitespace-separated word of `s`, or nothing.
pub open spec fn first_word(s: Seq<char>) -> Seq<char> {
    let t = trim_start(s);
    t.subrange(0, word_stop(t, 0))
}

proof fn lemma_word_stop(s: Seq<char>, i: int)
    requires
        0 <= i <= s.len(),
    ensures
        i <= word_stop(s, i) <= s.len(),
    decreases s.len() - i,
{
    if i < s.len() && !is_ws(s[i]) {
        lemma_word_stop(s, i + 1);
    }
}

/// Suggests the rest of a history entry as the line is typed.
#[derive(Debug, Clone)]
pub struct ShellHinter {
    current_hint: String,
}

impl ShellHinter {
    pub closed spec fn hint_view(&self) -> Seq<char> {
        self.current_hint@
    }

    pub fn new() -> (r: Self)
        ensures
            r.hint_view() == Seq::<char>::empty(),
    {
        ShellHinter { current_hint: String::new() }
    }

    /// The hint for `line`, given whether the cursor is at its end and the
    /// most recent history entry that starts with it; it is kept as the
    /// current hint.
    pub fn handle(&mut self, line: &str, at_end: bool, found: Option<&str>) -> (r: String)
        ensures
            r@ == hint_for(
                line@,
                at_end,
                match found {
                    Some(e) => Some(e@),
                    None => None,
                },
            ),
            final(self).hint_view() == r@,
    {
        let lc = chars_of(line);
        if !at_end || !has_non_whitespace(lc.as_slice()) {
            self.current_hint = String::new();
            return String::new();
        }
        let hint = match found {
            Some(entry) => {
                let ec = chars_of(entry);
                if !str_eq(entry, line) && starts_with(ec.as_slice(), lc.as_slice()) {
                    string_from_chars(vstd::slice::slice_subrange(ec.as_slice(), lc.len(), ec.len()))
                } else {
                    String::new()
                }
            },
            None => String::new(),
        };
        self.current_hint = hint.clone();
        hint
    }

    /// The whole current hint.
    pub fn complete_hint(&self) -> (r: String)
        ensures
            r@ == self.hint_view(),
    {
        self.current_hint.clone()
    }

    /// The current hint's first word.
    pub fn next_hint_token(&self) -> (r: String)
        ensures
            r@ == first_word(self.hint_view()),
    {
        let s = chars_of(self.current_hint.as_str());
        let mut i: usize = 0;
        assert(s@.subrange(0, s@.len() as int) =~= s@);
        while i < s.len() && is_whitespace(char_at(s.as_slice(), i))
            invariant
                0 <= i <= s@.len(),
                trim_start_count(s@) == i + trim_start_count(s@.subrange(i as int, s@.len() as int)),
            decreases s@.len() - i,
        {
            let ghost rest = s@.subrange(i as int, s@.len() as int);
            assert(rest.drop_first() =~= s@.subrange(i + 1, s@.len() as int));
            i += 1;
        }
        assert(trim_start_count(s@.subrange(i as int, s@.len() as int)) == 0);
        let ghost t = trim_start(s@);
        assert(t =~= s@.subrange(i as int, s@.len() as int));
        let mut j = i;
        while j < s.len() && !is_whitespace(char_at(s.as_slice(), j))
            invariant
                i <= j <= s@.len(),
                t == s@.subrange(i as int, s@.len() as int),
                word_stop(t, j - i) == word_stop(t, 0),
            decreases s@.len() - j,
        {
            j += 1;
        }
        assert(word_stop(t, j - i) == j - i);
        assert(t.subrange(0, j - i) =~= s@.subrange(i as int, j as int));
        string_from_chars(vstd::slice::slice_subrange(s.as_slice(), i, j))
    }
}

impl Default for ShellHinter {
    fn default() -> (r: Self)
        ensures
            r.hint_view() == Seq::<char>::empty(),
    {
        ShellHinter::new()
    }
}

} // verus!
