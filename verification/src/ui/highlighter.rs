//! Coloring of the line being edited. The line is cut into runs of
//! whitespace, operators and words; a word where a command is expected is a
//! command (or a builtin), any other word an argument or a flag.
use vstd::prelude::*;
use vstd::slice::slice_subrange;

use crate::builtins::{default_builtin_names, is_default_builtin};
use crate::config::Color;
use crate::text::{char_at, chars_of, is_digit, is_whitespace, is_ws, string_from_chars, trim, trim_chars};

verus! {

/// What an operator does: join commands, or redirect a stream.
#[derive(Debug, Clone, Copy, PartialEq, Eq, Structural)]
pub enum OpKind {
    Control,
    Redirect,
}

/// What a run of the line is, which decides its style.
#[derive(Debug, Clone, Copy, PartialEq, Eq, Structural)]
pub enum TokenKind {
    Plain,
    Control,
    Redirect,
    Command,
    Builtin,
    Argument,
    Flag,
}

/// Where a character stands while quotes are taken off a word.
#[derive(Debug, Clone, Copy, PartialEq, Eq, Structural)]
pub enum QuoteMode {
    Bare,
    Single,
    Double,
}

/// The characters that end a word.
pub open spec fn is_operator_break(c: char) -> bool {
    c == '|' || c == '&' || c == ';' || c == '(' || c == ')' || c == '<' || c == '>'
}

/// Whether position `j` of `s` holds `d`.
pub open spec fn char_is(s: Seq<char>, j: int, d: char) -> bool {
    0 <= j < s.len() && s[j] == d
}

/// The end of the run of whitespace that starts at `i`.
pub open spec fn ws_run_end(s: Seq<char>, i: int) -> int
    decreases s.len() - i,
{
    if 0 <= i < s.len() && is_ws(s[i]) {
        ws_run_end(s, i + 1)
    } else {
        i
    }
}

/// The end of the run of ASCII digits that starts at `i`.
pub open spec fn digit_run_end(s: Seq<char>, i: int) -> int
    decreases s.len() - i,
{
    if 0 <= i < s.len() && is_digit(s[i]) {
        digit_run_end(s, i + 1)
    } else {
        i
    }
}

/// The operator that starts at `i`, with the position after it: `&&`, `&`,
/// `||`, `|`, `;`, `(`, `)` join commands; `>>`, `>`, `<`, each after an
/// optional run of digits, redirect.
pub open spec fn operator_at(s: Seq<char>, i: int) -> Option<(int, OpKind)> {
    let c = s[i];
    if i < 0 || i >= s.len() {
        None
    } else if c == '&' {
        if char_is(s, i + 1, '&') {
            Some((i + 2, OpKind::Control))
        } else {
            Some((i + 1, OpKind::Control))
        }
    } else if c == '|' {
        if char_is(s, i + 1, '|') {
            Some((i + 2, OpKind::Control))
        } else {
            Some((i + 1, OpKind::Control))
        }
    } else if c == '>' {
        if char_is(s, i + 1, '>') {
            Some((i + 2, OpKind::Redirect))
        } else {
            Some((i + 1, OpKind::Redirect))
        }
    } else if c == '<' {
        Some((i + 1, OpKind::Redirect))
    } else if c == ';' || c == '(' || c == ')' {
        Some((i + 1, OpKind::Control))
    } else if is_digit(c) {
        let j = digit_run_end(s, i);
        if char_is(s, j, '>') {
            if char_is(s, j + 1, '>') {
                Some((j + 2, OpKind::Redirect))
            } else {
                Some((j + 1, OpKind::Redirect))
            }
        } else if char_is(s, j, '<') {
            Some((j + 1, OpKind::Redirect))
        } else {
            None
        }
    } else {
        None
    }
}

/// The position after the single quote that closes a quote opened before
/// `i`, or the end of the line.
pub open spec fn single_quote_end(s: Seq<char>, i: int) -> int
    decreases s.len() - i,
{
    if i >= s.len() {
        s.len() as int
    } else if s[i] == '\'' {
        i + 1
    } else {
        single_quote_end(s, i + 1)
    }
}

/// The position after the double quote that closes a quote opened before
/// `i`, or the end of the line; a backslash in it takes the next character.
pub open spec fn double_quote_end(s: Seq<char>, i: int) -> int
    decreases s.len() - i,
{
    if i >= s.len() {
        s.len() as int
    } else if s[i] == '\\' {
        if i + 1 < s.len() {
            double_quote_end(s, i + 2)
        } else {
            s.len() as int
        }
    } else if s[i] == '"' {
        i + 1
    } else {
        double_quote_end(s, i + 1)
    }
}

pub proof fn lemma_quote_ends(s: Seq<char>, i: int)
    requires
        i <= s.len(),
    ensures
        i <= single_quote_end(s, i) <= s.len(),
        i <= double_quote_end(s, i) <= s.len(),
    decreases s.len() - i,
{
    if i < s.len() {
        lemma_quote_ends(s, i + 1);
        if i + 1 < s.len() {
            lemma_quote_ends(s, i + 2);
        }
    }
}

/// The end of the word that starts at `i`: it runs to whitespace or an
/// operator character outside quotes; a backslash takes the next character.
pub open spec fn word_end(s: Seq<char>, i: int) -> int
    decreases s.len() - i,
{
    if i >= s.len() {
        i
    } else if is_ws(s[i]) || is_operator_break(s[i]) {
        i
    } else if s[i] == '\'' {
        proof {
            lemma_quote_ends(s, i + 1);
        }
        word_end(s, single_quote_end(s, i + 1))
    } else if s[i] == '"' {
        proof {
            lemma_quote_ends(s, i + 1);
        }
        word_end(s, double_quote_end(s, i + 1))
    } else if s[i] == '\\' {
        if i + 1 < s.len() {
            word_end(s, i + 2)
        } else {
            s.len() as int
        }
    } else {
        word_end(s, i + 1)
    }
}

pub proof fn lemma_word_end(s: Seq<char>, i: int)
    requires
        i <= s.len(),
    ensures
        i <= word_end(s, i) <= s.len(),
        i < s.len() && !is_ws(s[i]) && !is_operator_break(s[i]) ==> i < word_end(s, i),
    decreases s.len() - i,
{
    if i < s.len() && !is_ws(s[i]) && !is_operator_break(s[i]) {
        lemma_quote_ends(s, i + 1);
        if s[i] == '\'' {
            lemma_word_end(s, single_quote_end(s, i + 1));
        } else if s[i] == '"' {
            lemma_word_end(s, double_quote_end(s, i + 1));
        } else if s[i] == '\\' {
            if i + 1 < s.len() {
                lemma_word_end(s, i + 2);
            }
        } else {
            lemma_word_end(s, i + 1);
        }
    }
}

pub proof fn lemma_run_ends(s: Seq<char>, i: int)
    requires
        i <= s.len(),
    ensures
        i <= ws_run_end(s, i) <= s.len(),
        i <= digit_run_end(s, i) <= s.len(),
        0 <= i < s.len() && is_ws(s[i]) ==> i < ws_run_end(s, i),
    decreases s.len() - i,
{
    if i < s.len() {
        lemma_run_ends(s, i + 1);
    }
}

pub proof fn lemma_operator_at(s: Seq<char>, i: int)
    requires
        0 <= i < s.len(),
    ensures
        operator_at(s, i) matches Some((e, k)) ==> i < e <= s.len(),
{
    lemma_run_ends(s, i);
}

/// What is left of a word once its quotes are taken off and its escapes
/// resolved, from position `i` in the given quoting state on.
pub open spec fn dequote_from(t: Seq<char>, i: int, mode: QuoteMode) -> Seq<char>
    decreases t.len() - i,
{
    if i >= t.len() {
        seq![]
    } else {
        let c = t[i];
        match mode {
            QuoteMode::Bare => if c == '\'' {
                dequote_from(t, i + 1, QuoteMode::Single)
            } else if c == '"' {
                dequote_from(t, i + 1, QuoteMode::Double)
            } else if c == '\\' {
                if i + 1 < t.len() {
                    seq![t[i + 1]] + dequote_from(t, i + 2, QuoteMode::Bare)
                } else {
                    seq![]
                }
            } else {
                seq![c] + dequote_from(t, i + 1, QuoteMode::Bare)
            },
            QuoteMode::Single => if c == '\'' {
                dequote_from(t, i + 1, QuoteMode::Bare)
            } else {
                seq![c] + dequote_from(t, i + 1, QuoteMode::Single)
            },
            QuoteMode::Double => if c == '\\' {
                if i + 1 < t.len() {
                    seq![t[i + 1]] + dequote_from(t, i + 2, QuoteMode::Double)
                } else {
                    seq![]
                }
            } else if c == '"' {
                dequote_from(t, i + 1, QuoteMode::Bare)
            } else {
                seq![c] + dequote_from(t, i + 1, QuoteMode::Double)
            },
        }
    }
}

/// The word `t` with its quotes taken off and its escapes resolved.
pub open spec fn dequoted(t: Seq<char>) -> Seq<char> {
    dequote_from(t, 0, QuoteMode::Bare)
}

/// Whether a word reads as a flag: after trimming it starts with `-`, is
/// not `-` alone and does not start with `->`.
pub open spec fn is_flag(tok: Seq<char>) -> bool {
    let t = trim(tok);
    &&& t.len() > 0
    &&& t[0] == '-'
    &&& t != seq!['-']
    &&& !(t.len() >= 2 && t[1] == '>')
}

/// Whether a command is expected after the operator `tok`: after `|`, `&&`,
/// `||`, `;` and `(` one is, after `)` none is, other operators keep the
/// expectation.
pub open spec fn command_follows(tok: Seq<char>, expect: bool) -> bool {
    if tok == seq!['|'] || tok == seq!['&', '&'] || tok == seq!['|', '|'] || tok == seq![';']
        || tok == seq!['('] {
        true
    } else if tok == seq![')'] {
        false
    } else {
        expect
    }
}

/// The kind of a word: where a command is expected, a builtin's name (once
/// unquoted) or another command; elsewhere a flag or an argument.
pub open spec fn word_kind(tok: Seq<char>, expect: bool) -> TokenKind {
    if expect {
        if default_builtin_names().contains(dequoted(tok)) {
            TokenKind::Builtin
        } else {
            TokenKind::Command
        }
    } else if is_flag(tok) {
        TokenKind::Flag
    } else {
        TokenKind::Argument
    }
}

/// The runs of `s` from `i` on, each with its kind; `expect` says whether
/// a command is expected at `i`.
pub open spec fn highlight_from(s: Seq<char>, i: int, expect: bool) -> Seq<(TokenKind, Seq<char>)>
    decreases s.len() - i,
{
    if i < 0 || i >= s.len() {
        seq![]
    } else if is_ws(s[i]) {
        let e = ws_run_end(s, i);
        proof {
            lemma_run_ends(s, i);
        }
        seq![(TokenKind::Plain, s.subrange(i, e))] + highlight_from(s, e, expect)
    } else {
        proof {
            lemma_operator_at(s, i);
            lemma_word_end(s, i);
        }
        match operator_at(s, i) {
            Some((e, k)) => {
                let tok = s.subrange(i, e);
                let kind = if k == OpKind::Redirect {
                    TokenKind::Redirect
                } else {
                    TokenKind::Control
                };
                seq![(kind, tok)] + highlight_from(s, e, command_follows(tok, expect))
            },
            None => {
                let e = word_end(s, i);
                let tok = s.subrange(i, e);
                seq![(word_kind(tok, expect), tok)] + highlight_from(s, e, false)
            },
        }
    }
}

/// The runs of a whole line: a command is expected at its start.
pub open spec fn highlight_spec(line: Seq<char>) -> Seq<(TokenKind, Seq<char>)> {
    highlight_from(line, 0, true)
}

/// The runs' texts, one after the other.
pub open spec fn joined_text(runs: Seq<(TokenKind, Seq<char>)>) -> Seq<char>
    decreases runs.len(),
{
    if runs.len() == 0 {
        seq![]
    } else {
        runs[0].1 + joined_text(runs.drop_first())
    }
}

/// The runs of a vector of kinds and strings, the strings by their view.
pub open spec fn runs_of(v: Seq<(TokenKind, String)>) -> Seq<(TokenKind, Seq<char>)> {
    v.map_values(|p: (TokenKind, String)| (p.0, p.1@))
}

proof fn lemma_joined_cons(x: (TokenKind, Seq<char>), rest: Seq<(TokenKind, Seq<char>)>)
    ensures
        joined_text(seq![x] + rest) == x.1 + joined_text(rest),
{
    assert((seq![x] + rest).drop_first() =~= rest);
}

proof fn lemma_highlight_covers(s: Seq<char>, i: int, expect: bool)
    requires
        0 <= i <= s.len(),
    ensures
        joined_text(highlight_from(s, i, expect)) == s.subrange(i, s.len() as int),
    decreases s.len() - i,
{
    if i == s.len() {
        assert(s.subrange(i, s.len() as int) =~= Seq::<char>::empty());
    } else if is_ws(s[i]) {
        let e = ws_run_end(s, i);
        lemma_run_ends(s, i);
        lemma_highlight_covers(s, e, expect);
        lemma_joined_cons((TokenKind::Plain, s.subrange(i, e)), highlight_from(s, e, expect));
        assert(s.subrange(i, e) + s.subrange(e, s.len() as int) =~= s.subrange(i, s.len() as int));
    } else {
        lemma_operator_at(s, i);
        lemma_word_end(s, i);
        match operator_at(s, i) {
            Some((e, k)) => {
                let tok = s.subrange(i, e);
                let kind = if k == OpKind::Redirect {
                    TokenKind::Redirect
                } else {
                    TokenKind::Control
                };
                let next = command_follows(tok, expect);
                lemma_highlight_covers(s, e, next);
                lemma_joined_cons((kind, tok), highlight_from(s, e, next));
                assert(tok + s.subrange(e, s.len() as int) =~= s.subrange(i, s.len() as int));
            },
            None => {
                let e = word_end(s, i);
                let tok = s.subrange(i, e);
                lemma_highlight_covers(s, e, false);
                lemma_joined_cons((word_kind(tok, expect), tok), highlight_from(s, e, false));
                assert(tok + s.subrange(e, s.len() as int) =~= s.subrange(i, s.len() as int));
            },
        }
    }
}

/// Coloring keeps the line: the runs' texts, joined in order, give back the
/// line, with nothing dropped, doubled or moved.
pub proof fn law_highlight_keeps_every_character(line: Seq<char>)
    ensures
        joined_text(highlight_spec(line)) == line,
{
    lemma_highlight_covers(line, 0, true);
    assert(line.subrange(0, line.len() as int) =~= line);
}

fn is_break_char(c: char) -> (b: bool)
    ensures
        b == is_operator_break(c),
{
    c == '|' || c == '&' || c == ';' || c == '(' || c == ')' || c == '<' || c == '>'
}

fn char_is_at(s: &[char], j: usize, d: char) -> (b: bool)
    ensures
        b == char_is(s@, j as int, d),
{
    j < s.len() && char_at(s, j) == d
}

fn ws_end_from(s: &[char], i: usize) -> (e: usize)
    requires
        i <= s@.len(),
    ensures
        e == ws_run_end(s@, i as int),
{
    let mut j = i;
    while j < s.len() && is_whitespace(char_at(s, j))
        invariant
            i <= j <= s@.len(),
            ws_run_end(s@, j as int) == ws_run_end(s@, i as int),
        decreases s@.len() - j,
    {
        j += 1;
    }
    j
}

fn digit_end_from(s: &[char], i: usize) -> (e: usize)
    requires
        i <= s@.len(),
    ensures
        e == digit_run_end(s@, i as int),
{
    let mut j = i;
    while j < s.len() && crate::text::is_ascii_digit(char_at(s, j))
        invariant
            i <= j <= s@.len(),
            digit_run_end(s@, j as int) == digit_run_end(s@, i as int),
        decreases s@.len() - j,
    {
        j += 1;
    }
    j
}

/// The operator at `i`, as `operator_at` describes it.
pub fn read_operator_token(s: &[char], i: usize) -> (r: Option<(usize, OpKind)>)
    ensures
        r is Some <==> operator_at(s@, i as int) is Some,
        r matches Some((e, k)) ==> operator_at(s@, i as int) == Some((e as int, k)),
{
    let n = s.len();
    if i >= n {
        return None;
    }
    let c = char_at(s, i);
    assert(i + 1 <= n);
    if c == '&' {
        if char_is_at(s, i + 1, '&') {
            Some((i + 2, OpKind::Control))
        } else {
            Some((i + 1, OpKind::Control))
        }
    } else if c == '|' {
        if char_is_at(s, i + 1, '|') {
            Some((i + 2, OpKind::Control))
        } else {
            Some((i + 1, OpKind::Control))
        }
    } else if c == '>' {
        if char_is_at(s, i + 1, '>') {
            Some((i + 2, OpKind::Redirect))
        } else {
            Some((i + 1, OpKind::Redirect))
        }
    } else if c == '<' {
        Some((i + 1, OpKind::Redirect))
    } else if c == ';' || c == '(' || c == ')' {
        Some((i + 1, OpKind::Control))
    } else if crate::text::is_ascii_digit(c) {
        let j = digit_end_from(s, i);
        proof {
            lemma_run_ends(s@, i as int);
        }
        if char_is_at(s, j, '>') {
            if char_is_at(s, j + 1, '>') {
                Some((j + 2, OpKind::Redirect))
            } else {
                Some((j + 1, OpKind::Redirect))
            }
        } else if char_is_at(s, j, '<') {
            Some((j + 1, OpKind::Redirect))
        } else {
            None
        }
    } else {
        None
    }
}

fn single_quote_end_from(s: &[char], i: usize) -> (e: usize)
    requires
        i <= s@.len(),
    ensures
        e == single_quote_end(s@, i as int),
{
    let mut j = i;
    while j < s.len()
        invariant
            i <= j <= s@.len(),
            single_quote_end(s@, j as int) == single_quote_end(s@, i as int),
        decreases s@.len() - j,
    {
        if char_at(s, j) == '\'' {
            return j + 1;
        }
        j += 1;
    }
    j
}

fn double_quote_end_from(s: &[char], i: usize) -> (e: usize)
    requires
        i <= s@.len(),
    ensures
        e == double_quote_end(s@, i as int),
{
    let mut j = i;
    while j < s.len()
        invariant
            i <= j <= s@.len(),
            double_quote_end(s@, j as int) == double_quote_end(s@, i as int),
        decreases s@.len() - j,
    {
        let c = char_at(s, j);
        if c == '\\' {
            if j + 1 < s.len() {
                j += 2;
            } else {
                return s.len();
            }
        } else if c == '"' {
            return j + 1;
        } else {
            j += 1;
        }
    }
    s.len()
}

/// The end of the word that starts at `i`, as `word_end` describes it.
pub fn read_word_end(s: &[char], i: usize) -> (e: usize)
    ensures
        e == word_end(s@, i as int),
{
    if i >= s.len() {
        return i;
    }
    let mut j = i;
    while j < s.len()
        invariant
            i <= j <= s@.len(),
            word_end(s@, j as int) == word_end(s@, i as int),
        decreases s@.len() - j,
    {
        let c = char_at(s, j);
        if is_whitespace(c) || is_break_char(c) {
            return j;
        }
        proof {
            lemma_quote_ends(s@, j + 1);
        }
        if c == '\'' {
            j = single_quote_end_from(s, j + 1);
        } else if c == '"' {
            j = double_quote_end_from(s, j + 1);
        } else if c == '\\' {
            if j + 1 < s.len() {
                j += 2;
            } else {
                return s.len();
            }
        } else {
            j += 1;
        }
    }
    j
}

fn dequote_chars(t: &[char]) -> (r: Vec<char>)
    ensures
        r@ == dequoted(t@),
{
    let mut out: Vec<char> = Vec::new();
    let mut i: usize = 0;
    let mut mode = QuoteMode::Bare;
    while i < t.len()
        invariant
            i <= t@.len(),
            out@ + dequote_from(t@, i as int, mode) == dequoted(t@),
        decreases t@.len() - i,
    {
        let c = char_at(t, i);
        let ghost before = out@;
        match mode {
            QuoteMode::Bare => {
                if c == '\'' {
                    mode = QuoteMode::Single;
                    i += 1;
                } else if c == '"' {
                    mode = QuoteMode::Double;
                    i += 1;
                } else if c == '\\' {
                    if i + 1 < t.len() {
                        out.push(char_at(t, i + 1));
                        assert(before + (seq![t@[i + 1]] + dequote_from(t@, i + 2, mode))
                            =~= out@ + dequote_from(t@, i + 2, mode));
                        i += 2;
                    } else {
                        assert(before + seq![] =~= before);
                        return out;
                    }
                } else {
                    out.push(c);
                    assert(before + (seq![c] + dequote_from(t@, i + 1, mode)) =~= out@
                        + dequote_from(t@, i + 1, mode));
                    i += 1;
                }
            },
            QuoteMode::Single => {
                if c == '\'' {
                    mode = QuoteMode::Bare;
                } else {
                    out.push(c);
                    assert(before + (seq![c] + dequote_from(t@, i + 1, mode)) =~= out@
                        + dequote_from(t@, i + 1, mode));
                }
                i += 1;
            },
            QuoteMode::Double => {
                if c == '\\' {
                    if i + 1 < t.len() {
                        out.push(char_at(t, i + 1));
                        assert(before + (seq![t@[i + 1]] + dequote_from(t@, i + 2, mode))
                            =~= out@ + dequote_from(t@, i + 2, mode));
                        i += 2;
                    } else {
                        assert(before + seq![] =~= before);
                        return out;
                    }
                } else if c == '"' {
                    mode = QuoteMode::Bare;
                    i += 1;
                } else {
                    out.push(c);
                    assert(before + (seq![c] + dequote_from(t@, i + 1, mode)) =~= out@
                        + dequote_from(t@, i + 1, mode));
                    i += 1;
                }
            },
        }
    }
    assert(out@ + seq![] =~= out@);
    out
}

/// The word with its quotes taken off and its escapes resolved.
pub fn dequote_and_unescape(token: &str) -> (r: String)
    ensures
        r@ == dequoted(token@),
{
    let t = chars_of(token);
    let d = dequote_chars(t.as_slice());
    string_from_chars(d.as_slice())
}

/// Whether a word reads as a flag.
pub fn is_flag_token(token: &[char]) -> (b: bool)
    ensures
        b == is_flag(token@),
{
    let t = trim_chars(token);
    if t.len() == 0 || char_at(t.as_slice(), 0) != '-' {
        return false;
    }
    if t.len() == 1 {
        assert(t@ =~= seq!['-']);
        return false;
    }
    assert(t@ != seq!['-']) by {
        assert(t@.len() != seq!['-'].len());
    }
    !(char_at(t.as_slice(), 1) == '>')
}

proof fn lemma_one_char(c: char, d: char)
    ensures
        (seq![c] == seq![d]) <==> c == d,
        seq![c] != seq![d, d],
{
    if seq![c] == seq![d] {
        assert(seq![c][0] == seq![d][0]);
    }
    assert(seq![c].len() != seq![d, d].len());
}

proof fn lemma_two_chars(c: char, e: char, d: char, f: char)
    ensures
        (seq![c, e] == seq![d, f]) <==> (c == d && e == f),
        seq![c, e] != seq![d],
{
    if seq![c, e] == seq![d, f] {
        assert(seq![c, e][0] == seq![d, f][0] && seq![c, e][1] == seq![d, f][1]);
    }
    if c == d && e == f {
        assert(seq![c, e] =~= seq![d, f]);
    }
    assert(seq![c, e].len() != seq![d].len());
}

fn command_follows_token(s: &[char], i: usize, e: usize, expect: bool) -> (b: bool)
    requires
        i < e <= s@.len(),
    ensures
        b == command_follows(s@.subrange(i as int, e as int), expect),
{
    let ghost tok = s@.subrange(i as int, e as int);
    let n = e - i;
    let c = char_at(s, i);
    if n == 1 {
        assert(tok =~= seq![c]);
        proof {
            lemma_one_char(c, '|');
            lemma_one_char(c, ';');
            lemma_one_char(c, '(');
            lemma_one_char(c, ')');
            lemma_one_char(c, '&');
        }
        if c == '|' || c == ';' || c == '(' {
            true
        } else if c == ')' {
            false
        } else {
            expect
        }
    } else if n == 2 {
        let d = char_at(s, i + 1);
        assert(tok =~= seq![c, d]);
        proof {
            lemma_two_chars(c, d, '&', '&');
            lemma_two_chars(c, d, '|', '|');
            lemma_two_chars(c, d, '|', '|');
            lemma_two_chars(c, d, ';', ';');
            lemma_two_chars(c, d, '(', '(');
            lemma_two_chars(c, d, ')', ')');
        }
        if (c == '&' && d == '&') || (c == '|' && d == '|') {
            true
        } else {
            expect
        }
    } else {
        assert(tok.len() == n);
        assert(tok != seq!['|'] && tok != seq![';'] && tok != seq!['('] && tok != seq![')'] && tok
            != seq!['&', '&'] && tok != seq!['|', '|']) by {
            assert(seq!['|'].len() == 1 && seq![';'].len() == 1 && seq!['('].len() == 1
                && seq![')'].len() == 1 && seq!['&', '&'].len() == 2 && seq!['|', '|'].len() == 2);
        }
        expect
    }
}

fn kind_of_word(tok: &[char], expect: bool) -> (k: TokenKind)
    ensures
        k == word_kind(tok@, expect),
{
    if expect {
        let d = dequote_chars(tok);
        let name = string_from_chars(d.as_slice());
        if is_default_builtin(name.as_str()) {
            TokenKind::Builtin
        } else {
            TokenKind::Command
        }
    } else if is_flag_token(tok) {
        TokenKind::Flag
    } else {
        TokenKind::Argument
    }
}

proof fn lemma_runs_push(v: Seq<(TokenKind, String)>, x: (TokenKind, String))
    ensures
        runs_of(v.push(x)) == runs_of(v).push((x.0, x.1@)),
{
    assert(runs_of(v.push(x)) =~= runs_of(v).push((x.0, x.1@)));
}

fn push_run(
    out: &mut Vec<(TokenKind, String)>,
    s: &[char],
    i: usize,
    e: usize,
    kind: TokenKind,
    Ghost(rest): Ghost<Seq<(TokenKind, Seq<char>)>>,
    Ghost(goal): Ghost<Seq<(TokenKind, Seq<char>)>>,
)
    requires
        i <= e <= s@.len(),
        runs_of(old(out)@) + (seq![(kind, s@.subrange(i as int, e as int))] + rest) == goal,
    ensures
        runs_of(final(out)@) + rest == goal,
{
    let text = string_from_chars(slice_subrange(s, i, e));
    proof {
        lemma_runs_push(out@, (kind, text));
    }
    let ghost before = runs_of(out@);
    out.push((kind, text));
    assert(runs_of(out@) + rest =~= before + (seq![(kind, s@.subrange(i as int, e as int))]
        + rest));
}

/// The runs of a line with their kinds, as `highlight_spec` describes them.
pub fn highlight_tokens(line: &str) -> (r: Vec<(TokenKind, String)>)
    ensures
        runs_of(r@) == highlight_spec(line@),
{
    let chars = chars_of(line);
    let s = chars.as_slice();
    let ghost goal = highlight_spec(line@);
    let mut out: Vec<(TokenKind, String)> = Vec::new();
    let mut i: usize = 0;
    let mut expect = true;
    assert(runs_of(out@) + highlight_from(s@, 0, true) =~= goal);
    while i < s.len()
        invariant
            i <= s@.len(),
            s@ == line@,
            goal == highlight_spec(line@),
            runs_of(out@) + highlight_from(s@, i as int, expect) == goal,
        decreases s@.len() - i,
    {
        let c = char_at(s, i);
        if is_whitespace(c) {
            let e = ws_end_from(s, i);
            proof {
                lemma_run_ends(s@, i as int);
            }
            push_run(&mut out, s, i, e, TokenKind::Plain, Ghost(highlight_from(s@, e as int, expect)), Ghost(goal));
            i = e;
        } else {
            proof {
                lemma_operator_at(s@, i as int);
                lemma_word_end(s@, i as int);
            }
            match read_operator_token(s, i) {
                Some((e, k)) => {
                    let kind = if k == OpKind::Redirect {
                        TokenKind::Redirect
                    } else {
                        TokenKind::Control
                    };
                    let next = command_follows_token(s, i, e, expect);
                    push_run(&mut out, s, i, e, kind, Ghost(highlight_from(s@, e as int, next)), Ghost(goal));
                    i = e;
                    expect = next;
                },
                None => {
                    let e = read_word_end(s, i);
                    let kind = kind_of_word(slice_subrange(s, i, e), expect);
                    push_run(&mut out, s, i, e, kind, Ghost(highlight_from(s@, e as int, false)), Ghost(goal));
                    i = e;
                    expect = false;
                },
            }
        }
    }
    assert(runs_of(out@) + seq![] =~= runs_of(out@));
    out
}

/// How a run is drawn: its foreground color, if any, and its emphasis.
#[derive(Debug, Clone, Copy, PartialEq, Eq, Structural)]
pub enum Emphasis {
    Normal,
    Dimmed,
    Italic,
    Bold,
}

#[derive(Debug, Clone, Copy, PartialEq, Eq, Structural)]
pub struct SpanStyle {
    pub color: Option<Color>,
    pub emphasis: Emphasis,
}

/// The colors of the six kinds of runs that have one.
#[derive(Debug, Clone, Copy, PartialEq, Eq, Structural)]
pub struct HighlighterPalette {
    pub command_color: Color,
    pub builtin_color: Color,
    pub argument_color: Color,
    pub flag_color: Color,
    pub operator_color: Color,
    pub redirect_color: Color,
}

impl HighlighterPalette {
    pub fn new(
        command_color: Color,
        builtin_color: Color,
        argument_color: Color,
        flag_color: Color,
        operator_color: Color,
        redirect_color: Color,
    ) -> (r: Self)
        ensures
            r == (HighlighterPalette {
                command_color,
                builtin_color,
                argument_color,
                flag_color,
                operator_color,
                redirect_color,
            }),
    {
        HighlighterPalette {
            command_color,
            builtin_color,
            argument_color,
            flag_color,
            operator_color,
            redirect_color,
        }
    }

    /// The style of a run of the given kind: whitespace plain, operators
    /// dimmed, commands italic, builtins and flags bold, arguments plain, each
    /// in its color.
    pub open spec fn style_spec(self, kind: TokenKind) -> SpanStyle {
        match kind {
            TokenKind::Plain => SpanStyle { color: None, emphasis: Emphasis::Normal },
            TokenKind::Control => SpanStyle {
                color: Some(self.operator_color),
                emphasis: Emphasis::Dimmed,
            },
            TokenKind::Redirect => SpanStyle {
                color: Some(self.redirect_color),
                emphasis: Emphasis::Dimmed,
            },
            TokenKind::Command => SpanStyle {
                color: Some(self.command_color),
                emphasis: Emphasis::Italic,
            },
            TokenKind::Builtin => SpanStyle {
                color: Some(self.builtin_color),
                emphasis: Emphasis::Bold,
            },
            TokenKind::Argument => SpanStyle {
                color: Some(self.argument_color),
                emphasis: Emphasis::Normal,
            },
            TokenKind::Flag => SpanStyle { color: Some(self.flag_color), emphasis: Emphasis::Bold },
        }
    }

    pub fn style(&self, kind: TokenKind) -> (r: SpanStyle)
        ensures
            r == self.style_spec(kind),
    {
        match kind {
            TokenKind::Plain => SpanStyle { color: None, emphasis: Emphasis::Normal },
            TokenKind::Control => SpanStyle {
                color: Some(self.operator_color),
                emphasis: Emphasis::Dimmed,
            },
            TokenKind::Redirect => SpanStyle {
                color: Some(self.redirect_color),
                emphasis: Emphasis::Dimmed,
            },
            TokenKind::Command => SpanStyle {
                color: Some(self.command_color),
                emphasis: Emphasis::Italic,
            },
            TokenKind::Builtin => SpanStyle {
                color: Some(self.builtin_color),
                emphasis: Emphasis::Bold,
            },
            TokenKind::Argument => SpanStyle {
                color: Some(self.argument_color),
                emphasis: Emphasis::Normal,
            },
            TokenKind::Flag => SpanStyle { color: Some(self.flag_color), emphasis: Emphasis::Bold },
        }
    }
}

impl Default for HighlighterPalette {
    fn default() -> (r: Self)
        ensures
            r == (HighlighterPalette {
                command_color: Color::Cyan,
                builtin_color: Color::Cyan,
                argument_color: Color::Green,
                flag_color: Color::Blue,
                operator_color: Color::Purple,
                redirect_color: Color::Purple,
            }),
    {
        HighlighterPalette {
            command_color: Color::Cyan,
            builtin_color: Color::Cyan,
            argument_color: Color::Green,
            flag_color: Color::Blue,
            operator_color: Color::Purple,
            redirect_color: Color::Purple,
        }
    }
}

/// The styled runs of a line: each run of `highlight_spec`, in order, with
/// the palette's style for its kind.
pub fn highlight_line(line: &str, palette: HighlighterPalette) -> (r: Vec<(SpanStyle, String)>)
    ensures
        r@.len() == highlight_spec(line@).len(),
        forall|k: int|
            0 <= k < r@.len() ==> #[trigger] r@[k].0 == palette.style_spec(highlight_spec(line@)[k].0)
                && r@[k].1@ == highlight_spec(line@)[k].1,
{
    let tokens = highlight_tokens(line);
    let ghost h = highlight_spec(line@);
    let mut out: Vec<(SpanStyle, String)> = Vec::new();
    let mut k: usize = 0;
    while k < tokens.len()
        invariant
            k <= tokens@.len(),
            runs_of(tokens@) == h,
            h == highlight_spec(line@),
            out@.len() == k,
            forall|j: int|
                0 <= j < k ==> #[trigger] out@[j].0 == palette.style_spec(h[j].0) && out@[j].1@
                    == h[j].1,
        decreases tokens@.len() - k,
    {
        let kind = tokens[k].0;
        let text = tokens[k].1.clone();
        assert(runs_of(tokens@)[k as int] == (tokens@[k as int].0, tokens@[k as int].1@));
        out.push((palette.style(kind), text));
        k += 1;
    }
    out
}

/// A highlighter with a palette.
#[derive(Debug, Clone, Copy, Default)]
pub struct ShellHighlighter {
    pub palette: HighlighterPalette,
}

impl ShellHighlighter {
    pub fn new(palette: HighlighterPalette) -> (r: Self)
        ensures
            r.palette == palette,
    {
        ShellHighlighter { palette }
    }

    /// The styled runs of `line`; where the cursor stands does not matter.
    pub fn highlight(&self, line: &str, _cursor: usize) -> (r: Vec<(SpanStyle, String)>)
        ensures
            r@.len() == highlight_spec(line@).len(),
            forall|k: int|
                0 <= k < r@.len() ==> #[trigger] r@[k].0 == self.palette.style_spec(
                    highlight_spec(line@)[k].0,
                ) && r@[k].1@ == highlight_spec(line@)[k].1,
    {
        highlight_line(line, self.palette)
    }
}

} // verus!
