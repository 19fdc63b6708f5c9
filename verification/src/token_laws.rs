//! What whitespace around a line does to its tokens: nothing.
//!
//! The lemmas follow the lexer's spec functions one by one. Those with
//! `front` in their name relate a line to the same line after one leading
//! space, where every position moves up by one; those with `back` relate it
//! to the same line with one trailing space, where every successful reading
//! stays as it was.
use vstd::prelude::*;

use crate::expand::{spec_var_continue, spec_var_start};
use crate::lexer::{
    digits_end, dollar_expr, double_quoted, name_end, operator_at, raw_double_end, single_close,
    spec_tokenize, standalone_brace, subst_source, tokens_from, word_from, LexError, TokenV,
};
use crate::expand::{QuoteKind, SegV};
use crate::text::{is_digit, is_ws};

verus! {

/// A reading that ends at a position, moved one place up.
pub open spec fn moved<A>(r: Result<(A, int), LexError>) -> Result<(A, int), LexError> {
    match r {
        Ok((a, j)) => Ok((a, j + 1)),
        Err(e) => Err(e),
    }
}

proof fn lemma_space_is_blank()
    ensures
        is_ws(' '),
        !spec_var_continue(' '),
        !spec_var_start(' '),
        !is_digit(' '),
{
    assert((' ' as u32) == 0x20u32);
}

proof fn lemma_front_chars(s: Seq<char>, t: Seq<char>)
    requires
        t == seq![' '] + s,
    ensures
        t.len() == s.len() + 1,
        t[0] == ' ',
        forall|k: int| 0 <= k < s.len() ==> t[k + 1] == #[trigger] s[k],
        forall|a: int, b: int|
            0 <= a <= b <= s.len() ==> #[trigger] t.subrange(a + 1, b + 1) == s.subrange(a, b),
{
    assert forall|a: int, b: int| 0 <= a <= b <= s.len() implies #[trigger] t.subrange(
        a + 1,
        b + 1,
    ) == s.subrange(a, b) by {
        assert(t.subrange(a + 1, b + 1) =~= s.subrange(a, b));
    }
}

proof fn lemma_name_end_bound(s: Seq<char>, i: int)
    requires
        0 <= i <= s.len(),
    ensures
        i <= name_end(s, i) <= s.len(),
    decreases s.len() - i,
{
    if i < s.len() && spec_var_continue(s[i]) {
        lemma_name_end_bound(s, i + 1);
    }
}

proof fn lemma_front_name_end(s: Seq<char>, t: Seq<char>, i: int)
    requires
        t == seq![' '] + s,
        0 <= i,
    ensures
        name_end(t, i + 1) == name_end(s, i) + 1,
    decreases s.len() - i,
{
    lemma_front_chars(s, t);
    if i < s.len() && spec_var_continue(s[i]) {
        lemma_front_name_end(s, t, i + 1);
    }
}

proof fn lemma_front_digits_end(s: Seq<char>, t: Seq<char>, i: int)
    requires
        t == seq![' '] + s,
        0 <= i,
    ensures
        digits_end(t, i + 1) == digits_end(s, i) + 1,
    decreases s.len() - i,
{
    lemma_front_chars(s, t);
    if i < s.len() && is_digit(s[i]) {
        lemma_front_digits_end(s, t, i + 1);
    }
}

proof fn lemma_front_single_close(s: Seq<char>, t: Seq<char>, i: int)
    requires
        t == seq![' '] + s,
        0 <= i,
    ensures
        single_close(t, i + 1) == match single_close(s, i) {
            Some(j) => Some(j + 1),
            None => None::<int>,
        },
    decreases s.len() - i,
{
    lemma_front_chars(s, t);
    if i < s.len() && s[i] != '\'' {
        lemma_front_single_close(s, t, i + 1);
    }
}

proof fn lemma_front_raw_double_end(s: Seq<char>, t: Seq<char>, i: int)
    requires
        t == seq![' '] + s,
        0 <= i,
    ensures
        raw_double_end(t, i + 1) == match raw_double_end(s, i) {
            Ok(j) => Ok(j + 1),
            Err(e) => Err::<int, LexError>(e),
        },
    decreases s.len() - i,
{
    lemma_front_chars(s, t);
    if i < s.len() && s[i] != '"' {
        if s[i] == '\\' {
            if i + 1 < s.len() {
                lemma_front_raw_double_end(s, t, i + 2);
            }
        } else {
            lemma_front_raw_double_end(s, t, i + 1);
        }
    }
}

proof fn lemma_front_subst_source(s: Seq<char>, t: Seq<char>, i: int, depth: nat, out: Seq<char>)
    requires
        t == seq![' '] + s,
        0 <= i,
    ensures
        subst_source(t, i + 1, depth, out) == moved(subst_source(s, i, depth, out)),
    decreases s.len() - i,
{
    lemma_front_chars(s, t);
    if i < s.len() {
        let c = s[i];
        if c == '\'' {
            lemma_front_single_close(s, t, i + 1);
            match single_close(s, i + 1) {
                None => {},
                Some(j) => if i < j < s.len() {
                    lemma_front_subst_source(s, t, j + 1, depth, out + s.subrange(i, j + 1));
                },
            }
        } else if c == '"' {
            lemma_front_raw_double_end(s, t, i + 1);
            match raw_double_end(s, i + 1) {
                Err(e) => {},
                Ok(j) => if i < j <= s.len() {
                    lemma_front_subst_source(s, t, j, depth, out + s.subrange(i, j));
                },
            }
        } else if c == '\\' {
            if i + 1 < s.len() {
                lemma_front_subst_source(s, t, i + 2, depth, out + seq![c, s[i + 1]]);
            }
        } else if c == '$' && i + 1 < s.len() && s[i + 1] == '(' {
            lemma_front_subst_source(s, t, i + 2, depth + 1, out + seq!['$', '(']);
        } else if c == ')' {
            if depth > 1 {
                lemma_front_subst_source(s, t, i + 1, (depth - 1) as nat, out.push(')'));
            }
        } else {
            lemma_front_subst_source(s, t, i + 1, depth, out.push(c));
        }
    }
}

proof fn lemma_front_dollar_expr(
    s: Seq<char>,
    t: Seq<char>,
    i: int,
    segs: Seq<SegV>,
    q: QuoteKind,
)
    requires
        t == seq![' '] + s,
        0 <= i,
    ensures
        dollar_expr(t, i + 1, segs, q) == moved(dollar_expr(s, i, segs, q)),
{
    lemma_front_chars(s, t);
    if i < s.len() {
        lemma_front_subst_source(s, t, i + 1, 1, Seq::empty());
        lemma_front_name_end(s, t, i);
        lemma_name_end_bound(s, i);
    }
}

proof fn lemma_front_double_quoted(
    s: Seq<char>,
    t: Seq<char>,
    i: int,
    lit: Seq<char>,
    segs: Seq<SegV>,
)
    requires
        t == seq![' '] + s,
        0 <= i,
    ensures
        double_quoted(t, i + 1, lit, segs) == moved(double_quoted(s, i, lit, segs)),
    decreases s.len() - i,
{
    lemma_front_chars(s, t);
    let dq = QuoteKind::DoubleQuoted;
    if i < s.len() {
        let c = s[i];
        if c == '"' {
        } else if c == '\\' {
            if i + 1 < s.len() {
                let d = s[i + 1];
                if d == '"' {
                    lemma_front_double_quoted(s, t, i + 2, lit.push('"'), segs);
                } else if d == '\\' {
                    lemma_front_double_quoted(s, t, i + 2, lit.push('\\'), segs);
                } else if d == '$' {
                    let p = if i + 2 < s.len() {
                        i + 3
                    } else {
                        i + 2
                    };
                    lemma_front_dollar_expr(s, t, p, crate::lexer::flushed(lit, segs, dq), dq);
                    match dollar_expr(s, p, crate::lexer::flushed(lit, segs, dq), dq) {
                        Err(e) => {},
                        Ok((segs2, j)) => if i < j <= s.len() {
                            lemma_front_double_quoted(s, t, j, Seq::empty(), segs2);
                        },
                    }
                } else {
                    lemma_front_double_quoted(s, t, i + 2, lit + seq!['\\', d], segs);
                }
            }
        } else if c == '$' {
            lemma_front_dollar_expr(s, t, i + 1, crate::lexer::flushed(lit, segs, dq), dq);
            match dollar_expr(s, i + 1, crate::lexer::flushed(lit, segs, dq), dq) {
                Err(e) => {},
                Ok((segs2, j)) => if i < j <= s.len() {
                    lemma_front_double_quoted(s, t, j, Seq::empty(), segs2);
                },
            }
        } else {
            lemma_front_double_quoted(s, t, i + 1, lit.push(c), segs);
        }
    }
}

proof fn lemma_front_word_from(
    s: Seq<char>,
    t: Seq<char>,
    i: int,
    lit: Seq<char>,
    segs: Seq<SegV>,
)
    requires
        t == seq![' '] + s,
        0 <= i,
    ensures
        word_from(t, i + 1, lit, segs) == moved(word_from(s, i, lit, segs)),
    decreases s.len() - i,
{
    lemma_front_chars(s, t);
    let uq = QuoteKind::Unquoted;
    if i < s.len() && !crate::lexer::is_word_break(s[i]) {
        let c = s[i];
        if c == '\'' {
            lemma_front_single_close(s, t, i + 1);
            match single_close(s, i + 1) {
                None => {},
                Some(j) => if i < j < s.len() {
                    lemma_front_word_from(
                        s,
                        t,
                        j + 1,
                        Seq::empty(),
                        crate::lexer::flushed(
                            s.subrange(i + 1, j),
                            crate::lexer::flushed(lit, segs, uq),
                            QuoteKind::SingleQuoted,
                        ),
                    );
                },
            }
        } else if c == '"' {
            lemma_front_double_quoted(s, t, i + 1, Seq::empty(), crate::lexer::flushed(lit, segs, uq));
            match double_quoted(s, i + 1, Seq::empty(), crate::lexer::flushed(lit, segs, uq)) {
                Err(e) => {},
                Ok((segs2, j)) => if i < j <= s.len() {
                    lemma_front_word_from(s, t, j, Seq::empty(), segs2);
                },
            }
        } else if c == '\\' {
            if i + 1 < s.len() {
                lemma_front_word_from(s, t, i + 2, lit.push(s[i + 1]), segs);
            }
        } else if c == '$' {
            lemma_front_dollar_expr(s, t, i + 1, crate::lexer::flushed(lit, segs, uq), uq);
            match dollar_expr(s, i + 1, crate::lexer::flushed(lit, segs, uq), uq) {
                Err(e) => {},
                Ok((segs2, j)) => if i < j <= s.len() {
                    lemma_front_word_from(s, t, j, Seq::empty(), segs2);
                },
            }
        } else {
            lemma_front_word_from(s, t, i + 1, lit.push(c), segs);
        }
    }
}

proof fn lemma_front_operator_at(s: Seq<char>, t: Seq<char>, i: int)
    requires
        t == seq![' '] + s,
        0 <= i < s.len(),
    ensures
        operator_at(t, i + 1) == match operator_at(s, i) {
            Some((tok, j)) => Some((tok, j + 1)),
            None => None::<(TokenV, int)>,
        },
{
    lemma_front_chars(s, t);
    assert(standalone_brace(t, i + 1) == standalone_brace(s, i));
}

proof fn lemma_front_tokens_from(s: Seq<char>, t: Seq<char>, i: int, toks: Seq<TokenV>)
    requires
        t == seq![' '] + s,
        0 <= i,
    ensures
        tokens_from(t, i + 1, toks) == tokens_from(s, i, toks),
    decreases s.len() - i,
{
    lemma_front_chars(s, t);
    if i < s.len() {
        if is_ws(s[i]) {
            lemma_front_tokens_from(s, t, i + 1, toks);
        } else {
            lemma_front_operator_at(s, t, i);
            match operator_at(s, i) {
                Some((tk, j)) => if i < j <= s.len() {
                    lemma_front_tokens_from(s, t, j, toks.push(tk));
                },
                None => {
                    lemma_front_digits_end(s, t, i);
                    crate::lexer::lemma_digits_end(s, i);
                    let j = digits_end(s, i);
                    if is_digit(s[i]) && i < j < s.len() && (s[j] == '>' || s[j] == '<') {
                        let v = crate::lexer::digits_value(s.subrange(i, j));
                        if v <= 255 {
                            lemma_front_tokens_from(s, t, j, toks.push(TokenV::IoNumber(v as u8)));
                        }
                    } else {
                        let start = if is_digit(s[i]) {
                            j
                        } else {
                            i
                        };
                        lemma_front_word_from(s, t, start, s.subrange(i, start), Seq::empty());
                        match word_from(s, start, s.subrange(i, start), Seq::empty()) {
                            Err(e) => {},
                            Ok((segs, k)) => if i < k <= s.len() {
                                lemma_front_tokens_from(s, t, k, crate::lexer::push_word(toks, segs));
                            },
                        }
                    }
                },
            }
        }
    }
}

/// A line read with one space put before it gives the same tokens, or the
/// same error, as the line itself.
pub proof fn lemma_leading_space_keeps_tokens(s: Seq<char>)
    ensures
        spec_tokenize(seq![' '] + s) == spec_tokenize(s),
{
    let t = seq![' '] + s;
    lemma_space_is_blank();
    lemma_front_chars(s, t);
    lemma_front_tokens_from(s, t, 0, Seq::empty());
}

proof fn lemma_back_chars(s: Seq<char>, u: Seq<char>)
    requires
        u == s + seq![' '],
    ensures
        u.len() == s.len() + 1,
        u[s.len() as int] == ' ',
        forall|k: int| 0 <= k < s.len() ==> u[k] == #[trigger] s[k],
        forall|a: int, b: int| 0 <= a <= b <= s.len() ==> #[trigger] u.subrange(a, b) == s.subrange(a, b),
{
    assert forall|a: int, b: int| 0 <= a <= b <= s.len() implies #[trigger] u.subrange(a, b)
        == s.subrange(a, b) by {
        assert(u.subrange(a, b) =~= s.subrange(a, b));
    }
}

proof fn lemma_back_name_end(s: Seq<char>, u: Seq<char>, i: int)
    requires
        u == s + seq![' '],
        0 <= i,
    ensures
        name_end(u, i) == name_end(s, i),
    decreases s.len() - i,
{
    lemma_back_chars(s, u);
    lemma_space_is_blank();
    if i < s.len() && spec_var_continue(s[i]) {
        lemma_back_name_end(s, u, i + 1);
    }
}

proof fn lemma_back_digits_end(s: Seq<char>, u: Seq<char>, i: int)
    requires
        u == s + seq![' '],
        0 <= i,
    ensures
        digits_end(u, i) == digits_end(s, i),
    decreases s.len() - i,
{
    lemma_back_chars(s, u);
    lemma_space_is_blank();
    if i < s.len() && is_digit(s[i]) {
        lemma_back_digits_end(s, u, i + 1);
    }
}

proof fn lemma_back_single_close(s: Seq<char>, u: Seq<char>, i: int)
    requires
        u == s + seq![' '],
        0 <= i,
        single_close(s, i) is Some,
    ensures
        single_close(u, i) == single_close(s, i),
    decreases s.len() - i,
{
    lemma_back_chars(s, u);
    if i < s.len() && s[i] != '\'' {
        lemma_back_single_close(s, u, i + 1);
    }
}

proof fn lemma_back_raw_double_end(s: Seq<char>, u: Seq<char>, i: int)
    requires
        u == s + seq![' '],
        0 <= i,
        raw_double_end(s, i) is Ok,
    ensures
        raw_double_end(u, i) == raw_double_end(s, i),
    decreases s.len() - i,
{
    lemma_back_chars(s, u);
    if i < s.len() && s[i] != '"' {
        if s[i] == '\\' {
            lemma_back_raw_double_end(s, u, i + 2);
        } else {
            lemma_back_raw_double_end(s, u, i + 1);
        }
    }
}

proof fn lemma_back_subst_source(s: Seq<char>, u: Seq<char>, i: int, depth: nat, out: Seq<char>)
    requires
        u == s + seq![' '],
        0 <= i,
        subst_source(s, i, depth, out) is Ok,
    ensures
        subst_source(u, i, depth, out) == subst_source(s, i, depth, out),
    decreases s.len() - i,
{
    lemma_back_chars(s, u);
    if i < s.len() {
        let c = s[i];
        if c == '\'' {
            lemma_back_single_close(s, u, i + 1);
            let j = single_close(s, i + 1)->0;
            lemma_back_subst_source(s, u, j + 1, depth, out + s.subrange(i, j + 1));
        } else if c == '"' {
            lemma_back_raw_double_end(s, u, i + 1);
            let j = raw_double_end(s, i + 1)->Ok_0;
            lemma_back_subst_source(s, u, j, depth, out + s.subrange(i, j));
        } else if c == '\\' {
            lemma_back_subst_source(s, u, i + 2, depth, out + seq![c, s[i + 1]]);
        } else if c == '$' && i + 1 < s.len() && s[i + 1] == '(' {
            lemma_back_subst_source(s, u, i + 2, depth + 1, out + seq!['$', '(']);
        } else if c == ')' {
            if depth > 1 {
                lemma_back_subst_source(s, u, i + 1, (depth - 1) as nat, out.push(')'));
            }
        } else {
            lemma_back_subst_source(s, u, i + 1, depth, out.push(c));
        }
    }
}

proof fn lemma_back_dollar_expr(s: Seq<char>, u: Seq<char>, i: int, segs: Seq<SegV>, q: QuoteKind)
    requires
        u == s + seq![' '],
        0 <= i,
        dollar_expr(s, i, segs, q) is Ok,
    ensures
        dollar_expr(u, i, segs, q) == dollar_expr(s, i, segs, q),
{
    lemma_back_chars(s, u);
    lemma_space_is_blank();
    if i < s.len() {
        if s[i] == '(' {
            lemma_back_subst_source(s, u, i + 1, 1, Seq::empty());
        }
        lemma_back_name_end(s, u, i);
        lemma_name_end_bound(s, i);
    }
}

proof fn lemma_back_double_quoted(
    s: Seq<char>,
    u: Seq<char>,
    i: int,
    lit: Seq<char>,
    segs: Seq<SegV>,
)
    requires
        u == s + seq![' '],
        0 <= i,
        double_quoted(s, i, lit, segs) is Ok,
    ensures
        double_quoted(u, i, lit, segs) == double_quoted(s, i, lit, segs),
    decreases s.len() - i,
{
    lemma_back_chars(s, u);
    let dq = QuoteKind::DoubleQuoted;
    if i < s.len() {
        let c = s[i];
        if c == '"' {
        } else if c == '\\' {
            let d = s[i + 1];
            if d == '"' {
                lemma_back_double_quoted(s, u, i + 2, lit.push('"'), segs);
            } else if d == '\\' {
                lemma_back_double_quoted(s, u, i + 2, lit.push('\\'), segs);
            } else if d == '$' {
                if i + 2 < s.len() {
                    let p = i + 3;
                    lemma_back_dollar_expr(s, u, p, crate::lexer::flushed(lit, segs, dq), dq);
                    let (segs2, j) = dollar_expr(s, p, crate::lexer::flushed(lit, segs, dq), dq)->Ok_0;
                    lemma_back_double_quoted(s, u, j, Seq::empty(), segs2);
                }
            } else {
                lemma_back_double_quoted(s, u, i + 2, lit + seq!['\\', d], segs);
            }
        } else if c == '$' {
            lemma_back_dollar_expr(s, u, i + 1, crate::lexer::flushed(lit, segs, dq), dq);
            let (segs2, j) = dollar_expr(s, i + 1, crate::lexer::flushed(lit, segs, dq), dq)->Ok_0;
            lemma_back_double_quoted(s, u, j, Seq::empty(), segs2);
        } else {
            lemma_back_double_quoted(s, u, i + 1, lit.push(c), segs);
        }
    }
}

proof fn lemma_back_word_from(s: Seq<char>, u: Seq<char>, i: int, lit: Seq<char>, segs: Seq<SegV>)
    requires
        u == s + seq![' '],
        0 <= i,
        word_from(s, i, lit, segs) is Ok,
    ensures
        word_from(u, i, lit, segs) == word_from(s, i, lit, segs),
    decreases s.len() - i,
{
    lemma_back_chars(s, u);
    lemma_space_is_blank();
    let uq = QuoteKind::Unquoted;
    if i < s.len() && !crate::lexer::is_word_break(s[i]) {
        let c = s[i];
        if c == '\'' {
            lemma_back_single_close(s, u, i + 1);
            let j = single_close(s, i + 1)->0;
            lemma_back_word_from(
                s,
                u,
                j + 1,
                Seq::empty(),
                crate::lexer::flushed(
                    s.subrange(i + 1, j),
                    crate::lexer::flushed(lit, segs, uq),
                    QuoteKind::SingleQuoted,
                ),
            );
        } else if c == '"' {
            lemma_back_double_quoted(s, u, i + 1, Seq::empty(), crate::lexer::flushed(lit, segs, uq));
            let (segs2, j) = double_quoted(s, i + 1, Seq::empty(), crate::lexer::flushed(lit, segs, uq))->Ok_0;
            lemma_back_word_from(s, u, j, Seq::empty(), segs2);
        } else if c == '\\' {
            lemma_back_word_from(s, u, i + 2, lit.push(s[i + 1]), segs);
        } else if c == '$' {
            lemma_back_dollar_expr(s, u, i + 1, crate::lexer::flushed(lit, segs, uq), uq);
            let (segs2, j) = dollar_expr(s, i + 1, crate::lexer::flushed(lit, segs, uq), uq)->Ok_0;
            lemma_back_word_from(s, u, j, Seq::empty(), segs2);
        } else {
            lemma_back_word_from(s, u, i + 1, lit.push(c), segs);
        }
    }
}

proof fn lemma_back_operator_at(s: Seq<char>, u: Seq<char>, i: int)
    requires
        u == s + seq![' '],
        0 <= i < s.len(),
    ensures
        operator_at(u, i) == operator_at(s, i),
{
    lemma_back_chars(s, u);
    lemma_space_is_blank();
    assert(standalone_brace(u, i) == standalone_brace(s, i));
}

proof fn lemma_back_tokens_from(s: Seq<char>, u: Seq<char>, i: int, toks: Seq<TokenV>)
    requires
        u == s + seq![' '],
        0 <= i,
        tokens_from(s, i, toks) is Ok,
    ensures
        tokens_from(u, i, toks) == tokens_from(s, i, toks),
    decreases s.len() - i,
{
    lemma_back_chars(s, u);
    lemma_space_is_blank();
    if i < s.len() {
        if is_ws(s[i]) {
            lemma_back_tokens_from(s, u, i + 1, toks);
        } else {
            lemma_back_operator_at(s, u, i);
            match operator_at(s, i) {
                Some((tk, j)) => {
                    lemma_back_tokens_from(s, u, j, toks.push(tk));
                },
                None => {
                    lemma_back_digits_end(s, u, i);
                    crate::lexer::lemma_digits_end(s, i);
                    let j = digits_end(s, i);
                    if is_digit(s[i]) && i < j < s.len() && (s[j] == '>' || s[j] == '<') {
                        let v = crate::lexer::digits_value(s.subrange(i, j));
                        lemma_back_tokens_from(s, u, j, toks.push(TokenV::IoNumber(v as u8)));
                    } else {
                        let start = if is_digit(s[i]) {
                            j
                        } else {
                            i
                        };
                        lemma_back_word_from(s, u, start, s.subrange(i, start), Seq::empty());
                        let (segs, k) = word_from(s, start, s.subrange(i, start), Seq::empty())->Ok_0;
                        lemma_back_tokens_from(s, u, k, crate::lexer::push_word(toks, segs));
                    }
                },
            }
        }
    } else if i == s.len() {
        assert(tokens_from(u, i, toks) == tokens_from(u, i + 1, toks));
    }
}

/// Surrounding whitespace never changes a successful reading: a line that
/// tokenizes gives the same tokens with a space put before it or after it.
pub proof fn law_surrounding_space_keeps_tokens(s: Seq<char>)
    requires
        spec_tokenize(s) is Ok,
    ensures
        spec_tokenize(seq![' '] + s) == spec_tokenize(s),
        spec_tokenize(s + seq![' ']) == spec_tokenize(s),
{
    lemma_leading_space_keeps_tokens(s);
    lemma_back_tokens_from(s, s + seq![' '], 0, Seq::empty());
}

} // verus!
