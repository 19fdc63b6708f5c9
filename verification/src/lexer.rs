//! Turns a command line into tokens: operators, redirection operators,
//! descriptor numbers and words made of quoted and unquoted segments.
use vstd::prelude::*;

use crate::expand::{
    is_var_continue, is_var_start, spec_var_continue, spec_var_start, QuoteKind, SegV, Word,
    WordSegment,
};
use crate::shell::{ShellError, ShellResult};
use crate::text::{chars_of, is_ascii_digit, is_digit, is_whitespace, is_ws, string_from_chars, string_from_str};

verus! {

broadcast use vstd::string::group_string_axioms;

#[derive(Debug, PartialEq, Eq)]
pub enum Token {
    Word(Word),
    Pipe,
    Ampersand,
    AndIf,
    OrIf,
    Semicolon,
    RedirectIn,
    RedirectHeredoc,
    RedirectOut,
    RedirectAppend,
    LBrace,
    LParen,
    RBrace,
    RParen,
    IoNumber(u8),
}

/// The value of a token.
pub enum TokenV {
    Word(Seq<SegV>),
    Pipe,
    Ampersand,
    AndIf,
    OrIf,
    Semicolon,
    RedirectIn,
    RedirectHeredoc,
    RedirectOut,
    RedirectAppend,
    LBrace,
    LParen,
    RBrace,
    RParen,
    IoNumber(u8),
}

impl View for Token {
    type V = TokenV;

    open spec fn view(&self) -> TokenV {
        match self {
            Token::Word(w) => TokenV::Word(w@),
            Token::Pipe => TokenV::Pipe,
            Token::Ampersand => TokenV::Ampersand,
            Token::AndIf => TokenV::AndIf,
            Token::OrIf => TokenV::OrIf,
            Token::Semicolon => TokenV::Semicolon,
            Token::RedirectIn => TokenV::RedirectIn,
            Token::RedirectHeredoc => TokenV::RedirectHeredoc,
            Token::RedirectOut => TokenV::RedirectOut,
            Token::RedirectAppend => TokenV::RedirectAppend,
            Token::LBrace => TokenV::LBrace,
            Token::LParen => TokenV::LParen,
            Token::RBrace => TokenV::RBrace,
            Token::RParen => TokenV::RParen,
            Token::IoNumber(n) => TokenV::IoNumber(*n),
        }
    }
}

impl Clone for Token {
    fn clone(&self) -> (r: Self)
        ensures
            r@ == self@,
    {
        match self {
            Token::Word(w) => Token::Word(w.clone()),
            Token::Pipe => Token::Pipe,
            Token::Ampersand => Token::Ampersand,
            Token::AndIf => Token::AndIf,
            Token::OrIf => Token::OrIf,
            Token::Semicolon => Token::Semicolon,
            Token::RedirectIn => Token::RedirectIn,
            Token::RedirectHeredoc => Token::RedirectHeredoc,
            Token::RedirectOut => Token::RedirectOut,
            Token::RedirectAppend => Token::RedirectAppend,
            Token::LBrace => Token::LBrace,
            Token::LParen => Token::LParen,
            Token::RBrace => Token::RBrace,
            Token::RParen => Token::RParen,
            Token::IoNumber(n) => Token::IoNumber(*n),
        }
    }
}

/// Why a line could not be split into tokens.
#[derive(Debug, Clone, Copy, PartialEq, Eq, Structural)]
pub enum LexError {
    UnterminatedSingleQuote,
    UnterminatedDoubleQuote,
    UnterminatedDoubleQuoteEscape,
    UnterminatedEscape,
    UnterminatedSubstitution,
    InvalidFileDescriptor,
}

pub open spec fn lex_message(e: LexError) -> Seq<char> {
    match e {
        LexError::UnterminatedSingleQuote => "unterminated single-quoted string"@,
        LexError::UnterminatedDoubleQuote => "unterminated double-quoted string"@,
        LexError::UnterminatedDoubleQuoteEscape => "unterminated escape in double-quoted string"@,
        LexError::UnterminatedEscape => "unterminated escape sequence"@,
        LexError::UnterminatedSubstitution => "unterminated command substitution"@,
        LexError::InvalidFileDescriptor => "invalid file descriptor number"@,
    }
}

impl LexError {
    /// The message the shell reports for this error.
    pub fn message(&self) -> (r: String)
        ensures
            r@ == lex_message(*self),
    {
        match self {
            LexError::UnterminatedSingleQuote => string_from_str("unterminated single-quoted string"),
            LexError::UnterminatedDoubleQuote => string_from_str("unterminated double-quoted string"),
            LexError::UnterminatedDoubleQuoteEscape => string_from_str(
                "unterminated escape in double-quoted string",
            ),
            LexError::UnterminatedEscape => string_from_str("unterminated escape sequence"),
            LexError::UnterminatedSubstitution => string_from_str("unterminated command substitution"),
            LexError::InvalidFileDescriptor => string_from_str("invalid file descriptor number"),
        }
    }

    /// Whether more input could complete the line: every error but a bad
    /// descriptor number comes from an unfinished quote, escape or
    /// substitution.
    pub fn is_incomplete(&self) -> (b: bool)
        ensures
            b == !(*self == LexError::InvalidFileDescriptor),
    {
        !matches!(self, LexError::InvalidFileDescriptor)
    }
}

pub open spec fn segs_view(v: Seq<WordSegment>) -> Seq<SegV> {
    v.map_values(|x: WordSegment| x@)
}

pub open spec fn tokens_view(v: Seq<Token>) -> Seq<TokenV> {
    v.map_values(|x: Token| x@)
}

/// Characters that end an unquoted word.
pub open spec fn is_word_break(c: char) -> bool {
    is_ws(c) || c == '|' || c == '&' || c == ';' || c == '>' || c == '<' || c == '(' || c == ')'
}

/// `segs` with the pending literal appended, when there is one.
pub open spec fn flushed(lit: Seq<char>, segs: Seq<SegV>, q: QuoteKind) -> Seq<SegV> {
    if lit.len() > 0 {
        segs.push(SegV::Literal { text: lit, quote: q })
    } else {
        segs
    }
}

/// The end of the run of variable-name characters that starts at `i`.
pub open spec fn name_end(s: Seq<char>, i: int) -> int
    decreases s.len() - i,
{
    if 0 <= i < s.len() && spec_var_continue(s[i]) {
        name_end(s, i + 1)
    } else {
        i
    }
}

/// The end of the run of ASCII digits that starts at `i`.
pub open spec fn digits_end(s: Seq<char>, i: int) -> int
    decreases s.len() - i,
{
    if 0 <= i < s.len() && is_digit(s[i]) {
        digits_end(s, i + 1)
    } else {
        i
    }
}

/// The position of the `'` that closes a single-quoted run starting at `i`.
pub open spec fn single_close(s: Seq<char>, i: int) -> Option<int>
    decreases s.len() - i,
{
    if i < 0 || i >= s.len() {
        None
    } else if s[i] == '\'' {
        Some(i)
    } else {
        single_close(s, i + 1)
    }
}

/// The position just past the `"` that closes a raw double-quoted run
/// starting at `i`, where a backslash protects the character after it.
pub open spec fn raw_double_end(s: Seq<char>, i: int) -> Result<int, LexError>
    decreases s.len() - i,
{
    if i < 0 || i >= s.len() {
        Err(LexError::UnterminatedDoubleQuote)
    } else if s[i] == '"' {
        Ok(i + 1)
    } else if s[i] == '\\' {
        if i + 1 < s.len() {
            raw_double_end(s, i + 2)
        } else {
            Err(LexError::UnterminatedDoubleQuoteEscape)
        }
    } else {
        raw_double_end(s, i + 1)
    }
}

/// The source of a command substitution whose `$(` ends just before `i`,
/// with the nesting `depth` still open, and the position after its `)`.
pub open spec fn subst_source(s: Seq<char>, i: int, depth: nat, out: Seq<char>) -> Result<
    (Seq<char>, int),
    LexError,
>
    decreases s.len() - i,
{
    if i < 0 || i >= s.len() {
        Err(LexError::UnterminatedSubstitution)
    } else {
        let c = s[i];
        if c == '\'' {
            match single_close(s, i + 1) {
                None => Err(LexError::UnterminatedSingleQuote),
                Some(j) => if i < j < s.len() {
                    subst_source(s, j + 1, depth, out + s.subrange(i, j + 1))
                } else {
                    Err(LexError::UnterminatedSingleQuote)
                },
            }
        } else if c == '"' {
            match raw_double_end(s, i + 1) {
                Err(e) => Err(e),
                Ok(j) => if i < j <= s.len() {
                    subst_source(s, j, depth, out + s.subrange(i, j))
                } else {
                    Err(LexError::UnterminatedDoubleQuote)
                },
            }
        } else if c == '\\' {
            if i + 1 < s.len() {
                subst_source(s, i + 2, depth, out + seq![c, s[i + 1]])
            } else {
                Err(LexError::UnterminatedSubstitution)
            }
        } else if c == '$' && i + 1 < s.len() && s[i + 1] == '(' {
            subst_source(s, i + 2, depth + 1, out + seq!['$', '('])
        } else if c == ')' {
            if depth <= 1 {
                Ok((out, i + 1))
            } else {
                subst_source(s, i + 1, (depth - 1) as nat, out.push(')'))
            }
        } else {
            subst_source(s, i + 1, depth, out.push(c))
        }
    }
}

/// What follows a `$` that ends just before `i`: a command substitution,
/// `$?`, a variable name, or a lone `$`.
pub open spec fn dollar_expr(s: Seq<char>, i: int, segs: Seq<SegV>, q: QuoteKind) -> Result<
    (Seq<SegV>, int),
    LexError,
> {
    if 0 <= i < s.len() && s[i] == '(' {
        match subst_source(s, i + 1, 1, Seq::empty()) {
            Err(e) => Err(e),
            Ok((src, j)) => Ok((segs.push(SegV::CommandSubstitution { source: src, quote: q }), j)),
        }
    } else if 0 <= i < s.len() && s[i] == '?' {
        Ok((segs.push(SegV::LastStatus { quote: q }), i + 1))
    } else if 0 <= i < s.len() && spec_var_start(s[i]) {
        let e = name_end(s, i);
        Ok((segs.push(SegV::Variable { name: s.subrange(i, e), quote: q }), e))
    } else {
        Ok((segs.push(SegV::Literal { text: seq!['$'], quote: q }), i))
    }
}

/// The segments of a double-quoted run from `i` to its closing quote.
pub open spec fn double_quoted(s: Seq<char>, i: int, lit: Seq<char>, segs: Seq<SegV>) -> Result<
    (Seq<SegV>, int),
    LexError,
>
    decreases s.len() - i,
{
    let dq = QuoteKind::DoubleQuoted;
    if i < 0 || i >= s.len() {
        Err(LexError::UnterminatedDoubleQuote)
    } else {
        let c = s[i];
        if c == '"' {
            Ok((flushed(lit, segs, dq), i + 1))
        } else if c == '\\' {
            if i + 1 >= s.len() {
                Err(LexError::UnterminatedDoubleQuoteEscape)
            } else {
                let d = s[i + 1];
                if d == '"' {
                    double_quoted(s, i + 2, lit.push('"'), segs)
                } else if d == '\\' {
                    double_quoted(s, i + 2, lit.push('\\'), segs)
                } else if d == '$' {
                    // The character after `\$` is consumed before the expansion is read.
                    let p = if i + 2 < s.len() {
                        i + 3
                    } else {
                        i + 2
                    };
                    match dollar_expr(s, p, flushed(lit, segs, dq), dq) {
                        Err(e) => Err(e),
                        Ok((segs2, j)) => if i < j <= s.len() {
                            double_quoted(s, j, Seq::empty(), segs2)
                        } else {
                            Err(LexError::UnterminatedDoubleQuote)
                        },
                    }
                } else {
                    double_quoted(s, i + 2, lit + seq!['\\', d], segs)
                }
            }
        } else if c == '$' {
            match dollar_expr(s, i + 1, flushed(lit, segs, dq), dq) {
                Err(e) => Err(e),
                Ok((segs2, j)) => if i < j <= s.len() {
                    double_quoted(s, j, Seq::empty(), segs2)
                } else {
                    Err(LexError::UnterminatedDoubleQuote)
                },
            }
        } else {
            double_quoted(s, i + 1, lit.push(c), segs)
        }
    }
}

/// The segments of a word read from `i`, with `lit` already read as
/// unquoted literal text, and the position where the word ends.
pub open spec fn word_from(s: Seq<char>, i: int, lit: Seq<char>, segs: Seq<SegV>) -> Result<
    (Seq<SegV>, int),
    LexError,
>
    decreases s.len() - i,
{
    let uq = QuoteKind::Unquoted;
    if i < 0 || i >= s.len() || is_word_break(s[i]) {
        Ok((flushed(lit, segs, uq), i))
    } else {
        let c = s[i];
        if c == '\'' {
            match single_close(s, i + 1) {
                None => Err(LexError::UnterminatedSingleQuote),
                Some(j) => if i < j < s.len() {
                    word_from(
                        s,
                        j + 1,
                        Seq::empty(),
                        flushed(
                            s.subrange(i + 1, j),
                            flushed(lit, segs, uq),
                            QuoteKind::SingleQuoted,
                        ),
                    )
                } else {
                    Err(LexError::UnterminatedSingleQuote)
                },
            }
        } else if c == '"' {
            match double_quoted(s, i + 1, Seq::empty(), flushed(lit, segs, uq)) {
                Err(e) => Err(e),
                Ok((segs2, j)) => if i < j <= s.len() {
                    word_from(s, j, Seq::empty(), segs2)
                } else {
                    Err(LexError::UnterminatedDoubleQuote)
                },
            }
        } else if c == '\\' {
            if i + 1 < s.len() {
                word_from(s, i + 2, lit.push(s[i + 1]), segs)
            } else {
                Err(LexError::UnterminatedEscape)
            }
        } else if c == '$' {
            match dollar_expr(s, i + 1, flushed(lit, segs, uq), uq) {
                Err(e) => Err(e),
                Ok((segs2, j)) => if i < j <= s.len() {
                    word_from(s, j, Seq::empty(), segs2)
                } else {
                    Err(LexError::UnterminatedSubstitution)
                },
            }
        } else {
            word_from(s, i + 1, lit.push(c), segs)
        }
    }
}

/// Whether the brace at `i` stands alone: followed by the end of input,
/// whitespace or an operator character.
pub open spec fn standalone_brace(s: Seq<char>, i: int) -> bool {
    i + 1 >= s.len() || is_ws(s[i + 1]) || s[i + 1] == '|' || s[i + 1] == '&' || s[i + 1] == ';'
        || s[i + 1] == '>' || s[i + 1] == '<'
}

/// The number written by the ASCII digits `d`.
pub open spec fn digits_value(d: Seq<char>) -> nat
    decreases d.len(),
{
    if d.len() == 0 {
        0
    } else {
        digits_value(d.drop_last()) * 10 + (d.last() as nat - '0' as nat) as nat
    }
}

/// The operator token that starts at `i`, if one does, and where it ends.
pub open spec fn operator_at(s: Seq<char>, i: int) -> Option<(TokenV, int)> {
    let c = s[i];
    let next = if i + 1 < s.len() {
        Some(s[i + 1])
    } else {
        None
    };
    if c == '|' {
        if next == Some('|') {
            Some((TokenV::OrIf, i + 2))
        } else {
            Some((TokenV::Pipe, i + 1))
        }
    } else if c == '&' {
        if next == Some('&') {
            Some((TokenV::AndIf, i + 2))
        } else {
            Some((TokenV::Ampersand, i + 1))
        }
    } else if c == ';' {
        Some((TokenV::Semicolon, i + 1))
    } else if c == '{' && standalone_brace(s, i) {
        Some((TokenV::LBrace, i + 1))
    } else if c == '(' {
        Some((TokenV::LParen, i + 1))
    } else if c == '}' && standalone_brace(s, i) {
        Some((TokenV::RBrace, i + 1))
    } else if c == ')' {
        Some((TokenV::RParen, i + 1))
    } else if c == '>' {
        if next == Some('>') {
            Some((TokenV::RedirectAppend, i + 2))
        } else {
            Some((TokenV::RedirectOut, i + 1))
        }
    } else if c == '<' {
        if next == Some('<') {
            Some((TokenV::RedirectHeredoc, i + 2))
        } else {
            Some((TokenV::RedirectIn, i + 1))
        }
    } else {
        None
    }
}

/// `toks` followed by a word token for `segs`, unless `segs` is empty.
pub open spec fn push_word(toks: Seq<TokenV>, segs: Seq<SegV>) -> Seq<TokenV> {
    if segs.len() > 0 {
        toks.push(TokenV::Word(segs))
    } else {
        toks
    }
}

/// The tokens of `s` from position `i`, after the tokens `toks`.
pub open spec fn tokens_from(s: Seq<char>, i: int, toks: Seq<TokenV>) -> Result<
    Seq<TokenV>,
    LexError,
>
    decreases s.len() - i,
{
    if i < 0 || i >= s.len() {
        Ok(toks)
    } else if is_ws(s[i]) {
        tokens_from(s, i + 1, toks)
    } else {
        match operator_at(s, i) {
            Some((t, j)) => if i < j <= s.len() {
                tokens_from(s, j, toks.push(t))
            } else {
                Err(LexError::UnterminatedEscape)
            },
            None => {
                // A word, which may start with digits that name a descriptor.
                let j = digits_end(s, i);
                if is_digit(s[i]) && i < j < s.len() && (s[j] == '>' || s[j] == '<') {
                    let v = digits_value(s.subrange(i, j));
                    if v <= 255 {
                        tokens_from(s, j, toks.push(TokenV::IoNumber(v as u8)))
                    } else {
                        Err(LexError::InvalidFileDescriptor)
                    }
                } else {
                    let start = if is_digit(s[i]) {
                        j
                    } else {
                        i
                    };
                    if !(i <= start <= s.len()) {
                        Err(LexError::UnterminatedEscape)
                    } else {
                        match word_from(s, start, s.subrange(i, start), Seq::empty()) {
                            Err(e) => Err(e),
                            Ok((segs, k)) => if i < k <= s.len() {
                                tokens_from(s, k, push_word(toks, segs))
                            } else {
                                Err(LexError::UnterminatedEscape)
                            },
                        }
                    }
                }
            },
        }
    }
}

/// The tokens of a whole line.
pub open spec fn spec_tokenize(s: Seq<char>) -> Result<Seq<TokenV>, LexError> {
    tokens_from(s, 0, Seq::empty())
}

pub proof fn lemma_segs_push(v: Seq<WordSegment>, x: WordSegment)
    ensures
        segs_view(v.push(x)) == segs_view(v).push(x@),
{
    assert(segs_view(v.push(x)) =~= segs_view(v).push(x@));
}

pub proof fn lemma_tokens_push(v: Seq<Token>, x: Token)
    ensures
        tokens_view(v.push(x)) == tokens_view(v).push(x@),
{
    assert(tokens_view(v.push(x)) =~= tokens_view(v).push(x@));
}

/// Moves the pending literal, if any, into the segment list.
pub(crate) fn flush_literal(lit: &mut Vec<char>, segs: &mut Vec<WordSegment>, quote: QuoteKind)
    ensures
        final(lit)@ == Seq::<char>::empty(),
        segs_view(final(segs)@) == flushed(old(lit)@, segs_view(old(segs)@), quote),
{
    if lit.len() > 0 {
        let text = string_from_chars(lit.as_slice());
        let seg = WordSegment::Literal { text, quote };
        proof {
            lemma_segs_push(segs@, seg);
        }
        segs.push(seg);
        *lit = Vec::new();
    }
}

pub(crate) fn scan_name_end(s: &Vec<char>, i: usize) -> (e: usize)
    requires
        i <= s@.len(),
    ensures
        e == name_end(s@, i as int),
        i <= e <= s@.len(),
{
    let mut e = i;
    while e < s.len() && is_var_continue(s[e])
        invariant
            i <= e <= s@.len(),
            name_end(s@, e as int) == name_end(s@, i as int),
        decreases s@.len() - e,
    {
        e += 1;
    }
    e
}

fn scan_digits_end(s: &Vec<char>, i: usize) -> (e: usize)
    requires
        i <= s@.len(),
    ensures
        e == digits_end(s@, i as int),
        i <= e <= s@.len(),
{
    let mut e = i;
    while e < s.len() && is_ascii_digit(s[e])
        invariant
            i <= e <= s@.len(),
            digits_end(s@, e as int) == digits_end(s@, i as int),
        decreases s@.len() - e,
    {
        e += 1;
    }
    e
}

fn find_single_close(s: &Vec<char>, i: usize) -> (r: Option<usize>)
    requires
        i <= s@.len(),
    ensures
        match r {
            Some(j) => single_close(s@, i as int) == Some(j as int) && i <= j < s@.len(),
            None => single_close(s@, i as int) is None,
        },
{
    let mut j = i;
    while j < s.len()
        invariant
            i <= j <= s@.len(),
            single_close(s@, j as int) == single_close(s@, i as int),
        decreases s@.len() - j,
    {
        if s[j] == '\'' {
            return Some(j);
        }
        j += 1;
    }
    None
}

fn scan_raw_double_end(s: &Vec<char>, i: usize) -> (r: Result<usize, LexError>)
    requires
        i <= s@.len(),
    ensures
        match r {
            Ok(j) => raw_double_end(s@, i as int) == Ok::<int, LexError>(j as int) && i < j <= s@.len(),
            Err(e) => raw_double_end(s@, i as int) == Err::<int, LexError>(e),
        },
{
    let mut j = i;
    while j < s.len()
        invariant
            i <= j <= s@.len(),
            raw_double_end(s@, j as int) == raw_double_end(s@, i as int),
        decreases s@.len() - j,
    {
        if s[j] == '"' {
            return Ok(j + 1);
        } else if s[j] == '\\' {
            if j + 1 < s.len() {
                j += 2;
            } else {
                return Err(LexError::UnterminatedDoubleQuoteEscape);
            }
        } else {
            j += 1;
        }
    }
    Err(LexError::UnterminatedDoubleQuote)
}

pub(crate) fn push_range(out: &mut Vec<char>, s: &Vec<char>, from: usize, to: usize)
    requires
        from <= to <= s@.len(),
    ensures
        final(out)@ == old(out)@ + s@.subrange(from as int, to as int),
{
    let ghost o = out@;
    let mut k = from;
    while k < to
        invariant
            from <= k <= to <= s@.len(),
            out@ == o + s@.subrange(from as int, k as int),
        decreases to - k,
    {
        out.push(s[k]);
        k += 1;
        assert(out@ =~= o + s@.subrange(from as int, k as int));
    }
}

/// Reads the source of a command substitution whose `$(` ends before `i`.
pub(crate) fn read_command_substitution(s: &Vec<char>, i: usize) -> (r: Result<(Vec<char>, usize), LexError>)
    requires
        i <= s@.len(),
    ensures
        match r {
            Ok((src, j)) => subst_source(s@, i as int, 1, Seq::empty()) == Ok::<
                (Seq<char>, int),
                LexError,
            >((src@, j as int)) && i < j <= s@.len(),
            Err(e) => subst_source(s@, i as int, 1, Seq::empty()) == Err::<(Seq<char>, int), LexError>(
                e,
            ),
        },
{
    let mut out: Vec<char> = Vec::new();
    let mut depth: usize = 1;
    let mut k = i;
    while k < s.len()
        invariant
            i <= k <= s@.len(),
            1 <= depth <= k - i + 1,
            subst_source(s@, k as int, depth as nat, out@) == subst_source(s@, i as int, 1, Seq::empty()),
        decreases s@.len() - k,
    {
        let c = s[k];
        if c == '\'' {
            match find_single_close(s, k + 1) {
                None => {
                    return Err(LexError::UnterminatedSingleQuote);
                },
                Some(j) => {
                    push_range(&mut out, s, k, j + 1);
                    k = j + 1;
                },
            }
        } else if c == '"' {
            match scan_raw_double_end(s, k + 1) {
                Err(e) => {
                    return Err(e);
                },
                Ok(j) => {
                    push_range(&mut out, s, k, j);
                    k = j;
                },
            }
        } else if c == '\\' {
            if k + 1 < s.len() {
                let ghost o = out@;
                out.push(c);
                out.push(s[k + 1]);
                assert(out@ =~= o + seq![c, s@[k + 1]]);
                k += 2;
            } else {
                return Err(LexError::UnterminatedSubstitution);
            }
        } else if c == '$' && k + 1 < s.len() && s[k + 1] == '(' {
            let ghost o = out@;
            out.push('$');
            out.push('(');
            assert(out@ =~= o + seq!['$', '(']);
            depth += 1;
            k += 2;
        } else if c == ')' {
            if depth <= 1 {
                return Ok((out, k + 1));
            }
            out.push(')');
            depth -= 1;
            k += 1;
        } else {
            out.push(c);
            k += 1;
        }
    }
    Err(LexError::UnterminatedSubstitution)
}

/// Reads what follows a `$` that ends just before `i` and appends the
/// segment it stands for.
fn read_dollar_expression(s: &Vec<char>, i: usize, segs: &mut Vec<WordSegment>, quote: QuoteKind) -> (r:
    Result<usize, LexError>)
    requires
        i <= s@.len(),
    ensures
        match r {
            Ok(j) => dollar_expr(s@, i as int, segs_view(old(segs)@), quote) == Ok::<
                (Seq<SegV>, int),
                LexError,
            >((segs_view(final(segs)@), j as int)) && i <= j <= s@.len(),
            Err(e) => dollar_expr(s@, i as int, segs_view(old(segs)@), quote) == Err::<
                (Seq<SegV>, int),
                LexError,
            >(e),
        },
{
    if i < s.len() && s[i] == '(' {
        match read_command_substitution(s, i + 1) {
            Err(e) => Err(e),
            Ok((src, j)) => {
                let seg = WordSegment::CommandSubstitution {
                    source: string_from_chars(src.as_slice()),
                    quote,
                };
                proof {
                    lemma_segs_push(segs@, seg);
                }
                segs.push(seg);
                Ok(j)
            },
        }
    } else if i < s.len() && s[i] == '?' {
        let seg = WordSegment::LastStatus { quote };
        proof {
            lemma_segs_push(segs@, seg);
        }
        segs.push(seg);
        Ok(i + 1)
    } else if i < s.len() && is_var_start(s[i]) {
        let e = scan_name_end(s, i);
        let mut name: Vec<char> = Vec::new();
        push_range(&mut name, s, i, e);
        assert(name@ =~= s@.subrange(i as int, e as int));
        let seg = WordSegment::Variable { name: string_from_chars(name.as_slice()), quote };
        proof {
            lemma_segs_push(segs@, seg);
        }
        segs.push(seg);
        Ok(e)
    } else {
        let dollar = vec!['$'];
        let seg = WordSegment::Literal { text: string_from_chars(dollar.as_slice()), quote };
        assert(dollar@ =~= seq!['$']);
        proof {
            lemma_segs_push(segs@, seg);
        }
        segs.push(seg);
        Ok(i)
    }
}

/// Reads a double-quoted run from `i` (just past the opening quote) and
/// appends its segments.
fn read_double_quoted(s: &Vec<char>, i: usize, segs: &mut Vec<WordSegment>) -> (r: Result<
    usize,
    LexError,
>)
    requires
        i <= s@.len(),
    ensures
        match r {
            Ok(j) => double_quoted(s@, i as int, Seq::empty(), segs_view(old(segs)@)) == Ok::<
                (Seq<SegV>, int),
                LexError,
            >((segs_view(final(segs)@), j as int)) && i < j <= s@.len(),
            Err(e) => double_quoted(s@, i as int, Seq::empty(), segs_view(old(segs)@)) == Err::<
                (Seq<SegV>, int),
                LexError,
            >(e),
        },
{
    let mut lit: Vec<char> = Vec::new();
    let mut k = i;
    while k < s.len()
        invariant
            i <= k <= s@.len(),
            double_quoted(s@, k as int, lit@, segs_view(segs@)) == double_quoted(
                s@,
                i as int,
                Seq::empty(),
                segs_view(old(segs)@),
            ),
        decreases s@.len() - k,
    {
        let c = s[k];
        if c == '"' {
            flush_literal(&mut lit, segs, QuoteKind::DoubleQuoted);
            return Ok(k + 1);
        } else if c == '\\' {
            if k + 1 >= s.len() {
                return Err(LexError::UnterminatedDoubleQuoteEscape);
            }
            let d = s[k + 1];
            if d == '"' {
                lit.push('"');
                k += 2;
            } else if d == '\\' {
                lit.push('\\');
                k += 2;
            } else if d == '$' {
                flush_literal(&mut lit, segs, QuoteKind::DoubleQuoted);
                let p = if k + 2 < s.len() {
                    k + 3
                } else {
                    k + 2
                };
                match read_dollar_expression(s, p, segs, QuoteKind::DoubleQuoted) {
                    Err(e) => {
                        return Err(e);
                    },
                    Ok(j) => {
                        k = j;
                    },
                }
            } else {
                let ghost l = lit@;
                lit.push('\\');
                lit.push(d);
                assert(lit@ =~= l + seq!['\\', d]);
                k += 2;
            }
        } else if c == '$' {
            flush_literal(&mut lit, segs, QuoteKind::DoubleQuoted);
            match read_dollar_expression(s, k + 1, segs, QuoteKind::DoubleQuoted) {
                Err(e) => {
                    return Err(e);
                },
                Ok(j) => {
                    k = j;
                },
            }
        } else {
            lit.push(c);
            k += 1;
        }
    }
    Err(LexError::UnterminatedDoubleQuote)
}

fn is_word_break_char(c: char) -> (b: bool)
    ensures
        b == is_word_break(c),
{
    is_whitespace(c) || c == '|' || c == '&' || c == ';' || c == '>' || c == '<' || c == '(' || c
        == ')'
}

/// Reads a word from `i`, with `lit` already read as unquoted literal text.
fn read_word_with_literal(s: &Vec<char>, i: usize, literal: Vec<char>) -> (r: Result<
    (Vec<WordSegment>, usize),
    LexError,
>)
    requires
        i <= s@.len(),
    ensures
        match r {
            Ok((segs, k)) => word_from(s@, i as int, literal@, Seq::empty()) == Ok::<
                (Seq<SegV>, int),
                LexError,
            >((segs_view(segs@), k as int)) && i <= k <= s@.len() && (i < s@.len()
                && !is_word_break(s@[i as int]) ==> i < k),
            Err(e) => word_from(s@, i as int, literal@, Seq::empty()) == Err::<
                (Seq<SegV>, int),
                LexError,
            >(e),
        },
{
    let mut lit = literal;
    let mut segs: Vec<WordSegment> = Vec::new();
    let mut k = i;
    assert(segs_view(segs@) =~= Seq::<SegV>::empty());
    while k < s.len() && !is_word_break_char(s[k])
        invariant
            i <= k <= s@.len(),
            word_from(s@, k as int, lit@, segs_view(segs@)) == word_from(
                s@,
                i as int,
                literal@,
                Seq::empty(),
            ),
            i < s@.len() && !is_word_break(s@[i as int]) && k == i ==> !is_word_break(s@[k as int]),
        decreases s@.len() - k,
    {
        let c = s[k];
        if c == '\'' {
            flush_literal(&mut lit, &mut segs, QuoteKind::Unquoted);
            match find_single_close(s, k + 1) {
                None => {
                    return Err(LexError::UnterminatedSingleQuote);
                },
                Some(j) => {
                    let mut text: Vec<char> = Vec::new();
                    push_range(&mut text, s, k + 1, j);
                    assert(text@ =~= s@.subrange(k + 1, j as int));
                    flush_literal(&mut text, &mut segs, QuoteKind::SingleQuoted);
                    k = j + 1;
                },
            }
        } else if c == '"' {
            flush_literal(&mut lit, &mut segs, QuoteKind::Unquoted);
            match read_double_quoted(s, k + 1, &mut segs) {
                Err(e) => {
                    return Err(e);
                },
                Ok(j) => {
                    k = j;
                },
            }
        } else if c == '\\' {
            if k + 1 < s.len() {
                lit.push(s[k + 1]);
                k += 2;
            } else {
                return Err(LexError::UnterminatedEscape);
            }
        } else if c == '$' {
            flush_literal(&mut lit, &mut segs, QuoteKind::Unquoted);
            match read_dollar_expression(s, k + 1, &mut segs, QuoteKind::Unquoted) {
                Err(e) => {
                    return Err(e);
                },
                Ok(j) => {
                    k = j;
                },
            }
        } else {
            lit.push(c);
            k += 1;
        }
    }
    flush_literal(&mut lit, &mut segs, QuoteKind::Unquoted);
    Ok((segs, k))
}

fn digits_u8(s: &Vec<char>, i: usize, j: usize) -> (r: Option<u8>)
    requires
        i <= j <= s@.len(),
        forall|k: int| i <= k < j ==> is_digit(#[trigger] s@[k]),
    ensures
        match r {
            Some(v) => digits_value(s@.subrange(i as int, j as int)) == v as nat,
            None => digits_value(s@.subrange(i as int, j as int)) > 255,
        },
{
    let mut v: u64 = 0;
    let mut k = i;
    while k < j
        invariant
            i <= k <= j <= s@.len(),
            forall|m: int| i <= m < j ==> is_digit(#[trigger] s@[m]),
            v as nat == digits_value(s@.subrange(i as int, k as int)),
            v <= 255,
        decreases j - k,
    {
        let d = (s[k] as u64) - ('0' as u64);
        assert(s@.subrange(i as int, k + 1).drop_last() =~= s@.subrange(i as int, k as int));
        let nv = v * 10 + d;
        k += 1;
        if nv > 255 {
            proof {
                lemma_digits_value_grows(s@.subrange(i as int, j as int), (k - i) as int);
                assert(s@.subrange(i as int, j as int).subrange(0, (k - i) as int) =~= s@.subrange(i as int, k as int));
            }
            return None;
        }
        v = nv;
    }
    Some(v as u8)
}

/// A number written with more digits is no smaller than its prefix.
pub proof fn lemma_digits_value_grows(d: Seq<char>, n: int)
    requires
        0 <= n <= d.len(),
        forall|k: int| 0 <= k < d.len() ==> is_digit(#[trigger] d[k]),
    ensures
        digits_value(d.subrange(0, n)) <= digits_value(d),
    decreases d.len(),
{
    if n < d.len() {
        assert(d.drop_last().subrange(0, n) =~= d.subrange(0, n));
        assert forall|k: int| 0 <= k < d.drop_last().len() implies is_digit(
            #[trigger] d.drop_last()[k],
        ) by {
            assert(d.drop_last()[k] == d[k]);
        }
        lemma_digits_value_grows(d.drop_last(), n);
    } else {
        assert(d.subrange(0, n) =~= d);
    }
}

fn is_standalone_brace(s: &Vec<char>, i: usize) -> (b: bool)
    requires
        i < s@.len(),
    ensures
        b == standalone_brace(s@, i as int),
{
    let len = s.len();
    if i + 1 >= len {
        return true;
    }
    let n = s[i + 1];
    is_whitespace(n) || n == '|' || n == '&' || n == ';' || n == '>' || n == '<'
}

/// The operator token that starts at `i`, if one does.
fn read_operator(s: &Vec<char>, i: usize) -> (r: Option<(Token, usize)>)
    requires
        i < s@.len(),
    ensures
        match r {
            Some((t, j)) => operator_at(s@, i as int) == Some((t@, j as int)) && i < j <= s@.len(),
            None => operator_at(s@, i as int) is None,
        },
{
    let c = s[i];
    let len = s.len();
    let two = i + 1 < len;
    if c == '|' {
        if two && s[i + 1] == '|' {
            Some((Token::OrIf, i + 2))
        } else {
            Some((Token::Pipe, i + 1))
        }
    } else if c == '&' {
        if two && s[i + 1] == '&' {
            Some((Token::AndIf, i + 2))
        } else {
            Some((Token::Ampersand, i + 1))
        }
    } else if c == ';' {
        Some((Token::Semicolon, i + 1))
    } else if c == '{' && is_standalone_brace(s, i) {
        Some((Token::LBrace, i + 1))
    } else if c == '(' {
        Some((Token::LParen, i + 1))
    } else if c == '}' && is_standalone_brace(s, i) {
        Some((Token::RBrace, i + 1))
    } else if c == ')' {
        Some((Token::RParen, i + 1))
    } else if c == '>' {
        if two && s[i + 1] == '>' {
            Some((Token::RedirectAppend, i + 2))
        } else {
            Some((Token::RedirectOut, i + 1))
        }
    } else if c == '<' {
        if two && s[i + 1] == '<' {
            Some((Token::RedirectHeredoc, i + 2))
        } else {
            Some((Token::RedirectIn, i + 1))
        }
    } else {
        None
    }
}

/// Splits `s` into tokens.
pub fn tokenize_chars(s: &Vec<char>) -> (r: Result<Vec<Token>, LexError>)
    ensures
        match r {
            Ok(toks) => spec_tokenize(s@) == Ok::<Seq<TokenV>, LexError>(tokens_view(toks@)),
            Err(e) => spec_tokenize(s@) == Err::<Seq<TokenV>, LexError>(e),
        },
{
    let mut toks: Vec<Token> = Vec::new();
    let mut i: usize = 0;
    assert(tokens_view(toks@) =~= Seq::<TokenV>::empty());
    while i < s.len()
        invariant
            0 <= i <= s@.len(),
            tokens_from(s@, i as int, tokens_view(toks@)) == spec_tokenize(s@),
        decreases s@.len() - i,
    {
        let c = s[i];
        if is_whitespace(c) {
            i += 1;
            continue;
        }
        match read_operator(s, i) {
            Some((t, j)) => {
                proof {
                    lemma_tokens_push(toks@, t);
                }
                toks.push(t);
                i = j;
                continue;
            },
            None => {},
        }
        let j = scan_digits_end(s, i);
        proof {
            lemma_digits_end(s@, i as int);
        }
        let digit = is_ascii_digit(c);
        if digit && i < j && j < s.len() && (s[j] == '>' || s[j] == '<') {
            match digits_u8(s, i, j) {
                Some(v) => {
                    let t = Token::IoNumber(v);
                    proof {
                        lemma_tokens_push(toks@, t);
                    }
                    toks.push(t);
                    i = j;
                    continue;
                },
                None => {
                    return Err(LexError::InvalidFileDescriptor);
                },
            }
        }
        let start = if digit {
            j
        } else {
            i
        };
        let mut prefix: Vec<char> = Vec::new();
        push_range(&mut prefix, s, i, start);
        assert(prefix@ =~= s@.subrange(i as int, start as int));
        match read_word_with_literal(s, start, prefix) {
            Err(e) => {
                return Err(e);
            },
            Ok((segs, k)) => {
                proof {
                    if !digit {
                        assert(!is_word_break(s@[i as int]));
                    }
                }
                if segs.len() > 0 {
                    let t = Token::Word(Word::new(segs));
                    proof {
                        lemma_tokens_push(toks@, t);
                    }
                    toks.push(t);
                }
                i = k;
            },
        }
    }
    Ok(toks)
}

pub proof fn lemma_digits_end(s: Seq<char>, i: int)
    requires
        0 <= i <= s.len(),
    ensures
        i <= digits_end(s, i) <= s.len(),
        forall|k: int| i <= k < digits_end(s, i) ==> is_digit(#[trigger] s[k]),
    decreases s.len() - i,
{
    if 0 <= i < s.len() && is_digit(s[i]) {
        lemma_digits_end(s, i + 1);
    }
}

#[derive(Debug, Default)]
pub struct Lexer;

impl Lexer {
    /// Splits the characters `s` into tokens.
    pub fn tokenize_source(&self, s: &Vec<char>) -> (r: Result<Vec<Token>, LexError>)
        ensures
            match r {
                Ok(toks) => spec_tokenize(s@) == Ok::<Seq<TokenV>, LexError>(tokens_view(toks@)),
                Err(e) => spec_tokenize(s@) == Err::<Seq<TokenV>, LexError>(e),
            },
    {
        tokenize_chars(s)
    }

    /// Splits `input` into tokens, or reports the first unfinished quote,
    /// escape or substitution, or a descriptor number above 255.
    pub fn tokenize(&self, input: &str) -> (r: ShellResult<Vec<Token>>)
        ensures
            match r {
                Ok(toks) => spec_tokenize(input@) == Ok::<Seq<TokenV>, LexError>(tokens_view(toks@)),
                Err(ShellError::Message(m)) => exists|e: LexError|
                    spec_tokenize(input@) == Err::<Seq<TokenV>, LexError>(e) && m@ == lex_message(e),
                Err(ShellError::Io(_)) => false,
            },
    {
        let chars = chars_of(input);
        match self.tokenize_source(&chars) {
            Ok(toks) => Ok(toks),
            Err(e) => Err(ShellError::Message(e.message())),
        }
    }
}

} // verus!
