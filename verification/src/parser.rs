//! Builds the syntax tree from tokens: sequences of boolean chains of
//! pipelines of commands, with heredoc bodies taken from the lines that
//! follow the command.
use vstd::prelude::*;

use crate::ast::{
    assignments_view, redirections_view, words_view, BoolOp, CommandNode, ExprV, KindV, NodeV,
    RedirV, Redirection, RedirectionKind, ShellExpr, SimpleCommand, SimpleV,
};
use crate::expand::{spec_split_assignment, SegV, Word};
use crate::lexer::{
    lex_message, push_range, spec_tokenize, tokenize_chars, tokens_view, LexError, Lexer, Token, TokenV,
};
use crate::heredoc::{collect_heredoc_bodies, has_heredocs, heredocs_in, spec_collect_heredocs};
use crate::text::{chars_of, contains_char, string_from_chars, string_from_str};

verus! {

broadcast use vstd::string::group_string_axioms;

#[derive(Debug, PartialEq, Eq)]
pub enum ParsedCommand {
    Empty,
    Expr(ShellExpr),
}

#[derive(Debug, Clone, Copy, PartialEq, Eq, Structural)]
pub enum ParseErrorKind {
    /// The input can never parse.
    Invalid,
    /// The input is the start of something that more lines could complete.
    Incomplete,
}

#[derive(Debug, Clone, PartialEq, Eq)]
pub struct ParseError {
    pub kind: ParseErrorKind,
    pub message: String,
}

/// The value of a parse error.
pub struct PErr {
    pub kind: ParseErrorKind,
    pub msg: Seq<char>,
}

pub enum ParsedV {
    Empty,
    Expr(ExprV),
}

impl ParsedCommand {
    pub open spec fn view(&self) -> ParsedV {
        match self {
            ParsedCommand::Empty => ParsedV::Empty,
            ParsedCommand::Expr(e) => ParsedV::Expr(e.view()),
        }
    }
}

impl ParseError {
    pub open spec fn view(&self) -> PErr {
        PErr { kind: self.kind, msg: self.message@ }
    }

    pub fn invalid(message: String) -> (r: Self)
        ensures
            r.kind == ParseErrorKind::Invalid,
            r.message@ == message@,
    {
        ParseError { kind: ParseErrorKind::Invalid, message }
    }

    pub fn incomplete(message: String) -> (r: Self)
        ensures
            r.kind == ParseErrorKind::Incomplete,
            r.message@ == message@,
    {
        ParseError { kind: ParseErrorKind::Incomplete, message }
    }
}

pub open spec fn invalid(msg: Seq<char>) -> PErr {
    PErr { kind: ParseErrorKind::Invalid, msg }
}

pub open spec fn incomplete(msg: Seq<char>) -> PErr {
    PErr { kind: ParseErrorKind::Incomplete, msg }
}

/// The `{:?}` text of a token, or of its absence, as `Option` prints it.
pub uninterp spec fn token_debug(t: Option<TokenV>) -> Seq<char>;

/// `format!("{:?}", t)`: the derived `Debug` text of an optional token.
#[verifier::external_body]
fn debug_token(t: Option<&Token>) -> (r: String)
    ensures
        r@ == token_debug(
            match t {
                Some(x) => Some(x@),
                None => None,
            },
        ),
{
    format!("{:?}", t)
}

pub type PRes<T> = Result<(T, int), PErr>;

pub open spec fn is_redirect_token(t: TokenV) -> bool {
    t is IoNumber || t is RedirectIn || t is RedirectHeredoc || t is RedirectOut
        || t is RedirectAppend
}

/// A redirection starting at `j`.
pub open spec fn p_redirection(t: Seq<TokenV>, j: int) -> PRes<RedirV> {
    let (fd, k) = if 0 <= j < t.len() && t[j] is IoNumber {
        (Some(t[j]->IoNumber_0 as u32), j + 1)
    } else {
        (None, j)
    };
    let op = if 0 <= k < t.len() {
        Some(t[k])
    } else {
        None
    };
    let kind = match op {
        Some(TokenV::RedirectIn) => Some(KindV::Input),
        Some(TokenV::RedirectHeredoc) => Some(KindV::HereDoc { body: Seq::empty(), expand: true }),
        Some(TokenV::RedirectOut) => Some(KindV::OutputTruncate),
        Some(TokenV::RedirectAppend) => Some(KindV::OutputAppend),
        _ => None,
    };
    match kind {
        None => Err(invalid("expected redirection operator, found "@ + token_debug(op))),
        Some(kind) => if k + 1 >= t.len() {
            Err(incomplete("redirection missing target"@))
        } else {
            match t[k + 1] {
                TokenV::Word(w) => Ok((RedirV { fd, kind, target: w }, k + 2)),
                other => Err(
                    invalid("redirection target must be a word, found "@ + token_debug(Some(other))),
                ),
            }
        },
    }
}

/// The rest of a simple command from `j`, after what has been read.
pub open spec fn p_simple_from(t: Seq<TokenV>, j: int, acc: SimpleV) -> PRes<NodeV>
    decreases t.len() - j,
{
    if 0 <= j < t.len() && t[j] is Word {
        let w = t[j]->Word_0;
        if acc.argv.len() == 0 && spec_split_assignment(w) is Some {
            p_simple_from(
                t,
                j + 1,
                SimpleV { assignments: acc.assignments.push(spec_split_assignment(w).unwrap()), ..acc },
            )
        } else {
            p_simple_from(t, j + 1, SimpleV { argv: acc.argv.push(w), ..acc })
        }
    } else if 0 <= j < t.len() && is_redirect_token(t[j]) {
        match p_redirection(t, j) {
            Err(e) => Err(e),
            Ok((r, m)) => if j < m <= t.len() {
                p_simple_from(t, m, SimpleV { redirections: acc.redirections.push(r), ..acc })
            } else {
                Err(invalid("expected simple command"@))
            },
        }
    } else if acc.assignments.len() == 0 && acc.argv.len() == 0 && acc.redirections.len() == 0 {
        Err(invalid("expected simple command"@))
    } else {
        Ok((NodeV::Simple(acc), j))
    }
}

pub open spec fn empty_simple() -> SimpleV {
    SimpleV { assignments: Seq::empty(), argv: Seq::empty(), redirections: Seq::empty() }
}

/// A command at `i`: a parenthesized group or a simple command.
pub open spec fn p_command(t: Seq<TokenV>, i: int) -> PRes<NodeV>
    decreases t.len() - i, 1nat,
{
    if i < 0 || i >= t.len() {
        Err(incomplete("expected command"@))
    } else if t[i] is LParen {
        if i + 1 >= t.len() {
            Err(incomplete("unclosed subshell"@))
        } else {
            match p_sequence(t, i + 1) {
                Err(e) => Err(e),
                Ok((e, j)) => if !(i + 1 < j <= t.len()) {
                    Err(incomplete("unclosed subshell"@))
                } else if j >= t.len() {
                    Err(incomplete("unclosed subshell"@))
                } else if t[j] is RParen {
                    Ok((NodeV::Subshell(Box::new(e)), j + 1))
                } else {
                    Err(invalid("expected ')' but found "@ + token_debug(Some(t[j]))))
                },
            }
        }
    } else if t[i] is Word || is_redirect_token(t[i]) {
        p_simple_from(t, i, empty_simple())
    } else if t[i] is RParen {
        Err(invalid("unexpected ')'"@))
    } else {
        Err(invalid("expected command"@))
    }
}

/// The expression for the commands of a pipeline.
pub open spec fn pipeline_expr(cmds: Seq<NodeV>) -> ExprV {
    if cmds.len() == 1 {
        ExprV::Command(cmds[0])
    } else {
        ExprV::Pipeline(cmds)
    }
}

/// The rest of a pipeline from `j`, after the commands `cmds`.
pub open spec fn p_pipe_rest(t: Seq<TokenV>, j: int, cmds: Seq<NodeV>) -> PRes<ExprV>
    decreases t.len() - j, 3nat,
{
    if 0 <= j < t.len() && t[j] is Pipe {
        if j + 1 >= t.len() {
            Err(incomplete("trailing '|' requires another command"@))
        } else {
            match p_command(t, j + 1) {
                Err(e) => Err(e),
                Ok((c, m)) => if j + 1 < m <= t.len() {
                    p_pipe_rest(t, m, cmds.push(c))
                } else {
                    Err(invalid("expected command"@))
                },
            }
        }
    } else {
        Ok((pipeline_expr(cmds), j))
    }
}

pub open spec fn p_pipeline(t: Seq<TokenV>, i: int) -> PRes<ExprV>
    decreases t.len() - i, 2nat,
{
    match p_command(t, i) {
        Err(e) => Err(e),
        Ok((c, j)) => if i < j <= t.len() {
            p_pipe_rest(t, j, seq![c])
        } else {
            Err(invalid("expected command"@))
        },
    }
}

/// The command that a word which is no assignment makes on its own.
pub open spec fn word_command(w: Seq<SegV>) -> NodeV {
    NodeV::Simple(SimpleV { assignments: Seq::empty(), argv: seq![w], redirections: Seq::empty() })
}

/// The commands of the words before position `j`.
pub open spec fn word_commands(words: Seq<Seq<SegV>>, j: int) -> Seq<NodeV> {
    words.subrange(0, j).map_values(|w: Seq<SegV>| word_command(w))
}

proof fn lemma_word_stage(t: Seq<TokenV>, words: Seq<Seq<SegV>>, k: int)
    requires
        words.len() >= 1,
        t.len() == 2 * words.len() - 1,
        forall|i: int| 0 <= i < words.len() ==> t[2 * i] == TokenV::Word(#[trigger] words[i]),
        forall|i: int| 0 <= i < words.len() - 1 ==> (#[trigger] t[2 * i + 1]) is Pipe,
        forall|i: int| 0 <= i < words.len() ==> spec_split_assignment(#[trigger] words[i]) is None,
        0 <= k < words.len(),
    ensures
        p_command(t, 2 * k) == Ok::<(NodeV, int), PErr>((word_command(words[k]), 2 * k + 1)),
{
    let w = words[k];
    assert(t[2 * k] == TokenV::Word(w));
    let acc = SimpleV { argv: empty_simple().argv.push(w), ..empty_simple() };
    assert(acc.argv =~= seq![w]);
    if 2 * k + 1 < t.len() {
        assert(t[2 * k + 1] is Pipe);
    }
    assert(p_simple_from(t, 2 * k + 1, acc) == Ok::<(NodeV, int), PErr>((NodeV::Simple(acc), 2 * k + 1)));
    assert(p_simple_from(t, 2 * k, empty_simple()) == p_simple_from(t, 2 * k + 1, acc));
    assert(NodeV::Simple(acc) == word_command(w));
}

proof fn lemma_pipe_stages(t: Seq<TokenV>, words: Seq<Seq<SegV>>, k: int)
    requires
        words.len() >= 2,
        t.len() == 2 * words.len() - 1,
        forall|i: int| 0 <= i < words.len() ==> t[2 * i] == TokenV::Word(#[trigger] words[i]),
        forall|i: int| 0 <= i < words.len() - 1 ==> (#[trigger] t[2 * i + 1]) is Pipe,
        forall|i: int| 0 <= i < words.len() ==> spec_split_assignment(#[trigger] words[i]) is None,
        0 <= k < words.len(),
    ensures
        p_pipe_rest(t, 2 * k + 1, word_commands(words, k + 1)) == Ok::<(ExprV, int), PErr>(
            (ExprV::Pipeline(word_commands(words, words.len() as int)), t.len() as int),
        ),
    decreases words.len() - k,
{
    if k + 1 < words.len() {
        assert(t[2 * k + 1] is Pipe);
        lemma_word_stage(t, words, k + 1);
        lemma_pipe_stages(t, words, k + 1);
        assert(word_commands(words, k + 1).push(word_command(words[k + 1])) =~= word_commands(
            words,
            k + 2,
        ));
    } else {
        assert(words.subrange(0, k + 1) =~= words.subrange(0, words.len() as int));
    }
}

/// Words joined by `|` make one pipeline with a command for every word, in
/// the order written, and nothing of the line is left over.
pub proof fn law_pipeline_keeps_every_stage(t: Seq<TokenV>, words: Seq<Seq<SegV>>)
    requires
        words.len() >= 2,
        t.len() == 2 * words.len() - 1,
        forall|i: int| 0 <= i < words.len() ==> t[2 * i] == TokenV::Word(#[trigger] words[i]),
        forall|i: int| 0 <= i < words.len() - 1 ==> (#[trigger] t[2 * i + 1]) is Pipe,
        forall|i: int| 0 <= i < words.len() ==> spec_split_assignment(#[trigger] words[i]) is None,
    ensures
        p_pipeline(t, 0) matches Ok((ExprV::Pipeline(cmds), end)) && end == t.len() && cmds.len()
            == words.len() && forall|i: int|
            0 <= i < words.len() ==> #[trigger] cmds[i] == word_command(words[i]),
{
    lemma_word_stage(t, words, 0);
    lemma_pipe_stages(t, words, 0);
    assert(word_commands(words, 1) =~= seq![word_command(words[0])]);
}

/// The expression for a boolean chain.
pub open spec fn chain_expr(first: ExprV, rest: Seq<(BoolOp, ExprV)>) -> ExprV {
    if rest.len() == 0 {
        first
    } else {
        ExprV::BooleanChain { first: Box::new(first), rest }
    }
}

pub open spec fn p_bool_rest(t: Seq<TokenV>, j: int, first: ExprV, rest: Seq<(BoolOp, ExprV)>) -> PRes<
    ExprV,
>
    decreases t.len() - j, 5nat,
{
    if 0 <= j < t.len() && (t[j] is AndIf || t[j] is OrIf) {
        let op = if t[j] is AndIf {
            BoolOp::And
        } else {
            BoolOp::Or
        };
        if j + 1 >= t.len() {
            Err(incomplete("boolean operator requires another command"@))
        } else {
            match p_pipeline(t, j + 1) {
                Err(e) => Err(e),
                Ok((rhs, m)) => if j + 1 < m <= t.len() {
                    p_bool_rest(t, m, first, rest.push((op, rhs)))
                } else {
                    Err(invalid("expected command"@))
                },
            }
        }
    } else {
        Ok((chain_expr(first, rest), j))
    }
}

pub open spec fn p_bool(t: Seq<TokenV>, i: int) -> PRes<ExprV>
    decreases t.len() - i, 4nat,
{
    match p_pipeline(t, i) {
        Err(e) => Err(e),
        Ok((first, j)) => if i < j <= t.len() {
            p_bool_rest(t, j, first, Seq::empty())
        } else {
            Err(invalid("expected command"@))
        },
    }
}

/// The expression for the members of a sequence.
pub open spec fn sequence_expr(exprs: Seq<ExprV>) -> ExprV {
    if exprs.len() == 1 {
        exprs[0]
    } else {
        ExprV::Sequence(exprs)
    }
}

pub open spec fn p_seq_rest(t: Seq<TokenV>, j: int, exprs: Seq<ExprV>) -> PRes<ExprV>
    decreases t.len() - j, 7nat,
{
    if 0 <= j < t.len() && t[j] is Semicolon {
        if j + 1 >= t.len() {
            Err(incomplete("trailing ';' requires another command"@))
        } else {
            match p_bool(t, j + 1) {
                Err(e) => Err(e),
                Ok((e, m)) => if j + 1 < m <= t.len() {
                    p_seq_rest(t, m, exprs.push(e))
                } else {
                    Err(invalid("expected command"@))
                },
            }
        }
    } else {
        Ok((sequence_expr(exprs), j))
    }
}

/// A sequence of boolean chains separated by `;`, starting at `i`.
pub open spec fn p_sequence(t: Seq<TokenV>, i: int) -> PRes<ExprV>
    decreases t.len() - i, 6nat,
{
    match p_bool(t, i) {
        Err(e) => Err(e),
        Ok((first, j)) => if i < j <= t.len() {
            p_seq_rest(t, j, seq![first])
        } else {
            Err(invalid("expected command"@))
        },
    }
}

/// The command that a whole token list forms.
pub open spec fn spec_parse_tokens(t: Seq<TokenV>) -> Result<ParsedV, PErr> {
    if t.len() == 0 {
        Ok(ParsedV::Empty)
    } else {
        match p_sequence(t, 0) {
            Err(e) => Err(e),
            Ok((e, j)) => if j < t.len() {
                Err(invalid("unexpected trailing token: "@ + token_debug(Some(t[j]))))
            } else {
                Ok(ParsedV::Expr(e))
            },
        }
    }
}

pub open spec fn nodes_view(v: Seq<CommandNode>) -> Seq<NodeV> {
    Seq::new(v.len(), |k: int| v[k].view())
}

pub open spec fn exprs_view(v: Seq<ShellExpr>) -> Seq<ExprV> {
    Seq::new(v.len(), |k: int| v[k].view())
}

pub open spec fn rest_view(v: Seq<(BoolOp, ShellExpr)>) -> Seq<(BoolOp, ExprV)> {
    Seq::new(v.len(), |k: int| (v[k].0, v[k].1.view()))
}

pub proof fn lemma_pipeline_view(v: Vec<CommandNode>)
    ensures
        ShellExpr::Pipeline(v).view() == ExprV::Pipeline(nodes_view(v@)),
{
    assert(ShellExpr::Pipeline(v).view()->Pipeline_0 =~= nodes_view(v@));
}

pub proof fn lemma_sequence_view(v: Vec<ShellExpr>)
    ensures
        ShellExpr::Sequence(v).view() == ExprV::Sequence(exprs_view(v@)),
{
    assert(ShellExpr::Sequence(v).view()->Sequence_0 =~= exprs_view(v@));
}

pub proof fn lemma_chain_view(f: ShellExpr, v: Vec<(BoolOp, ShellExpr)>)
    ensures
        (ShellExpr::BooleanChain { first: Box::new(f), rest: v }).view() == (ExprV::BooleanChain {
            first: Box::new(f.view()),
            rest: rest_view(v@),
        }),
{
    assert((ShellExpr::BooleanChain { first: Box::new(f), rest: v }).view()->rest =~= rest_view(v@));
}

/// `a` followed by `b`.
pub fn concat_string(a: &str, b: String) -> (r: String)
    ensures
        r@ == a@ + b@,
{
    let mut x = chars_of(a);
    let y = chars_of(b.as_str());
    let ghost x0 = x@;
    let mut i: usize = 0;
    while i < y.len()
        invariant
            0 <= i <= y@.len(),
            x@ == x0 + y@.subrange(0, i as int),
        decreases y@.len() - i,
    {
        x.push(y[i]);
        i += 1;
        assert(x@ =~= x0 + y@.subrange(0, i as int));
    }
    assert(y@.subrange(0, y@.len() as int) =~= y@);
    string_from_chars(x.as_slice())
}

fn invalid_error(msg: &str) -> (r: ParseError)
    ensures
        r.view() == invalid(msg@),
{
    ParseError { kind: ParseErrorKind::Invalid, message: string_from_str(msg) }
}

fn incomplete_error(msg: &str) -> (r: ParseError)
    ensures
        r.view() == incomplete(msg@),
{
    ParseError { kind: ParseErrorKind::Incomplete, message: string_from_str(msg) }
}

fn is_redirect(t: &Token) -> (b: bool)
    ensures
        b == is_redirect_token(t@),
{
    match t {
        Token::IoNumber(_) | Token::RedirectIn | Token::RedirectHeredoc | Token::RedirectOut
        | Token::RedirectAppend => true,
        _ => false,
    }
}

fn parse_redirection(toks: &Vec<Token>, j: usize) -> (r: Result<(Redirection, usize), ParseError>)
    requires
        j <= toks@.len(),
    ensures
        match r {
            Ok((red, m)) => p_redirection(tokens_view(toks@), j as int) == Ok::<(RedirV, int), PErr>(
                (red.view(), m as int),
            ) && j < m <= toks@.len(),
            Err(e) => p_redirection(tokens_view(toks@), j as int) == Err::<(RedirV, int), PErr>(
                e.view(),
            ),
        },
{
    let ghost tv = tokens_view(toks@);
    let len = toks.len();
    let mut fd: Option<u32> = None;
    let mut k = j;
    if j < len {
        if let Token::IoNumber(n) = &toks[j] {
            fd = Some(*n as u32);
            k = j + 1;
        }
    }
    let kind = if k < len {
        match &toks[k] {
            Token::RedirectIn => RedirectionKind::Input,
            Token::RedirectHeredoc => RedirectionKind::HereDoc { body: String::new(), expand: true },
            Token::RedirectOut => RedirectionKind::OutputTruncate,
            Token::RedirectAppend => RedirectionKind::OutputAppend,
            other => {
                let d = debug_token(Some(other));
                return Err(
                    ParseError {
                        kind: ParseErrorKind::Invalid,
                        message: concat_string("expected redirection operator, found ", d),
                    },
                );
            },
        }
    } else {
        let d = debug_token(None);
        return Err(
            ParseError {
                kind: ParseErrorKind::Invalid,
                message: concat_string("expected redirection operator, found ", d),
            },
        );
    };
    if k + 1 >= len {
        return Err(incomplete_error("redirection missing target"));
    }
    match &toks[k + 1] {
        Token::Word(w) => {
            let red = Redirection { fd, kind, target: w.clone() };
            Ok((red, k + 2))
        },
        other => {
            let d = debug_token(Some(other));
            Err(
                ParseError {
                    kind: ParseErrorKind::Invalid,
                    message: concat_string("redirection target must be a word, found ", d),
                },
            )
        },
    }
}

fn parse_simple_command(toks: &Vec<Token>, i: usize) -> (r: Result<(CommandNode, usize), ParseError>)
    requires
        i <= toks@.len(),
    ensures
        match r {
            Ok((node, m)) => p_simple_from(tokens_view(toks@), i as int, empty_simple()) == Ok::<
                (NodeV, int),
                PErr,
            >((node.view(), m as int)) && i <= m <= toks@.len(),
            Err(e) => p_simple_from(tokens_view(toks@), i as int, empty_simple()) == Err::<
                (NodeV, int),
                PErr,
            >(e.view()),
        },
{
    let ghost tv = tokens_view(toks@);
    let mut assignments: Vec<(String, Word)> = Vec::new();
    let mut argv: Vec<Word> = Vec::new();
    let mut redirections: Vec<Redirection> = Vec::new();
    let mut j = i;
    proof {
        assert(assignments_view(assignments@) =~= Seq::<(Seq<char>, Seq<SegV>)>::empty());
        assert(words_view(argv@) =~= Seq::<Seq<SegV>>::empty());
        assert(redirections_view(redirections@) =~= Seq::<RedirV>::empty());
    }
    loop
        invariant
            i <= j <= toks@.len(),
            tv == tokens_view(toks@),
            p_simple_from(
                tv,
                j as int,
                SimpleV {
                    assignments: assignments_view(assignments@),
                    argv: words_view(argv@),
                    redirections: redirections_view(redirections@),
                },
            ) == p_simple_from(tv, i as int, empty_simple()),
        decreases toks@.len() - j,
    {
        let ghost acc = SimpleV {
            assignments: assignments_view(assignments@),
            argv: words_view(argv@),
            redirections: redirections_view(redirections@),
        };
        if j < toks.len() {
            match &toks[j] {
                Token::Word(w) => {
                    let mut taken = false;
                    if argv.len() == 0 {
                        match w.split_assignment() {
                            Some((name, value)) => {
                                let ghost before = assignments@;
                                assignments.push((name, value));
                                assert(assignments_view(assignments@) =~= assignments_view(before).push((name@, value@)));
                                taken = true;
                            },
                            None => {},
                        }
                    }
                    if !taken {
                        let ghost before = argv@;
                        let wc = w.clone();
                        argv.push(wc);
                        assert(words_view(argv@) =~= words_view(before).push(w@));
                    }
                    j += 1;
                    continue;
                },
                other => {
                    if is_redirect(other) {
                        match parse_redirection(toks, j) {
                            Err(e) => {
                                return Err(e);
                            },
                            Ok((red, m)) => {
                                let ghost before = redirections@;
                                redirections.push(red);
                                assert(redirections_view(redirections@) =~= redirections_view(before).push(red.view()));
                                j = m;
                                continue;
                            },
                        }
                    }
                },
            }
        }
        if assignments.len() == 0 && argv.len() == 0 && redirections.len() == 0 {
            return Err(invalid_error("expected simple command"));
        }
        let simple = SimpleCommand { assignments, argv, redirections };
        return Ok((CommandNode::Simple(simple), j));
    }
}

fn parse_command(toks: &Vec<Token>, i: usize) -> (r: Result<(CommandNode, usize), ParseError>)
    requires
        i <= toks@.len(),
    ensures
        match r {
            Ok((node, m)) => p_command(tokens_view(toks@), i as int) == Ok::<(NodeV, int), PErr>(
                (node.view(), m as int),
            ) && i < m <= toks@.len(),
            Err(e) => p_command(tokens_view(toks@), i as int) == Err::<(NodeV, int), PErr>(e.view()),
        },
    decreases toks@.len() - i, 1nat,
{
    let ghost tv = tokens_view(toks@);
    let len = toks.len();
    if i >= len {
        return Err(incomplete_error("expected command"));
    }
    match &toks[i] {
        Token::LParen => {
            if i + 1 >= len {
                return Err(incomplete_error("unclosed subshell"));
            }
            match parse_sequence(toks, i + 1) {
                Err(e) => Err(e),
                Ok((e, j)) => {
                    if j >= len {
                        return Err(incomplete_error("unclosed subshell"));
                    }
                    match &toks[j] {
                        Token::RParen => Ok((CommandNode::Subshell(Box::new(e)), j + 1)),
                        other => {
                            let d = debug_token(Some(other));
                            Err(
                                ParseError {
                                    kind: ParseErrorKind::Invalid,
                                    message: concat_string("expected ')' but found ", d),
                                },
                            )
                        },
                    }
                },
            }
        },
        Token::RParen => Err(invalid_error("unexpected ')'")),
        other => {
            if let Token::Word(_) = other {
                let r = parse_simple_command(toks, i);
                proof {
                    if r is Ok {
                        lemma_simple_advances(tv, i as int);
                    }
                }
                r
            } else if is_redirect(other) {
                let r = parse_simple_command(toks, i);
                proof {
                    if r is Ok {
                        lemma_simple_advances(tv, i as int);
                    }
                }
                r
            } else {
                Err(invalid_error("expected command"))
            }
        },
    }
}

/// A simple command that starts with a word or a redirection consumes it.
pub proof fn lemma_simple_advances(t: Seq<TokenV>, i: int)
    requires
        0 <= i < t.len(),
        t[i] is Word || is_redirect_token(t[i]),
        p_simple_from(t, i, empty_simple()) is Ok,
    ensures
        p_simple_from(t, i, empty_simple())->Ok_0.1 > i,
{
    if t[i] is Word {
        let w = t[i]->Word_0;
        let acc = empty_simple();
        let acc2 = if acc.argv.len() == 0 && spec_split_assignment(w) is Some {
            SimpleV { assignments: acc.assignments.push(spec_split_assignment(w).unwrap()), ..acc }
        } else {
            SimpleV { argv: acc.argv.push(w), ..acc }
        };
        lemma_simple_from_monotone(t, i + 1, acc2);
    } else {
        match p_redirection(t, i) {
            Err(e) => {},
            Ok((r, m)) => {
                if i < m <= t.len() {
                    lemma_simple_from_monotone(
                        t,
                        m,
                        SimpleV { redirections: empty_simple().redirections.push(r), ..empty_simple() },
                    );
                }
            },
        }
    }
}

pub proof fn lemma_simple_from_monotone(t: Seq<TokenV>, j: int, acc: SimpleV)
    requires
        0 <= j,
    ensures
        p_simple_from(t, j, acc) is Ok ==> p_simple_from(t, j, acc)->Ok_0.1 >= j,
    decreases t.len() - j,
{
    if 0 <= j < t.len() && t[j] is Word {
        let w = t[j]->Word_0;
        if acc.argv.len() == 0 && spec_split_assignment(w) is Some {
            lemma_simple_from_monotone(
                t,
                j + 1,
                SimpleV { assignments: acc.assignments.push(spec_split_assignment(w).unwrap()), ..acc },
            );
        } else {
            lemma_simple_from_monotone(t, j + 1, SimpleV { argv: acc.argv.push(w), ..acc });
        }
    } else if 0 <= j < t.len() && is_redirect_token(t[j]) {
        match p_redirection(t, j) {
            Err(e) => {},
            Ok((r, m)) => {
                if j < m <= t.len() {
                    lemma_simple_from_monotone(t, m, SimpleV { redirections: acc.redirections.push(r), ..acc });
                }
            },
        }
    }
}

fn parse_pipeline(toks: &Vec<Token>, i: usize) -> (r: Result<(ShellExpr, usize), ParseError>)
    requires
        i <= toks@.len(),
    ensures
        match r {
            Ok((e, m)) => p_pipeline(tokens_view(toks@), i as int) == Ok::<(ExprV, int), PErr>(
                (e.view(), m as int),
            ) && i < m <= toks@.len(),
            Err(e) => p_pipeline(tokens_view(toks@), i as int) == Err::<(ExprV, int), PErr>(e.view()),
        },
    decreases toks@.len() - i, 2nat,
{
    let ghost tv = tokens_view(toks@);
    let (first, mut j) = match parse_command(toks, i) {
        Err(e) => {
            return Err(e);
        },
        Ok(x) => x,
    };
    let mut cmds: Vec<CommandNode> = Vec::new();
    cmds.push(first);
    assert(nodes_view(cmds@) =~= seq![first.view()]);
    loop
        invariant
            i < j <= toks@.len(),
            cmds@.len() >= 1,
            tv == tokens_view(toks@),
            p_pipe_rest(tv, j as int, nodes_view(cmds@)) == p_pipeline(tv, i as int),
        ensures
            i < j <= toks@.len(),
            cmds@.len() >= 1,
            p_pipe_rest(tv, j as int, nodes_view(cmds@)) == p_pipeline(tv, i as int),
            !(j < toks@.len() && tv[j as int] is Pipe),
        decreases toks@.len() - j,
    {
        let is_pipe = j < toks.len() && matches!(toks[j], Token::Pipe);
        if !is_pipe {
            break;
        }
        if j + 1 >= toks.len() {
            return Err(incomplete_error("trailing '|' requires another command"));
        }
        match parse_command(toks, j + 1) {
            Err(e) => {
                return Err(e);
            },
            Ok((c, m)) => {
                let ghost before = cmds@;
                cmds.push(c);
                assert(nodes_view(cmds@) =~= nodes_view(before).push(c.view()));
                j = m;
            },
        }
    }
    if cmds.len() == 1 {
        let c = cmds.remove(0);
        Ok((ShellExpr::Command(c), j))
    } else {
        proof {
            lemma_pipeline_view(cmds);
        }
        Ok((ShellExpr::Pipeline(cmds), j))
    }
}

fn parse_boolean_chain(toks: &Vec<Token>, i: usize) -> (r: Result<(ShellExpr, usize), ParseError>)
    requires
        i <= toks@.len(),
    ensures
        match r {
            Ok((e, m)) => p_bool(tokens_view(toks@), i as int) == Ok::<(ExprV, int), PErr>(
                (e.view(), m as int),
            ) && i < m <= toks@.len(),
            Err(e) => p_bool(tokens_view(toks@), i as int) == Err::<(ExprV, int), PErr>(e.view()),
        },
    decreases toks@.len() - i, 4nat,
{
    let ghost tv = tokens_view(toks@);
    let (first, mut j) = match parse_pipeline(toks, i) {
        Err(e) => {
            return Err(e);
        },
        Ok(x) => x,
    };
    let mut rest: Vec<(BoolOp, ShellExpr)> = Vec::new();
    assert(rest_view(rest@) =~= Seq::<(BoolOp, ExprV)>::empty());
    loop
        invariant
            i < j <= toks@.len(),
            tv == tokens_view(toks@),
            p_bool_rest(tv, j as int, first.view(), rest_view(rest@)) == p_bool(tv, i as int),
        ensures
            i < j <= toks@.len(),
            p_bool_rest(tv, j as int, first.view(), rest_view(rest@)) == p_bool(tv, i as int),
            !(j < toks@.len() && (tv[j as int] is AndIf || tv[j as int] is OrIf)),
        decreases toks@.len() - j,
    {
        let op = if j < toks.len() {
            match &toks[j] {
                Token::AndIf => Some(BoolOp::And),
                Token::OrIf => Some(BoolOp::Or),
                _ => None,
            }
        } else {
            None
        };
        let op = match op {
            None => {
                break;
            },
            Some(op) => op,
        };
        if j + 1 >= toks.len() {
            return Err(incomplete_error("boolean operator requires another command"));
        }
        match parse_pipeline(toks, j + 1) {
            Err(e) => {
                return Err(e);
            },
            Ok((rhs, m)) => {
                let ghost before = rest@;
                let ghost rv = rhs.view();
                rest.push((op, rhs));
                assert(rest_view(rest@) =~= rest_view(before).push((op, rv)));
                j = m;
            },
        }
    }
    if rest.len() == 0 {
        Ok((first, j))
    } else {
        proof {
            lemma_chain_view(first, rest);
        }
        Ok((ShellExpr::BooleanChain { first: Box::new(first), rest }, j))
    }
}

fn parse_sequence(toks: &Vec<Token>, i: usize) -> (r: Result<(ShellExpr, usize), ParseError>)
    requires
        i <= toks@.len(),
    ensures
        match r {
            Ok((e, m)) => p_sequence(tokens_view(toks@), i as int) == Ok::<(ExprV, int), PErr>(
                (e.view(), m as int),
            ) && i < m <= toks@.len(),
            Err(e) => p_sequence(tokens_view(toks@), i as int) == Err::<(ExprV, int), PErr>(e.view()),
        },
    decreases toks@.len() - i, 6nat,
{
    let ghost tv = tokens_view(toks@);
    let (first, mut j) = match parse_boolean_chain(toks, i) {
        Err(e) => {
            return Err(e);
        },
        Ok(x) => x,
    };
    let mut exprs: Vec<ShellExpr> = Vec::new();
    exprs.push(first);
    assert(exprs_view(exprs@) =~= seq![first.view()]);
    loop
        invariant
            i < j <= toks@.len(),
            exprs@.len() >= 1,
            tv == tokens_view(toks@),
            p_seq_rest(tv, j as int, exprs_view(exprs@)) == p_sequence(tv, i as int),
        ensures
            i < j <= toks@.len(),
            exprs@.len() >= 1,
            p_seq_rest(tv, j as int, exprs_view(exprs@)) == p_sequence(tv, i as int),
            !(j < toks@.len() && tv[j as int] is Semicolon),
        decreases toks@.len() - j,
    {
        let is_semi = j < toks.len() && matches!(toks[j], Token::Semicolon);
        if !is_semi {
            break;
        }
        if j + 1 >= toks.len() {
            return Err(incomplete_error("trailing ';' requires another command"));
        }
        match parse_boolean_chain(toks, j + 1) {
            Err(e) => {
                return Err(e);
            },
            Ok((e, m)) => {
                let ghost before = exprs@;
                let ghost ev = e.view();
                exprs.push(e);
                assert(exprs_view(exprs@) =~= exprs_view(before).push(ev));
                j = m;
            },
        }
    }
    if exprs.len() == 1 {
        let e = exprs.remove(0);
        Ok((e, j))
    } else {
        proof {
            lemma_sequence_view(exprs);
        }
        Ok((ShellExpr::Sequence(exprs), j))
    }
}

/// The command that a whole token list forms.
pub fn parse_tokens(toks: &Vec<Token>) -> (r: Result<ParsedCommand, ParseError>)
    ensures
        match r {
            Ok(c) => spec_parse_tokens(tokens_view(toks@)) == Ok::<ParsedV, PErr>(c.view()),
            Err(e) => spec_parse_tokens(tokens_view(toks@)) == Err::<ParsedV, PErr>(e.view()),
        },
{
    if toks.len() == 0 {
        return Ok(ParsedCommand::Empty);
    }
    match parse_sequence(toks, 0) {
        Err(e) => Err(e),
        Ok((e, j)) => {
            if j < toks.len() {
                let d = debug_token(Some(&toks[j]));
                Err(
                    ParseError {
                        kind: ParseErrorKind::Invalid,
                        message: concat_string("unexpected trailing token: ", d),
                    },
                )
            } else {
                Ok(ParsedCommand::Expr(e))
            }
        },
    }
}

/// A lexer error as a parse error: an unfinished quote, escape or
/// substitution asks for more input; a bad descriptor number never parses.
pub open spec fn lex_error(e: LexError) -> PErr {
    PErr {
        kind: if e == LexError::InvalidFileDescriptor {
            ParseErrorKind::Invalid
        } else {
            ParseErrorKind::Incomplete
        },
        msg: lex_message(e),
    }
}

/// The command that the whole source `s` forms, heredoc bodies left empty.
pub open spec fn spec_parse_complete(s: Seq<char>) -> Result<ParsedV, PErr> {
    match spec_tokenize(s) {
        Err(e) => Err(lex_error(e)),
        Ok(t) => spec_parse_tokens(t),
    }
}

/// The position after the line that holds position `i`: after its `\n`,
/// or the end of `s`.
pub open spec fn line_end(s: Seq<char>, i: int) -> int
    decreases s.len() - i,
{
    if i < 0 || i >= s.len() {
        s.len() as int
    } else if s[i] == '\n' {
        i + 1
    } else {
        line_end(s, i + 1)
    }
}

pub proof fn lemma_line_end(s: Seq<char>, i: int)
    requires
        0 <= i < s.len(),
    ensures
        i < line_end(s, i) <= s.len(),
    decreases s.len() - i,
{
    if s[i] != '\n' {
        if i + 1 < s.len() {
            lemma_line_end(s, i + 1);
        } else {
            assert(line_end(s, i + 1) == s.len());
        }
    }
}

/// Whether `<<` starts at position `i` of `s`.
pub open spec fn heredoc_operator_at(s: Seq<char>, i: int) -> bool {
    0 <= i < s.len() - 1 && s[i] == '<' && s[i + 1] == '<'
}

/// Whether `s` holds the heredoc operator `<<`.
pub open spec fn has_heredoc_operator(s: Seq<char>) -> bool {
    exists|i: int| #[trigger] heredoc_operator_at(s, i)
}

/// The search for the first line at which the source read so far, ending
/// at `end`, is a complete command with heredocs; their bodies come from
/// the lines that follow it. `None` where no such command turns up.
pub open spec fn heredoc_scan(s: Seq<char>, end: int) -> Option<Result<ParsedV, PErr>>
    decreases s.len() - end,
{
    if 0 <= end < s.len() {
        let next = line_end(s, end);
        proof {
            lemma_line_end(s, end);
        }
        match spec_parse_complete(s.subrange(0, next)) {
            Err(x) => if x.kind == ParseErrorKind::Incomplete {
                heredoc_scan(s, next)
            } else {
                Some(Err(x))
            },
            Ok(c) => if heredocs_in(c) == 0 {
                heredoc_scan(s, next)
            } else {
                Some(spec_collect_heredocs(c, s.subrange(next, s.len() as int)))
            },
        }
    } else if s.len() > 0 {
        match spec_parse_complete(s) {
            Err(x) => Some(Err(x)),
            Ok(c) => if heredocs_in(c) > 0 {
                Some(spec_collect_heredocs(c, Seq::empty()))
            } else {
                None
            },
        }
    } else {
        None
    }
}

/// What the shell reads from one input source.
pub open spec fn spec_parse(s: Seq<char>) -> Result<ParsedV, PErr> {
    if s.contains('\0') {
        Err(invalid("input contains a null byte"@))
    } else if has_heredoc_operator(s) {
        match heredoc_scan(s, 0) {
            Some(r) => r,
            None => spec_parse_complete(s),
        }
    } else {
        spec_parse_complete(s)
    }
}

fn contains_heredoc_operator(s: &Vec<char>) -> (b: bool)
    ensures
        b == has_heredoc_operator(s@),
{
    let mut i: usize = 0;
    while i < s.len() && i + 1 < s.len()
        invariant
            0 <= i <= s@.len(),
            forall|k: int| 0 <= k < i ==> !#[trigger] heredoc_operator_at(s@, k),
        decreases s@.len() - i,
    {
        if s[i] == '<' && s[i + 1] == '<' {
            assert(heredoc_operator_at(s@, i as int));
            return true;
        }
        i += 1;
    }
    false
}

/// Reads shell source into a command.
#[derive(Debug, Default)]
pub struct Parser {
    lexer: Lexer,
}

impl Parser {
    pub fn new() -> (p: Parser) {
        Parser { lexer: Lexer }
    }

    /// Parses one input source: a command line, or a command with the
    /// heredoc bodies that follow it.
    pub fn parse(&self, input: &str) -> (r: Result<ParsedCommand, ParseError>)
        ensures
            match r {
                Ok(c) => spec_parse(input@) == Ok::<ParsedV, PErr>(c.view()),
                Err(e) => spec_parse(input@) == Err::<ParsedV, PErr>(e.view()),
            },
    {
        let s = chars_of(input);
        if contains_char(s.as_slice(), '\0') {
            return Err(invalid_error("input contains a null byte"));
        }
        if contains_heredoc_operator(&s) {
            match self.parse_with_heredocs(&s) {
                Err(e) => {
                    return Err(e);
                },
                Ok(Some(c)) => {
                    return Ok(c);
                },
                Ok(None) => {},
            }
        }
        self.parse_complete_source(&s)
    }

    fn parse_complete_source(&self, s: &Vec<char>) -> (r: Result<ParsedCommand, ParseError>)
        ensures
            match r {
                Ok(c) => spec_parse_complete(s@) == Ok::<ParsedV, PErr>(c.view()),
                Err(e) => spec_parse_complete(s@) == Err::<ParsedV, PErr>(e.view()),
            },
    {
        match self.lexer.tokenize_source(s) {
            Err(e) => {
                let kind = if e.is_incomplete() {
                    ParseErrorKind::Incomplete
                } else {
                    ParseErrorKind::Invalid
                };
                Err(ParseError { kind, message: e.message() })
            },
            Ok(toks) => parse_tokens(&toks),
        }
    }

    fn parse_with_heredocs(&self, s: &Vec<char>) -> (r: Result<Option<ParsedCommand>, ParseError>)
        ensures
            match r {
                Ok(None) => heredoc_scan(s@, 0) is None,
                Ok(Some(c)) => heredoc_scan(s@, 0) == Some(Ok::<ParsedV, PErr>(c.view())),
                Err(e) => heredoc_scan(s@, 0) == Some(Err::<ParsedV, PErr>(e.view())),
            },
    {
        let mut end: usize = 0;
        while end < s.len()
            invariant
                end <= s@.len(),
                heredoc_scan(s@, end as int) == heredoc_scan(s@, 0),
            decreases s@.len() - end,
        {
            let mut q = end;
            while q < s.len() && s[q] != '\n'
                invariant
                    end <= q <= s@.len(),
                    line_end(s@, q as int) == line_end(s@, end as int),
                decreases s@.len() - q,
            {
                q += 1;
            }
            let next = if q < s.len() {
                q + 1
            } else {
                q
            };
            proof {
                lemma_line_end(s@, end as int);
            }
            assert(next == line_end(s@, end as int));
            let mut source: Vec<char> = Vec::new();
            push_range(&mut source, s, 0, next);
            assert(source@ =~= s@.subrange(0, next as int));
            match self.parse_complete_source(&source) {
                Err(x) => {
                    if x.kind != ParseErrorKind::Incomplete {
                        return Err(x);
                    }
                },
                Ok(c) => {
                    if has_heredocs(&c) {
                        return match collect_heredoc_bodies(c, s, next) {
                            Ok(c2) => Ok(Some(c2)),
                            Err(x) => Err(x),
                        };
                    }
                },
            }
            end = next;
        }
        if s.len() > 0 {
            match self.parse_complete_source(s) {
                Err(x) => Err(x),
                Ok(c) => {
                    if has_heredocs(&c) {
                        let none: Vec<char> = Vec::new();
                        assert(none@.subrange(0, 0) =~= Seq::<char>::empty());
                        match collect_heredoc_bodies(c, &none, 0) {
                            Ok(c2) => Ok(Some(c2)),
                            Err(x) => Err(x),
                        }
                    } else {
                        Ok(None)
                    }
                },
            }
        } else {
            Ok(None)
        }
    }
}

} // verus!
