//! Heredoc bodies: after a command line that holds `<<` redirections is
//! complete, the lines that follow it fill those redirections in order,
//! each up to the line that holds just its delimiter.
use vstd::prelude::*;

use crate::ast::{
    redirections_view, CommandNode, ExprV, KindV, NodeV, RedirV, Redirection, RedirectionKind,
    ShellExpr, SimpleCommand, SimpleV,
};
use crate::expand::{spec_is_quoted, spec_quote_removed, first_index_of};
use crate::parser::{
    exprs_view, incomplete, invalid, nodes_view, rest_view, ParseError, ParseErrorKind, PErr,
    ParsedCommand, ParsedV, concat_string, lemma_chain_view, lemma_pipeline_view, lemma_sequence_view,
};
use crate::ast::BoolOp;
use crate::text::{chars_of, string_from_chars};

verus! {

broadcast use vstd::string::group_string_axioms;

/// The lines of `s`, each with its `\n` (`str::split_inclusive('\n')`).
pub open spec fn split_lines(s: Seq<char>) -> Seq<Seq<char>>
    decreases s.len(),
{
    if s.len() == 0 {
        Seq::empty()
    } else {
        match first_index_of(s, '\n') {
            Some(k) => if 0 <= k < s.len() {
                seq![s.subrange(0, k + 1)] + split_lines(s.subrange(k + 1, s.len() as int))
            } else {
                seq![s]
            },
            None => seq![s],
        }
    }
}

/// `line` without its trailing `\r` and `\n` characters.
pub open spec fn strip_line_end(line: Seq<char>) -> Seq<char>
    decreases line.len(),
{
    if line.len() > 0 && (line.last() == '\r' || line.last() == '\n') {
        strip_line_end(line.drop_last())
    } else {
        line
    }
}

/// The number of heredoc redirections in a command, in order of appearance.
pub open spec fn heredocs_in_expr(e: ExprV) -> nat
    decreases e,
{
    match e {
        ExprV::Command(n) => heredocs_in_node(n),
        ExprV::Pipeline(ns) => heredocs_in_nodes(ns),
        ExprV::BooleanChain { first, rest } => heredocs_in_expr(*first) + heredocs_in_rest(rest),
        ExprV::Sequence(es) => heredocs_in_exprs(es),
    }
}

pub open spec fn heredocs_in_node(n: NodeV) -> nat
    decreases n,
{
    match n {
        NodeV::Simple(s) => heredocs_in_redirs(s.redirections),
        NodeV::FunctionDef { body, .. } => heredocs_in_expr(*body),
        NodeV::Subshell(e) => heredocs_in_expr(*e),
    }
}

pub open spec fn heredocs_in_redirs(rs: Seq<RedirV>) -> nat
    decreases rs.len(),
{
    if rs.len() == 0 {
        0
    } else {
        heredocs_in_redirs(rs.drop_last()) + if rs.last().kind is HereDoc {
            1nat
        } else {
            0nat
        }
    }
}

pub open spec fn heredocs_in_nodes(ns: Seq<NodeV>) -> nat
    decreases ns,
{
    if ns.len() == 0 {
        0
    } else {
        heredocs_in_nodes(ns.subrange(0, ns.len() - 1)) + heredocs_in_node(ns[ns.len() - 1])
    }
}

pub open spec fn heredocs_in_exprs(es: Seq<ExprV>) -> nat
    decreases es,
{
    if es.len() == 0 {
        0
    } else {
        heredocs_in_exprs(es.subrange(0, es.len() - 1)) + heredocs_in_expr(es[es.len() - 1])
    }
}

pub open spec fn heredocs_in_rest(rs: Seq<(BoolOp, ExprV)>) -> nat
    decreases rs,
{
    if rs.len() == 0 {
        0
    } else {
        heredocs_in_rest(rs.subrange(0, rs.len() - 1)) + heredocs_in_expr(rs[rs.len() - 1].1)
    }
}

pub open spec fn heredocs_in(c: ParsedV) -> nat {
    match c {
        ParsedV::Empty => 0,
        ParsedV::Expr(e) => heredocs_in_expr(e),
    }
}

/// The body for `delim` from line `pos` on, after the text `acc`, and the
/// line after the delimiter.
pub open spec fn body_until(ls: Seq<Seq<char>>, pos: int, delim: Seq<char>, acc: Seq<char>) -> Result<
    (Seq<char>, int),
    PErr,
>
    decreases ls.len() - pos,
{
    if pos < 0 || pos >= ls.len() {
        Err(incomplete("heredoc missing terminator: "@ + delim))
    } else if strip_line_end(ls[pos]) == delim {
        Ok((acc, pos + 1))
    } else {
        body_until(ls, pos + 1, delim, acc + ls[pos])
    }
}

/// A heredoc body is every line from `pos` up to the first one that holds
/// just the delimiter, joined in order with their line ends; reading goes
/// on after the delimiter line.
pub proof fn law_heredoc_body_is_the_lines_before_its_delimiter(
    ls: Seq<Seq<char>>,
    pos: int,
    q: int,
    delim: Seq<char>,
)
    requires
        0 <= pos <= q < ls.len(),
        strip_line_end(ls[q]) == delim,
        forall|k: int| pos <= k < q ==> strip_line_end(#[trigger] ls[k]) != delim,
    ensures
        body_until(ls, pos, delim, Seq::empty()) == Ok::<(Seq<char>, int), PErr>(
            (ls.subrange(pos, q).flatten(), q + 1),
        ),
{
    lemma_body_until_appends(ls, pos, q, delim, Seq::empty());
    assert(Seq::<char>::empty() + ls.subrange(pos, q).flatten() =~= ls.subrange(pos, q).flatten());
}

proof fn lemma_body_until_appends(
    ls: Seq<Seq<char>>,
    p: int,
    q: int,
    delim: Seq<char>,
    acc: Seq<char>,
)
    requires
        0 <= p <= q < ls.len(),
        strip_line_end(ls[q]) == delim,
        forall|k: int| p <= k < q ==> strip_line_end(#[trigger] ls[k]) != delim,
    ensures
        body_until(ls, p, delim, acc) == Ok::<(Seq<char>, int), PErr>(
            (acc + ls.subrange(p, q).flatten(), q + 1),
        ),
    decreases q - p,
{
    if p == q {
        assert(ls.subrange(p, q) =~= Seq::<Seq<char>>::empty());
        assert(acc + Seq::<char>::empty() =~= acc);
    } else {
        assert(strip_line_end(ls[p]) != delim);
        lemma_body_until_appends(ls, p + 1, q, delim, acc + ls[p]);
        let rest = ls.subrange(p, q);
        assert(rest.first() == ls[p]);
        assert(rest.drop_first() =~= ls.subrange(p + 1, q));
        assert(rest.flatten() == ls[p] + ls.subrange(p + 1, q).flatten());
        assert(acc + ls[p] + ls.subrange(p + 1, q).flatten() =~= acc + rest.flatten());
    }
}

pub type FillRes<T> = Result<(T, int), PErr>;

/// The redirections with their heredoc bodies taken from line `pos` on.
pub open spec fn fill_redirs(rs: Seq<RedirV>, ls: Seq<Seq<char>>, pos: int) -> FillRes<Seq<RedirV>>
    decreases rs.len(),
{
    if rs.len() == 0 {
        Ok((rs, pos))
    } else {
        match fill_redirs(rs.drop_last(), ls, pos) {
            Err(e) => Err(e),
            Ok((done, p)) => {
                let r = rs.last();
                if r.kind is HereDoc {
                    match body_until(ls, p, spec_quote_removed(r.target), Seq::empty()) {
                        Err(e) => Err(e),
                        Ok((body, q)) => Ok(
                            (
                                done.push(
                                    RedirV {
                                        kind: KindV::HereDoc {
                                            body,
                                            expand: !spec_is_quoted(r.target),
                                        },
                                        ..r
                                    },
                                ),
                                q,
                            ),
                        ),
                    }
                } else {
                    Ok((done.push(r), p))
                }
            },
        }
    }
}

pub open spec fn fill_expr(e: ExprV, ls: Seq<Seq<char>>, pos: int) -> FillRes<ExprV>
    decreases e,
{
    match e {
        ExprV::Command(n) => match fill_node(n, ls, pos) {
            Err(x) => Err(x),
            Ok((n2, p)) => Ok((ExprV::Command(n2), p)),
        },
        ExprV::Pipeline(ns) => match fill_nodes(ns, ls, pos) {
            Err(x) => Err(x),
            Ok((ns2, p)) => Ok((ExprV::Pipeline(ns2), p)),
        },
        ExprV::BooleanChain { first, rest } => match fill_expr(*first, ls, pos) {
            Err(x) => Err(x),
            Ok((f2, p)) => match fill_rest(rest, ls, p) {
                Err(x) => Err(x),
                Ok((r2, q)) => Ok((ExprV::BooleanChain { first: Box::new(f2), rest: r2 }, q)),
            },
        },
        ExprV::Sequence(es) => match fill_exprs(es, ls, pos) {
            Err(x) => Err(x),
            Ok((es2, p)) => Ok((ExprV::Sequence(es2), p)),
        },
    }
}

pub open spec fn fill_node(n: NodeV, ls: Seq<Seq<char>>, pos: int) -> FillRes<NodeV>
    decreases n,
{
    match n {
        NodeV::Simple(s) => match fill_redirs(s.redirections, ls, pos) {
            Err(x) => Err(x),
            Ok((rs, p)) => Ok((NodeV::Simple(SimpleV { redirections: rs, ..s }), p)),
        },
        NodeV::FunctionDef { name, body } => match fill_expr(*body, ls, pos) {
            Err(x) => Err(x),
            Ok((b2, p)) => Ok((NodeV::FunctionDef { name, body: Box::new(b2) }, p)),
        },
        NodeV::Subshell(e) => match fill_expr(*e, ls, pos) {
            Err(x) => Err(x),
            Ok((e2, p)) => Ok((NodeV::Subshell(Box::new(e2)), p)),
        },
    }
}

pub open spec fn fill_nodes(ns: Seq<NodeV>, ls: Seq<Seq<char>>, pos: int) -> FillRes<Seq<NodeV>>
    decreases ns,
{
    if ns.len() == 0 {
        Ok((ns, pos))
    } else {
        match fill_nodes(ns.subrange(0, ns.len() - 1), ls, pos) {
            Err(x) => Err(x),
            Ok((done, p)) => match fill_node(ns[ns.len() - 1], ls, p) {
                Err(x) => Err(x),
                Ok((n2, q)) => Ok((done.push(n2), q)),
            },
        }
    }
}

pub open spec fn fill_exprs(es: Seq<ExprV>, ls: Seq<Seq<char>>, pos: int) -> FillRes<Seq<ExprV>>
    decreases es,
{
    if es.len() == 0 {
        Ok((es, pos))
    } else {
        match fill_exprs(es.subrange(0, es.len() - 1), ls, pos) {
            Err(x) => Err(x),
            Ok((done, p)) => match fill_expr(es[es.len() - 1], ls, p) {
                Err(x) => Err(x),
                Ok((e2, q)) => Ok((done.push(e2), q)),
            },
        }
    }
}

pub open spec fn fill_rest(rs: Seq<(BoolOp, ExprV)>, ls: Seq<Seq<char>>, pos: int) -> FillRes<
    Seq<(BoolOp, ExprV)>,
>
    decreases rs,
{
    if rs.len() == 0 {
        Ok((rs, pos))
    } else {
        match fill_rest(rs.subrange(0, rs.len() - 1), ls, pos) {
            Err(x) => Err(x),
            Ok((done, p)) => match fill_expr(rs[rs.len() - 1].1, ls, p) {
                Err(x) => Err(x),
                Ok((e2, q)) => Ok((done.push((rs[rs.len() - 1].0, e2)), q)),
            },
        }
    }
}

/// Whether a line from `pos` on holds more than line breaks.
pub open spec fn has_content_from(ls: Seq<Seq<char>>, pos: int) -> bool {
    exists|k: int| pos <= k < ls.len() && strip_line_end(ls[k]).len() > 0
}

/// The command with its heredoc bodies taken from `remainder`, which must
/// hold nothing more than those bodies and blank lines.
pub open spec fn spec_collect_heredocs(c: ParsedV, remainder: Seq<char>) -> Result<ParsedV, PErr> {
    match c {
        ParsedV::Empty => Ok(c),
        ParsedV::Expr(e) => {
            let ls = split_lines(remainder);
            match fill_expr(e, ls, 0) {
                Err(x) => Err(x),
                Ok((e2, p)) => if has_content_from(ls, p) {
                    Err(invalid("unexpected trailing content after heredoc terminator"@))
                } else {
                    Ok(ParsedV::Expr(e2))
                },
            }
        },
    }
}

pub open spec fn lines_view(v: Seq<Vec<char>>) -> Seq<Seq<char>> {
    v.map_values(|l: Vec<char>| l@)
}

proof fn lemma_split_lines_step(s: Seq<char>, k: int)
    requires
        0 <= k < s.len(),
        s[k] == '\n',
        forall|m: int| 0 <= m < k ==> s[m] != '\n',
    ensures
        split_lines(s) == seq![s.subrange(0, k + 1)] + split_lines(s.subrange(k + 1, s.len() as int)),
{
    crate::expand::lemma_first_index_of(s, '\n');
    match first_index_of(s, '\n') {
        Some(j) => {
            if j < k {
                assert(s[j] == '\n');
            }
            if j > k {
            }
            assert(j == k);
        },
        None => {
            assert(s[k] != '\n');
        },
    }
}

proof fn lemma_split_lines_last(s: Seq<char>)
    requires
        s.len() > 0,
        forall|m: int| 0 <= m < s.len() ==> s[m] != '\n',
    ensures
        split_lines(s) == seq![s],
{
    crate::expand::lemma_first_index_of(s, '\n');
    match first_index_of(s, '\n') {
        Some(j) => {
            assert(s[j] == '\n');
        },
        None => {},
    }
}

proof fn lemma_fill_redirs_err(rv: Seq<RedirV>, ls: Seq<Seq<char>>, pos: int, n: int)
    requires
        0 <= n <= rv.len(),
        fill_redirs(rv.subrange(0, n), ls, pos) is Err,
    ensures
        fill_redirs(rv, ls, pos) == fill_redirs(rv.subrange(0, n), ls, pos),
    decreases rv.len(),
{
    if n < rv.len() {
        assert(rv.drop_last().subrange(0, n) =~= rv.subrange(0, n));
        lemma_fill_redirs_err(rv.drop_last(), ls, pos, n);
    } else {
        assert(rv.subrange(0, n) =~= rv);
    }
}

proof fn lemma_fill_nodes_err(v: Seq<NodeV>, ls: Seq<Seq<char>>, pos: int, n: int)
    requires
        0 <= n <= v.len(),
        fill_nodes(v.subrange(0, n), ls, pos) is Err,
    ensures
        fill_nodes(v, ls, pos) == fill_nodes(v.subrange(0, n), ls, pos),
    decreases v.len(),
{
    if n < v.len() {
        assert(v.subrange(0, v.len() - 1).subrange(0, n) =~= v.subrange(0, n));
        lemma_fill_nodes_err(v.subrange(0, v.len() - 1), ls, pos, n);
    } else {
        assert(v.subrange(0, n) =~= v);
    }
}

proof fn lemma_fill_exprs_err(v: Seq<ExprV>, ls: Seq<Seq<char>>, pos: int, n: int)
    requires
        0 <= n <= v.len(),
        fill_exprs(v.subrange(0, n), ls, pos) is Err,
    ensures
        fill_exprs(v, ls, pos) == fill_exprs(v.subrange(0, n), ls, pos),
    decreases v.len(),
{
    if n < v.len() {
        assert(v.subrange(0, v.len() - 1).subrange(0, n) =~= v.subrange(0, n));
        lemma_fill_exprs_err(v.subrange(0, v.len() - 1), ls, pos, n);
    } else {
        assert(v.subrange(0, n) =~= v);
    }
}

proof fn lemma_fill_rest_err(v: Seq<(BoolOp, ExprV)>, ls: Seq<Seq<char>>, pos: int, n: int)
    requires
        0 <= n <= v.len(),
        fill_rest(v.subrange(0, n), ls, pos) is Err,
    ensures
        fill_rest(v, ls, pos) == fill_rest(v.subrange(0, n), ls, pos),
    decreases v.len(),
{
    if n < v.len() {
        assert(v.subrange(0, v.len() - 1).subrange(0, n) =~= v.subrange(0, n));
        lemma_fill_rest_err(v.subrange(0, v.len() - 1), ls, pos, n);
    } else {
        assert(v.subrange(0, n) =~= v);
    }
}

/// The lines of `s` from position `from` on.
pub fn split_lines_from(s: &Vec<char>, from: usize) -> (r: Vec<Vec<char>>)
    requires
        from <= s@.len(),
    ensures
        lines_view(r@) == split_lines(s@.subrange(from as int, s@.len() as int)),
{
    let mut out: Vec<Vec<char>> = Vec::new();
    let mut p = from;
    assert(lines_view(out@) =~= Seq::<Seq<char>>::empty());
    while p < s.len()
        invariant
            from <= p <= s@.len(),
            lines_view(out@) + split_lines(s@.subrange(p as int, s@.len() as int)) == split_lines(
                s@.subrange(from as int, s@.len() as int),
            ),
        decreases s@.len() - p,
    {
        let ghost rest = s@.subrange(p as int, s@.len() as int);
        let mut line: Vec<char> = Vec::new();
        let mut q = p;
        while q < s.len() && s[q] != '\n'
            invariant
                p <= q <= s@.len(),
                line@ == s@.subrange(p as int, q as int),
                forall|m: int| p <= m < q ==> s@[m] != '\n',
            decreases s@.len() - q,
        {
            line.push(s[q]);
            q += 1;
            assert(line@ =~= s@.subrange(p as int, q as int));
        }
        let ghost before = out@;
        if q < s.len() {
            line.push('\n');
            proof {
                assert forall|m: int| 0 <= m < q - p implies rest[m] != '\n' by {
                    assert(rest[m] == s@[p + m]);
                }
                lemma_split_lines_step(rest, q - p);
                assert(line@ =~= rest.subrange(0, q - p + 1));
                assert(rest.subrange(q - p + 1, rest.len() as int) =~= s@.subrange(q + 1, s@.len() as int));
            }
            out.push(line);
            assert(lines_view(out@) =~= lines_view(before).push(rest.subrange(0, q - p + 1)));
            p = q + 1;
        } else {
            proof {
                assert forall|m: int| 0 <= m < rest.len() implies rest[m] != '\n' by {
                    assert(rest[m] == s@[p + m]);
                }
                lemma_split_lines_last(rest);
                assert(line@ =~= rest);
                assert(s@.subrange(q as int, s@.len() as int) =~= Seq::<char>::empty());
            }
            out.push(line);
            assert(lines_view(out@) =~= lines_view(before).push(rest));
            p = q;
        }
        assert(lines_view(out@) + split_lines(s@.subrange(p as int, s@.len() as int)) =~= lines_view(before) + split_lines(rest));
    }
    assert(split_lines(s@.subrange(p as int, s@.len() as int)) =~= Seq::<Seq<char>>::empty());
    assert(lines_view(out@) + Seq::<Seq<char>>::empty() =~= lines_view(out@));
    out
}

/// The length of `line` without its trailing `\r` and `\n` characters.
fn stripped_len(line: &Vec<char>) -> (e: usize)
    ensures
        e <= line@.len(),
        strip_line_end(line@) == line@.subrange(0, e as int),
{
    let mut e = line.len();
    assert(line@.subrange(0, e as int) =~= line@);
    while e > 0 && (line[e - 1] == '\r' || line[e - 1] == '\n')
        invariant
            e <= line@.len(),
            strip_line_end(line@) == strip_line_end(line@.subrange(0, e as int)),
        decreases e,
    {
        assert(line@.subrange(0, e as int).drop_last() =~= line@.subrange(0, e - 1));
        e -= 1;
    }
    e
}

fn line_is_delimiter(line: &Vec<char>, delim: &Vec<char>) -> (b: bool)
    ensures
        b == (strip_line_end(line@) == delim@),
{
    let e = stripped_len(line);
    if e != delim.len() {
        return false;
    }
    let mut i: usize = 0;
    while i < e
        invariant
            e <= line@.len(),
            e == delim@.len(),
            strip_line_end(line@) == line@.subrange(0, e as int),
            0 <= i <= e,
            forall|k: int| 0 <= k < i ==> line@[k] == delim@[k],
        decreases e - i,
    {
        if line[i] != delim[i] {
            assert(line@.subrange(0, e as int)[i as int] != delim@[i as int]);
            assert(strip_line_end(line@) != delim@);
            return false;
        }
        i += 1;
    }
    assert(line@.subrange(0, e as int) =~= delim@);
    true
}

fn collect_body(lines: &Vec<Vec<char>>, pos: usize, delim: &Vec<char>) -> (r: Result<
    (String, usize),
    ParseError,
>)
    requires
        pos <= lines@.len(),
    ensures
        match r {
            Ok((body, q)) => body_until(lines_view(lines@), pos as int, delim@, Seq::empty()) == Ok::<
                (Seq<char>, int),
                PErr,
            >((body@, q as int)) && pos < q <= lines@.len(),
            Err(e) => body_until(lines_view(lines@), pos as int, delim@, Seq::empty()) == Err::<
                (Seq<char>, int),
                PErr,
            >(e.view()),
        },
{
    let ghost ls = lines_view(lines@);
    let mut body: Vec<char> = Vec::new();
    let mut p = pos;
    while p < lines.len()
        invariant
            pos <= p <= lines@.len(),
            ls == lines_view(lines@),
            body_until(ls, p as int, delim@, body@) == body_until(ls, pos as int, delim@, Seq::empty()),
        decreases lines@.len() - p,
    {
        if line_is_delimiter(&lines[p], delim) {
            return Ok((string_from_chars(body.as_slice()), p + 1));
        }
        let line = &lines[p];
        let ghost b0 = body@;
        let mut k: usize = 0;
        while k < line.len()
            invariant
                0 <= k <= line@.len(),
                body@ == b0 + line@.subrange(0, k as int),
            decreases line@.len() - k,
        {
            body.push(line[k]);
            k += 1;
            assert(body@ =~= b0 + line@.subrange(0, k as int));
        }
        assert(line@.subrange(0, line@.len() as int) =~= line@);
        p += 1;
    }
    let d = string_from_chars(delim.as_slice());
    Err(ParseError { kind: ParseErrorKind::Incomplete, message: concat_string("heredoc missing terminator: ", d) })
}

fn fill_redirections(rs: &Vec<Redirection>, lines: &Vec<Vec<char>>, pos: usize) -> (r: Result<
    (Vec<Redirection>, usize),
    ParseError,
>)
    requires
        pos <= lines@.len(),
    ensures
        match r {
            Ok((out, q)) => fill_redirs(redirections_view(rs@), lines_view(lines@), pos as int)
                == Ok::<(Seq<RedirV>, int), PErr>((redirections_view(out@), q as int)) && pos <= q
                <= lines@.len(),
            Err(e) => fill_redirs(redirections_view(rs@), lines_view(lines@), pos as int) == Err::<
                (Seq<RedirV>, int),
                PErr,
            >(e.view()),
        },
{
    let ghost ls = lines_view(lines@);
    let ghost rv = redirections_view(rs@);
    let mut out: Vec<Redirection> = Vec::new();
    let mut p = pos;
    let mut k: usize = 0;
    assert(rv.subrange(0, 0) =~= Seq::<RedirV>::empty());
    assert(redirections_view(out@) =~= Seq::<RedirV>::empty());
    while k < rs.len()
        invariant
            0 <= k <= rs@.len(),
            pos <= p <= lines@.len(),
            ls == lines_view(lines@),
            rv == redirections_view(rs@),
            fill_redirs(rv.subrange(0, k as int), ls, pos as int) == Ok::<(Seq<RedirV>, int), PErr>(
                (redirections_view(out@), p as int),
            ),
        decreases rs@.len() - k,
    {
        let r0 = &rs[k];
        assert(rv.subrange(0, k + 1).drop_last() =~= rv.subrange(0, k as int));
        assert(rv.subrange(0, k + 1).last() == r0.view());
        let ghost before = out@;
        match &r0.kind {
            RedirectionKind::HereDoc { .. } => {
                let delim_text = r0.target.quote_removed_text();
                let delim = chars_of(delim_text.as_str());
                match collect_body(lines, p, &delim) {
                    Err(e) => {
                        proof {
                            lemma_fill_redirs_err(rv, ls, pos as int, k + 1);
                        }
                        return Err(e);
                    },
                    Ok((body, q)) => {
                        let expand = !r0.target.is_quoted();
                        let r1 = Redirection {
                            fd: r0.fd,
                            kind: RedirectionKind::HereDoc { body, expand },
                            target: r0.target.clone(),
                        };
                        out.push(r1);
                        assert(redirections_view(out@) =~= redirections_view(before).push(r1.view()));
                        p = q;
                    },
                }
            },
            other => {
                let kind = match other {
                    RedirectionKind::Input => RedirectionKind::Input,
                    RedirectionKind::OutputTruncate => RedirectionKind::OutputTruncate,
                    _ => RedirectionKind::OutputAppend,
                };
                let r1 = Redirection { fd: r0.fd, kind, target: r0.target.clone() };
                out.push(r1);
                assert(redirections_view(out@) =~= redirections_view(before).push(r1.view()));
            },
        }
        k += 1;
    }
    assert(rv.subrange(0, rs@.len() as int) =~= rv);
    Ok((out, p))
}

fn fill_node_bodies(n: &CommandNode, lines: &Vec<Vec<char>>, pos: usize) -> (r: Result<
    (CommandNode, usize),
    ParseError,
>)
    requires
        pos <= lines@.len(),
    ensures
        match r {
            Ok((out, q)) => fill_node(n.view(), lines_view(lines@), pos as int) == Ok::<
                (NodeV, int),
                PErr,
            >((out.view(), q as int)) && pos <= q <= lines@.len(),
            Err(e) => fill_node(n.view(), lines_view(lines@), pos as int) == Err::<(NodeV, int), PErr>(
                e.view(),
            ),
        },
    decreases n,
{
    match n {
        CommandNode::Simple(simple) => {
            match fill_redirections(&simple.redirections, lines, pos) {
                Err(e) => Err(e),
                Ok((rs, q)) => {
                    let c = crate::ast::copy_simple(simple);
                    let s2 = SimpleCommand { assignments: c.assignments, argv: c.argv, redirections: rs };
                    Ok((CommandNode::Simple(s2), q))
                },
            }
        },
        CommandNode::FunctionDef { name, body } => {
            match fill_expr_bodies(body, lines, pos) {
                Err(e) => Err(e),
                Ok((b2, q)) => Ok((CommandNode::FunctionDef { name: name.clone(), body: Box::new(b2) }, q)),
            }
        },
        CommandNode::Subshell(e) => {
            match fill_expr_bodies(e, lines, pos) {
                Err(x) => Err(x),
                Ok((e2, q)) => Ok((CommandNode::Subshell(Box::new(e2)), q)),
            }
        },
    }
}

#[verifier::loop_isolation(false)]
fn fill_expr_bodies(e: &ShellExpr, lines: &Vec<Vec<char>>, pos: usize) -> (r: Result<
    (ShellExpr, usize),
    ParseError,
>)
    requires
        pos <= lines@.len(),
    ensures
        match r {
            Ok((out, q)) => fill_expr(e.view(), lines_view(lines@), pos as int) == Ok::<
                (ExprV, int),
                PErr,
            >((out.view(), q as int)) && pos <= q <= lines@.len(),
            Err(x) => fill_expr(e.view(), lines_view(lines@), pos as int) == Err::<(ExprV, int), PErr>(
                x.view(),
            ),
        },
    decreases e,
{
    let ghost ls = lines_view(lines@);
    match e {
        ShellExpr::Command(n) => match fill_node_bodies(n, lines, pos) {
            Err(x) => Err(x),
            Ok((n2, q)) => Ok((ShellExpr::Command(n2), q)),
        },
        ShellExpr::Pipeline(nodes) => {
            let ghost nv = nodes_view(nodes@);
            assert(e.view() == ExprV::Pipeline(nv)) by {
                lemma_pipeline_view(*nodes);
            }
            let mut out: Vec<CommandNode> = Vec::new();
            let mut p = pos;
            let mut k: usize = 0;
            assert(nv.subrange(0, 0) =~= Seq::<NodeV>::empty());
            assert(nodes_view(out@) =~= Seq::<NodeV>::empty());
            while k < nodes.len()
                invariant
                    0 <= k <= nodes@.len(),
                    pos <= p <= lines@.len(),
                    fill_nodes(nv.subrange(0, k as int), ls, pos as int) == Ok::<(Seq<NodeV>, int), PErr>(
                        (nodes_view(out@), p as int),
                    ),
                decreases nodes@.len() - k,
            {
                proof {
                    broadcast use vstd::std_specs::vec::group_vec_axioms;
                    assert(decreases_to!(*nodes => nodes[k as int]));
                }
                assert(nv.subrange(0, k + 1).subrange(0, k as int) =~= nv.subrange(0, k as int));
                match fill_node_bodies(&nodes[k], lines, p) {
                    Err(x) => {
                        proof {
                            lemma_fill_nodes_err(nv, ls, pos as int, k + 1);
                        }
                        return Err(x);
                    },
                    Ok((n2, q)) => {
                        let ghost before = out@;
                        let ghost v2 = n2.view();
                        out.push(n2);
                        assert(nodes_view(out@) =~= nodes_view(before).push(v2));
                        p = q;
                    },
                }
                k += 1;
            }
            assert(nv.subrange(0, nodes@.len() as int) =~= nv);
            proof {
                lemma_pipeline_view(out);
            }
            Ok((ShellExpr::Pipeline(out), p))
        },
        ShellExpr::BooleanChain { first, rest } => {
            let ghost rv = rest_view(rest@);
            assert(e.view() == (ExprV::BooleanChain { first: Box::new((**first).view()), rest: rv })) by {
                lemma_chain_view(**first, *rest);
            }
            let (f2, mut p) = match fill_expr_bodies(first, lines, pos) {
                Err(x) => {
                    return Err(x);
                },
                Ok(v) => v,
            };
            let ghost p0 = p;
            let mut out: Vec<(BoolOp, ShellExpr)> = Vec::new();
            let mut k: usize = 0;
            assert(rv.subrange(0, 0) =~= Seq::<(BoolOp, ExprV)>::empty());
            assert(rest_view(out@) =~= Seq::<(BoolOp, ExprV)>::empty());
            while k < rest.len()
                invariant
                    0 <= k <= rest@.len(),
                    p0 <= p <= lines@.len(),
                    pos <= p0,
                    fill_rest(rv.subrange(0, k as int), ls, p0 as int) == Ok::<
                        (Seq<(BoolOp, ExprV)>, int),
                        PErr,
                    >((rest_view(out@), p as int)),
                decreases rest@.len() - k,
            {
                proof {
                    broadcast use vstd::std_specs::vec::group_vec_axioms;
                    assert(decreases_to!(*rest => rest[k as int]));
                }
                assert(rv.subrange(0, k + 1).subrange(0, k as int) =~= rv.subrange(0, k as int));
                let (op, sub) = &rest[k];
                match fill_expr_bodies(sub, lines, p) {
                    Err(x) => {
                        proof {
                            lemma_fill_rest_err(rv, ls, p0 as int, k + 1);
                        }
                        return Err(x);
                    },
                    Ok((e2, q)) => {
                        let ghost before = out@;
                        let ghost v2 = e2.view();
                        out.push((*op, e2));
                        assert(rest_view(out@) =~= rest_view(before).push((*op, v2)));
                        p = q;
                    },
                }
                k += 1;
            }
            assert(rv.subrange(0, rest@.len() as int) =~= rv);
            proof {
                lemma_chain_view(f2, out);
            }
            Ok((ShellExpr::BooleanChain { first: Box::new(f2), rest: out }, p))
        },
        ShellExpr::Sequence(exprs) => {
            let ghost ev = exprs_view(exprs@);
            assert(e.view() == ExprV::Sequence(ev)) by {
                lemma_sequence_view(*exprs);
            }
            let mut out: Vec<ShellExpr> = Vec::new();
            let mut p = pos;
            let mut k: usize = 0;
            assert(ev.subrange(0, 0) =~= Seq::<ExprV>::empty());
            assert(exprs_view(out@) =~= Seq::<ExprV>::empty());
            while k < exprs.len()
                invariant
                    0 <= k <= exprs@.len(),
                    pos <= p <= lines@.len(),
                    fill_exprs(ev.subrange(0, k as int), ls, pos as int) == Ok::<(Seq<ExprV>, int), PErr>(
                        (exprs_view(out@), p as int),
                    ),
                decreases exprs@.len() - k,
            {
                proof {
                    broadcast use vstd::std_specs::vec::group_vec_axioms;
                    assert(decreases_to!(*exprs => exprs[k as int]));
                }
                assert(ev.subrange(0, k + 1).subrange(0, k as int) =~= ev.subrange(0, k as int));
                match fill_expr_bodies(&exprs[k], lines, p) {
                    Err(x) => {
                        proof {
                            lemma_fill_exprs_err(ev, ls, pos as int, k + 1);
                        }
                        return Err(x);
                    },
                    Ok((e2, q)) => {
                        let ghost before = out@;
                        let ghost v2 = e2.view();
                        out.push(e2);
                        assert(exprs_view(out@) =~= exprs_view(before).push(v2));
                        p = q;
                    },
                }
                k += 1;
            }
            assert(ev.subrange(0, exprs@.len() as int) =~= ev);
            proof {
                lemma_sequence_view(out);
            }
            Ok((ShellExpr::Sequence(out), p))
        },
    }
}

fn has_content_after(lines: &Vec<Vec<char>>, pos: usize) -> (b: bool)
    requires
        pos <= lines@.len(),
    ensures
        b == has_content_from(lines_view(lines@), pos as int),
{
    let ghost ls = lines_view(lines@);
    let mut k = pos;
    while k < lines.len()
        invariant
            pos <= k <= lines@.len(),
            ls == lines_view(lines@),
            forall|m: int| pos <= m < k ==> strip_line_end(#[trigger] ls[m]).len() == 0,
        decreases lines@.len() - k,
    {
        let e = stripped_len(&lines[k]);
        if e > 0 {
            assert(strip_line_end(ls[k as int]).len() > 0);
            return true;
        }
        k += 1;
    }
    false
}

/// Fills the heredoc bodies of `parsed` from the lines of `remainder`
/// (from position `from`), which must hold nothing but those bodies and
/// blank lines.
pub fn collect_heredoc_bodies(parsed: ParsedCommand, remainder: &Vec<char>, from: usize) -> (r: Result<
    ParsedCommand,
    ParseError,
>)
    requires
        from <= remainder@.len(),
    ensures
        match r {
            Ok(c) => spec_collect_heredocs(parsed.view(), remainder@.subrange(from as int, remainder@.len() as int))
                == Ok::<ParsedV, PErr>(c.view()),
            Err(e) => spec_collect_heredocs(parsed.view(), remainder@.subrange(from as int, remainder@.len() as int))
                == Err::<ParsedV, PErr>(e.view()),
        },
{
    match parsed {
        ParsedCommand::Empty => Ok(ParsedCommand::Empty),
        ParsedCommand::Expr(e) => {
            let lines = split_lines_from(remainder, from);
            match fill_expr_bodies(&e, &lines, 0) {
                Err(x) => Err(x),
                Ok((e2, p)) => {
                    if has_content_after(&lines, p) {
                        Err(ParseError {
                            kind: ParseErrorKind::Invalid,
                            message: crate::text::string_from_str("unexpected trailing content after heredoc terminator"),
                        })
                    } else {
                        Ok(ParsedCommand::Expr(e2))
                    }
                },
            }
        },
    }
}

/// Whether the command holds a heredoc redirection.
pub fn has_heredocs(c: &ParsedCommand) -> (b: bool)
    ensures
        b == (heredocs_in(c.view()) > 0),
{
    match c {
        ParsedCommand::Empty => false,
        ParsedCommand::Expr(e) => expr_has_heredocs(e),
    }
}

fn redirs_have_heredocs(rs: &Vec<Redirection>) -> (b: bool)
    ensures
        b == (heredocs_in_redirs(redirections_view(rs@)) > 0),
{
    let ghost rv = redirections_view(rs@);
    let mut k: usize = 0;
    assert(rv.subrange(0, 0) =~= Seq::<RedirV>::empty());
    while k < rs.len()
        invariant
            0 <= k <= rs@.len(),
            rv == redirections_view(rs@),
            heredocs_in_redirs(rv.subrange(0, k as int)) == 0,
        decreases rs@.len() - k,
    {
        assert(rv.subrange(0, k + 1).drop_last() =~= rv.subrange(0, k as int));
        if let RedirectionKind::HereDoc { .. } = &rs[k].kind {
            proof {
                lemma_redirs_count_grows(rv, k as int + 1);
            }
            return true;
        }
        k += 1;
    }
    assert(rv.subrange(0, rs@.len() as int) =~= rv);
    false
}

proof fn lemma_redirs_count_grows(rv: Seq<RedirV>, n: int)
    requires
        0 <= n <= rv.len(),
    ensures
        heredocs_in_redirs(rv.subrange(0, n)) <= heredocs_in_redirs(rv),
    decreases rv.len(),
{
    if n < rv.len() {
        assert(rv.drop_last().subrange(0, n) =~= rv.subrange(0, n));
        lemma_redirs_count_grows(rv.drop_last(), n);
    } else {
        assert(rv.subrange(0, n) =~= rv);
    }
}

fn node_has_heredocs(n: &CommandNode) -> (b: bool)
    ensures
        b == (heredocs_in_node(n.view()) > 0),
    decreases n,
{
    match n {
        CommandNode::Simple(s) => redirs_have_heredocs(&s.redirections),
        CommandNode::FunctionDef { body, .. } => expr_has_heredocs(body),
        CommandNode::Subshell(e) => expr_has_heredocs(e),
    }
}

#[verifier::loop_isolation(false)]
fn expr_has_heredocs(e: &ShellExpr) -> (b: bool)
    ensures
        b == (heredocs_in_expr(e.view()) > 0),
    decreases e,
{
    match e {
        ShellExpr::Command(n) => node_has_heredocs(n),
        ShellExpr::Pipeline(nodes) => {
            let ghost nv = nodes_view(nodes@);
            proof {
                lemma_pipeline_view(*nodes);
            }
            let mut k: usize = 0;
            assert(nv.subrange(0, 0) =~= Seq::<NodeV>::empty());
            while k < nodes.len()
                invariant
                    0 <= k <= nodes@.len(),
                    heredocs_in_nodes(nv.subrange(0, k as int)) == 0,
                decreases nodes@.len() - k,
            {
                proof {
                    broadcast use vstd::std_specs::vec::group_vec_axioms;
                    assert(decreases_to!(*nodes => nodes[k as int]));
                }
                assert(nv.subrange(0, k + 1).subrange(0, k as int) =~= nv.subrange(0, k as int));
                if node_has_heredocs(&nodes[k]) {
                    proof {
                        lemma_nodes_count_grows(nv, k as int + 1);
                    }
                    return true;
                }
                k += 1;
            }
            assert(nv.subrange(0, nodes@.len() as int) =~= nv);
            false
        },
        ShellExpr::BooleanChain { first, rest } => {
            let ghost rv = rest_view(rest@);
            proof {
                lemma_chain_view(**first, *rest);
            }
            if expr_has_heredocs(first) {
                return true;
            }
            let mut k: usize = 0;
            assert(rv.subrange(0, 0) =~= Seq::<(BoolOp, ExprV)>::empty());
            while k < rest.len()
                invariant
                    0 <= k <= rest@.len(),
                    heredocs_in_rest(rv.subrange(0, k as int)) == 0,
                decreases rest@.len() - k,
            {
                proof {
                    broadcast use vstd::std_specs::vec::group_vec_axioms;
                    assert(decreases_to!(*rest => rest[k as int]));
                }
                assert(rv.subrange(0, k + 1).subrange(0, k as int) =~= rv.subrange(0, k as int));
                if expr_has_heredocs(&rest[k].1) {
                    proof {
                        lemma_rest_count_grows(rv, k as int + 1);
                    }
                    return true;
                }
                k += 1;
            }
            assert(rv.subrange(0, rest@.len() as int) =~= rv);
            false
        },
        ShellExpr::Sequence(exprs) => {
            let ghost ev = exprs_view(exprs@);
            proof {
                lemma_sequence_view(*exprs);
            }
            let mut k: usize = 0;
            assert(ev.subrange(0, 0) =~= Seq::<ExprV>::empty());
            while k < exprs.len()
                invariant
                    0 <= k <= exprs@.len(),
                    heredocs_in_exprs(ev.subrange(0, k as int)) == 0,
                decreases exprs@.len() - k,
            {
                proof {
                    broadcast use vstd::std_specs::vec::group_vec_axioms;
                    assert(decreases_to!(*exprs => exprs[k as int]));
                }
                assert(ev.subrange(0, k + 1).subrange(0, k as int) =~= ev.subrange(0, k as int));
                if expr_has_heredocs(&exprs[k]) {
                    proof {
                        lemma_exprs_count_grows(ev, k as int + 1);
                    }
                    return true;
                }
                k += 1;
            }
            assert(ev.subrange(0, exprs@.len() as int) =~= ev);
            false
        },
    }
}

proof fn lemma_nodes_count_grows(v: Seq<NodeV>, n: int)
    requires
        0 <= n <= v.len(),
    ensures
        heredocs_in_nodes(v.subrange(0, n)) <= heredocs_in_nodes(v),
    decreases v.len(),
{
    if n < v.len() {
        assert(v.subrange(0, v.len() - 1).subrange(0, n) =~= v.subrange(0, n));
        lemma_nodes_count_grows(v.subrange(0, v.len() - 1), n);
    } else {
        assert(v.subrange(0, n) =~= v);
    }
}

proof fn lemma_exprs_count_grows(v: Seq<ExprV>, n: int)
    requires
        0 <= n <= v.len(),
    ensures
        heredocs_in_exprs(v.subrange(0, n)) <= heredocs_in_exprs(v),
    decreases v.len(),
{
    if n < v.len() {
        assert(v.subrange(0, v.len() - 1).subrange(0, n) =~= v.subrange(0, n));
        lemma_exprs_count_grows(v.subrange(0, v.len() - 1), n);
    } else {
        assert(v.subrange(0, n) =~= v);
    }
}

proof fn lemma_rest_count_grows(v: Seq<(BoolOp, ExprV)>, n: int)
    requires
        0 <= n <= v.len(),
    ensures
        heredocs_in_rest(v.subrange(0, n)) <= heredocs_in_rest(v),
    decreases v.len(),
{
    if n < v.len() {
        assert(v.subrange(0, v.len() - 1).subrange(0, n) =~= v.subrange(0, n));
        lemma_rest_count_grows(v.subrange(0, v.len() - 1), n);
    } else {
        assert(v.subrange(0, n) =~= v);
    }
}

} // verus!
