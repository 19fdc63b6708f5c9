//! The syntax tree the parser builds.
use vstd::prelude::*;

use crate::expand::{SegV, Word};

verus! {

/// A command with its leading assignments, words and redirections.
#[derive(Debug, Clone, PartialEq, Eq)]
pub struct SimpleCommand {
    pub assignments: Vec<(String, Word)>,
    pub argv: Vec<Word>,
    pub redirections: Vec<Redirection>,
}

#[derive(Debug, PartialEq, Eq)]
pub enum CommandNode {
    Simple(SimpleCommand),
    FunctionDef { name: String, body: Box<ShellExpr> },
    /// Parenthesized commands, run in the current shell.
    Subshell(Box<ShellExpr>),
}

#[derive(Debug, PartialEq, Eq)]
pub enum ShellExpr {
    Command(CommandNode),
    Pipeline(Vec<CommandNode>),
    BooleanChain { first: Box<ShellExpr>, rest: Vec<(BoolOp, ShellExpr)> },
    Sequence(Vec<ShellExpr>),
}

#[derive(Debug, Clone, Copy, PartialEq, Eq, Structural)]
pub enum BoolOp {
    And,
    Or,
}

#[derive(Debug, Clone, PartialEq, Eq)]
pub struct Redirection {
    pub fd: Option<u32>,
    pub kind: RedirectionKind,
    pub target: Word,
}

#[derive(Debug, Clone, PartialEq, Eq)]
pub enum RedirectionKind {
    Input,
    OutputTruncate,
    OutputAppend,
    HereDoc { body: String, expand: bool },
}

pub enum KindV {
    Input,
    OutputTruncate,
    OutputAppend,
    HereDoc { body: Seq<char>, expand: bool },
}

pub struct RedirV {
    pub fd: Option<u32>,
    pub kind: KindV,
    pub target: Seq<SegV>,
}

pub struct SimpleV {
    pub assignments: Seq<(Seq<char>, Seq<SegV>)>,
    pub argv: Seq<Seq<SegV>>,
    pub redirections: Seq<RedirV>,
}

pub enum NodeV {
    Simple(SimpleV),
    FunctionDef { name: Seq<char>, body: Box<ExprV> },
    Subshell(Box<ExprV>),
}

pub enum ExprV {
    Command(NodeV),
    Pipeline(Seq<NodeV>),
    BooleanChain { first: Box<ExprV>, rest: Seq<(BoolOp, ExprV)> },
    Sequence(Seq<ExprV>),
}

impl RedirectionKind {
    pub open spec fn view(&self) -> KindV {
        match self {
            RedirectionKind::Input => KindV::Input,
            RedirectionKind::OutputTruncate => KindV::OutputTruncate,
            RedirectionKind::OutputAppend => KindV::OutputAppend,
            RedirectionKind::HereDoc { body, expand } => KindV::HereDoc {
                body: body@,
                expand: *expand,
            },
        }
    }
}

impl Redirection {
    pub open spec fn view(&self) -> RedirV {
        RedirV { fd: self.fd, kind: self.kind.view(), target: self.target@ }
    }

    /// The descriptor this redirection acts on: the one written, else 0 for
    /// input and 1 for output and heredocs.
    pub fn effective_fd(&self) -> (r: u8)
        ensures
            r == match self.fd {
                Some(fd) => fd as u8,
                None => if self.kind is Input {
                    0u8
                } else {
                    1u8
                },
            },
    {
        match (&self.fd, &self.kind) {
            (Some(fd), _) => *fd as u8,
            (None, RedirectionKind::Input) => 0,
            (None, _) => 1,
        }
    }
}

pub open spec fn assignments_view(a: Seq<(String, Word)>) -> Seq<(Seq<char>, Seq<SegV>)> {
    a.map_values(|p: (String, Word)| (p.0@, p.1@))
}

pub open spec fn words_view(a: Seq<Word>) -> Seq<Seq<SegV>> {
    a.map_values(|w: Word| w@)
}

pub open spec fn redirections_view(a: Seq<Redirection>) -> Seq<RedirV> {
    a.map_values(|r: Redirection| r.view())
}

impl SimpleCommand {
    pub open spec fn view(&self) -> SimpleV {
        SimpleV {
            assignments: assignments_view(self.assignments@),
            argv: words_view(self.argv@),
            redirections: redirections_view(self.redirections@),
        }
    }

    pub fn new(argv: Vec<Word>) -> (r: Self)
        ensures
            r.assignments@.len() == 0,
            r.argv == argv,
            r.redirections@.len() == 0,
    {
        SimpleCommand { assignments: Vec::new(), argv, redirections: Vec::new() }
    }

    pub fn with_redirections(argv: Vec<Word>, redirections: Vec<Redirection>) -> (r: Self)
        ensures
            r.assignments@.len() == 0,
            r.argv == argv,
            r.redirections == redirections,
    {
        SimpleCommand { assignments: Vec::new(), argv, redirections }
    }

    pub fn with_assignments(
        assignments: Vec<(String, Word)>,
        argv: Vec<Word>,
        redirections: Vec<Redirection>,
    ) -> (r: Self)
        ensures
            r.assignments == assignments,
            r.argv == argv,
            r.redirections == redirections,
    {
        SimpleCommand { assignments, argv, redirections }
    }

    /// Whether the command has neither assignments nor words.
    pub fn is_empty(&self) -> (b: bool)
        ensures
            b == (self.assignments@.len() == 0 && self.argv@.len() == 0),
    {
        self.assignments.len() == 0 && self.argv.len() == 0
    }
}

impl CommandNode {
    pub open spec fn view(&self) -> NodeV
        decreases self,
    {
        match self {
            CommandNode::Simple(s) => NodeV::Simple(s.view()),
            CommandNode::FunctionDef { name, body } => NodeV::FunctionDef {
                name: name@,
                body: Box::new((**body).view()),
            },
            CommandNode::Subshell(e) => NodeV::Subshell(Box::new((**e).view())),
        }
    }
}

impl ShellExpr {
    pub open spec fn view(&self) -> ExprV
        decreases self,
    {
        match self {
            ShellExpr::Command(n) => ExprV::Command(n.view()),
            ShellExpr::Pipeline(nodes) => ExprV::Pipeline(
                Seq::new(
                    nodes@.len(),
                    |i: int|
                        if 0 <= i < nodes@.len() {
                            nodes@[i].view()
                        } else {
                            NodeV::Subshell(Box::new(ExprV::Sequence(Seq::empty())))
                        },
                ),
            ),
            ShellExpr::BooleanChain { first, rest } => ExprV::BooleanChain {
                first: Box::new((**first).view()),
                rest: Seq::new(
                    rest@.len(),
                    |i: int|
                        if 0 <= i < rest@.len() {
                            (rest@[i].0, rest@[i].1.view())
                        } else {
                            (BoolOp::And, ExprV::Sequence(Seq::empty()))
                        },
                ),
            },
            ShellExpr::Sequence(exprs) => ExprV::Sequence(
                Seq::new(
                    exprs@.len(),
                    |i: int|
                        if 0 <= i < exprs@.len() {
                            exprs@[i].view()
                        } else {
                            ExprV::Sequence(Seq::empty())
                        },
                ),
            ),
        }
    }
}

impl Clone for CommandNode {
    fn clone(&self) -> (r: Self)
        ensures
            r.view() == self.view(),
    {
        copy_node(self)
    }
}

impl Clone for ShellExpr {
    fn clone(&self) -> (r: Self)
        ensures
            r.view() == self.view(),
    {
        copy_expr(self)
    }
}

/// A copy of `s` with the same value.
pub fn copy_simple(s: &SimpleCommand) -> (r: SimpleCommand)
    ensures
        r.view() == s.view(),
{
    let mut assignments: Vec<(String, Word)> = Vec::new();
    let mut i: usize = 0;
    while i < s.assignments.len()
        invariant
            0 <= i <= s.assignments@.len(),
            assignments_view(assignments@) == assignments_view(s.assignments@.subrange(0, i as int)),
        decreases s.assignments@.len() - i,
    {
        let (n, w) = &s.assignments[i];
        let pair = (n.clone(), w.clone());
        let ghost before = assignments@;
        assignments.push(pair);
        assert(assignments_view(assignments@) =~= assignments_view(before).push((n@, w@)));
        assert(s.assignments@.subrange(0, i + 1) =~= s.assignments@.subrange(0, i as int).push(s.assignments@[i as int]));
        i += 1;
    }
    let mut argv: Vec<Word> = Vec::new();
    let mut j: usize = 0;
    while j < s.argv.len()
        invariant
            0 <= j <= s.argv@.len(),
            words_view(argv@) == words_view(s.argv@.subrange(0, j as int)),
        decreases s.argv@.len() - j,
    {
        let w = s.argv[j].clone();
        let ghost before = argv@;
        argv.push(w);
        assert(words_view(argv@) =~= words_view(before).push(s.argv@[j as int]@));
        assert(s.argv@.subrange(0, j + 1) =~= s.argv@.subrange(0, j as int).push(s.argv@[j as int]));
        j += 1;
    }
    let mut redirections: Vec<Redirection> = Vec::new();
    let mut k: usize = 0;
    while k < s.redirections.len()
        invariant
            0 <= k <= s.redirections@.len(),
            redirections_view(redirections@) == redirections_view(s.redirections@.subrange(0, k as int)),
        decreases s.redirections@.len() - k,
    {
        let r0 = &s.redirections[k];
        let kind = match &r0.kind {
            RedirectionKind::Input => RedirectionKind::Input,
            RedirectionKind::OutputTruncate => RedirectionKind::OutputTruncate,
            RedirectionKind::OutputAppend => RedirectionKind::OutputAppend,
            RedirectionKind::HereDoc { body, expand } => RedirectionKind::HereDoc {
                body: body.clone(),
                expand: *expand,
            },
        };
        let r1 = Redirection { fd: r0.fd, kind, target: r0.target.clone() };
        let ghost before = redirections@;
        redirections.push(r1);
        assert(redirections_view(redirections@) =~= redirections_view(before).push(r0.view()));
        assert(s.redirections@.subrange(0, k + 1) =~= s.redirections@.subrange(0, k as int).push(s.redirections@[k as int]));
        k += 1;
    }
    assert(s.assignments@.subrange(0, s.assignments@.len() as int) =~= s.assignments@);
    assert(s.argv@.subrange(0, s.argv@.len() as int) =~= s.argv@);
    assert(s.redirections@.subrange(0, s.redirections@.len() as int) =~= s.redirections@);
    SimpleCommand { assignments, argv, redirections }
}

/// A copy of `n` with the same value.
pub fn copy_node(n: &CommandNode) -> (r: CommandNode)
    ensures
        r.view() == n.view(),
    decreases n,
{
    match n {
        CommandNode::Simple(s) => CommandNode::Simple(copy_simple(s)),
        CommandNode::FunctionDef { name, body } => CommandNode::FunctionDef {
            name: name.clone(),
            body: Box::new(copy_expr(body)),
        },
        CommandNode::Subshell(e) => CommandNode::Subshell(Box::new(copy_expr(e))),
    }
}

/// A copy of `e` with the same value.
#[verifier::loop_isolation(false)]
pub fn copy_expr(e: &ShellExpr) -> (r: ShellExpr)
    ensures
        r.view() == e.view(),
    decreases e,
{
    match e {
        ShellExpr::Command(n) => ShellExpr::Command(copy_node(n)),
        ShellExpr::Pipeline(nodes) => {
            let mut out: Vec<CommandNode> = Vec::new();
            let mut i: usize = 0;
            while i < nodes.len()
                invariant
                    0 <= i <= nodes@.len(),
                    out@.len() == i,
                    forall|k: int| 0 <= k < i ==> (#[trigger] out@[k]).view() == nodes@[k].view(),
                decreases nodes@.len() - i,
            {
                proof {
                    broadcast use vstd::std_specs::vec::group_vec_axioms;
                    assert(decreases_to!(*nodes => nodes[i as int]));
                }
                out.push(copy_node(&nodes[i]));
                i += 1;
            }
            let r = ShellExpr::Pipeline(out);
            assert(r.view() matches ExprV::Pipeline(s) && e.view() matches ExprV::Pipeline(t) && s =~= t);
            r
        },
        ShellExpr::BooleanChain { first, rest } => {
            let f = copy_expr(first);
            let mut out: Vec<(BoolOp, ShellExpr)> = Vec::new();
            let mut i: usize = 0;
            while i < rest.len()
                invariant
                    0 <= i <= rest@.len(),
                    out@.len() == i,
                    forall|k: int|
                        0 <= k < i ==> (#[trigger] out@[k]).0 == rest@[k].0 && out@[k].1.view()
                            == rest@[k].1.view(),
                decreases rest@.len() - i,
            {
                proof {
                    broadcast use vstd::std_specs::vec::group_vec_axioms;
                    assert(decreases_to!(*rest => rest[i as int]));
                }
                let (op, sub) = &rest[i];
                out.push((*op, copy_expr(sub)));
                i += 1;
            }
            let r = ShellExpr::BooleanChain { first: Box::new(f), rest: out };
            assert(r.view() matches ExprV::BooleanChain { rest: s, .. } && e.view() matches ExprV::BooleanChain { rest: t, .. } && s =~= t);
            r
        },
        ShellExpr::Sequence(exprs) => {
            let mut out: Vec<ShellExpr> = Vec::new();
            let mut i: usize = 0;
            while i < exprs.len()
                invariant
                    0 <= i <= exprs@.len(),
                    out@.len() == i,
                    forall|k: int| 0 <= k < i ==> (#[trigger] out@[k]).view() == exprs@[k].view(),
                decreases exprs@.len() - i,
            {
                proof {
                    broadcast use vstd::std_specs::vec::group_vec_axioms;
                    assert(decreases_to!(*exprs => exprs[i as int]));
                }
                out.push(copy_expr(&exprs[i]));
                i += 1;
            }
            let r = ShellExpr::Sequence(out);
            assert(r.view() matches ExprV::Sequence(s) && e.view() matches ExprV::Sequence(t) && s =~= t);
            r
        },
    }
}

} // verus!
