//! What the shell remembers between commands: variables, the working
//! directory, the last status, history, aliases, functions, jobs, and the
//! functions being run.
use vstd::prelude::*;
use std::path::PathBuf;

use crate::ast::{copy_expr, ExprV, ShellExpr};
use crate::jobs::Jobs;
use crate::shell::types::ExitCode;
use crate::table::{
    find_name, insert_pos, lemma_find_name, lemma_insert_pos, lemma_remove_sorted,
    lemma_set_sorted, lemma_sorted_position, sorted_names, str_lt, table_get, table_remove,
    table_set,
};
use crate::text::str_eq;

verus! {

#[verifier::external_type_specification]
#[verifier::external_body]
pub struct ExPathBuf(std::path::PathBuf);

/// The most functions that may run inside one another.
pub const MAX_FUNCTION_DEPTH: usize = 64;

pub open spec fn strings_view(v: Seq<String>) -> Seq<Seq<char>> {
    v.map_values(|s: String| s@)
}

pub open spec fn text_pairs(v: Seq<(String, String)>) -> Seq<(Seq<char>, Seq<char>)> {
    v.map_values(|e: (String, String)| (e.0@, e.1@))
}

pub open spec fn function_pairs(v: Seq<(String, ShellExpr)>) -> Seq<(Seq<char>, ExprV)> {
    v.map_values(|e: (String, ShellExpr)| (e.0@, e.1.view()))
}

/// Where `k` goes in the text table `v`.
fn text_insert_position(v: &Vec<(String, String)>, k: &str) -> (p: usize)
    ensures
        p == insert_pos(text_pairs(v@), k@, 0),
{
    let ghost s = text_pairs(v@);
    let mut i: usize = 0;
    while i < v.len() && str_lt(v[i].0.as_str(), k)
        invariant
            0 <= i <= v@.len(),
            s == text_pairs(v@),
            insert_pos(s, k@, i as int) == insert_pos(s, k@, 0),
        decreases v@.len() - i,
    {
        i += 1;
    }
    i
}

/// Where name `k` is in the text table `v`.
fn text_find(v: &Vec<(String, String)>, k: &str) -> (r: Option<usize>)
    ensures
        match r {
            Some(j) => find_name(text_pairs(v@), k@, 0) == Some(j as int),
            None => find_name(text_pairs(v@), k@, 0) is None,
        },
{
    let ghost s = text_pairs(v@);
    let mut i: usize = 0;
    while i < v.len()
        invariant
            0 <= i <= v@.len(),
            s == text_pairs(v@),
            find_name(s, k@, i as int) == find_name(s, k@, 0),
        decreases v@.len() - i,
    {
        if str_eq(v[i].0.as_str(), k) {
            return Some(i);
        }
        i += 1;
    }
    None
}

/// Files `val` under `k` in the text table `v`.
fn text_set(v: &mut Vec<(String, String)>, k: &str, val: &str)
    requires
        sorted_names(text_pairs(old(v)@)),
    ensures
        text_pairs(final(v)@) == table_set(text_pairs(old(v)@), k@, val@),
        sorted_names(text_pairs(final(v)@)),
{
    let ghost s = text_pairs(v@);
    let p = text_insert_position(v, k);
    proof {
        lemma_insert_pos(s, k@, 0);
        lemma_set_sorted(s, k@, val@);
    }
    let entry = (k.to_string(), val.to_string());
    if p < v.len() && str_eq(v[p].0.as_str(), k) {
        v.set(p, entry);
        assert(text_pairs(v@) =~= s.update(p as int, (k@, val@)));
    } else {
        v.insert(p, entry);
        assert(text_pairs(v@) =~= s.insert(p as int, (k@, val@)));
    }
}

/// Takes name `k` out of the text table `v`, giving its value.
fn text_remove(v: &mut Vec<(String, String)>, k: &str) -> (r: Option<String>)
    requires
        sorted_names(text_pairs(old(v)@)),
    ensures
        text_pairs(final(v)@) == table_remove(text_pairs(old(v)@), k@),
        sorted_names(text_pairs(final(v)@)),
        match r {
            Some(x) => table_get(text_pairs(old(v)@), k@) == Some(x@),
            None => table_get(text_pairs(old(v)@), k@) is None,
        },
{
    let ghost s = text_pairs(v@);
    proof {
        lemma_remove_sorted(s, k@);
        lemma_find_name(s, k@, 0);
    }
    match text_find(v, k) {
        Some(j) => {
            let (_, x) = v.remove(j);
            assert(text_pairs(v@) =~= s.remove(j as int));
            Some(x)
        },
        None => None,
    }
}

/// The value filed under `k` in the text table `v`.
fn text_get<'a>(v: &'a Vec<(String, String)>, k: &str) -> (r: Option<&'a str>)
    ensures
        match r {
            Some(x) => table_get(text_pairs(v@), k@) == Some(x@),
            None => table_get(text_pairs(v@), k@) is None,
        },
{
    proof {
        lemma_find_name(text_pairs(v@), k@, 0);
    }
    match text_find(v, k) {
        Some(j) => Some(v[j].1.as_str()),
        None => None,
    }
}

/// The commands entered, oldest first, and the file they are kept in.
#[derive(Debug)]
pub struct HistoryState {
    path: PathBuf,
    entries: Vec<String>,
}

impl HistoryState {
    pub closed spec fn view(&self) -> Seq<Seq<char>> {
        strings_view(self.entries@)
    }

    pub closed spec fn file(&self) -> PathBuf {
        self.path
    }

    pub fn new(path: PathBuf) -> (r: Self)
        ensures
            r.file() == path,
            r.view() == Seq::<Seq<char>>::empty(),
    {
        let r = HistoryState { path, entries: Vec::new() };
        assert(r.view() =~= Seq::<Seq<char>>::empty());
        r
    }

    pub fn path(&self) -> (r: &PathBuf)
        ensures
            *r == self.file(),
    {
        &self.path
    }

    pub fn entries(&self) -> (r: &[String])
        ensures
            strings_view(r@) == self.view(),
    {
        self.entries.as_slice()
    }

    pub fn set_entries(&mut self, entries: Vec<String>)
        ensures
            final(self).view() == strings_view(entries@),
            final(self).file() == old(self).file(),
    {
        self.entries = entries;
    }

    /// Appends a command.
    pub fn push(&mut self, entry: &str)
        ensures
            final(self).view() == old(self).view().push(entry@),
            final(self).file() == old(self).file(),
    {
        self.entries.push(entry.to_string());
        assert(strings_view(self.entries@) =~= old(self).view().push(entry@));
    }
}

/// Aliases, kept in order of name.
#[derive(Debug)]
pub struct AliasStore {
    aliases: Vec<(String, String)>,
}

impl AliasStore {
    pub closed spec fn view(&self) -> Seq<(Seq<char>, Seq<char>)> {
        text_pairs(self.aliases@)
    }

    /// Each name at most once, in increasing order.
    pub open spec fn wf(&self) -> bool {
        sorted_names(self.view())
    }

    pub fn new() -> (r: Self)
        ensures
            r.wf(),
            r.view() == Seq::<(Seq<char>, Seq<char>)>::empty(),
    {
        let r = AliasStore { aliases: Vec::new() };
        assert(r.view() =~= Seq::<(Seq<char>, Seq<char>)>::empty());
        r
    }

    /// The text that alias `name` stands for.
    pub fn get(&self, name: &str) -> (r: Option<&str>)
        ensures
            match r {
                Some(x) => table_get(self.view(), name@) == Some(x@),
                None => table_get(self.view(), name@) is None,
            },
    {
        text_get(&self.aliases, name)
    }

    /// Makes `name` stand for `value`.
    pub fn set(&mut self, name: &str, value: &str)
        requires
            old(self).wf(),
        ensures
            final(self).wf(),
            final(self).view() == table_set(old(self).view(), name@, value@),
    {
        text_set(&mut self.aliases, name, value);
    }

    /// Forgets alias `name`, giving what it stood for.
    pub fn remove(&mut self, name: &str) -> (r: Option<String>)
        requires
            old(self).wf(),
        ensures
            final(self).wf(),
            final(self).view() == table_remove(old(self).view(), name@),
            match r {
                Some(x) => table_get(old(self).view(), name@) == Some(x@),
                None => table_get(old(self).view(), name@) is None,
            },
    {
        text_remove(&mut self.aliases, name)
    }

    /// The aliases in increasing order of name.
    pub fn entries(&self) -> (r: Vec<(&str, &str)>)
        ensures
            r@.len() == self.view().len(),
            forall|i: int|
                0 <= i < r@.len() ==> (#[trigger] r@[i]).0@ == self.view()[i].0 && r@[i].1@
                    == self.view()[i].1,
    {
        let mut out: Vec<(&str, &str)> = Vec::new();
        let mut i: usize = 0;
        while i < self.aliases.len()
            invariant
                0 <= i <= self.aliases@.len(),
                out@.len() == i,
                forall|j: int|
                    0 <= j < i ==> (#[trigger] out@[j]).0@ == self.view()[j].0 && out@[j].1@
                        == self.view()[j].1,
            decreases self.aliases@.len() - i,
        {
            let (n, v) = &self.aliases[i];
            out.push((n.as_str(), v.as_str()));
            i += 1;
        }
        out
    }
}

impl Default for AliasStore {
    fn default() -> (r: Self)
        ensures
            r.wf(),
            r.view() == Seq::<(Seq<char>, Seq<char>)>::empty(),
    {
        AliasStore::new()
    }
}

/// Shell functions, kept in order of name.
#[derive(Debug)]
pub struct FunctionStore {
    functions: Vec<(String, ShellExpr)>,
}

impl FunctionStore {
    pub closed spec fn view(&self) -> Seq<(Seq<char>, ExprV)> {
        function_pairs(self.functions@)
    }

    /// Each name at most once, in increasing order.
    pub open spec fn wf(&self) -> bool {
        sorted_names(self.view())
    }

    pub fn new() -> (r: Self)
        ensures
            r.wf(),
            r.view() == Seq::<(Seq<char>, ExprV)>::empty(),
    {
        let r = FunctionStore { functions: Vec::new() };
        assert(r.view() =~= Seq::<(Seq<char>, ExprV)>::empty());
        r
    }

    fn find(&self, name: &str) -> (r: Option<usize>)
        ensures
            match r {
                Some(j) => find_name(self.view(), name@, 0) == Some(j as int),
                None => find_name(self.view(), name@, 0) is None,
            },
    {
        let ghost s = self.view();
        let mut i: usize = 0;
        while i < self.functions.len()
            invariant
                0 <= i <= self.functions@.len(),
                s == self.view(),
                find_name(s, name@, i as int) == find_name(s, name@, 0),
            decreases self.functions@.len() - i,
        {
            if str_eq(self.functions[i].0.as_str(), name) {
                return Some(i);
            }
            i += 1;
        }
        None
    }

    /// The body of function `name`.
    pub fn get(&self, name: &str) -> (r: Option<&ShellExpr>)
        ensures
            match r {
                Some(x) => table_get(self.view(), name@) == Some(x.view()),
                None => table_get(self.view(), name@) is None,
            },
    {
        proof {
            lemma_find_name(self.view(), name@, 0);
        }
        match self.find(name) {
            Some(j) => Some(&self.functions[j].1),
            None => None,
        }
    }

    /// Defines function `name` with `body`.
    pub fn set(&mut self, name: &str, body: ShellExpr)
        requires
            old(self).wf(),
        ensures
            final(self).wf(),
            final(self).view() == table_set(old(self).view(), name@, body.view()),
    {
        let ghost s = self.view();
        let ghost bv = body.view();
        let mut p: usize = 0;
        while p < self.functions.len() && str_lt(self.functions[p].0.as_str(), name)
            invariant
                0 <= p <= self.functions@.len(),
                s == function_pairs(self.functions@),
                insert_pos(s, name@, p as int) == insert_pos(s, name@, 0),
            decreases self.functions@.len() - p,
        {
            p += 1;
        }
        proof {
            lemma_insert_pos(s, name@, 0);
            lemma_set_sorted(s, name@, bv);
        }
        let same = p < self.functions.len() && str_eq(self.functions[p].0.as_str(), name);
        let entry = (name.to_string(), body);
        if same {
            self.functions.set(p, entry);
            assert(self.view() =~= s.update(p as int, (name@, bv)));
        } else {
            self.functions.insert(p, entry);
            assert(self.view() =~= s.insert(p as int, (name@, bv)));
        }
    }

    /// Forgets function `name`, giving its body.
    pub fn remove(&mut self, name: &str) -> (r: Option<ShellExpr>)
        requires
            old(self).wf(),
        ensures
            final(self).wf(),
            final(self).view() == table_remove(old(self).view(), name@),
            match r {
                Some(x) => table_get(old(self).view(), name@) == Some(x.view()),
                None => table_get(old(self).view(), name@) is None,
            },
    {
        let ghost s = self.view();
        proof {
            lemma_remove_sorted(s, name@);
            lemma_find_name(s, name@, 0);
        }
        match self.find(name) {
            Some(j) => {
                let (_, x) = self.functions.remove(j);
                assert(self.view() =~= s.remove(j as int));
                Some(x)
            },
            None => None,
        }
    }

    /// The names of the functions, in increasing order.
    pub fn names(&self) -> (r: Vec<String>)
        ensures
            r@.len() == self.view().len(),
            forall|i: int| 0 <= i < r@.len() ==> (#[trigger] r@[i])@ == self.view()[i].0,
    {
        let mut out: Vec<String> = Vec::new();
        let mut i: usize = 0;
        while i < self.functions.len()
            invariant
                0 <= i <= self.functions@.len(),
                out@.len() == i,
                forall|j: int| 0 <= j < i ==> (#[trigger] out@[j])@ == self.view()[j].0,
            decreases self.functions@.len() - i,
        {
            out.push(self.functions[i].0.clone());
            i += 1;
        }
        out
    }
}

impl Default for FunctionStore {
    fn default() -> (r: Self)
        ensures
            r.wf(),
            r.view() == Seq::<(Seq<char>, ExprV)>::empty(),
    {
        FunctionStore::new()
    }
}

/// The shell's state.
#[derive(Debug)]
pub struct ShellState {
    env: Vec<(String, String)>,
    cwd: PathBuf,
    last_exit_status: ExitCode,
    history: HistoryState,
    aliases: AliasStore,
    functions: FunctionStore,
    jobs: Jobs,
    active_functions: Vec<String>,
}

impl ShellState {
    /// The variables, in increasing order of name.
    pub closed spec fn env_view(&self) -> Seq<(Seq<char>, Seq<char>)> {
        text_pairs(self.env@)
    }

    pub closed spec fn cwd_view(&self) -> PathBuf {
        self.cwd
    }

    pub closed spec fn status_view(&self) -> ExitCode {
        self.last_exit_status
    }

    pub closed spec fn history_view(&self) -> HistoryState {
        self.history
    }

    pub closed spec fn aliases_view(&self) -> AliasStore {
        self.aliases
    }

    pub closed spec fn functions_view(&self) -> FunctionStore {
        self.functions
    }

    pub closed spec fn jobs_view(&self) -> Jobs {
        self.jobs
    }

    /// The functions being run, outermost first.
    pub closed spec fn active_view(&self) -> Seq<Seq<char>> {
        strings_view(self.active_functions@)
    }

    /// The state's invariant: its tables are sorted and its job table well
    /// formed.
    pub open spec fn wf(&self) -> bool {
        &&& sorted_names(self.env_view())
        &&& self.aliases_view().wf()
        &&& self.functions_view().wf()
        &&& self.jobs_view().wf()
    }

    /// A state with the variables `env` (a later pair for a name wins), the
    /// working directory `cwd`, and history kept in `history_path`.
    pub fn new(env: Vec<(String, String)>, cwd: PathBuf, history_path: PathBuf) -> (r: Self)
        ensures
            r.wf(),
            r.env_view() == table_from_pairs(text_pairs(env@)),
            r.cwd_view() == cwd,
            r.status_view() == ExitCode(0),
            r.history_view().file() == history_path,
            r.history_view().view() == Seq::<Seq<char>>::empty(),
            r.aliases_view().view() == Seq::<(Seq<char>, Seq<char>)>::empty(),
            r.functions_view().view() == Seq::<(Seq<char>, ExprV)>::empty(),
            r.jobs_view().view().jobs == Map::<u32, crate::jobs::JobV>::empty(),
            r.active_view() == Seq::<Seq<char>>::empty(),
    {
        let mut table: Vec<(String, String)> = Vec::new();
        let ghost src = text_pairs(env@);
        assert(text_pairs(table@) =~= Seq::<(Seq<char>, Seq<char>)>::empty());
        let mut i: usize = 0;
        while i < env.len()
            invariant
                0 <= i <= env@.len(),
                src == text_pairs(env@),
                sorted_names(text_pairs(table@)),
                text_pairs(table@) == table_from_pairs(src.subrange(0, i as int)),
            decreases env@.len() - i,
        {
            let (k, v) = &env[i];
            text_set(&mut table, k.as_str(), v.as_str());
            assert(src.subrange(0, i + 1).drop_last() =~= src.subrange(0, i as int));
            i += 1;
        }
        assert(src.subrange(0, env@.len() as int) =~= src);
        let r = ShellState {
            env: table,
            cwd,
            last_exit_status: ExitCode(0),
            history: HistoryState::new(history_path),
            aliases: AliasStore::new(),
            functions: FunctionStore::new(),
            jobs: Jobs::new(),
            active_functions: Vec::new(),
        };
        assert(r.active_view() =~= Seq::<Seq<char>>::empty());
        r
    }

    /// The variables in increasing order of name.
    pub fn env(&self) -> (r: &[(String, String)])
        ensures
            text_pairs(r@) == self.env_view(),
    {
        self.env.as_slice()
    }

    pub fn env_var(&self, key: &str) -> (r: Option<&str>)
        ensures
            match r {
                Some(x) => table_get(self.env_view(), key@) == Some(x@),
                None => table_get(self.env_view(), key@) is None,
            },
    {
        text_get(&self.env, key)
    }

    pub fn set_env_var(&mut self, key: &str, value: &str)
        requires
            old(self).wf(),
        ensures
            final(self).wf(),
            final(self).env_view() == table_set(old(self).env_view(), key@, value@),
            final(self).same_but_env(*old(self)),
    {
        text_set(&mut self.env, key, value);
    }

    pub fn remove_env_var(&mut self, key: &str) -> (r: Option<String>)
        requires
            old(self).wf(),
        ensures
            final(self).wf(),
            final(self).env_view() == table_remove(old(self).env_view(), key@),
            final(self).same_but_env(*old(self)),
            match r {
                Some(x) => table_get(old(self).env_view(), key@) == Some(x@),
                None => table_get(old(self).env_view(), key@) is None,
            },
    {
        text_remove(&mut self.env, key)
    }

    /// Whether everything but the variables is as in `other`.
    pub open spec fn same_but_env(&self, other: ShellState) -> bool {
        &&& self.cwd_view() == other.cwd_view()
        &&& self.status_view() == other.status_view()
        &&& self.history_view() == other.history_view()
        &&& self.aliases_view() == other.aliases_view()
        &&& self.functions_view() == other.functions_view()
        &&& self.jobs_view() == other.jobs_view()
        &&& self.active_view() == other.active_view()
    }

    pub fn cwd(&self) -> (r: &PathBuf)
        ensures
            *r == self.cwd_view(),
    {
        &self.cwd
    }

    pub fn set_cwd(&mut self, cwd: PathBuf)
        ensures
            final(self).cwd_view() == cwd,
            final(self).env_view() == old(self).env_view(),
            final(self).status_view() == old(self).status_view(),
            final(self).history_view() == old(self).history_view(),
            final(self).aliases_view() == old(self).aliases_view(),
            final(self).functions_view() == old(self).functions_view(),
            final(self).jobs_view() == old(self).jobs_view(),
            final(self).active_view() == old(self).active_view(),
    {
        self.cwd = cwd;
    }

    pub fn last_exit_status(&self) -> (r: ExitCode)
        ensures
            r == self.status_view(),
    {
        self.last_exit_status
    }

    pub fn set_last_exit_status(&mut self, exit_code: ExitCode)
        ensures
            final(self).status_view() == exit_code,
            final(self).env_view() == old(self).env_view(),
            final(self).cwd_view() == old(self).cwd_view(),
            final(self).history_view() == old(self).history_view(),
            final(self).aliases_view() == old(self).aliases_view(),
            final(self).functions_view() == old(self).functions_view(),
            final(self).jobs_view() == old(self).jobs_view(),
            final(self).active_view() == old(self).active_view(),
    {
        self.last_exit_status = exit_code;
    }

    pub fn history(&self) -> (r: &HistoryState)
        ensures
            *r == self.history_view(),
    {
        &self.history
    }

    pub fn history_mut(&mut self) -> (r: &mut HistoryState)
        ensures
            *r == old(self).history_view(),
            final(self).history_view() == *final(r),
            final(self).env_view() == old(self).env_view(),
            final(self).cwd_view() == old(self).cwd_view(),
            final(self).status_view() == old(self).status_view(),
            final(self).aliases_view() == old(self).aliases_view(),
            final(self).functions_view() == old(self).functions_view(),
            final(self).jobs_view() == old(self).jobs_view(),
            final(self).active_view() == old(self).active_view(),
    {
        &mut self.history
    }

    pub fn aliases(&self) -> (r: &AliasStore)
        ensures
            *r == self.aliases_view(),
    {
        &self.aliases
    }

    pub fn aliases_mut(&mut self) -> (r: &mut AliasStore)
        ensures
            *r == old(self).aliases_view(),
            final(self).aliases_view() == *final(r),
            final(self).env_view() == old(self).env_view(),
            final(self).cwd_view() == old(self).cwd_view(),
            final(self).status_view() == old(self).status_view(),
            final(self).history_view() == old(self).history_view(),
            final(self).functions_view() == old(self).functions_view(),
            final(self).jobs_view() == old(self).jobs_view(),
            final(self).active_view() == old(self).active_view(),
    {
        &mut self.aliases
    }

    pub fn functions(&self) -> (r: &FunctionStore)
        ensures
            *r == self.functions_view(),
    {
        &self.functions
    }

    pub fn functions_mut(&mut self) -> (r: &mut FunctionStore)
        ensures
            *r == old(self).functions_view(),
            final(self).functions_view() == *final(r),
            final(self).env_view() == old(self).env_view(),
            final(self).cwd_view() == old(self).cwd_view(),
            final(self).status_view() == old(self).status_view(),
            final(self).history_view() == old(self).history_view(),
            final(self).aliases_view() == old(self).aliases_view(),
            final(self).jobs_view() == old(self).jobs_view(),
            final(self).active_view() == old(self).active_view(),
    {
        &mut self.functions
    }

    pub fn jobs(&self) -> (r: &Jobs)
        ensures
            *r == self.jobs_view(),
    {
        &self.jobs
    }

    pub fn jobs_mut(&mut self) -> (r: &mut Jobs)
        ensures
            *r == old(self).jobs_view(),
            final(self).jobs_view() == *final(r),
            final(self).env_view() == old(self).env_view(),
            final(self).cwd_view() == old(self).cwd_view(),
            final(self).status_view() == old(self).status_view(),
            final(self).history_view() == old(self).history_view(),
            final(self).aliases_view() == old(self).aliases_view(),
            final(self).functions_view() == old(self).functions_view(),
            final(self).active_view() == old(self).active_view(),
    {
        &mut self.jobs
    }

    /// Whether function `name` may start: it is not already running, and
    /// fewer than `MAX_FUNCTION_DEPTH` functions are.
    pub fn can_enter_function(&self, name: &str) -> (b: bool)
        ensures
            b == (!self.active_view().contains(name@) && self.active_view().len()
                < MAX_FUNCTION_DEPTH),
    {
        let ghost a = self.active_view();
        let mut i: usize = 0;
        while i < self.active_functions.len()
            invariant
                0 <= i <= self.active_functions@.len(),
                a == self.active_view(),
                forall|j: int| 0 <= j < i ==> a[j] != name@,
            decreases self.active_functions@.len() - i,
        {
            if str_eq(self.active_functions[i].as_str(), name) {
                assert(a[i as int] == name@);
                return false;
            }
            i += 1;
        }
        self.active_functions.len() < MAX_FUNCTION_DEPTH
    }

    /// Notes that function `name` has started.
    pub fn enter_function(&mut self, name: &str)
        ensures
            final(self).active_view() == old(self).active_view().push(name@),
            final(self).env_view() == old(self).env_view(),
            final(self).cwd_view() == old(self).cwd_view(),
            final(self).status_view() == old(self).status_view(),
            final(self).history_view() == old(self).history_view(),
            final(self).aliases_view() == old(self).aliases_view(),
            final(self).functions_view() == old(self).functions_view(),
            final(self).jobs_view() == old(self).jobs_view(),
    {
        self.active_functions.push(name.to_string());
        assert(self.active_view() =~= old(self).active_view().push(name@));
    }

    /// Notes that the innermost running function has returned.
    pub fn exit_function(&mut self)
        ensures
            final(self).active_view() == if old(self).active_view().len() == 0 {
                old(self).active_view()
            } else {
                old(self).active_view().drop_last()
            },
            final(self).env_view() == old(self).env_view(),
            final(self).cwd_view() == old(self).cwd_view(),
            final(self).status_view() == old(self).status_view(),
            final(self).history_view() == old(self).history_view(),
            final(self).aliases_view() == old(self).aliases_view(),
            final(self).functions_view() == old(self).functions_view(),
            final(self).jobs_view() == old(self).jobs_view(),
    {
        let _ = self.active_functions.pop();
        assert(self.active_view() =~= if old(self).active_view().len() == 0 {
            old(self).active_view()
        } else {
            old(self).active_view().drop_last()
        });
    }
}

fn copy_text_pairs(v: &Vec<(String, String)>) -> (r: Vec<(String, String)>)
    ensures
        text_pairs(r@) == text_pairs(v@),
{
    let mut out: Vec<(String, String)> = Vec::new();
    let mut i: usize = 0;
    while i < v.len()
        invariant
            0 <= i <= v@.len(),
            out@.len() == i,
            forall|k: int| 0 <= k < i ==> #[trigger] out@[k].0@ == v@[k].0@ && out@[k].1@ == v@[k].1@,
        decreases v@.len() - i,
    {
        out.push((v[i].0.clone(), v[i].1.clone()));
        i += 1;
    }
    assert(text_pairs(out@) =~= text_pairs(v@));
    out
}

fn copy_strings(v: &Vec<String>) -> (r: Vec<String>)
    ensures
        strings_view(r@) == strings_view(v@),
{
    let mut out: Vec<String> = Vec::new();
    let mut i: usize = 0;
    while i < v.len()
        invariant
            0 <= i <= v@.len(),
            out@.len() == i,
            forall|k: int| 0 <= k < i ==> #[trigger] out@[k]@ == v@[k]@,
        decreases v@.len() - i,
    {
        out.push(v[i].clone());
        i += 1;
    }
    assert(strings_view(out@) =~= strings_view(v@));
    out
}

fn copy_function_pairs(v: &Vec<(String, ShellExpr)>) -> (r: Vec<(String, ShellExpr)>)
    ensures
        function_pairs(r@) == function_pairs(v@),
{
    let mut out: Vec<(String, ShellExpr)> = Vec::new();
    let mut i: usize = 0;
    while i < v.len()
        invariant
            0 <= i <= v@.len(),
            out@.len() == i,
            forall|k: int|
                0 <= k < i ==> #[trigger] out@[k].0@ == v@[k].0@ && out@[k].1.view() == v@[k].1.view(),
        decreases v@.len() - i,
    {
        out.push((v[i].0.clone(), copy_expr(&v[i].1)));
        i += 1;
    }
    assert(function_pairs(out@) =~= function_pairs(v@));
    out
}

impl ShellState {
    /// A separate copy of the state, for commands that must not change the
    /// shell's own (a pipeline's stages, command substitutions), working in
    /// `cwd` and keeping history in `history_path`; every table, the
    /// status and the running functions are the same as here.
    pub fn duplicate_with(&self, cwd: PathBuf, history_path: PathBuf) -> (r: ShellState)
        ensures
            self.wf() ==> r.wf(),
            r.env_view() == self.env_view(),
            r.cwd_view() == cwd,
            r.status_view() == self.status_view(),
            r.history_view().view() == self.history_view().view(),
            r.history_view().file() == history_path,
            r.aliases_view().view() == self.aliases_view().view(),
            r.functions_view().view() == self.functions_view().view(),
            r.jobs_view().view() == self.jobs_view().view(),
            r.active_view() == self.active_view(),
    {
        ShellState {
            env: copy_text_pairs(&self.env),
            cwd,
            last_exit_status: self.last_exit_status,
            history: HistoryState { path: history_path, entries: copy_strings(&self.history.entries) },
            aliases: AliasStore { aliases: copy_text_pairs(&self.aliases.aliases) },
            functions: FunctionStore { functions: copy_function_pairs(&self.functions.functions) },
            jobs: self.jobs.clone(),
            active_functions: copy_strings(&self.active_functions),
        }
    }
}

/// The table that setting the pairs of `s` in order gives.
pub open spec fn table_from_pairs(s: Seq<(Seq<char>, Seq<char>)>) -> Seq<(Seq<char>, Seq<char>)>
    decreases s.len(),
{
    if s.len() == 0 {
        Seq::empty()
    } else {
        table_set(table_from_pairs(s.drop_last()), s.last().0, s.last().1)
    }
}

} // verus!
