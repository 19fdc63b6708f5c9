//! Assignments before a command: `NAME=value cmd` sets the variables for
//! the command only. They are set before it runs and put back afterwards;
//! an assignment with no command keeps its effect.
use vstd::prelude::*;

use crate::shell::state::{text_pairs, ShellState};
use crate::table::{
    insert_pos, lemma_find_name, lemma_set_sorted, lemma_sorted_position, law_remove_undoes_set,
    sorted_names, table_get, table_remove, table_set,
};

verus! {

/// The table after setting the pairs of `ps`, one after the other.
pub open spec fn set_all(s: Seq<(Seq<char>, Seq<char>)>, ps: Seq<(Seq<char>, Seq<char>)>) -> Seq<
    (Seq<char>, Seq<char>),
>
    decreases ps.len(),
{
    if ps.len() == 0 {
        s
    } else {
        table_set(set_all(s, ps.drop_last()), ps.last().0, ps.last().1)
    }
}

/// What each name of `ps` held just before it was set.
pub open spec fn saved_before(s: Seq<(Seq<char>, Seq<char>)>, ps: Seq<(Seq<char>, Seq<char>)>) -> Seq<
    (Seq<char>, Option<Seq<char>>),
>
    decreases ps.len(),
{
    if ps.len() == 0 {
        seq![]
    } else {
        saved_before(s, ps.drop_last()).push(
            (ps.last().0, table_get(set_all(s, ps.drop_last()), ps.last().0)),
        )
    }
}

/// The table with one name given back what it held: its old value, or
/// nothing.
pub open spec fn undo_one(s: Seq<(Seq<char>, Seq<char>)>, saved: (Seq<char>, Option<Seq<char>>)) -> Seq<
    (Seq<char>, Seq<char>),
> {
    match saved.1 {
        Some(v) => table_set(s, saved.0, v),
        None => table_remove(s, saved.0),
    }
}

/// The table with the saved names given back, the last saved first.
pub open spec fn undo_all(
    s: Seq<(Seq<char>, Seq<char>)>,
    saved: Seq<(Seq<char>, Option<Seq<char>>)>,
) -> Seq<(Seq<char>, Seq<char>)>
    decreases saved.len(),
{
    if saved.len() == 0 {
        s
    } else {
        undo_all(undo_one(s, saved.last()), saved.drop_last())
    }
}

pub open spec fn saved_view(v: Seq<(String, Option<String>)>) -> Seq<(Seq<char>, Option<Seq<char>>)> {
    v.map_values(
        |e: (String, Option<String>)|
            (
                e.0@,
                match e.1 {
                    Some(x) => Some(x@),
                    None => None,
                },
            ),
    )
}

proof fn lemma_set_all_sorted(s: Seq<(Seq<char>, Seq<char>)>, ps: Seq<(Seq<char>, Seq<char>)>)
    requires
        sorted_names(s),
    ensures
        sorted_names(set_all(s, ps)),
    decreases ps.len(),
{
    if ps.len() > 0 {
        lemma_set_all_sorted(s, ps.drop_last());
        lemma_set_sorted(set_all(s, ps.drop_last()), ps.last().0, ps.last().1);
    }
}

proof fn lemma_insert_pos_by_names(
    s: Seq<(Seq<char>, Seq<char>)>,
    t: Seq<(Seq<char>, Seq<char>)>,
    k: Seq<char>,
    i: int,
)
    requires
        s.len() == t.len(),
        forall|j: int| 0 <= j < s.len() ==> #[trigger] s[j].0 == t[j].0,
    ensures
        insert_pos(s, k, i) == insert_pos(t, k, i),
    decreases s.len() - i,
{
    if 0 <= i < s.len() {
        lemma_insert_pos_by_names(s, t, k, i + 1);
    }
}

/// Setting a present name to another value and then back to the value it
/// had gives back the table.
proof fn lemma_set_back(s: Seq<(Seq<char>, Seq<char>)>, k: Seq<char>, v: Seq<char>, v0: Seq<char>)
    requires
        sorted_names(s),
        table_get(s, k) == Some(v0),
    ensures
        table_set(table_set(s, k, v), k, v0) == s,
{
    lemma_sorted_position(s, k);
    let p = insert_pos(s, k, 0);
    lemma_find_name(s, k, 0);
    assert(p < s.len() && s[p].0 == k);
    let t = table_set(s, k, v);
    assert(t == s.update(p, (k, v)));
    assert forall|j: int| 0 <= j < s.len() implies #[trigger] s[j].0 == t[j].0 by {
        if j == p {
        } else {
            assert(t[j] == s[j]);
        }
    }
    lemma_insert_pos_by_names(s, t, k, 0);
    assert(t[p].0 == k);
    assert(s[p] == (k, v0));
    assert(t.update(p, (k, v0)) =~= s);
}

/// Putting back what assignments replaced gives back the table they were
/// made on: `NAME=value cmd` leaves the variables as they were.
pub proof fn law_restoring_assignments_undoes_them(
    s: Seq<(Seq<char>, Seq<char>)>,
    ps: Seq<(Seq<char>, Seq<char>)>,
)
    requires
        sorted_names(s),
    ensures
        undo_all(set_all(s, ps), saved_before(s, ps)) == s,
    decreases ps.len(),
{
    if ps.len() > 0 {
        let rest = ps.drop_last();
        let (k, v) = ps.last();
        let m = set_all(s, rest);
        lemma_set_all_sorted(s, rest);
        let saved = saved_before(s, ps);
        assert(saved.drop_last() =~= saved_before(s, rest));
        assert(saved.last() == (k, table_get(m, k)));
        match table_get(m, k) {
            Some(v0) => {
                lemma_set_back(m, k, v, v0);
            },
            None => {
                law_remove_undoes_set(m, k, v);
            },
        }
        assert(undo_one(table_set(m, k, v), saved.last()) == m);
        law_restoring_assignments_undoes_them(s, rest);
    }
}

/// Sets the variables of `assignments` in order and gives back what each
/// name held before.
pub fn apply_assignments(state: &mut ShellState, assignments: &[(String, String)]) -> (saved: Vec<
    (String, Option<String>),
>)
    requires
        old(state).wf(),
    ensures
        final(state).wf(),
        final(state).same_but_env(*old(state)),
        final(state).env_view() == set_all(old(state).env_view(), text_pairs(assignments@)),
        saved_view(saved@) == saved_before(old(state).env_view(), text_pairs(assignments@)),
{
    let ghost s0 = state.env_view();
    let ghost ps = text_pairs(assignments@);
    let mut saved: Vec<(String, Option<String>)> = Vec::new();
    let mut i: usize = 0;
    assert(ps.subrange(0, 0) =~= Seq::<(Seq<char>, Seq<char>)>::empty());
    assert(saved_view(saved@) =~= Seq::<(Seq<char>, Option<Seq<char>>)>::empty());
    while i < assignments.len()
        invariant
            0 <= i <= assignments@.len(),
            ps == text_pairs(assignments@),
            state.wf(),
            state.same_but_env(*old(state)),
            s0 == old(state).env_view(),
            state.env_view() == set_all(s0, ps.subrange(0, i as int)),
            saved_view(saved@) == saved_before(s0, ps.subrange(0, i as int)),
        decreases assignments@.len() - i,
    {
        let (name, value) = &assignments[i];
        let ghost sub = ps.subrange(0, i + 1);
        assert(sub.drop_last() =~= ps.subrange(0, i as int));
        assert(sub.last() == (name@, value@));
        let previous = match state.env_var(name.as_str()) {
            Some(v) => Some(v.to_string()),
            None => None,
        };
        let ghost before = saved_view(saved@);
        saved.push((name.clone(), previous));
        assert(saved_view(saved@) =~= before.push(
            (name@, table_get(set_all(s0, ps.subrange(0, i as int)), name@)),
        ));
        state.set_env_var(name.as_str(), value.as_str());
        i += 1;
    }
    assert(ps.subrange(0, assignments@.len() as int) =~= ps);
    saved
}

/// Gives each saved name back what it held, the last saved first.
pub fn restore_assignments(state: &mut ShellState, saved: Vec<(String, Option<String>)>)
    requires
        old(state).wf(),
    ensures
        final(state).wf(),
        final(state).same_but_env(*old(state)),
        final(state).env_view() == undo_all(old(state).env_view(), saved_view(saved@)),
{
    let ghost sv = saved_view(saved@);
    let mut k: usize = saved.len();
    assert(sv.subrange(0, sv.len() as int) =~= sv);
    while k > 0
        invariant
            k <= saved@.len(),
            sv == saved_view(saved@),
            state.wf(),
            state.same_but_env(*old(state)),
            undo_all(state.env_view(), sv.subrange(0, k as int)) == undo_all(old(state).env_view(), sv),
        decreases k,
    {
        let ghost here = state.env_view();
        let ghost sub = sv.subrange(0, k as int);
        assert(sub.drop_last() =~= sv.subrange(0, k - 1));
        assert(sub.last() == sv[k - 1]);
        let (name, previous) = &saved[k - 1];
        match previous {
            Some(v) => {
                state.set_env_var(name.as_str(), v.as_str());
            },
            None => {
                let _ = state.remove_env_var(name.as_str());
            },
        }
        assert(state.env_view() == undo_one(here, sv[k - 1]));
        k -= 1;
    }
    assert(sv.subrange(0, 0) =~= Seq::<(Seq<char>, Option<Seq<char>>)>::empty());
}

} // verus!
