//! Name tables: entries kept in increasing order of name, each name once.
//! Aliases, functions and environment variables live in such tables.
use vstd::prelude::*;

use crate::text::chars_of;

verus! {

/// Whether `a` comes before `b` in the order of their characters' code
/// points, a proper prefix first (the order of `str`).
pub open spec fn lex_lt(a: Seq<char>, b: Seq<char>) -> bool
    decreases a.len(),
{
    if a.len() == 0 {
        b.len() > 0
    } else if b.len() == 0 {
        false
    } else if (a[0] as u32) < (b[0] as u32) {
        true
    } else if a[0] == b[0] {
        lex_lt(a.drop_first(), b.drop_first())
    } else {
        false
    }
}

pub proof fn lemma_lex_irreflexive(a: Seq<char>)
    ensures
        !lex_lt(a, a),
    decreases a.len(),
{
    if a.len() > 0 {
        lemma_lex_irreflexive(a.drop_first());
    }
}

pub proof fn lemma_lex_asymmetric(a: Seq<char>, b: Seq<char>)
    ensures
        lex_lt(a, b) ==> !lex_lt(b, a),
    decreases a.len(),
{
    if a.len() > 0 && b.len() > 0 && a[0] == b[0] {
        lemma_lex_asymmetric(a.drop_first(), b.drop_first());
    }
}

pub proof fn lemma_lex_transitive(a: Seq<char>, b: Seq<char>, c: Seq<char>)
    requires
        lex_lt(a, b),
        lex_lt(b, c),
    ensures
        lex_lt(a, c),
    decreases a.len(),
{
    if a.len() > 0 && b.len() > 0 && c.len() > 0 && a[0] == b[0] && b[0] == c[0] {
        lemma_lex_transitive(a.drop_first(), b.drop_first(), c.drop_first());
    }
}

pub proof fn lemma_lex_total(a: Seq<char>, b: Seq<char>)
    ensures
        a != b ==> lex_lt(a, b) || lex_lt(b, a),
    decreases a.len(),
{
    if a.len() > 0 && b.len() > 0 {
        if a[0] == b[0] {
            lemma_lex_total(a.drop_first(), b.drop_first());
            if a.drop_first() == b.drop_first() {
                assert(a =~= seq![a[0]] + a.drop_first());
                assert(b =~= seq![b[0]] + b.drop_first());
            }
        } else {
            vstd::utf8::char_u32_cast(a[0], a[0] as u32);
            vstd::utf8::char_u32_cast(b[0], b[0] as u32);
            assert((a[0] as u32) != (b[0] as u32));
        }
    } else if a.len() == 0 && b.len() == 0 {
        assert(a =~= b);
    }
}

/// Whether the names of `s` increase strictly.
pub open spec fn sorted_names<T>(s: Seq<(Seq<char>, T)>) -> bool {
    forall|i: int, j: int| 0 <= i < j < s.len() ==> lex_lt(#[trigger] s[i].0, #[trigger] s[j].0)
}

/// The first position at or after `i` whose name does not come before `k`.
pub open spec fn insert_pos<T>(s: Seq<(Seq<char>, T)>, k: Seq<char>, i: int) -> int
    decreases s.len() - i,
{
    if i < 0 || i >= s.len() {
        s.len() as int
    } else if !lex_lt(s[i].0, k) {
        i
    } else {
        insert_pos(s, k, i + 1)
    }
}

/// The first position at or after `i` that holds name `k`.
pub open spec fn find_name<T>(s: Seq<(Seq<char>, T)>, k: Seq<char>, i: int) -> Option<int>
    decreases s.len() - i,
{
    if i < 0 || i >= s.len() {
        None
    } else if s[i].0 == k {
        Some(i)
    } else {
        find_name(s, k, i + 1)
    }
}

/// The value filed under `k`.
pub open spec fn table_get<T>(s: Seq<(Seq<char>, T)>, k: Seq<char>) -> Option<T> {
    match find_name(s, k, 0) {
        Some(j) => Some(s[j].1),
        None => None,
    }
}

/// The table with `k` filed under `v`, in its place in the order.
pub open spec fn table_set<T>(s: Seq<(Seq<char>, T)>, k: Seq<char>, v: T) -> Seq<(Seq<char>, T)> {
    let p = insert_pos(s, k, 0);
    if p < s.len() && s[p].0 == k {
        s.update(p, (k, v))
    } else {
        s.insert(p, (k, v))
    }
}

/// The table without name `k`.
pub open spec fn table_remove<T>(s: Seq<(Seq<char>, T)>, k: Seq<char>) -> Seq<(Seq<char>, T)> {
    match find_name(s, k, 0) {
        Some(j) => s.remove(j),
        None => s,
    }
}

pub proof fn lemma_insert_pos<T>(s: Seq<(Seq<char>, T)>, k: Seq<char>, i: int)
    requires
        0 <= i <= s.len(),
    ensures
        i <= insert_pos(s, k, i) <= s.len(),
        forall|j: int| i <= j < insert_pos(s, k, i) ==> lex_lt(#[trigger] s[j].0, k),
        insert_pos(s, k, i) < s.len() ==> !lex_lt(s[insert_pos(s, k, i)].0, k),
    decreases s.len() - i,
{
    if i < s.len() && lex_lt(s[i].0, k) {
        lemma_insert_pos(s, k, i + 1);
    }
}

pub proof fn lemma_find_name<T>(s: Seq<(Seq<char>, T)>, k: Seq<char>, i: int)
    requires
        0 <= i <= s.len(),
    ensures
        match find_name(s, k, i) {
            Some(j) => i <= j < s.len() && s[j].0 == k && forall|m: int| i <= m < j ==> (#[trigger] s[m].0) != k,
            None => forall|m: int| i <= m < s.len() ==> (#[trigger] s[m].0) != k,
        },
    decreases s.len() - i,
{
    if i < s.len() && s[i].0 != k {
        lemma_find_name(s, k, i + 1);
    }
}

/// In a sorted table, everything before the insertion point of `k` comes
/// before `k`, everything after it comes after `k`, and `k` itself, if
/// present, sits at the insertion point.
pub proof fn lemma_sorted_position<T>(s: Seq<(Seq<char>, T)>, k: Seq<char>)
    requires
        sorted_names(s),
    ensures
        ({
            let p = insert_pos(s, k, 0);
            &&& 0 <= p <= s.len()
            &&& forall|j: int| 0 <= j < p ==> lex_lt(#[trigger] s[j].0, k)
            &&& forall|j: int| p < j < s.len() ==> lex_lt(k, #[trigger] s[j].0)
            &&& p < s.len() && s[p].0 != k ==> lex_lt(k, s[p].0)
            &&& find_name(s, k, 0) == if p < s.len() && s[p].0 == k {
                Some(p)
            } else {
                None::<int>
            }
        }),
{
    let p = insert_pos(s, k, 0);
    lemma_insert_pos(s, k, 0);
    lemma_find_name(s, k, 0);
    if p < s.len() {
        lemma_lex_total(s[p].0, k);
        assert forall|j: int| p < j < s.len() implies lex_lt(k, #[trigger] s[j].0) by {
            assert(lex_lt(s[p].0, s[j].0));
            if s[p].0 == k {
            } else {
                lemma_lex_transitive(k, s[p].0, s[j].0);
            }
        }
    }
    assert forall|j: int| 0 <= j < p implies s[j].0 != k by {
        assert(lex_lt(s[j].0, k));
        lemma_lex_irreflexive(k);
    }
    if p < s.len() && s[p].0 != k {
        assert forall|j: int| p < j < s.len() implies s[j].0 != k by {
            assert(lex_lt(k, s[j].0));
            lemma_lex_irreflexive(k);
        }
    }
    match find_name(s, k, 0) {
        Some(j) => {
            if j != p {
                if j > p {
                    assert(lex_lt(k, s[j].0));
                    lemma_lex_irreflexive(k);
                }
            }
        },
        None => {},
    }
}

/// Setting a name keeps a table sorted.
pub proof fn lemma_set_sorted<T>(s: Seq<(Seq<char>, T)>, k: Seq<char>, v: T)
    requires
        sorted_names(s),
    ensures
        sorted_names(table_set(s, k, v)),
{
    lemma_sorted_position(s, k);
    let p = insert_pos(s, k, 0);
    let t = table_set(s, k, v);
    assert forall|i: int, j: int| 0 <= i < j < t.len() implies lex_lt(#[trigger] t[i].0, #[trigger] t[j].0) by {
        if p < s.len() && s[p].0 == k {
            assert(t[i].0 == s[i].0 && t[j].0 == s[j].0);
        } else {
            if i < p && j < p {
            } else if i < p && j == p {
            } else if i < p && j > p {
                assert(t[j] == s[j - 1]);
                if j - 1 == p {
                } else {
                    lemma_lex_transitive(t[i].0, k, t[j].0);
                }
            } else if i == p {
                assert(t[j] == s[j - 1]);
            } else {
                assert(t[i] == s[i - 1] && t[j] == s[j - 1]);
            }
        }
    }
}

/// Removing a name keeps a table sorted.
pub proof fn lemma_remove_sorted<T>(s: Seq<(Seq<char>, T)>, k: Seq<char>)
    requires
        sorted_names(s),
    ensures
        sorted_names(table_remove(s, k)),
{
    lemma_find_name(s, k, 0);
    let t = table_remove(s, k);
    match find_name(s, k, 0) {
        Some(q) => {
            assert forall|i: int, j: int| 0 <= i < j < t.len() implies lex_lt(#[trigger] t[i].0, #[trigger] t[j].0) by {
                let a = if i < q { i } else { i + 1 };
                let b = if j < q { j } else { j + 1 };
                assert(t[i] == s[a] && t[j] == s[b]);
            }
        },
        None => {},
    }
}

/// A name set in a table is found there with the value it was set to.
pub proof fn law_get_after_set<T>(s: Seq<(Seq<char>, T)>, k: Seq<char>, v: T)
    requires
        sorted_names(s),
    ensures
        table_get(table_set(s, k, v), k) == Some(v),
{
    lemma_sorted_position(s, k);
    lemma_set_sorted(s, k, v);
    let t = table_set(s, k, v);
    lemma_sorted_position(t, k);
    lemma_insert_pos(t, k, 0);
    let p = insert_pos(s, k, 0);
    assert(t[p].0 == k);
    let q = insert_pos(t, k, 0);
    if q < p {
        assert(lex_lt(t[q].0, k) == false);
        assert(t[q] == s[q]);
    }
    if q > p {
        assert(lex_lt(t[p].0, k));
        lemma_lex_irreflexive(k);
    }
}

/// Setting one name leaves every other name's value as it was.
pub proof fn law_set_keeps_other_names<T>(s: Seq<(Seq<char>, T)>, k: Seq<char>, v: T, other: Seq<char>)
    requires
        sorted_names(s),
        other != k,
    ensures
        table_get(table_set(s, k, v), other) == table_get(s, other),
{
    let t = table_set(s, k, v);
    let p = insert_pos(s, k, 0);
    lemma_sorted_position(s, k);
    lemma_find_name(s, other, 0);
    lemma_find_name(t, other, 0);
    match find_name(s, other, 0) {
        Some(j) => {
            match find_name(t, other, 0) {
                Some(m) => {
                    if p < s.len() && s[p].0 == k {
                        if m < j {
                            assert(t[m] == s[m]);
                        } else if m > j {
                            assert(t[j] == s[j]);
                        }
                    } else {
                        let j2 = if j < p { j } else { j + 1 };
                        assert(t[j2] == s[j]);
                        if m < j2 {
                            if m < p {
                                assert(t[m] == s[m]);
                            } else if m > p {
                                assert(t[m] == s[m - 1]);
                            }
                        }
                    }
                },
                None => {
                    if p < s.len() && s[p].0 == k {
                        assert(t[j] == s[j]);
                    } else {
                        let j2 = if j < p { j } else { j + 1 };
                        assert(t[j2] == s[j]);
                    }
                },
            }
        },
        None => {
            match find_name(t, other, 0) {
                Some(m) => {
                    if p < s.len() && s[p].0 == k {
                        assert(t[m] == s[m] || m == p);
                    } else {
                        if m < p {
                            assert(t[m] == s[m]);
                        } else if m > p {
                            assert(t[m] == s[m - 1]);
                        }
                    }
                },
                None => {},
            }
        },
    }
}

/// A removed name is gone.
pub proof fn law_get_after_remove<T>(s: Seq<(Seq<char>, T)>, k: Seq<char>)
    requires
        sorted_names(s),
    ensures
        table_get(table_remove(s, k), k) is None,
{
    lemma_find_name(s, k, 0);
    let t = table_remove(s, k);
    lemma_find_name(t, k, 0);
    match find_name(s, k, 0) {
        Some(q) => {
            match find_name(t, k, 0) {
                Some(m) => {
                    let a = if m < q { m } else { m + 1 };
                    assert(t[m] == s[a]);
                    if a != q {
                        lemma_lex_irreflexive(k);
                        if a < q {
                            assert(lex_lt(s[a].0, s[q].0));
                        } else {
                            assert(lex_lt(s[q].0, s[a].0));
                        }
                    }
                },
                None => {},
            }
        },
        None => {},
    }
}

/// Removing one name leaves every other name's value as it was.
pub proof fn law_remove_keeps_other_names<T>(s: Seq<(Seq<char>, T)>, k: Seq<char>, other: Seq<char>)
    requires
        sorted_names(s),
        other != k,
    ensures
        table_get(table_remove(s, k), other) == table_get(s, other),
{
    lemma_find_name(s, k, 0);
    lemma_find_name(s, other, 0);
    let t = table_remove(s, k);
    lemma_find_name(t, other, 0);
    match find_name(s, k, 0) {
        Some(q) => {
            match find_name(s, other, 0) {
                Some(j) => {
                    let j2 = if j < q { j } else { j - 1 };
                    assert(t[j2] == s[j]);
                    match find_name(t, other, 0) {
                        Some(m) => {
                            let a = if m < q { m } else { m + 1 };
                            assert(t[m] == s[a]);
                        },
                        None => {},
                    }
                },
                None => {
                    match find_name(t, other, 0) {
                        Some(m) => {
                            let a = if m < q { m } else { m + 1 };
                            assert(t[m] == s[a]);
                        },
                        None => {},
                    }
                },
            }
        },
        None => {},
    }
}

/// Setting a name that was absent and then removing it gives back the
/// table as it was.
pub proof fn law_remove_undoes_set<T>(s: Seq<(Seq<char>, T)>, k: Seq<char>, v: T)
    requires
        sorted_names(s),
        table_get(s, k) is None,
    ensures
        table_remove(table_set(s, k, v), k) == s,
{
    lemma_sorted_position(s, k);
    lemma_set_sorted(s, k, v);
    let p = insert_pos(s, k, 0);
    let t = table_set(s, k, v);
    lemma_find_name(t, k, 0);
    assert(t[p].0 == k);
    match find_name(t, k, 0) {
        Some(m) => {
            if m < p {
                assert(t[m] == s[m]);
                lemma_lex_irreflexive(k);
            }
            assert(m == p);
            assert(!(p < s.len() && s[p].0 == k));
            assert(t == s.insert(p, (k, v)));
            assert(t.remove(p) =~= s);
        },
        None => {},
    }
}

/// `a` before `b` in the order of `str`.
pub fn str_lt(a: &str, b: &str) -> (r: bool)
    ensures
        r == lex_lt(a@, b@),
{
    let x = chars_of(a);
    let y = chars_of(b);
    let mut i: usize = 0;
    assert(x@.subrange(0, x@.len() as int) =~= x@);
    assert(y@.subrange(0, y@.len() as int) =~= y@);
    while i < x.len() && i < y.len() && x[i] == y[i]
        invariant
            0 <= i <= x@.len(),
            i <= y@.len(),
            lex_lt(x@.subrange(i as int, x@.len() as int), y@.subrange(i as int, y@.len() as int))
                == lex_lt(x@, y@),
        decreases x@.len() - i,
    {
        let ghost xs = x@.subrange(i as int, x@.len() as int);
        let ghost ys = y@.subrange(i as int, y@.len() as int);
        assert(xs.drop_first() =~= x@.subrange(i + 1, x@.len() as int));
        assert(ys.drop_first() =~= y@.subrange(i + 1, y@.len() as int));
        i += 1;
    }
    let ghost xs = x@.subrange(i as int, x@.len() as int);
    let ghost ys = y@.subrange(i as int, y@.len() as int);
    if i == x.len() {
        assert(xs.len() == 0);
        i < y.len()
    } else if i == y.len() {
        assert(ys.len() == 0 && xs.len() > 0);
        false
    } else {
        let c = x[i];
        let d = y[i];
        assert(xs[0] == c && ys[0] == d && c != d);
        (c as u32) < (d as u32)
    }
}

} // verus!
