//! Task selection: which tasks fall in a due window, and in what order they
//! are reported. The window is exclusive at its lower bound and inclusive at
//! its upper bound, and tasks are ordered by ascending due time with ties kept
//! in their original store order.

use vstd::prelude::*;

use crate::model::{ts_le, ts_lt, Task, Timestamp};

verus! {

/// A task is selected for the window `(from, to]` when its due time lies
/// strictly after `from` and no later than `to`.
pub open spec fn in_window(t: Task, from: Timestamp, to: Timestamp) -> bool {
    ts_lt(from, t.due) && ts_le(t.due, to)
}

/// The tasks of `s` due inside `(from, to]`, in their original order.
pub open spec fn window_tasks(s: Seq<Task>, from: Timestamp, to: Timestamp) -> Seq<Task> {
    s.filter(|t: Task| in_window(t, from, to))
}

/// The tasks of `s` due exactly at `d`, in their original order.
pub open spec fn with_due(s: Seq<Task>, d: Timestamp) -> Seq<Task> {
    s.filter(|t: Task| t.due == d)
}

/// `s` is ordered by ascending due time.
pub open spec fn sorted_by_due(s: Seq<Task>) -> bool {
    forall|i: int, j: int| 0 <= i <= j < s.len() ==> #[trigger] ts_le(s[i].due, s[j].due)
}

/// `t` inserted into `s` after every task due no later than `t`.
pub open spec fn insert_by_due(t: Task, s: Seq<Task>) -> Seq<Task>
    decreases s.len(),
{
    if s.len() == 0 {
        seq![t]
    } else if ts_le(s.first().due, t.due) {
        seq![s.first()] + insert_by_due(t, s.drop_first())
    } else {
        seq![t] + s
    }
}

/// Stable insertion sort of `s` by ascending due time.
pub open spec fn sort_by_due(s: Seq<Task>) -> Seq<Task>
    decreases s.len(),
{
    if s.len() == 0 {
        Seq::empty()
    } else {
        insert_by_due(s.last(), sort_by_due(s.drop_last()))
    }
}

/// What `select` returns: the tasks of `s` due inside `(from, to]`, sorted by
/// ascending due time, ties kept in store order.
pub open spec fn select_spec(s: Seq<Task>, from: Timestamp, to: Timestamp) -> Seq<Task> {
    sort_by_due(window_tasks(s, from, to))
}

/// Every element of an insertion is either the inserted task or one of `s`.
proof fn lemma_insert_elems(t: Task, s: Seq<Task>)
    ensures
        insert_by_due(t, s).len() == s.len() + 1,
        forall|k: int|
            0 <= k < insert_by_due(t, s).len() ==> insert_by_due(t, s)[k] == t || s.contains(
                #[trigger] insert_by_due(t, s)[k],
            ),
    decreases s.len(),
{
    if s.len() == 0 {
    } else if ts_le(s.first().due, t.due) {
        lemma_insert_elems(t, s.drop_first());
        assert forall|k: int| 0 <= k < insert_by_due(t, s).len() implies insert_by_due(t, s)[k]
            == t || s.contains(#[trigger] insert_by_due(t, s)[k]) by {
            if k > 0 {
                let rest = s.drop_first();
                let x = insert_by_due(t, s)[k];
                assert(x == insert_by_due(t, rest)[k - 1]);
                if x != t {
                    let j = choose|j: int| 0 <= j < rest.len() && rest[j] == x;
                    assert(s[j + 1] == x);
                }
            } else {
                assert(insert_by_due(t, s)[0] == s[0]);
            }
        }
    } else {
        assert forall|k: int| 0 <= k < insert_by_due(t, s).len() implies insert_by_due(t, s)[k]
            == t || s.contains(#[trigger] insert_by_due(t, s)[k]) by {
            if k > 0 {
                assert(insert_by_due(t, s)[k] == s[k - 1]);
            }
        }
    }
}

/// Inserting into a sorted sequence keeps it sorted.
proof fn lemma_insert_sorted(t: Task, s: Seq<Task>)
    requires
        sorted_by_due(s),
    ensures
        sorted_by_due(insert_by_due(t, s)),
    decreases s.len(),
{
    if s.len() == 0 {
    } else if ts_le(s.first().due, t.due) {
        let rest = s.drop_first();
        assert(sorted_by_due(rest)) by {
            assert forall|i: int, j: int| 0 <= i <= j < rest.len() implies #[trigger] ts_le(rest[i].due, rest[j].due) by {
                assert(rest[i] == s[i + 1] && rest[j] == s[j + 1]);
            }
        }
        lemma_insert_sorted(t, rest);
        lemma_insert_elems(t, rest);
        let out = insert_by_due(t, s);
        assert forall|i: int, j: int| 0 <= i <= j < out.len() implies #[trigger] ts_le(out[i].due, out[j].due) by {
            if i == 0 && j > 0 {
                let x = insert_by_due(t, rest)[j - 1];
                assert(out[j] == x);
                if x != t {
                    let k = choose|k: int| 0 <= k < rest.len() && rest[k] == x;
                    assert(s[k + 1] == x);
                    assert(ts_le(s[0].due, s[k + 1].due));
                }
            } else if i > 0 {
                assert(out[i] == insert_by_due(t, rest)[i - 1]);
                assert(out[j] == insert_by_due(t, rest)[j - 1]);
            }
        }
    } else {
        let out = insert_by_due(t, s);
        assert forall|i: int, j: int| 0 <= i <= j < out.len() implies #[trigger] ts_le(out[i].due, out[j].due) by {
            if i == 0 && j > 0 {
                assert(out[j] == s[j - 1]);
                assert(ts_le(s[0].due, s[j - 1].due));
            } else if i > 0 {
                assert(out[i] == s[i - 1] && out[j] == s[j - 1]);
            }
        }
    }
}

/// The tasks of a singleton sequence due at `d`.
proof fn lemma_with_due_singleton(t: Task, d: Timestamp)
    ensures
        with_due(seq![t], d) == if t.due == d {
            seq![t]
        } else {
            Seq::<Task>::empty()
        },
{
    reveal_with_fuel(Seq::filter, 3);
    assert(seq![t].drop_last() =~= Seq::<Task>::empty());
    if t.due == d {
        assert(with_due(seq![t], d) =~= seq![t]);
    } else {
        assert(with_due(seq![t], d) =~= Seq::<Task>::empty());
    }
}

/// Inserting `t` appends it to its own due class and leaves every other due
/// class unchanged.
proof fn lemma_insert_with_due(t: Task, s: Seq<Task>, d: Timestamp)
    requires
        sorted_by_due(s),
    ensures
        with_due(insert_by_due(t, s), d) == if t.due == d {
            with_due(s, d).push(t)
        } else {
            with_due(s, d)
        },
    decreases s.len(),
{
    broadcast use vstd::seq_lib::group_filter_ensures;

    lemma_with_due_singleton(t, d);
    if s.len() == 0 {
        assert(with_due(Seq::<Task>::empty(), d) =~= Seq::<Task>::empty()) by {
            reveal(Seq::filter);
        }
        assert(insert_by_due(t, s) == seq![t]);
        if t.due == d {
            assert(Seq::<Task>::empty().push(t) =~= seq![t]);
        }
    } else if ts_le(s.first().due, t.due) {
        let rest = s.drop_first();
        assert(sorted_by_due(rest)) by {
            assert forall|i: int, j: int| 0 <= i <= j < rest.len() implies #[trigger] ts_le(rest[i].due, rest[j].due) by {
                assert(rest[i] == s[i + 1] && rest[j] == s[j + 1]);
            }
        }
        lemma_insert_with_due(t, rest, d);
        lemma_with_due_singleton(s.first(), d);
        assert(s =~= seq![s.first()] + rest);
        assert(with_due(s, d) == with_due(seq![s.first()], d) + with_due(rest, d));
        assert(with_due(insert_by_due(t, s), d) == with_due(seq![s.first()], d) + with_due(
            insert_by_due(t, rest),
            d,
        ));
        if t.due == d {
            assert(with_due(seq![s.first()], d) + with_due(rest, d).push(t) =~= (with_due(
                seq![s.first()],
                d,
            ) + with_due(rest, d)).push(t));
        }
    } else {
        // t is due strictly before s.first(), hence before everything in s.
        assert(insert_by_due(t, s) == seq![t] + s);
        assert(with_due(insert_by_due(t, s), d) == with_due(seq![t], d) + with_due(s, d));
        if t.due == d {
            assert(with_due(s, d) =~= Seq::<Task>::empty()) by {
                let pred = |x: Task| x.due == d;
                assert forall|i: int| 0 <= i < s.len() implies !pred(s[i]) by {
                    assert(ts_le(s[0].due, s[i].due));
                }
                s.lemma_all_neg_filter_empty(pred);
                assert(with_due(s, d).len() == 0);
            }
            assert(seq![t] + Seq::<Task>::empty() =~= Seq::<Task>::empty().push(t));
        } else {
            assert(Seq::<Task>::empty() + with_due(s, d) =~= with_due(s, d));
        }
    }
}

/// The sort is ascending by due time and keeps every due class in its
/// original order, so it is a stable permutation of its input.
pub proof fn lemma_sort_by_due(s: Seq<Task>)
    ensures
        sorted_by_due(sort_by_due(s)),
        sort_by_due(s).len() == s.len(),
        forall|d: Timestamp| #[trigger] with_due(sort_by_due(s), d) == with_due(s, d),
    decreases s.len(),
{
    broadcast use vstd::seq_lib::group_filter_ensures;

    if s.len() == 0 {
    } else {
        let dl = s.drop_last();
        let t = s.last();
        lemma_sort_by_due(dl);
        lemma_insert_sorted(t, sort_by_due(dl));
        lemma_insert_elems(t, sort_by_due(dl));
        assert forall|d: Timestamp| #[trigger] with_due(sort_by_due(s), d) == with_due(s, d) by {
            lemma_insert_with_due(t, sort_by_due(dl), d);
            reveal(Seq::filter);
            assert(with_due(s, d) == if t.due == d {
                with_due(dl, d).push(t)
            } else {
                with_due(dl, d)
            });
        }
    }
}

/// Positional insertion agrees with `insert_by_due` when everything before the
/// position is due no later than `t` and everything from the position on is
/// due strictly later.
proof fn lemma_insert_at(t: Task, s: Seq<Task>, p: int)
    requires
        0 <= p <= s.len(),
        forall|j: int| 0 <= j < p ==> #[trigger] ts_le(s[j].due, t.due),
        p < s.len() ==> ts_lt(t.due, s[p].due),
    ensures
        insert_by_due(t, s) == s.subrange(0, p) + seq![t] + s.subrange(p, s.len() as int),
    decreases s.len(),
{
    if s.len() == 0 {
        assert(insert_by_due(t, s) =~= s.subrange(0, p) + seq![t] + s.subrange(
            p,
            s.len() as int,
        ));
    } else if p == 0 {
        assert(!ts_le(s.first().due, t.due));
        assert(insert_by_due(t, s) =~= s.subrange(0, p) + seq![t] + s.subrange(
            p,
            s.len() as int,
        ));
    } else {
        let rest = s.drop_first();
        assert(ts_le(s.first().due, t.due)) by {
            assert(ts_le(s[0].due, t.due));
        }
        assert forall|j: int| 0 <= j < p - 1 implies #[trigger] ts_le(rest[j].due, t.due) by {
            assert(rest[j] == s[j + 1]);
        }
        assert(p - 1 < rest.len() ==> ts_lt(t.due, rest[p - 1].due));
        lemma_insert_at(t, rest, p - 1);
        assert(insert_by_due(t, s) =~= s.subrange(0, p) + seq![t] + s.subrange(
            p,
            s.len() as int,
        ));
    }
}

/// Stable insertion sort of tasks by ascending due time.
fn sort_tasks(input: &Vec<Task>) -> (r: Vec<Task>)
    ensures
        r@ == sort_by_due(input@),
{
    let mut out: Vec<Task> = Vec::new();
    let mut i: usize = 0;
    while i < input.len()
        invariant
            i <= input.len(),
            out@ == sort_by_due(input@.subrange(0, i as int)),
        decreases input.len() - i,
    {
        let t = input[i].clone();
        let mut p: usize = 0;
        while p < out.len() && out[p].due.le(t.due)
            invariant
                p <= out.len(),
                forall|j: int| 0 <= j < p ==> #[trigger] ts_le(out@[j].due, t.due),
            decreases out.len() - p,
        {
            p += 1;
        }
        let ghost prev = out@;
        out.insert(p, t);
        proof {
            lemma_insert_at(t, prev, p as int);
            assert(out@ =~= prev.subrange(0, p as int) + seq![t] + prev.subrange(
                p as int,
                prev.len() as int,
            ));
            let sub = input@.subrange(0, i as int + 1);
            assert(sub.drop_last() =~= input@.subrange(0, i as int));
            assert(sub.last() == input@[i as int]);
            assert(out@ == sort_by_due(sub));
        }
        i += 1;
    }
    proof {
        assert(input@.subrange(0, input@.len() as int) =~= input@);
    }
    out
}

/// Returns the tasks of `tasks` whose due time lies inside the window
/// `(from, to]` — strictly after `from`, no later than `to` — sorted by
/// ascending due time, tasks due at the same time kept in store order.
pub fn select(tasks: &Vec<Task>, from: Timestamp, to: Timestamp) -> (r: Vec<Task>)
    ensures
        r@ == select_spec(tasks@, from, to),
{
    let mut picked: Vec<Task> = Vec::new();
    let mut i: usize = 0;
    while i < tasks.len()
        invariant
            i <= tasks.len(),
            picked@ == window_tasks(tasks@.subrange(0, i as int), from, to),
        decreases tasks.len() - i,
    {
        let t = &tasks[i];
        if from.lt(t.due) && t.due.le(to) {
            picked.push(t.clone());
        }
        proof {
            reveal(Seq::filter);
            let sub = tasks@.subrange(0, i as int + 1);
            assert(sub.drop_last() =~= tasks@.subrange(0, i as int));
            assert(sub.last() == tasks@[i as int]);
            assert(picked@ == window_tasks(sub, from, to));
        }
        i += 1;
    }
    proof {
        assert(tasks@.subrange(0, tasks@.len() as int) =~= tasks@);
    }
    sort_tasks(&picked)
}

} // verus!
