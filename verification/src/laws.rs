//! The general laws of the library, stated and proved once over the spec
//! functions that the executable functions' contracts are written in.

use vstd::prelude::*;

use crate::model::{ts_le, ts_lt, Task, Timestamp};
use crate::plan::{
    followup_view, is_candidate, message_followups, publish_spec, window_from, window_to,
    ChannelMessage, OutboundView,
};
use crate::render::{no_tasks_rendering, render_spec, Color, RenderingView};
use crate::select::{
    in_window, lemma_sort_by_due, select_spec, sorted_by_due, window_tasks, with_due,
};

verus! {

/// `select` returns exactly the tasks due inside `(from, to]`: the result is
/// sorted by ascending due time, each due class is exactly the window subset
/// of that class in its original order (so equal due times keep store order),
/// and membership is precisely "occurs in the input and is due in the
/// window".
pub proof fn lemma_select_exact(tasks: Seq<Task>, from: Timestamp, to: Timestamp)
    ensures
        sorted_by_due(select_spec(tasks, from, to)),
        select_spec(tasks, from, to).len() == window_tasks(tasks, from, to).len(),
        forall|d: Timestamp| #[trigger] with_due(select_spec(tasks, from, to), d) == with_due(
            window_tasks(tasks, from, to),
            d,
        ),
        forall|k: int|
            0 <= k < select_spec(tasks, from, to).len() ==> in_window(
                #[trigger] select_spec(tasks, from, to)[k],
                from,
                to,
            ) && tasks.contains(select_spec(tasks, from, to)[k]),
        forall|k: int|
            0 <= k < tasks.len() && in_window(#[trigger] tasks[k], from, to) ==> select_spec(
                tasks,
                from,
                to,
            ).contains(tasks[k]),
{
    broadcast use vstd::seq_lib::group_filter_ensures;
    broadcast use vstd::prelude::Seq::lemma_filter_contains_rev;

    let win = window_tasks(tasks, from, to);
    let sel = select_spec(tasks, from, to);
    lemma_sort_by_due(win);
    assert forall|k: int| 0 <= k < sel.len() implies in_window(#[trigger] sel[k], from, to)
        && tasks.contains(sel[k]) by {
        let x = sel[k];
        assert(with_due(sel, x.due).contains(x));
        assert(with_due(win, x.due).contains(x));
        assert(win.contains(x));
        let i = choose|i: int| 0 <= i < win.len() && win[i] == x;
        assert(in_window(win[i], from, to));
        assert(tasks.contains(x));
    }
    assert forall|k: int| 0 <= k < tasks.len() && in_window(#[trigger] tasks[k], from, to) implies
        sel.contains(tasks[k]) by {
        let x = tasks[k];
        assert(win.contains(x));
        let i = choose|i: int| 0 <= i < win.len() && win[i] == x;
        assert(with_due(win, x.due).contains(x));
        assert(with_due(sel, x.due).contains(x));
        assert(sel.contains(x));
    }
}

/// Rendering the empty task list always gives the fixed "no tasks" body;
/// rendering a non-empty list always gives the warning body with one field
/// per task, in input order.
pub proof fn lemma_render_cases(tasks: Seq<Task>)
    ensures
        tasks.len() == 0 ==> render_spec(tasks) == no_tasks_rendering(),
        tasks.len() > 0 ==> render_spec(tasks).fields.len() == tasks.len(),
        tasks.len() > 0 ==> forall|i: int|
            0 <= i < tasks.len() ==> render_spec(tasks).fields[i] == #[trigger] tasks[i].field@,
        tasks.len() > 0 ==> render_spec(tasks).color == Color::Red,
        tasks.len() == 0 ==> render_spec(tasks).color == Color::DarkGreen,
{
}

/// Structural equality of renderings is reflexive.
pub proof fn lemma_rendering_eq_reflexive(a: RenderingView)
    ensures
        a == a,
{
}

/// Structural equality of renderings is symmetric.
pub proof fn lemma_rendering_eq_symmetric(a: RenderingView, b: RenderingView)
    ensures
        (a == b) == (b == a),
{
}

/// Structural equality of renderings is transitive.
pub proof fn lemma_rendering_eq_transitive(a: RenderingView, b: RenderingView, c: RenderingView)
    requires
        a == b,
        b == c,
    ensures
        a == c,
{
}

/// Rendering is deterministic: two renderings computed independently from the
/// same task list are always equal.
pub proof fn lemma_render_deterministic(t1: Seq<Task>, t2: Seq<Task>)
    requires
        t1 == t2,
    ensures
        render_spec(t1) == render_spec(t2),
{
}

/// The published reminder mentions the configured role exactly when at least
/// one task is due in tomorrow's window, and is never itself a follow-up.
pub proof fn lemma_publish_mention(now: Timestamp, channel: u64, role: u64, tasks: Seq<Task>)
    ensures
        publish_spec(now, channel, role, tasks).mention == if select_spec(
            tasks,
            window_from(now),
            window_to(now),
        ).len() > 0 {
            Some(role)
        } else {
            None::<u64>
        },
        publish_spec(now, channel, role, tasks).reference is None,
        publish_spec(now, channel, role, tasks).update_notice == false,
        publish_spec(now, channel, role, tasks).rendering == render_spec(
            select_spec(tasks, window_from(now), window_to(now)),
        ),
{
}

/// A candidate whose stored rendering still matches the freshly recomputed
/// one yields no follow-up.
pub proof fn lemma_match_no_followup(
    m: ChannelMessage,
    channel: u64,
    role: u64,
    tasks: Seq<Task>,
    bot: u64,
    today: int,
)
    requires
        m.rendering@ == render_spec(
            select_spec(tasks, window_from(m.created), window_to(m.created)),
        ),
    ensures
        message_followups(m, channel, role, tasks, bot, today) == Seq::<OutboundView>::empty(),
{
}

/// A candidate whose stored rendering no longer matches yields exactly one
/// follow-up: it references the candidate, mentions the role, carries the
/// update notice and the freshly recomputed rendering.
pub proof fn lemma_mismatch_one_followup(
    m: ChannelMessage,
    channel: u64,
    role: u64,
    tasks: Seq<Task>,
    bot: u64,
    today: int,
)
    requires
        is_candidate(m, bot, today),
        m.rendering@ != render_spec(
            select_spec(tasks, window_from(m.created), window_to(m.created)),
        ),
    ensures
        message_followups(m, channel, role, tasks, bot, today) == seq![
            followup_view(
                m,
                channel,
                role,
                render_spec(select_spec(tasks, window_from(m.created), window_to(m.created))),
            ),
        ],
        message_followups(m, channel, role, tasks, bot, today)[0].reference == Some(m.id),
        message_followups(m, channel, role, tasks, bot, today)[0].mention == Some(role),
        message_followups(m, channel, role, tasks, bot, today)[0].update_notice == true,
{
}

/// A message that is itself a follow-up reply is excluded from
/// reconciliation, whatever its age or author.
pub proof fn lemma_followup_replies_excluded(
    m: ChannelMessage,
    channel: u64,
    role: u64,
    tasks: Seq<Task>,
    bot: u64,
    today: int,
)
    requires
        m.reference is Some,
    ensures
        message_followups(m, channel, role, tasks, bot, today) == Seq::<OutboundView>::empty(),
{
}

/// Window boundaries: a task due exactly at the upper bound is selected, one
/// due exactly at the lower bound is not.
pub proof fn lemma_window_boundaries(t: Task, from: Timestamp, to: Timestamp)
    ensures
        t.due == to && ts_lt(from, to) ==> in_window(t, from, to),
        t.due == from ==> !in_window(t, from, to),
        in_window(t, from, to) == (ts_lt(from, t.due) && ts_le(t.due, to)),
{
}

} // verus!

