//! Publish and reconcile planning. Both operations decide, over a snapshot of
//! the task store and plain configuration values, which messages to send;
//! the surrounding application performs the sends.
//!
//! `publish` builds the single daily reminder for tasks due "tomorrow".
//! `reconcile` walks recently posted reminders, recomputes the window each one
//! stood for, re-renders, and plans a follow-up reply for each reminder whose
//! rendering no longer matches.

use vstd::prelude::*;

use crate::model::{ts_le, ts_lt, Task, Timestamp};
use crate::render::{render, render_spec, rendering_eq, Rendering, RenderingView};
use crate::select::{select, select_spec};

verus! {

/// Why an operation could not run: the store snapshot was unavailable, or the
/// channel / role configuration is absent.
#[derive(Clone, Copy, PartialEq, Eq, Structural, Debug)]
pub enum PingError {
    DataUnavailable,
    ConfigMissing,
}

/// A previously posted message as reconciliation reads it: when it was
/// created, who wrote it, what rendering it carried, and whether it itself
/// replies to another message (a follow-up).
#[derive(Debug)]
pub struct ChannelMessage {
    pub id: u64,
    pub created: Timestamp,
    pub author: u64,
    pub reference: Option<u64>,
    pub rendering: Rendering,
}

/// A message the planner decided to send: to which channel, whether the
/// configured role is mentioned, whether the "there are updates" notice is
/// included, which message it replies to, and its rendering.
#[derive(Debug)]
pub struct OutboundMessage {
    pub channel: u64,
    pub mention: Option<u64>,
    pub update_notice: bool,
    pub reference: Option<u64>,
    pub rendering: Rendering,
}

/// Mathematical image of an `OutboundMessage`.
pub ghost struct OutboundView {
    pub channel: u64,
    pub mention: Option<u64>,
    pub update_notice: bool,
    pub reference: Option<u64>,
    pub rendering: RenderingView,
}

impl View for OutboundMessage {
    type V = OutboundView;

    open spec fn view(&self) -> OutboundView {
        OutboundView {
            channel: self.channel,
            mention: self.mention,
            update_notice: self.update_notice,
            reference: self.reference,
            rendering: self.rendering@,
        }
    }
}

/// The views of a sequence of outbound messages, elementwise.
pub open spec fn outbound_views(s: Seq<OutboundMessage>) -> Seq<OutboundView> {
    s.map_values(|m: OutboundMessage| m@)
}

/// The exclusive lower bound of the window a reminder computed at `t` covers:
/// midnight of the next day.
pub open spec fn window_from(t: Timestamp) -> Timestamp {
    Timestamp { day: (t.day + 1) as i64, sec: 0 }
}

/// The inclusive upper bound of that window: midnight of the day after.
pub open spec fn window_to(t: Timestamp) -> Timestamp {
    Timestamp { day: (t.day + 2) as i64, sec: 0 }
}

/// What `publish` sends when configuration is present: one message carrying
/// the rendering of the tasks due tomorrow, mentioning the role exactly when
/// at least one task was found.
pub open spec fn publish_spec(now: Timestamp, channel: u64, role: u64, tasks: Seq<Task>)
    -> OutboundView {
    let sel = select_spec(tasks, window_from(now), window_to(now));
    OutboundView {
        channel,
        mention: if sel.len() > 0 {
            Some(role)
        } else {
            None
        },
        update_notice: false,
        reference: None,
        rendering: render_spec(sel),
    }
}

/// Plans the daily reminder. Fails with `ConfigMissing` exactly when the
/// channel or the role is not configured; otherwise returns the one message
/// described by `publish_spec`.
pub fn publish(now: Timestamp, channel: Option<u64>, role: Option<u64>, tasks: &Vec<Task>) -> (r:
    Result<OutboundMessage, PingError>)
    requires
        now.day + 2 <= i64::MAX,
    ensures
        r is Err <==> (channel is None || role is None),
        r is Err ==> r->Err_0 == PingError::ConfigMissing,
        channel matches Some(c) ==> role matches Some(ro) ==> r matches Ok(m) ==> m@
            == publish_spec(now, c, ro, tasks@),
{
    let c = match channel {
        Some(c) => c,
        None => {
            return Err(PingError::ConfigMissing);
        },
    };
    let ro = match role {
        Some(ro) => ro,
        None => {
            return Err(PingError::ConfigMissing);
        },
    };
    let from = Timestamp { day: now.day + 1, sec: 0 };
    let to = Timestamp { day: now.day + 2, sec: 0 };
    let sel = select(tasks, from, to);
    let rendering = render(&sel);
    let mention = if sel.len() > 0 {
        Some(ro)
    } else {
        None
    };
    Ok(OutboundMessage { channel: c, mention, update_notice: false, reference: None, rendering })
}

/// A posted message is a reconciliation candidate when this bot wrote it, its
/// creation date is yesterday or later, and it is not itself a follow-up.
pub open spec fn is_candidate(m: ChannelMessage, bot: u64, today: int) -> bool {
    m.author == bot && today - 1 <= m.created.day && m.reference is None
}

/// `m` inserted into `s` after every message created no later than `m`.
pub open spec fn insert_by_created(m: ChannelMessage, s: Seq<ChannelMessage>)
    -> Seq<ChannelMessage>
    decreases s.len(),
{
    if s.len() == 0 {
        seq![m]
    } else if ts_le(s.first().created, m.created) {
        seq![s.first()] + insert_by_created(m, s.drop_first())
    } else {
        seq![m] + s
    }
}

/// Stable insertion sort of messages by ascending creation time.
pub open spec fn sort_by_created(s: Seq<ChannelMessage>) -> Seq<ChannelMessage>
    decreases s.len(),
{
    if s.len() == 0 {
        Seq::empty()
    } else {
        insert_by_created(s.last(), sort_by_created(s.drop_last()))
    }
}

/// The follow-up reply planned for a stale reminder `m`.
pub open spec fn followup_view(m: ChannelMessage, channel: u64, role: u64, fresh: RenderingView)
    -> OutboundView {
    OutboundView {
        channel,
        mention: Some(role),
        update_notice: true,
        reference: Some(m.id),
        rendering: fresh,
    }
}

/// What reconciliation sends for one message: nothing unless it is a
/// candidate whose stored rendering no longer matches the freshly computed
/// one, in which case exactly one follow-up reply.
pub open spec fn message_followups(
    m: ChannelMessage,
    channel: u64,
    role: u64,
    tasks: Seq<Task>,
    bot: u64,
    today: int,
) -> Seq<OutboundView> {
    if is_candidate(m, bot, today) {
        let fresh = render_spec(select_spec(tasks, window_from(m.created), window_to(m.created)));
        if fresh != m.rendering@ {
            seq![followup_view(m, channel, role, fresh)]
        } else {
            Seq::empty()
        }
    } else {
        Seq::empty()
    }
}

/// The follow-ups for a sequence of messages, in that processing order.
pub open spec fn followups_spec(
    cands: Seq<ChannelMessage>,
    channel: u64,
    role: u64,
    tasks: Seq<Task>,
    bot: u64,
    today: int,
) -> Seq<OutboundView>
    decreases cands.len(),
{
    if cands.len() == 0 {
        Seq::empty()
    } else {
        followups_spec(cands.drop_last(), channel, role, tasks, bot, today) + message_followups(
            cands.last(),
            channel,
            role,
            tasks,
            bot,
            today,
        )
    }
}

/// What `reconcile` sends: the follow-ups for the fetched messages, processed
/// in descending creation order (equal creation times in reverse fetch
/// order).
pub open spec fn reconcile_spec(
    messages: Seq<ChannelMessage>,
    channel: u64,
    role: u64,
    tasks: Seq<Task>,
    bot: u64,
    today: int,
) -> Seq<OutboundView> {
    followups_spec(sort_by_created(messages).reverse(), channel, role, tasks, bot, today)
}

/// Positional insertion agrees with `insert_by_created` when everything
/// before the position is created no later than `m` and everything from the
/// position on is created strictly later.
proof fn lemma_insert_msg_at(m: ChannelMessage, s: Seq<ChannelMessage>, p: int)
    requires
        0 <= p <= s.len(),
        forall|j: int| 0 <= j < p ==> #[trigger] ts_le(s[j].created, m.created),
        p < s.len() ==> ts_lt(m.created, s[p].created),
    ensures
        insert_by_created(m, s) == s.subrange(0, p) + seq![m] + s.subrange(p, s.len() as int),
    decreases s.len(),
{
    if s.len() == 0 {
        assert(insert_by_created(m, s) =~= s.subrange(0, p) + seq![m] + s.subrange(
            p,
            s.len() as int,
        ));
    } else if p == 0 {
        assert(!ts_le(s.first().created, m.created));
        assert(insert_by_created(m, s) =~= s.subrange(0, p) + seq![m] + s.subrange(
            p,
            s.len() as int,
        ));
    } else {
        let rest = s.drop_first();
        assert(ts_le(s.first().created, m.created)) by {
            assert(ts_le(s[0].created, m.created));
        }
        assert forall|j: int| 0 <= j < p - 1 implies #[trigger] ts_le(
            rest[j].created,
            m.created,
        ) by {
            assert(rest[j] == s[j + 1]);
        }
        assert(p - 1 < rest.len() ==> ts_lt(m.created, rest[p - 1].created));
        lemma_insert_msg_at(m, rest, p - 1);
        assert(insert_by_created(m, s) =~= s.subrange(0, p) + seq![m] + s.subrange(
            p,
            s.len() as int,
        ));
    }
}

/// Every element of an insertion is either the inserted message or one of
/// `s`.
proof fn lemma_insert_msg_elems(m: ChannelMessage, s: Seq<ChannelMessage>)
    ensures
        insert_by_created(m, s).len() == s.len() + 1,
        forall|k: int|
            0 <= k < insert_by_created(m, s).len() ==> insert_by_created(m, s)[k] == m
                || s.contains(#[trigger] insert_by_created(m, s)[k]),
    decreases s.len(),
{
    if s.len() == 0 {
    } else if ts_le(s.first().created, m.created) {
        lemma_insert_msg_elems(m, s.drop_first());
        assert forall|k: int| 0 <= k < insert_by_created(m, s).len() implies insert_by_created(
            m,
            s,
        )[k] == m || s.contains(#[trigger] insert_by_created(m, s)[k]) by {
            if k > 0 {
                let rest = s.drop_first();
                let x = insert_by_created(m, s)[k];
                assert(x == insert_by_created(m, rest)[k - 1]);
                if x != m {
                    let j = choose|j: int| 0 <= j < rest.len() && rest[j] == x;
                    assert(s[j + 1] == x);
                }
            } else {
                assert(insert_by_created(m, s)[0] == s[0]);
            }
        }
    } else {
        assert forall|k: int| 0 <= k < insert_by_created(m, s).len() implies insert_by_created(
            m,
            s,
        )[k] == m || s.contains(#[trigger] insert_by_created(m, s)[k]) by {
            if k > 0 {
                assert(insert_by_created(m, s)[k] == s[k - 1]);
            }
        }
    }
}

/// The sort is a permutation: it has the same length, and every element of
/// the sorted sequence occurs in the input.
proof fn lemma_sort_msgs_elems(s: Seq<ChannelMessage>)
    ensures
        sort_by_created(s).len() == s.len(),
        forall|k: int|
            0 <= k < sort_by_created(s).len() ==> s.contains(#[trigger] sort_by_created(s)[k]),
    decreases s.len(),
{
    if s.len() == 0 {
    } else {
        let dl = s.drop_last();
        let t = s.last();
        lemma_sort_msgs_elems(dl);
        lemma_insert_msg_elems(t, sort_by_created(dl));
        assert forall|k: int| 0 <= k < sort_by_created(s).len() implies s.contains(
            #[trigger] sort_by_created(s)[k],
        ) by {
            let x = sort_by_created(s)[k];
            if x == t {
                assert(s[s.len() - 1] == x);
            } else {
                assert(sort_by_created(dl).contains(x));
                let j = choose|j: int| 0 <= j < sort_by_created(dl).len() && sort_by_created(
                    dl,
                )[j] == x;
                assert(dl.contains(x));
                let i = choose|i: int| 0 <= i < dl.len() && dl[i] == x;
                assert(s[i] == x);
            }
        }
    }
}

/// Stable insertion sort of messages by ascending creation time; consumes its
/// input.
fn sort_messages(input: Vec<ChannelMessage>) -> (r: Vec<ChannelMessage>)
    ensures
        r@ == sort_by_created(input@),
{
    let ghost orig = input@;
    let mut input = input;
    let mut out: Vec<ChannelMessage> = Vec::new();
    let ghost mut taken: int = 0;
    while input.len() > 0
        invariant
            0 <= taken <= orig.len(),
            input@ == orig.subrange(taken, orig.len() as int),
            out@ == sort_by_created(orig.subrange(0, taken)),
        decreases input.len(),
    {
        let m = input.remove(0);
        assert(m == orig[taken]);
        let mut p: usize = 0;
        while p < out.len() && out[p].created.le(m.created)
            invariant
                p <= out.len(),
                forall|j: int| 0 <= j < p ==> #[trigger] ts_le(out@[j].created, m.created),
            decreases out.len() - p,
        {
            p += 1;
        }
        let ghost prev = out@;
        out.insert(p, m);
        proof {
            lemma_insert_msg_at(m, prev, p as int);
            assert(out@ =~= prev.subrange(0, p as int) + seq![m] + prev.subrange(
                p as int,
                prev.len() as int,
            ));
            let sub = orig.subrange(0, taken + 1);
            assert(sub.drop_last() =~= orig.subrange(0, taken));
            assert(sub.last() == orig[taken]);
            assert(out@ == sort_by_created(sub));
            taken = taken + 1;
            assert(input@ =~= orig.subrange(taken, orig.len() as int));
        }
    }
    proof {
        assert(orig.subrange(0, orig.len() as int) =~= orig);
    }
    out
}

/// Plans the follow-up replies for previously posted reminders. Fails with
/// `ConfigMissing` exactly when the channel or the role is not configured;
/// otherwise returns, in processing order, one follow-up for each candidate
/// message whose stored rendering no longer matches the freshly recomputed
/// one, as described by `reconcile_spec`.
pub fn reconcile(
    now: Timestamp,
    channel: Option<u64>,
    role: Option<u64>,
    bot: u64,
    messages: Vec<ChannelMessage>,
    tasks: &Vec<Task>,
) -> (r: Result<Vec<OutboundMessage>, PingError>)
    requires
        i64::MIN < now.day,
        forall|k: int|
            0 <= k < messages@.len() ==> (#[trigger] messages@[k]).created.day + 2 <= i64::MAX,
    ensures
        r is Err <==> (channel is None || role is None),
        r is Err ==> r->Err_0 == PingError::ConfigMissing,
        channel matches Some(c) ==> role matches Some(ro) ==> r matches Ok(v) ==> outbound_views(
            v@,
        ) == reconcile_spec(messages@, c, ro, tasks@, bot, now.day as int),
{
    let c = match channel {
        Some(c) => c,
        None => {
            return Err(PingError::ConfigMissing);
        },
    };
    let ro = match role {
        Some(ro) => ro,
        None => {
            return Err(PingError::ConfigMissing);
        },
    };
    let ghost msgs = messages@;
    let sorted = sort_messages(messages);
    proof {
        lemma_sort_msgs_elems(msgs);
    }
    let ghost rev = sort_by_created(msgs).reverse();
    let n = sorted.len();
    let mut out: Vec<OutboundMessage> = Vec::new();
    let mut j: usize = 0;
    while j < n
        invariant
            j <= n,
            n == sorted.len(),
            sorted@ == sort_by_created(msgs),
            rev == sort_by_created(msgs).reverse(),
            i64::MIN < now.day,
            forall|k: int| 0 <= k < msgs.len() ==> (#[trigger] msgs[k]).created.day + 2
                <= i64::MAX,
            forall|k: int| 0 <= k < sorted@.len() ==> msgs.contains(#[trigger] sorted@[k]),
            outbound_views(out@) == followups_spec(
                rev.subrange(0, j as int),
                c,
                ro,
                tasks@,
                bot,
                now.day as int,
            ),
        decreases n - j,
    {
        let m = &sorted[n - 1 - j];
        proof {
            assert(rev[j as int] == sorted@[n - 1 - j as int]);
            assert(msgs.contains(sorted@[n - 1 - j as int]));
            let k = choose|k: int| 0 <= k < msgs.len() && msgs[k] == sorted@[n - 1 - j as int];
            assert(msgs[k].created.day + 2 <= i64::MAX);
        }
        let ghost before = out@;
        if m.author == bot && now.day - 1 <= m.created.day && m.reference.is_none() {
            let from = Timestamp { day: m.created.day + 1, sec: 0 };
            let to = Timestamp { day: m.created.day + 2, sec: 0 };
            let sel = select(tasks, from, to);
            let fresh = render(&sel);
            if !rendering_eq(&fresh, &m.rendering) {
                out.push(
                    OutboundMessage {
                        channel: c,
                        mention: Some(ro),
                        update_notice: true,
                        reference: Some(m.id),
                        rendering: fresh,
                    },
                );
            }
        }
        proof {
            let today = now.day as int;
            let sub = rev.subrange(0, j as int + 1);
            assert(sub.drop_last() =~= rev.subrange(0, j as int));
            assert(sub.last() == rev[j as int]);
            let mf = message_followups(rev[j as int], c, ro, tasks@, bot, today);
            assert(followups_spec(sub, c, ro, tasks@, bot, today) == followups_spec(
                rev.subrange(0, j as int),
                c,
                ro,
                tasks@,
                bot,
                today,
            ) + mf);
            if out@ != before {
                assert(outbound_views(out@) =~= outbound_views(before).push(out@.last()@));
            }
            assert(outbound_views(out@) =~= followups_spec(sub, c, ro, tasks@, bot, today));
        }
        j += 1;
    }
    proof {
        assert(rev.subrange(0, rev.len() as int) =~= rev);
    }
    Ok(out)
}

} // verus!
