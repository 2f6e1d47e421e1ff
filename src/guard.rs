use vstd::prelude::*;

use crate::counter::{
    counted_positions, duplicate_count, duplicate_positions, lemma_count_bounded_by,
    lemma_count_of_distinct_channels,
};
use crate::equivalence::equivalent;
use crate::policy::{
    calls_for, calls_for_all, evaluate, evaluation, plan_actions, triggers, Action, Comparison, Policy,
};
use crate::record::{admitted, record_of, to_record, MessageEvent, MessageRecord};
use crate::window::{expired, lemma_retained_members, retained, Window};

verus! {

/// The window a guard holds after an admitted record arrives.
pub open spec fn window_after(s: Seq<MessageRecord>, p: Policy, rec: MessageRecord) -> Seq<MessageRecord> {
    retained(s, rec.timestamp, p.retention_ms).push(rec)
}

/// The calls that a record arriving in window `w` (already holding it)
/// gives rise to, where `pos` are its counted duplicates.
pub open spec fn response(w: Seq<MessageRecord>, p: Policy, rec: MessageRecord, pos: Seq<usize>) -> Seq<Action> {
    calls_for_all(evaluation(pos.len(), p), p, w, pos, rec)
}

/// The detector: a window of recent messages and the policy it applies.
pub struct Guard {
    window: Window,
    policy: Policy,
}

impl Guard {
    pub closed spec fn spec_window(&self) -> Seq<MessageRecord> {
        self.window.spec_records()
    }

    pub closed spec fn spec_policy(&self) -> Policy {
        self.policy
    }

    /// The window keeps records as long as the policy says.
    pub closed spec fn wf(&self) -> bool {
        self.window.spec_retention() == self.policy.retention_ms
    }

    /// A guard with an empty window.
    pub fn new(policy: Policy) -> (g: Guard)
        ensures
            g.wf(),
            g.spec_policy() == policy,
            g.spec_window() == Seq::<MessageRecord>::empty(),
    {
        Guard { window: Window::new(policy.retention_ms), policy }
    }

    pub fn policy(&self) -> (p: Policy)
        ensures
            p == self.spec_policy(),
    {
        self.policy
    }

    /// The records in the window, oldest first.
    pub fn records(&self) -> (r: &Vec<MessageRecord>)
        ensures
            r@ == self.spec_window(),
    {
        self.window.snapshot()
    }

    /// Handles one message event arriving at `now`: drops it if it is not to
    /// be kept; otherwise evicts what has expired, stores it, counts its
    /// duplicates one per channel, and returns the calls the policy asks for
    /// (none below the threshold).
    pub fn check_for_duplicate_messages(&mut self, event: MessageEvent, now: u64) -> (r: Vec<Action>)
        requires
            old(self).wf(),
        ensures
            final(self).wf(),
            final(self).spec_policy() == old(self).spec_policy(),
            !admitted(event) ==> final(self).spec_window() == old(self).spec_window() && r@.len() == 0,
            admitted(event) ==> final(self).spec_window() == window_after(
                old(self).spec_window(),
                old(self).spec_policy(),
                record_of(event, now),
            ),
            admitted(event) ==> exists|pos: Seq<usize>|
                counted_positions(final(self).spec_window(), record_of(event, now), pos) && r@
                    == response(final(self).spec_window(), old(self).spec_policy(), record_of(event, now), pos),
            admitted(event) ==> (r@.len() > 0 <==> triggers(
                duplicate_count(final(self).spec_window(), record_of(event, now)),
                old(self).spec_policy(),
            )),
    {
        let ghost ev = event;
        match to_record(event, now) {
            None => Vec::new(),
            Some(rec) => {
                self.window.ingest(rec);
                let records = self.window.snapshot();
                let n = records.len();
                let new = &records[n - 1];
                let positions = duplicate_positions(records, new);
                let kinds = evaluate(positions.len(), &self.policy);
                let r = plan_actions(&kinds, &self.policy, records, &positions, new);
                proof {
                    let w = records@;
                    let p = self.policy;
                    let k = kinds@;
                    assert(k.len() > 0 ==> k.last() == crate::policy::ActionKind::NotifyAdmin);
                    assert(*new == record_of(ev, now));
                    assert(r@ == response(w, p, *new, positions@));
                    if k.len() > 0 {
                        assert(calls_for(k.last(), p, w, positions@, *new).len() == 1);
                    }
                }
                proof {
                    assert(self.spec_window() == records@);
                    assert(counted_positions(self.spec_window(), record_of(ev, now), positions@));
                }
                r
            },
        }
    }
}

/// The window of a fresh guard after the records of `msgs` arrived, in order.
pub open spec fn replay(p: Policy, msgs: Seq<MessageRecord>) -> Seq<MessageRecord>
    decreases msgs.len(),
{
    if msgs.len() == 0 {
        Seq::empty()
    } else {
        window_after(replay(p, msgs.drop_last()), p, msgs.last())
    }
}

proof fn lemma_retained_all(s: Seq<MessageRecord>, now: u64, retention: u64)
    requires
        forall|i: int| 0 <= i < s.len() ==> !expired(#[trigger] s[i].timestamp, now, retention),
    ensures
        retained(s, now, retention) == s,
    decreases s.len(),
{
    if s.len() > 0 {
        lemma_retained_all(s.drop_last(), now, retention);
        assert(s.drop_last().push(s.last()) =~= s);
    }
}

/// Where no record has reached the retention by the arrival of a later one,
/// the window holds every record.
proof fn lemma_replay_keeps_all(p: Policy, msgs: Seq<MessageRecord>)
    requires
        forall|i: int, j: int|
            0 <= i <= j < msgs.len() ==> !#[trigger] expired(msgs[i].timestamp, msgs[j].timestamp, p.retention_ms),
    ensures
        replay(p, msgs) == msgs,
    decreases msgs.len(),
{
    if msgs.len() > 0 {
        let t = msgs.drop_last();
        lemma_replay_keeps_all(p, t);
        assert forall|i: int| 0 <= i < t.len() implies !expired(
            #[trigger] t[i].timestamp,
            msgs.last().timestamp,
            p.retention_ms,
        ) by {
            assert(msgs[msgs.len() - 1].timestamp == msgs.last().timestamp);
        }
        lemma_retained_all(t, msgs.last().timestamp, p.retention_ms);
        assert(t.push(msgs.last()) =~= msgs);
    }
}

/// Every record in the window arrived as one of `msgs` and has not reached
/// the retention at the arrival of the last.
proof fn lemma_replay_members(p: Policy, msgs: Seq<MessageRecord>)
    requires
        msgs.len() > 0,
    ensures
        forall|m: MessageRecord|
            #[trigger] replay(p, msgs).contains(m) ==> msgs.contains(m) && (m == msgs.last() || !expired(
                m.timestamp,
                msgs.last().timestamp,
                p.retention_ms,
            )),
    decreases msgs.len(),
{
    let t = msgs.drop_last();
    let now = msgs.last().timestamp;
    let kept = retained(replay(p, t), now, p.retention_ms);
    lemma_retained_members(replay(p, t), now, p.retention_ms);
    if t.len() > 0 {
        lemma_replay_members(p, t);
    }
    assert forall|m: MessageRecord| #[trigger] replay(p, msgs).contains(m) implies msgs.contains(m) && (m
        == msgs.last() || !expired(m.timestamp, now, p.retention_ms)) by {
        let w = kept.push(msgs.last());
        let k = choose|k: int| 0 <= k < w.len() && w[k] == m;
        if k < kept.len() {
            assert(kept.contains(m));
            assert(replay(p, t).contains(m));
            if t.len() == 0 {
                assert(replay(p, t) =~= Seq::<MessageRecord>::empty());
            }
            assert(t.contains(m));
            let j = choose|j: int| 0 <= j < t.len() && t[j] == m;
            assert(msgs[j] == m);
        } else {
            assert(msgs[msgs.len() - 1] == m);
        }
    }
}

/// With a strict threshold `R`: when one author posts `R + 1` duplicates of
/// one message, each in its own channel and all within the retention of the
/// first, only the last of them calls for action.
pub proof fn lemma_single_trigger_within_retention(p: Policy, msgs: Seq<MessageRecord>)
    requires
        p.comparison == Comparison::MoreThan,
        msgs.len() == p.repeat + 1,
        forall|i: int, j: int| 0 <= i < msgs.len() && 0 <= j < msgs.len() ==> equivalent(#[trigger] msgs[i], #[trigger] msgs[j]),
        forall|i: int, j: int| 0 <= i < j < msgs.len() ==> msgs[i].channel != msgs[j].channel,
        forall|i: int, j: int| 0 <= i <= j < msgs.len() ==> msgs[i].timestamp <= msgs[j].timestamp,
        msgs.last().timestamp - msgs[0].timestamp < p.retention_ms,
    ensures
        forall|k: int|
            0 <= k < msgs.len() ==> (triggers(
                duplicate_count(replay(p, msgs.take(k + 1)), #[trigger] msgs[k]),
                p,
            ) <==> k == msgs.len() - 1),
{
    assert forall|k: int| 0 <= k < msgs.len() implies (triggers(
        duplicate_count(replay(p, msgs.take(k + 1)), #[trigger] msgs[k]),
        p,
    ) <==> k == msgs.len() - 1) by {
        let t = msgs.take(k + 1);
        assert forall|i: int, j: int| 0 <= i <= j < t.len() implies !#[trigger] expired(
            t[i].timestamp,
            t[j].timestamp,
            p.retention_ms,
        ) by {
            assert(msgs[0].timestamp <= msgs[i].timestamp);
            assert(msgs[j].timestamp <= msgs[msgs.len() - 1].timestamp);
        }
        lemma_replay_keeps_all(p, t);
        assert forall|i: int| 0 <= i < t.len() implies equivalent(#[trigger] t[i], msgs[k]) by {
            assert(equivalent(msgs[i], msgs[k]));
        }
        lemma_count_of_distinct_channels(t, msgs[k]);
    }
}

/// With a strict threshold `R` of at least one: the `R + 1`-th of a run of
/// messages does not call for action once the retention has passed since the
/// first arrived.
pub proof fn lemma_no_trigger_after_retention(p: Policy, msgs: Seq<MessageRecord>)
    requires
        p.comparison == Comparison::MoreThan,
        p.repeat > 0,
        msgs.len() == p.repeat + 1,
        msgs.last().timestamp - msgs[0].timestamp >= p.retention_ms,
    ensures
        !triggers(duplicate_count(replay(p, msgs), msgs.last()), p),
{
    lemma_replay_members(p, msgs);
    let w = replay(p, msgs);
    let pool = msgs.skip(1);
    assert forall|i: int| 0 <= i < w.len() implies pool.contains(#[trigger] w[i]) by {
        assert(w.contains(w[i]));
        let j = choose|j: int| 0 <= j < msgs.len() && msgs[j] == w[i];
        if j == 0 {
            assert(w[i] == msgs.last() || !expired(w[i].timestamp, msgs.last().timestamp, p.retention_ms));
            assert(msgs[msgs.len() - 1] == msgs.last());
            assert(pool[msgs.len() - 2] == msgs[msgs.len() - 1]);
        } else {
            assert(pool[j - 1] == w[i]);
        }
    }
    lemma_count_bounded_by(w, msgs.last(), pool);
}

} // verus!
