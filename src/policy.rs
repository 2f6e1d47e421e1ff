use vstd::prelude::*;

use crate::record::MessageRecord;

verus! {

/// How the duplicate count is held against the threshold.
#[derive(Clone, Copy, Debug, PartialEq, Eq, Structural)]
pub enum Comparison {
    /// Act when the count reaches the threshold.
    AtLeast,
    /// Act when the count goes beyond the threshold.
    MoreThan,
}

/// What is done to an author who crossed the threshold.
#[derive(Clone, Copy, Debug, PartialEq, Eq, Structural)]
pub enum Strategy {
    /// Grant the quarantine role, delete the counted duplicates, tell the administrator.
    QuarantineAndDelete,
    /// Ban the author, tell the administrator.
    Ban,
}

/// One kind of action that a policy calls for.
#[derive(Clone, Copy, Debug, PartialEq, Eq, Structural)]
pub enum ActionKind {
    Quarantine,
    DeleteMatches,
    Ban,
    NotifyAdmin,
}

/// The configuration of the detector. `retention_ms` is how long a message
/// is kept, in milliseconds; `repeat` is the threshold.
#[derive(Clone, Copy, Debug, PartialEq, Eq, Structural)]
pub struct Policy {
    pub retention_ms: u64,
    pub repeat: u64,
    pub comparison: Comparison,
    pub strategy: Strategy,
    pub quarantine_role: u64,
    pub admin: u64,
    pub ban_delete_days: u8,
}

/// Whether a duplicate count calls for action under `p`.
pub open spec fn triggers(count: nat, p: Policy) -> bool {
    match p.comparison {
        Comparison::AtLeast => count >= p.repeat,
        Comparison::MoreThan => count > p.repeat,
    }
}

/// The actions of a strategy, in the order they are issued.
pub open spec fn strategy_kinds(s: Strategy) -> Seq<ActionKind> {
    match s {
        Strategy::QuarantineAndDelete => seq![
            ActionKind::Quarantine,
            ActionKind::DeleteMatches,
            ActionKind::NotifyAdmin,
        ],
        Strategy::Ban => seq![ActionKind::Ban, ActionKind::NotifyAdmin],
    }
}

/// The action set for a count: the strategy's actions, or none.
pub open spec fn evaluation(count: nat, p: Policy) -> Seq<ActionKind> {
    if triggers(count, p) {
        strategy_kinds(p.strategy)
    } else {
        Seq::empty()
    }
}

/// Compares a duplicate count with the threshold and yields the actions due.
pub fn evaluate(count: usize, policy: &Policy) -> (r: Vec<ActionKind>)
    ensures
        r@ == evaluation(count as nat, *policy),
{
    let due = match policy.comparison {
        Comparison::AtLeast => count as u64 >= policy.repeat,
        Comparison::MoreThan => count as u64 > policy.repeat,
    };
    if !due {
        return Vec::new();
    }
    let r = match policy.strategy {
        Strategy::QuarantineAndDelete => vec![
            ActionKind::Quarantine,
            ActionKind::DeleteMatches,
            ActionKind::NotifyAdmin,
        ],
        Strategy::Ban => vec![ActionKind::Ban, ActionKind::NotifyAdmin],
    };
    proof {
        assert(r@ =~= strategy_kinds(policy.strategy));
    }
    r
}

/// One call to the chat platform.
#[derive(Clone, Copy, Debug, PartialEq, Eq, Structural)]
pub enum Action {
    GrantRole { guild: u64, user: u64, role: u64 },
    DeleteMessage { channel: u64, message: u64 },
    BanUser { guild: u64, user: u64, delete_message_days: u8 },
    NotifyAdmin { admin: u64, offender: u64 },
}

/// The deletions of the records of `s` at the positions `pos`.
pub open spec fn deletions(s: Seq<MessageRecord>, pos: Seq<usize>) -> Seq<Action> {
    pos.map_values(|k: usize| Action::DeleteMessage { channel: s[k as int].channel, message: s[k as int].id })
}

/// The calls that one kind of action becomes against the author of `n`.
pub open spec fn calls_for(
    kind: ActionKind,
    p: Policy,
    s: Seq<MessageRecord>,
    pos: Seq<usize>,
    n: MessageRecord,
) -> Seq<Action> {
    match kind {
        ActionKind::Quarantine => seq![
            Action::GrantRole { guild: n.guild, user: n.author, role: p.quarantine_role },
        ],
        ActionKind::DeleteMatches => deletions(s, pos),
        ActionKind::Ban => seq![
            Action::BanUser { guild: n.guild, user: n.author, delete_message_days: p.ban_delete_days },
        ],
        ActionKind::NotifyAdmin => seq![Action::NotifyAdmin { admin: p.admin, offender: n.author }],
    }
}

/// The calls for a list of kinds, one kind after the other.
pub open spec fn calls_for_all(
    kinds: Seq<ActionKind>,
    p: Policy,
    s: Seq<MessageRecord>,
    pos: Seq<usize>,
    n: MessageRecord,
) -> Seq<Action>
    decreases kinds.len(),
{
    if kinds.len() == 0 {
        Seq::empty()
    } else {
        calls_for_all(kinds.drop_last(), p, s, pos, n) + calls_for(kinds.last(), p, s, pos, n)
    }
}

/// Turns the action kinds into the calls to make: the role and the ban go to
/// the author of `new`, a deletion to each record of `records` at `positions`.
pub fn plan_actions(
    kinds: &Vec<ActionKind>,
    policy: &Policy,
    records: &Vec<MessageRecord>,
    positions: &Vec<usize>,
    new: &MessageRecord,
) -> (r: Vec<Action>)
    requires
        forall|k: int| 0 <= k < positions@.len() ==> #[trigger] positions@[k] < records@.len(),
    ensures
        r@ == calls_for_all(kinds@, *policy, records@, positions@, *new),
{
    let mut r: Vec<Action> = Vec::new();
    let mut i: usize = 0;
    while i < kinds.len()
        invariant
            i <= kinds@.len(),
            forall|k: int| 0 <= k < positions@.len() ==> #[trigger] positions@[k] < records@.len(),
            r@ == calls_for_all(kinds@.take(i as int), *policy, records@, positions@, *new),
        decreases kinds@.len() - i,
    {
        let ghost before = r@;
        proof {
            assert(kinds@.take(i as int + 1).drop_last() =~= kinds@.take(i as int));
        }
        match kinds[i] {
            ActionKind::Quarantine => {
                r.push(Action::GrantRole { guild: new.guild, user: new.author, role: policy.quarantine_role });
            },
            ActionKind::DeleteMatches => {
                let mut j: usize = 0;
                while j < positions.len()
                    invariant
                        j <= positions@.len(),
                        forall|k: int| 0 <= k < positions@.len() ==> #[trigger] positions@[k] < records@.len(),
                        r@ == before + deletions(records@, positions@.take(j as int)),
                    decreases positions@.len() - j,
                {
                    let m = &records[positions[j]];
                    r.push(Action::DeleteMessage { channel: m.channel, message: m.id });
                    proof {
                        assert(deletions(records@, positions@.take(j as int + 1)) =~= deletions(
                            records@,
                            positions@.take(j as int),
                        ).push(Action::DeleteMessage { channel: m.channel, message: m.id }));
                    }
                    j = j + 1;
                }
                proof {
                    assert(positions@.take(j as int) =~= positions@);
                }
            },
            ActionKind::Ban => {
                r.push(Action::BanUser { guild: new.guild, user: new.author, delete_message_days: policy.ban_delete_days });
            },
            ActionKind::NotifyAdmin => {
                r.push(Action::NotifyAdmin { admin: policy.admin, offender: new.author });
            },
        }
        proof {
            assert(r@ =~= before + calls_for(kinds@[i as int], *policy, records@, positions@, *new));
        }
        i = i + 1;
    }
    proof {
        assert(kinds@.take(i as int) =~= kinds@);
    }
    r
}

} // verus!
