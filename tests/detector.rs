use ro_bot::counter::duplicate_positions;
use ro_bot::dispatch::Dispatch;
use ro_bot::equivalence::{compare_embeds, compare_embeds_inner, compare_messages};
use ro_bot::guard::Guard;
use ro_bot::policy::{evaluate, plan_actions, Action, ActionKind, Comparison, Policy, Strategy};
use ro_bot::record::{to_record, Embed, MessageEvent, MessageRecord};
use ro_bot::window::Window;

const SEC: u64 = 1000;

fn embed(title: &str, url: Option<&str>) -> Embed {
    Embed {
        title: Some(title.to_string()),
        description: None,
        kind: Some("rich".to_string()),
        url: url.map(|u| u.to_string()),
    }
}

fn rec(id: u64, author: u64, channel: u64, content: &str, at: u64) -> MessageRecord {
    MessageRecord {
        id,
        author,
        channel,
        guild: 7,
        content: content.to_string(),
        embeds: Vec::new(),
        timestamp: at,
    }
}

fn event(id: u64, author: u64, channel: u64, content: &str) -> MessageEvent {
    MessageEvent {
        id,
        author,
        author_is_bot: false,
        channel,
        guild: Some(7),
        content: content.to_string(),
        embeds: Vec::new(),
    }
}

fn policy(repeat: u64, comparison: Comparison, strategy: Strategy) -> Policy {
    Policy {
        retention_ms: 60 * SEC,
        repeat,
        comparison,
        strategy,
        quarantine_role: 500,
        admin: 900,
        ban_delete_days: 1,
    }
}

#[test]
fn embeds_agree_field_by_field() {
    let a = embed("t", Some("https://x"));
    assert!(compare_embeds_inner(&a, &embed("t", Some("https://x"))));
    assert!(!compare_embeds_inner(&a, &embed("T", Some("https://x"))));
    assert!(!compare_embeds_inner(&a, &embed("t", None)));
    let mut d = embed("t", Some("https://x"));
    d.description = Some("d".to_string());
    assert!(!compare_embeds_inner(&a, &d));
    let mut k = embed("t", Some("https://x"));
    k.kind = Some("link".to_string());
    assert!(!compare_embeds_inner(&a, &k));
}

#[test]
fn channel_does_not_matter() {
    let a = rec(1, 10, 100, "spam", 0);
    let b = rec(2, 10, 200, "spam", 5);
    assert!(compare_messages(&a, &b));
}

#[test]
fn author_content_and_embeds_matter() {
    let a = rec(1, 10, 100, "spam", 0);
    assert!(!compare_messages(&a, &rec(2, 11, 100, "spam", 0)));
    assert!(!compare_messages(&a, &rec(2, 10, 100, "Spam", 0)));
    assert!(!compare_messages(&a, &rec(2, 10, 100, "spam ", 0)));
    let mut b = rec(2, 10, 100, "spam", 0);
    b.embeds.push(embed("t", None));
    assert!(!compare_messages(&a, &b));
    let mut c = rec(3, 10, 100, "spam", 0);
    c.embeds.push(embed("t", Some("https://y")));
    assert!(!compare_messages(&b, &c));
}

#[test]
fn embeds_match_in_any_order() {
    let mut a = rec(1, 10, 100, "spam", 0);
    a.embeds.push(embed("x", None));
    a.embeds.push(embed("y", None));
    let mut b = rec(2, 10, 200, "spam", 0);
    b.embeds.push(embed("y", None));
    b.embeds.push(embed("x", None));
    assert!(compare_embeds(&a, &b));
    assert!(compare_messages(&a, &b));
}

#[test]
fn an_embed_is_matched_only_once() {
    let mut a = rec(1, 10, 100, "spam", 0);
    a.embeds.push(embed("x", None));
    a.embeds.push(embed("x", None));
    let mut b = rec(2, 10, 200, "spam", 0);
    b.embeds.push(embed("x", None));
    b.embeds.push(embed("y", None));
    assert!(!compare_embeds(&a, &b));
    assert!(!compare_embeds(&b, &a));
}

#[test]
fn eviction_at_exactly_the_retention() {
    let mut w = Window::new(60 * SEC);
    w.insert(rec(1, 10, 100, "a", 0));
    w.insert(rec(2, 10, 100, "b", 1));
    w.evict_expired(60 * SEC - 1);
    assert_eq!(w.snapshot().len(), 2);
    w.evict_expired(60 * SEC);
    assert_eq!(w.snapshot().len(), 1);
    assert_eq!(w.snapshot()[0].id, 2);
    w.evict_expired(61 * SEC);
    assert!(w.snapshot().is_empty());
}

#[test]
fn eviction_purges_all_in_one_pass_and_keeps_order() {
    let mut w = Window::new(10);
    w.insert(rec(1, 10, 100, "a", 0));
    w.insert(rec(2, 10, 100, "b", 50));
    w.insert(rec(3, 10, 100, "c", 2));
    w.insert(rec(4, 10, 100, "d", 55));
    w.insert(rec(5, 10, 100, "e", 5));
    w.ingest(rec(6, 10, 100, "f", 60));
    let ids: Vec<u64> = w.snapshot().iter().map(|m| m.id).collect();
    assert_eq!(ids, vec![4, 6]);
}

#[test]
fn future_records_are_kept() {
    let mut w = Window::new(10);
    w.insert(rec(1, 10, 100, "a", 100));
    w.evict_expired(5);
    assert_eq!(w.snapshot().len(), 1);
}

#[test]
fn same_channel_counts_once() {
    let records = vec![
        rec(1, 10, 100, "spam", 0),
        rec(2, 10, 100, "spam", 1),
        rec(3, 10, 100, "spam", 2),
        rec(4, 10, 200, "spam", 3),
        rec(5, 10, 200, "spam", 4),
    ];
    let pos = duplicate_positions(&records, &records[4]);
    assert_eq!(pos, vec![0, 3]);
}

#[test]
fn only_duplicates_of_the_author_count() {
    let records = vec![
        rec(1, 11, 100, "spam", 0),
        rec(2, 10, 200, "eggs", 1),
        rec(3, 10, 300, "spam", 2),
        rec(4, 10, 400, "spam", 3),
    ];
    let pos = duplicate_positions(&records, &records[3]);
    assert_eq!(pos, vec![2, 3]);
}

#[test]
fn evaluate_compares_with_threshold() {
    let ge = policy(3, Comparison::AtLeast, Strategy::QuarantineAndDelete);
    assert!(evaluate(2, &ge).is_empty());
    assert_eq!(
        evaluate(3, &ge),
        vec![ActionKind::Quarantine, ActionKind::DeleteMatches, ActionKind::NotifyAdmin]
    );
    let gt = policy(3, Comparison::MoreThan, Strategy::Ban);
    assert!(evaluate(3, &gt).is_empty());
    assert_eq!(evaluate(4, &gt), vec![ActionKind::Ban, ActionKind::NotifyAdmin]);
    assert!(evaluate(0, &gt).is_empty());
}

#[test]
fn plan_expands_each_kind() {
    let p = policy(2, Comparison::AtLeast, Strategy::Ban);
    let records = vec![rec(1, 10, 100, "spam", 0), rec(2, 10, 200, "spam", 1)];
    let kinds = vec![ActionKind::Ban, ActionKind::DeleteMatches, ActionKind::NotifyAdmin];
    let plan = plan_actions(&kinds, &p, &records, &vec![0, 1], &records[1]);
    assert_eq!(
        plan,
        vec![
            Action::BanUser { guild: 7, user: 10, delete_message_days: 1 },
            Action::DeleteMessage { channel: 100, message: 1 },
            Action::DeleteMessage { channel: 200, message: 2 },
            Action::NotifyAdmin { admin: 900, offender: 10 },
        ]
    );
}

#[test]
fn scenario_spam_in_four_channels() {
    let mut g = Guard::new(policy(3, Comparison::AtLeast, Strategy::QuarantineAndDelete));
    let (a, b, c, d) = (100, 200, 300, 400);
    assert!(g.check_for_duplicate_messages(event(1, 10, a, "spam"), 0).is_empty());
    assert!(g.check_for_duplicate_messages(event(2, 10, b, "spam"), 10 * SEC).is_empty());
    let third = g.check_for_duplicate_messages(event(3, 10, c, "spam"), 20 * SEC);
    assert_eq!(
        third,
        vec![
            Action::GrantRole { guild: 7, user: 10, role: 500 },
            Action::DeleteMessage { channel: a, message: 1 },
            Action::DeleteMessage { channel: b, message: 2 },
            Action::DeleteMessage { channel: c, message: 3 },
            Action::NotifyAdmin { admin: 900, offender: 10 },
        ]
    );
    let fourth = g.check_for_duplicate_messages(event(4, 10, d, "spam"), 30 * SEC);
    assert_eq!(fourth.len(), 6);
    assert_eq!(g.records().len(), 4);
}

#[test]
fn strict_threshold_triggers_once() {
    let mut g = Guard::new(policy(3, Comparison::MoreThan, Strategy::Ban));
    let mut triggered = 0;
    for (i, ch) in [100u64, 200, 300, 400].iter().enumerate() {
        let r = g.check_for_duplicate_messages(event(i as u64, 10, *ch, "spam"), i as u64 * SEC);
        if !r.is_empty() {
            triggered += 1;
            assert_eq!(i, 3);
            assert_eq!(
                r,
                vec![
                    Action::BanUser { guild: 7, user: 10, delete_message_days: 1 },
                    Action::NotifyAdmin { admin: 900, offender: 10 },
                ]
            );
        }
    }
    assert_eq!(triggered, 1);
}

#[test]
fn strict_threshold_not_reached_after_retention() {
    let mut g = Guard::new(policy(3, Comparison::MoreThan, Strategy::Ban));
    assert!(g.check_for_duplicate_messages(event(1, 10, 100, "spam"), 0).is_empty());
    assert!(g.check_for_duplicate_messages(event(2, 10, 200, "spam"), 10 * SEC).is_empty());
    assert!(g.check_for_duplicate_messages(event(3, 10, 300, "spam"), 20 * SEC).is_empty());
    assert!(g.check_for_duplicate_messages(event(4, 10, 400, "spam"), 60 * SEC).is_empty());
    assert_eq!(g.records().len(), 3);
}

#[test]
fn repeats_in_one_channel_do_not_trigger() {
    let mut g = Guard::new(policy(3, Comparison::AtLeast, Strategy::QuarantineAndDelete));
    for i in 0..10u64 {
        assert!(g.check_for_duplicate_messages(event(i, 10, 100, "spam"), i).is_empty());
    }
    assert!(g.check_for_duplicate_messages(event(20, 10, 200, "spam"), 20).is_empty());
}

#[test]
fn dropped_events_leave_the_window_alone() {
    let mut g = Guard::new(policy(1, Comparison::AtLeast, Strategy::Ban));
    let mut bot = event(1, 10, 100, "spam");
    bot.author_is_bot = true;
    assert!(g.check_for_duplicate_messages(bot, 0).is_empty());
    assert!(g.check_for_duplicate_messages(event(2, 10, 100, ""), 0).is_empty());
    let mut dm = event(3, 10, 100, "spam");
    dm.guild = None;
    assert!(g.check_for_duplicate_messages(dm, 0).is_empty());
    assert!(g.records().is_empty());
    assert!(to_record(event(4, 10, 100, ""), 0).is_none());
    let r = to_record(event(5, 10, 100, "hi"), 42).unwrap();
    assert_eq!((r.id, r.guild, r.timestamp), (5, 7, 42));
}

#[test]
fn failed_call_does_not_stop_the_rest() {
    let mut d = Dispatch::new(4);
    let mut attempted = Vec::new();
    while let Some(i) = d.next_call() {
        attempted.push(i);
        d.record_outcome(i != 1);
    }
    assert_eq!(attempted, vec![0, 1, 2, 3]);
    assert_eq!(d.failures(), &vec![1]);
}

#[test]
fn empty_window_has_no_duplicates() {
    let records: Vec<MessageRecord> = Vec::new();
    let n = rec(1, 10, 100, "spam", 0);
    assert!(duplicate_positions(&records, &n).is_empty());
}

#[test]
fn ban_strategy_bans_and_notifies() {
    let mut g = Guard::new(policy(2, Comparison::AtLeast, Strategy::Ban));
    assert!(g.check_for_duplicate_messages(event(1, 10, 100, "spam"), 0).is_empty());
    let r = g.check_for_duplicate_messages(event(2, 10, 200, "spam"), 5);
    assert_eq!(
        r,
        vec![
            Action::BanUser { guild: 7, user: 10, delete_message_days: 1 },
            Action::NotifyAdmin { admin: 900, offender: 10 },
        ]
    );
    assert_eq!(g.policy().repeat, 2);
}

#[test]
fn dispatch_with_every_call_failing() {
    let mut d = Dispatch::new(3);
    let mut attempted = 0;
    while d.next_call().is_some() {
        attempted += 1;
        d.record_outcome(false);
    }
    assert_eq!(attempted, 3);
    assert_eq!(d.failures(), &vec![0, 1, 2]);
}
