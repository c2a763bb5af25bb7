use wipe::inbox::{inbox, snippet, subscribe, subscriptions_of, unsubscribe};
use wipe::ops::{add_comment, create_ticket, update_ticket, NewTicket, TicketPatch};
use wipe::forum::{create_thread, reply, NewReply, NewThread};
use wipe::store::Store;

const NOW: i128 = 1_782_993_600_000_000_000;

fn project() -> Store {
    Store::init("/tmp/inbox", "Inbox", NOW, false).unwrap()
}

#[test]
fn subscribe_is_idempotent_and_sorted() {
    let mut s = project();
    assert!(subscribe(&mut s, "ada", "T-2").unwrap());
    assert!(subscribe(&mut s, "ada", "T-1").unwrap());
    assert!(!subscribe(&mut s, "ada", "T-2").unwrap());
    assert_eq!(subscriptions_of(&s, "ada").unwrap(), vec!["T-1", "T-2"]);
    assert!(subscriptions_of(&s, "bob").unwrap().is_empty());
}

#[test]
fn unsubscribe_drops_the_reference_and_empty_entries() {
    let mut s = project();
    subscribe(&mut s, "ada", "T-1").unwrap();
    subscribe(&mut s, "ada", "forum:*").unwrap();
    assert!(unsubscribe(&mut s, "ada", "T-1").unwrap());
    assert!(!unsubscribe(&mut s, "ada", "T-1").unwrap());
    assert_eq!(subscriptions_of(&s, "ada").unwrap(), vec!["forum:*"]);
    assert!(unsubscribe(&mut s, "ada", "forum:*").unwrap());
    assert!(s.load_subscriptions().subs.is_empty());
    assert!(!unsubscribe(&mut s, "nobody", "T-1").unwrap());
}

#[test]
fn snippets_collapse_whitespace_and_cut() {
    assert_eq!(snippet("  hello \n  world  ", 120), "hello world");
    assert_eq!(snippet("abcdef", 3), "abc\u{2026}");
    assert_eq!(snippet("", 5), "");
}

#[test]
fn inbox_shows_others_events_on_my_tickets_newest_first() {
    let mut s = project();
    create_ticket(&mut s, NewTicket { title: "Mine".to_string(), ..Default::default() }, "ada", NOW).unwrap();
    create_ticket(&mut s, NewTicket { title: "Theirs".to_string(), ..Default::default() }, "bob", NOW).unwrap();
    add_comment(&mut s, "T-1", "bob", "looks   good", NOW + 10).unwrap();
    add_comment(&mut s, "T-1", "ada", "thanks", NOW + 20).unwrap();
    add_comment(&mut s, "T-2", "bob", "not yours", NOW + 30).unwrap();
    update_ticket(
        &mut s,
        "T-1",
        TicketPatch { priority: Some(Some("high".to_string())), ..Default::default() },
        "cara",
        NOW + 40,
    )
    .unwrap();

    let events = inbox(&s, "ada", NOW).unwrap();
    assert_eq!(events.len(), 2);
    assert_eq!(events[0].actor, "cara");
    assert_eq!(events[0].kind, "activity");
    assert_eq!(events[0].detail, "priority high");
    assert_eq!(events[0].reason, "authored");
    assert_eq!(events[1].actor, "bob");
    assert_eq!(events[1].kind, "comment");
    assert_eq!(events[1].detail, "looks good");
    assert_eq!(events[1].object, "T-1");
    assert!(events.iter().all(|e| e.actor != "ada" && e.ts > NOW));

    // Nothing after the latest event.
    assert!(inbox(&s, "ada", NOW + 40).unwrap().is_empty());
}

#[test]
fn inbox_follows_subscribed_forum_threads() {
    let mut s = project();
    create_thread(&mut s, NewThread { title: "Plan".to_string(), body: "root".to_string(), ..Default::default() }, "bob", NOW + 1);
    reply(&mut s, "F-1", NewReply { body: "a reply".to_string(), ..Default::default() }, "cara", NOW + 2).unwrap();
    assert!(inbox(&s, "ada", NOW).unwrap().is_empty());
    subscribe(&mut s, "ada", "forum:F-1").unwrap();
    let events = inbox(&s, "ada", NOW).unwrap();
    assert_eq!(events.len(), 2);
    assert_eq!(events[0].object, "F-1.1");
    assert_eq!(events[0].title, "Plan");
    assert_eq!(events[1].object, "F-1");
    assert!(events.iter().all(|e| e.kind == "forum" && e.reason == "subscribed"));
}

#[test]
fn opening_keeps_one_subscription_entry_per_identity() {
    let s = project();
    let mut c = s.contents();
    c.subscriptions.subs = vec![
        ("ada".to_string(), vec!["T-1".to_string()]),
        ("bob".to_string(), vec!["T-2".to_string()]),
        ("ada".to_string(), vec!["T-3".to_string()]),
    ];
    let mut again = Store::open("/tmp/inbox", Some(c)).unwrap();
    let subs = again.load_subscriptions().subs;
    assert_eq!(subs.len(), 2);
    assert_eq!(subscriptions_of(&again, "ada").unwrap(), vec!["T-1"]);
    assert!(subscribe(&mut again, "ada", "T-3").unwrap());
    assert!(unsubscribe(&mut again, "ada", "T-3").unwrap());
    assert_eq!(subscriptions_of(&again, "ada").unwrap(), vec!["T-1"]);
    assert!(!unsubscribe(&mut again, "ada", "T-3").unwrap());
}
