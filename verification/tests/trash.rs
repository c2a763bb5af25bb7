use wipe::ops::{create_ticket, NewTicket};
use wipe::store::Store;
use wipe::trash::{empty, list_trash, purge_expired, purge_ticket, restore_ticket, trash_ticket};

/// 2026-07-02 12:00:00 UTC, in nanoseconds.
const NOW: i128 = 1_782_993_600_000_000_000;
const DAY: i128 = 86_400_000_000_000;

fn project() -> Store {
    Store::init("/tmp/trash", "Trash Test", NOW, false).unwrap()
}

fn make(store: &mut Store, title: &str, list: &str) -> String {
    create_ticket(
        store,
        NewTicket { title: title.to_string(), list: Some(list.to_string()), ..Default::default() },
        "tester",
        NOW,
    )
    .unwrap()
    .id
}

#[test]
fn trash_restore_roundtrip_preserves_list_and_position() {
    let mut s = project();
    let first = s.load_board().lists[0].id.clone();
    let a = make(&mut s, "A", &first);
    let b = make(&mut s, "B", &first);
    let c = make(&mut s, "C", &first);

    let entry = trash_ticket(&mut s, &b, 7, NOW).unwrap();
    assert_eq!(entry.ticket.id, b);
    assert_eq!(entry.deleted_at, NOW);
    assert_eq!(entry.list, first);
    assert_eq!(entry.index, 1);
    assert!(s.load_ticket(&b).is_err(), "ticket file removed");
    let board = s.load_board();
    assert_eq!(board.lists[0].cards, vec![a.clone(), c.clone()]);
    assert_eq!(list_trash(&mut s, 7, NOW).unwrap().len(), 1);

    restore_ticket(&mut s, &b, NOW).unwrap();
    let board = s.load_board();
    assert_eq!(board.lists[0].cards, vec![a, b.clone(), c]);
    assert!(s.load_ticket(&b).is_ok());
    assert!(list_trash(&mut s, 7, NOW).unwrap().is_empty());
}

#[test]
fn expired_entries_are_purged_and_unrestorable() {
    let mut s = project();
    let first = s.load_board().lists[0].id.clone();
    let t = make(&mut s, "old", &first);
    let ten_days_ago = NOW - 10 * DAY;
    trash_ticket(&mut s, &t, 7, ten_days_ago).unwrap();
    assert!(list_trash(&mut s, 7, NOW).unwrap().is_empty());
    assert!(restore_ticket(&mut s, &t, NOW).is_err());
}

#[test]
fn zero_retention_deletes_outright() {
    let mut s = project();
    let first = s.load_board().lists[0].id.clone();
    let t = make(&mut s, "gone", &first);
    trash_ticket(&mut s, &t, 0, NOW).unwrap();
    assert!(list_trash(&mut s, 7, NOW).unwrap().is_empty());
}

#[test]
fn restored_ticket_goes_to_first_list_when_its_list_is_gone() {
    let mut s = project();
    let t = make(&mut s, "moved", "todo");
    trash_ticket(&mut s, &t, 7, NOW).unwrap();
    wipe::ops::remove_list(&mut s, "todo", false, NOW).unwrap();
    let back = restore_ticket(&mut s, &t, NOW + DAY).unwrap();
    assert_eq!(back.updated, NOW + DAY);
    assert_eq!(s.load_board().lists[0].cards, vec![t]);
}

#[test]
fn restore_reports_missing_entries() {
    let mut s = project();
    match restore_ticket(&mut s, "T-9", NOW) {
        Err(wipe::error::Error::Message(m)) => {
            assert_eq!(m, "`T-9` is not in the trash (already restored or purged)")
        },
        _ => panic!("expected an error"),
    }
}

#[test]
fn trash_lists_newest_deletion_first_and_empties() {
    let mut s = project();
    let a = make(&mut s, "a", "backlog");
    let b = make(&mut s, "b", "backlog");
    let c = make(&mut s, "c", "backlog");
    trash_ticket(&mut s, &a, 7, NOW - 2 * DAY).unwrap();
    trash_ticket(&mut s, &b, 7, NOW).unwrap();
    trash_ticket(&mut s, &c, 7, NOW - DAY).unwrap();
    let listed: Vec<String> = list_trash(&mut s, 7, NOW).unwrap().into_iter().map(|e| e.ticket.id).collect();
    assert_eq!(listed, vec![b.clone(), c.clone(), a.clone()]);
    assert_eq!(purge_expired(&mut s, 1, NOW).unwrap(), 2);
    assert_eq!(purge_ticket(&mut s, &b).unwrap(), true);
    assert_eq!(purge_ticket(&mut s, &b).unwrap(), false);
    let d = make(&mut s, "d", "backlog");
    trash_ticket(&mut s, &d, 7, NOW).unwrap();
    assert_eq!(empty(&mut s).unwrap(), 1);
    assert!(list_trash(&mut s, 7, NOW).unwrap().is_empty());
}
