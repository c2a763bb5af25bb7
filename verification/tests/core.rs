use wipe::git::{commit_next, commit_paths, CommitAction, CommitEvent, CommitStage};
use wipe::error::Error;
use wipe::id::{acceptance_id, checklist_id, comment_id, slug, ticket_id};
use wipe::model::{Board, IdentityKind, Ticket};
use wipe::ops::{
    add_list, checks_add, checks_edit, checks_move, checks_remove, checks_set, create_ticket,
    delete_ticket, list_identities, move_list, move_ticket, remove_list, rename_list,
    update_ticket, upsert_identity, Checks, NewTicket, TicketPatch,
};
use wipe::store::Store;
use wipe::vcs::{detect, identity, Markers, Vcs};

/// 2026-07-02 12:00:00 UTC, in nanoseconds.
const NOW: i128 = 1_782_993_600_000_000_000;

fn project() -> Store {
    Store::init("/tmp/project", "Test", NOW, false).unwrap()
}

fn titled(title: &str) -> NewTicket {
    NewTicket { title: title.to_string(), ..Default::default() }
}

#[test]
fn formats_ids() {
    assert_eq!(ticket_id(23), "T-23");
    assert_eq!(comment_id(7), "c-7");
    assert_eq!(checklist_id(3), "ck-3");
    assert_eq!(acceptance_id(2), "ac-2");
}

#[test]
fn slugs_names() {
    assert_eq!(slug("In Progress"), "in-progress");
    assert_eq!(slug("  To-Do!! "), "to-do");
    assert_eq!(slug("Backlog"), "backlog");
    assert_eq!(slug("***"), "list");
}

#[test]
fn vcs_names_are_stable() {
    assert_eq!(Vcs::Plastic.name(), "plastic");
    assert_eq!(Vcs::Git.name(), "git");
    assert_eq!(Vcs::NoVcs.name(), "none");
}

#[test]
fn no_vcs_yields_none() {
    let bare = Markers { git: false, plastic: false, hg: false, svn: false, jj: false, fossil: false };
    assert_eq!(detect(&vec![bare, bare]), Vcs::NoVcs);
    assert_eq!(identity(Vcs::NoVcs, None, None), None);
}

#[test]
fn board_has_default_lists() {
    let b = Board::new("Demo", NOW);
    assert_eq!(b.lists.len(), 4);
    assert_eq!(b.lists[2].id, "in-progress");
    assert_eq!(b.next_ticket, 1);
}

#[test]
fn comment_allocation_is_monotonic() {
    let mut t = Ticket::new("T-1", "Hello", NOW);
    let a = t.add_comment("me", "first", NOW);
    let b = t.add_comment("me", "second", NOW);
    assert_eq!(a, "c-1");
    assert_eq!(b, "c-2");
    assert_eq!(t.next_comment, 3);
}

#[test]
fn init_twice_fails() {
    let err = Store::init("/tmp/project", "Again", NOW, true).unwrap_err();
    assert!(matches!(err, Error::AlreadyInitialized(_)));
}

#[test]
fn ticket_roundtrip_and_ordering() {
    let mut store = project();
    for n in [1u64, 2, 10] {
        let t = Ticket::new(&format!("T-{n}"), &format!("Ticket {n}"), NOW);
        store.save_ticket(&t).unwrap();
    }
    assert_eq!(store.ticket_ids(), vec!["T-1", "T-2", "T-10"]);
    let loaded = store.load_ticket("T-10").unwrap();
    assert_eq!(loaded.title, "Ticket 10");
}

#[test]
fn missing_ticket_errors() {
    let store = project();
    assert!(matches!(store.load_ticket("T-99"), Err(Error::TicketNotFound(_))));
}

#[test]
fn ticket_id_traversal_is_rejected() {
    let mut store = project();
    let board_before = store.load_board().name.clone();
    for evil in ["../board", "../../evil", "T-1/../../board", "..\\board"] {
        assert!(matches!(store.delete_ticket(evil), Err(Error::TicketNotFound(_))));
        assert!(matches!(store.load_ticket(evil), Err(Error::TicketNotFound(_))));
    }
    assert_eq!(store.load_board().name, board_before);
}

#[test]
fn create_places_on_first_list_and_allocates_ids() {
    let mut s = project();
    let t1 = create_ticket(&mut s, titled("A"), "tester", NOW).unwrap();
    let t2 = create_ticket(&mut s, titled("B"), "tester", NOW).unwrap();
    assert_eq!(t1.id, "T-1");
    assert_eq!(t2.id, "T-2");
    let board = s.load_board();
    assert_eq!(board.lists[0].cards, vec!["T-1", "T-2"]);
    assert_eq!(board.next_ticket, 3);
}

#[test]
fn checklist_lifecycle() {
    let mut s = project();
    create_ticket(&mut s, titled("A"), "tester", NOW).unwrap();
    let k = Checks::Checklist;
    let a = checks_add(&mut s, k, "T-1", "first", NOW).unwrap();
    let b = checks_add(&mut s, k, "T-1", "second", NOW).unwrap();
    let c = checks_add(&mut s, k, "T-1", "third", NOW).unwrap();
    assert_eq!((a.as_str(), b.as_str(), c.as_str()), ("ck-1", "ck-2", "ck-3"));

    assert!(checks_set(&mut s, k, "T-1", "ck-1", None, NOW).unwrap());
    assert!(!checks_set(&mut s, k, "T-1", "ck-1", Some(false), NOW).unwrap());
    checks_set(&mut s, k, "T-1", "ck-2", Some(true), NOW).unwrap();

    checks_edit(&mut s, k, "T-1", "ck-2", "second!", NOW).unwrap();
    checks_move(&mut s, k, "T-1", "ck-3", 0, NOW).unwrap();
    checks_remove(&mut s, k, "T-1", "ck-1", NOW).unwrap();

    let t = s.load_ticket("T-1").unwrap();
    assert_eq!(t.checklist.iter().map(|i| i.id.as_str()).collect::<Vec<_>>(), vec!["ck-3", "ck-2"]);
    assert_eq!(t.checklist[1].text, "second!");
    assert!(t.checklist[1].done);
    assert_eq!(t.next_check, 4);

    assert!(checks_set(&mut s, k, "T-1", "ck-99", None, NOW).is_err());
    assert!(checks_remove(&mut s, k, "T-1", "ck-99", NOW).is_err());
}

#[test]
fn acceptance_criteria_are_independent_of_the_checklist() {
    let mut s = project();
    create_ticket(&mut s, titled("Review me"), "tester", NOW).unwrap();
    let ck = checks_add(&mut s, Checks::Checklist, "T-1", "do the work", NOW).unwrap();
    let a1 = checks_add(&mut s, Checks::Acceptance, "T-1", "tests pass", NOW).unwrap();
    let a2 = checks_add(&mut s, Checks::Acceptance, "T-1", "docs updated", NOW).unwrap();
    assert_eq!((ck.as_str(), a1.as_str(), a2.as_str()), ("ck-1", "ac-1", "ac-2"));

    assert!(checks_set(&mut s, Checks::Acceptance, "T-1", "ac-1", Some(true), NOW).unwrap());
    let t = s.load_ticket("T-1").unwrap();
    assert!(t.acceptance[0].done);
    assert!(!t.checklist[0].done);
    assert_eq!((t.next_check, t.next_accept), (2, 3));

    assert!(checks_set(&mut s, Checks::Acceptance, "T-1", "ck-1", None, NOW).is_err());
}

#[test]
fn move_relocates_card() {
    let mut s = project();
    create_ticket(&mut s, titled("A"), "tester", NOW).unwrap();
    move_ticket(&mut s, "T-1", "done", None, "tester", NOW).unwrap();
    let board = s.load_board();
    assert!(board.list("backlog").unwrap().cards.is_empty());
    assert_eq!(board.list("done").unwrap().cards, vec!["T-1"]);
}

#[test]
fn move_to_unknown_list_errors() {
    let mut s = project();
    create_ticket(&mut s, titled("A"), "tester", NOW).unwrap();
    assert!(matches!(move_ticket(&mut s, "T-1", "nope", None, "tester", NOW), Err(Error::ListNotFound(_))));
}

#[test]
fn delete_removes_file_and_card() {
    let mut s = project();
    create_ticket(&mut s, titled("A"), "tester", NOW).unwrap();
    delete_ticket(&mut s, "T-1", NOW).unwrap();
    assert!(matches!(s.load_ticket("T-1"), Err(Error::TicketNotFound(_))));
    let board = s.load_board();
    assert!(board.lists.iter().all(|l| l.cards.is_empty()));
}

#[test]
fn list_lifecycle() {
    let mut s = project();
    let id = add_list(&mut s, "In Review", NOW).unwrap();
    assert_eq!(id, "in-review");
    rename_list(&mut s, &id, "Review", NOW).unwrap();
    move_list(&mut s, &id, 0, NOW).unwrap();
    let board = s.load_board();
    assert_eq!(board.lists[0].id, "in-review");
    assert_eq!(board.lists[0].name, "Review");
    remove_list(&mut s, &id, false, NOW).unwrap();
    assert!(s.load_board().list("in-review").is_none());
}

#[test]
fn remove_nonempty_list_requires_force() {
    let mut s = project();
    create_ticket(&mut s, titled("A"), "tester", NOW).unwrap();
    assert!(remove_list(&mut s, "backlog", false, NOW).is_err());
    remove_list(&mut s, "backlog", true, NOW).unwrap();
    assert!(matches!(s.load_ticket("T-1"), Err(Error::TicketNotFound(_))));
}

#[test]
fn update_ticket_applies_patch() {
    let mut s = project();
    create_ticket(&mut s, titled("A"), "tester", NOW).unwrap();
    let patch = TicketPatch {
        title: Some("A2".to_string()),
        priority: Some(Some("high".to_string())),
        labels: Some(vec!["blocked".to_string()]),
        assignees: Some(vec!["ada@example.com".to_string()]),
        ..Default::default()
    };
    let t = update_ticket(&mut s, "T-1", patch, "tester", NOW).unwrap();
    assert_eq!(t.title, "A2");
    assert_eq!(t.priority.as_deref(), Some("high"));
    assert_eq!(t.labels, vec!["blocked"]);
    let cleared = update_ticket(&mut s, "T-1", TicketPatch { priority: Some(None), ..Default::default() }, "tester", NOW).unwrap();
    assert_eq!(cleared.priority, None);
}

#[test]
fn activity_is_logged_for_create_move_and_patch() {
    let mut s = project();
    create_ticket(&mut s, titled("A"), "ada", NOW).unwrap();
    move_ticket(&mut s, "T-1", "done", None, "ada", NOW).unwrap();
    update_ticket(
        &mut s,
        "T-1",
        TicketPatch {
            labels: Some(vec!["blocked".to_string()]),
            assignees: Some(vec!["ada@example.com".to_string()]),
            priority: Some(Some("high".to_string())),
            ..Default::default()
        },
        "ada",
        NOW,
    )
    .unwrap();

    let t = s.load_ticket("T-1").unwrap();
    let kinds: Vec<&str> = t.activity.iter().map(|a| a.kind.as_str()).collect();
    assert_eq!(kinds, vec!["created", "moved", "priority", "label-added", "assigned"]);
    let moved = t.activity.iter().find(|a| a.kind == "moved").unwrap();
    assert_eq!(moved.detail, "Done");
    assert!(t.activity.iter().all(|a| a.actor == "ada"));

    update_ticket(
        &mut s,
        "T-1",
        TicketPatch { labels: Some(vec![]), assignees: Some(vec![]), ..Default::default() },
        "ada",
        NOW,
    )
    .unwrap();
    let t = s.load_ticket("T-1").unwrap();
    assert!(t.activity.iter().any(|a| a.kind == "label-removed"));
    assert!(t.activity.iter().any(|a| a.kind == "unassigned"));
}

#[test]
fn identity_upsert_and_list() {
    let mut s = project();
    upsert_identity(&mut s, "codex", "Codex", Some(IdentityKind::Agent));
    let ids = list_identities(&s, &Vec::new());
    let agent = ids.iter().find(|i| i.id == "codex").unwrap();
    assert_eq!(agent.display_name, "Codex");
    assert_eq!(agent.kind, IdentityKind::Agent);
}

#[test]
fn attachment_prefers_repo_reference_over_copy() {
    let mut s = project();
    create_ticket(&mut s, titled("A"), "tester", NOW).unwrap();

    // The repository tracks `logo.png` with these bytes (`git ls-files -s`).
    let hash = wipe::git::blob_hash(b"PNGDATA");
    assert_eq!(hash, "0cadfa2b3d6f742aa1a82cf6968904eda39eb39b");
    let listing = format!("100644 {hash} 0\tlogo.png\n");
    let repo = wipe::git::tracked_blobs(&listing);

    // Identical bytes -> reference the tracked repo file (no copy).
    let (a, copy) =
        wipe::ops::add_attachment(&mut s, "T-1", "logo.png", b"PNGDATA", "image/png", Some(&repo), "tester", NOW)
            .unwrap();
    assert_eq!(a.source, wipe::model::AttachmentSource::Repo);
    assert_eq!(a.path, "logo.png");
    assert!(copy.is_none());

    // Novel bytes -> copied into .wipe/media/.
    let (b, copy) =
        wipe::ops::add_attachment(&mut s, "T-1", "new.txt", b"hello world", "text/plain", Some(&repo), "tester", NOW)
            .unwrap();
    assert_eq!(b.source, wipe::model::AttachmentSource::Media);
    assert!(b.path.starts_with(".wipe/media/"));
    let file = copy.unwrap();
    assert!(b.path.ends_with(&file));
    assert_eq!(s.load_ticket("T-1").unwrap().attachments.len(), 2);
}

#[test]
fn reopening_written_contents_gives_back_the_board() {
    let mut s = project();
    create_ticket(&mut s, titled("A"), "tester", NOW).unwrap();
    create_ticket(&mut s, titled("B"), "tester", NOW).unwrap();
    checks_add(&mut s, Checks::Checklist, "T-2", "step", NOW).unwrap();
    let again = Store::open(s.root(), Some(s.contents())).unwrap();
    assert_eq!(again.root(), "/tmp/project");
    assert_eq!(again.ticket_ids(), vec!["T-1", "T-2"]);
    assert_eq!(again.load_board().lists[0].cards, vec!["T-1", "T-2"]);
    assert_eq!(again.load_board().next_ticket, 3);
    assert_eq!(again.load_ticket("T-2").unwrap().checklist[0].text, "step");
}

#[test]
fn tokens_and_board_ids_are_v4_uuids() {
    let t = wipe::id::token();
    assert_eq!(t.len(), 32);
    assert!(t.chars().all(|c| c.is_ascii_digit() || ('a'..='f').contains(&c)));
    assert_eq!(t.as_bytes()[12], b'4');
    assert!(b"89ab".contains(&t.as_bytes()[16]));
    assert_ne!(t, wipe::id::token());

    let id = Board::new("B", NOW).id;
    assert_eq!(id.len(), 36);
    for (i, c) in id.chars().enumerate() {
        if [8, 13, 18, 23].contains(&i) {
            assert_eq!(c, '-');
        } else {
            assert!(c.is_ascii_digit() || ('a'..='f').contains(&c));
        }
    }
    assert_eq!(id.as_bytes()[14], b'4');
}

#[test]
fn board_commits_stage_check_commit_and_report_the_hash() {
    let steps = commit_paths(&vec![".wipe".to_string()], "chore(wipe): update board", Some("codex"));
    match commit_next(&steps, CommitEvent::Started) {
        CommitAction::Run(a, CommitStage::Add) => assert_eq!(a, vec!["add", "--", ".wipe"]),
        other => panic!("unexpected {other:?}"),
    }
    match commit_next(&steps, CommitEvent::Added) {
        CommitAction::Run(a, CommitStage::Status) => assert_eq!(a, vec!["status", "--porcelain", "--", ".wipe"]),
        other => panic!("unexpected {other:?}"),
    }
    assert!(matches!(commit_next(&steps, CommitEvent::Checked(" \n".to_string())), CommitAction::Finish(None)));
    match commit_next(&steps, CommitEvent::Checked(" M .wipe/board.json\n".to_string())) {
        CommitAction::Run(a, CommitStage::Commit) => assert_eq!(a, steps.commit),
        other => panic!("unexpected {other:?}"),
    }
    match commit_next(&steps, CommitEvent::Committed) {
        CommitAction::Run(a, CommitStage::Head) => assert_eq!(a, vec!["rev-parse", "--short", "HEAD"]),
        other => panic!("unexpected {other:?}"),
    }
    match commit_next(&steps, CommitEvent::Headed("abc1234\n".to_string())) {
        CommitAction::Finish(Some(h)) => assert_eq!(h, "abc1234"),
        other => panic!("unexpected {other:?}"),
    }
}
