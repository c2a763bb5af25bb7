use wipe::error::Error;
use wipe::forum::{compile_pattern, create_thread, delete_post, get_thread, index, reply, search, NewReply, NewThread, SearchQuery};
use wipe::store::Store;

/// 2026-07-02 12:00:00 UTC, in nanoseconds.
const NOW: i128 = 1_782_993_600_000_000_000;

fn project() -> Store {
    Store::init("/tmp/forum", "Forum", NOW, false).unwrap()
}

fn post(body: &str) -> NewReply {
    NewReply { body: body.to_string(), ..Default::default() }
}

fn thread(title: &str, body: &str) -> NewThread {
    NewThread { title: title.to_string(), body: body.to_string(), ..Default::default() }
}

#[test]
fn threads_and_replies_get_dotted_ids() {
    let mut s = project();
    let t = create_thread(
        &mut s,
        NewThread { labels: vec!["decision".to_string()], ..thread("Decisions", "Use OAuth") },
        "ada",
        NOW,
    );
    assert_eq!(t.id, "F-1");
    assert_eq!(t.root.id, "F-1");

    let r1 = reply(&mut s, "F-1", post("agree"), "bob", NOW).unwrap();
    let r2 = reply(&mut s, "F-1", post("also"), "cara", NOW).unwrap();
    assert_eq!(r1, "F-1.1");
    assert_eq!(r2, "F-1.2");
    let nested = reply(&mut s, "F-1.1", post("why?"), "dan", NOW).unwrap();
    assert_eq!(nested, "F-1.1.1");

    let t2 = create_thread(&mut s, thread("Gotchas", "watch the cache"), "ada", NOW);
    assert_eq!(t2.id, "F-2");
}

#[test]
fn deleting_a_post_removes_its_whole_subtree() {
    let mut s = project();
    create_thread(&mut s, thread("T", "root"), "ada", NOW);
    reply(&mut s, "F-1", post("a"), "b", NOW).unwrap();
    reply(&mut s, "F-1.1", post("a.a"), "b", NOW).unwrap();
    reply(&mut s, "F-1", post("c"), "b", NOW).unwrap();

    delete_post(&mut s, "F-1.1", NOW).unwrap();
    let ids: Vec<String> = index(&s).into_iter().map(|p| p.id).collect();
    assert!(ids.contains(&"F-1".to_string()));
    assert!(ids.contains(&"F-1.2".to_string()));
    assert!(!ids.iter().any(|i| i.starts_with("F-1.1")));

    delete_post(&mut s, "F-1", NOW).unwrap();
    assert!(matches!(s.load_thread("F-1"), Err(Error::ThreadNotFound(_))));
    assert!(index(&s).is_empty());
}

#[test]
fn search_filters_by_pattern_author_label_and_scope() {
    let mut s = project();
    create_thread(
        &mut s,
        NewThread { labels: vec!["decision".to_string()], ..thread("Auth design", "We will use OAuth 2.1 with PKCE") },
        "ada@x.com",
        NOW,
    );
    reply(
        &mut s,
        "F-1",
        NewReply { body: "beware token refresh races".to_string(), labels: vec!["gotcha".to_string()], ..Default::default() },
        "codex",
        NOW,
    )
    .unwrap();
    create_thread(&mut s, thread("Unrelated", "nothing to see"), "bob", NOW);

    let hits = search(&s, &SearchQuery { pattern: Some(compile_pattern("OAuth|token", false).unwrap()), ..Default::default() });
    assert_eq!(hits.len(), 2);

    let by_agent = search(&s, &SearchQuery { author: Some("codex".to_string()), ..Default::default() });
    assert_eq!(by_agent.len(), 1);
    assert_eq!(by_agent[0].id, "F-1.1");

    let gotchas = search(&s, &SearchQuery { labels: vec!["gotcha".to_string()], ..Default::default() });
    assert_eq!(gotchas.len(), 1);

    let titles = search(
        &s,
        &SearchQuery { pattern: Some(compile_pattern("auth", true).unwrap()), titles_only: true, ..Default::default() },
    );
    assert_eq!(titles.len(), 1);
    assert_eq!(titles[0].id, "F-1");

    let scoped = search(&s, &SearchQuery { scope: Some("F-1".to_string()), ..Default::default() });
    assert_eq!(scoped.len(), 2);
}

#[test]
fn default_search_finds_threads_by_title() {
    let mut s = project();
    create_thread(&mut s, thread("Auth design", "OAuth 2.1"), "a", NOW);
    reply(&mut s, "F-1", post("a reply"), "b", NOW).unwrap();
    let hits = search(&s, &SearchQuery { pattern: Some(compile_pattern("design", true).unwrap()), ..Default::default() });
    assert_eq!(hits.len(), 1);
    assert_eq!(hits[0].id, "F-1");
}

#[test]
fn search_anchors_are_line_scoped() {
    let mut s = project();
    create_thread(&mut s, thread("T", "context line\nERROR: boom"), "a", NOW);
    let hits = search(&s, &SearchQuery { pattern: Some(compile_pattern("^ERROR", false).unwrap()), ..Default::default() });
    assert_eq!(hits.len(), 1);
}

#[test]
fn create_thread_never_reuses_an_id() {
    let mut s = project();
    let t1 = create_thread(&mut s, thread("T", "one"), "a", NOW);
    assert_eq!(t1.id, "F-1");
    let mut b = s.load_board();
    b.next_thread = 1;
    s.save_board(&b);
    let t2 = create_thread(&mut s, thread("T2", "two"), "a", NOW);
    assert_eq!(t2.id, "F-2");
    assert_eq!(s.load_thread("F-1").unwrap().root.body, "one");
}

#[test]
fn path_traversal_ids_are_rejected() {
    let mut s = project();
    create_thread(&mut s, thread("T", "x"), "a", NOW);
    for bad in ["F-1/../../secret", "..", "F-1/../F-1", "/etc/passwd", "F-1\\..\\x"] {
        assert!(get_thread(&s, bad).is_err(), "get_thread({bad}) should error");
        assert!(reply(&mut s, bad, post("x"), "a", NOW).is_err(), "reply({bad}) should error");
        assert!(delete_post(&mut s, bad, NOW).is_err(), "delete_post({bad}) should error");
    }
    assert!(get_thread(&s, "F-1").is_ok());
}

#[test]
fn index_cache_reflects_new_posts() {
    let mut s = project();
    create_thread(&mut s, thread("T", "one"), "ada", NOW);
    assert_eq!(index(&s).len(), 1);
    assert_eq!(index(&s).len(), 1);
    reply(&mut s, "F-1", post("two"), "bob", NOW).unwrap();
    assert_eq!(index(&s).len(), 2);
}

#[test]
fn posts_are_found_by_id_anywhere_in_a_thread() {
    let mut s = project();
    create_thread(&mut s, thread("T", "root"), "ada", NOW);
    reply(&mut s, "F-1", post("one"), "bob", NOW).unwrap();
    reply(&mut s, "F-1", post("two"), "cara", NOW).unwrap();
    reply(&mut s, "F-1.2", post("deep"), "dan", NOW).unwrap();
    let t = get_thread(&s, "F-1").unwrap();
    assert_eq!(wipe::forum::find_in(&t.root, "F-1").unwrap().body, "root");
    assert_eq!(wipe::forum::find_in(&t.root, "F-1.2.1").unwrap().author, "dan");
    assert_eq!(wipe::forum::find_in(&t.root, "F-1.1").unwrap().body, "one");
    assert!(wipe::forum::find_in(&t.root, "F-1.3").is_none());
}
