use wipe::registry::{scan_step, spend, ScanStep, SCAN_BUDGET};
use wipe::registry::{list, prune, register, skips_dir, sort_strings};

#[test]
fn register_keeps_roots_sorted_and_unique() {
    let mut projects: Vec<String> = Vec::new();
    assert!(register(&mut projects, "/home/u/b"));
    assert!(register(&mut projects, "/home/u/a"));
    assert!(!register(&mut projects, "/home/u/b"));
    assert_eq!(projects, vec!["/home/u/a", "/home/u/b"]);
}

#[test]
fn prune_drops_roots_without_boards() {
    let mut projects = vec!["/a".to_string(), "/b".to_string(), "/c".to_string()];
    assert!(prune(&mut projects, &vec![true, false, true]));
    assert_eq!(projects, vec!["/a", "/c"]);
    assert!(!prune(&mut projects, &vec![true, true]));
}

#[test]
fn list_names_live_boards() {
    let projects = vec!["/a".to_string(), "/b".to_string()];
    let entries = list(&projects, &vec![Some("A".to_string()), None]);
    assert_eq!(entries.len(), 1);
    assert_eq!(entries[0].path, "/a");
    assert_eq!(entries[0].name, "A");
}

#[test]
fn scan_skips_heavy_and_hidden_dirs() {
    assert!(skips_dir("node_modules"));
    assert!(skips_dir(".git"));
    assert!(skips_dir(".anything"));
    assert!(skips_dir("Library"));
    assert!(!skips_dir("."));
    assert!(!skips_dir("proj-a"));
    assert!(!skips_dir("nested"));
}

#[test]
fn strings_sort_by_characters() {
    let v = sort_strings(vec!["b".to_string(), "a".to_string(), "ab".to_string(), "a".to_string()]);
    assert_eq!(v, vec!["a", "a", "ab", "b"]);
}

#[test]
fn scan_spends_its_budget_and_stops_at_boards_and_depth() {
    assert_eq!(spend(SCAN_BUDGET), Some(39_999));
    assert_eq!(spend(1), Some(0));
    assert_eq!(spend(0), None);
    assert_eq!(scan_step(3, true), ScanStep::Register);
    assert_eq!(scan_step(0, true), ScanStep::Register);
    assert_eq!(scan_step(0, false), ScanStep::Stop);
    assert_eq!(scan_step(7, false), ScanStep::Descend(6));
}
