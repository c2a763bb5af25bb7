use wipe::identity::use_kind;
use wipe::commands::{done_list, guess_mime, launcher, systemd_unit, Out};
use wipe::config::GlobalConfig;
use wipe::daemon::{apply_config_patch, listens_everywhere, media_request_path, thread_summaries, ConfigPatch};
use wipe::error::Error;
use wipe::identity::{active, agent_env, clear_active, effective_default, ensure_registered, export_hint, resolve, session_key, set_active, set_override, source, Sessions};
use wipe::keys::{config_get, config_set, global_get, global_set, parse_bool, parse_expose, parse_starter, parse_uint, ConfigValue, NumError};
use wipe::model::{Board, Exposure, IdentityKind, Starter};
use wipe::onboard::{non_interactive, remember, skill_at, starter_at, starter_index, wizard_plan, SkillChoice, Target};
use wipe::store::Store;
use wipe::update_check::{due, is_newer, parse};

const NOW: i128 = 1_782_993_600_000_000_000;
const HOUR: i128 = 3_600_000_000_000;

fn message(e: Error) -> String {
    match e {
        Error::Message(m) => m,
        _ => panic!("expected a message"),
    }
}

#[test]
fn version_comparison() {
    assert!(is_newer("0.3.3", "0.3.2"));
    assert!(is_newer("0.4.0", "0.3.9"));
    assert!(is_newer("1.0.0", "0.9.9"));
    assert!(!is_newer("0.3.2", "0.3.2"));
    assert!(!is_newer("0.3.1", "0.3.2"));
    assert!(!is_newer("0.3.2-rc1", "0.3.2"));
    assert!(is_newer("0.3.3-rc1", "0.3.2"));
    assert!(!is_newer("garbage", "0.3.2"));
}

#[test]
fn versions_parse_with_missing_parts() {
    assert_eq!(parse(" 1.2 "), Some((1, 2, 0)));
    assert_eq!(parse("3"), Some((3, 0, 0)));
    assert_eq!(parse("1.2.3+build.7"), Some((1, 2, 3)));
    assert_eq!(parse("1..2"), None);
}

#[test]
fn update_check_is_due_daily() {
    assert!(due(None, NOW));
    assert!(!due(Some(NOW - 23 * HOUR), NOW));
    assert!(due(Some(NOW - 24 * HOUR), NOW));
    assert!(!due(Some(i128::MAX), NOW));
}

#[test]
fn numbers_parse_like_std() {
    assert_eq!(parse_uint("+42", 65535), Ok(42));
    assert_eq!(parse_uint("", 65535), Err(NumError::Empty));
    assert_eq!(parse_uint("+", 65535), Err(NumError::Invalid));
    assert_eq!(parse_uint("-1", 65535), Err(NumError::Invalid));
    assert_eq!(parse_uint("65536", 65535), Err(NumError::Overflow));
    assert_eq!(parse_uint("65535", 65535), Ok(65535));
}

#[test]
fn words_parse_case_insensitively() {
    assert_eq!(parse_bool(" YES ").unwrap(), true);
    assert_eq!(parse_bool("off").unwrap(), false);
    assert_eq!(message(parse_bool(" Maybe ").unwrap_err()), "expected true/false, got 'maybe'");
    assert_eq!(parse_expose("tailscale").unwrap(), Exposure::Tailscale);
    assert_eq!(message(parse_expose("Proxy").unwrap_err()), "expose must be none|tailscale|proxy, got 'Proxy'");
    assert_eq!(parse_starter("Lists-Only").unwrap(), Starter::ListsOnly);
    assert_eq!(parse_starter(" blank").unwrap(), Starter::Empty);
    assert_eq!(message(parse_starter("huge").unwrap_err()), "unknown starter 'huge' (use standard|lists|empty)");
}

#[test]
fn config_roundtrip() {
    let mut s = Store::init("/tmp/cfg", "Cfg", NOW, false).unwrap();
    config_set(&mut s, "daemon.port", "9999", NOW).unwrap();
    assert!(matches!(config_get(&s, "daemon.port").unwrap(), ConfigValue::Number(9999)));
    config_set(&mut s, "daemon.expose", "tailscale", NOW).unwrap();
    match config_get(&s, "daemon.expose").unwrap() {
        ConfigValue::Text(t) => assert_eq!(t, "tailscale"),
        _ => panic!("expected text"),
    }
    assert_eq!(message(config_set(&mut s, "daemon.port", "99999", NOW).unwrap_err()), "port must be a number 0-65535: number too large to fit in target type");
    assert_eq!(message(config_set(&mut s, "daemon.idle_timeout", "soon", NOW).unwrap_err()), "idle_timeout must be seconds (a number): invalid digit found in string");
    assert_eq!(message(config_get(&s, "nope").unwrap_err()), "unknown config key 'nope'");
    config_set(&mut s, "board.name", "Renamed", NOW + 5).unwrap();
    assert_eq!(s.load_board().name, "Renamed");
    assert_eq!(s.load_board().updated, NOW + 5);
}

#[test]
fn global_config_roundtrip() {
    let mut g = GlobalConfig::default();
    let targets = vec!["one".to_string(), "agents".to_string()];
    global_set(&mut g, "autoserve", "true", &targets).unwrap();
    global_set(&mut g, "starter", "empty", &targets).unwrap();
    assert!(matches!(global_get(&g, "autoserve").unwrap(), ConfigValue::Bool(true)));
    match global_get(&g, "starter").unwrap() {
        ConfigValue::Text(t) => assert_eq!(t, "empty"),
        _ => panic!("expected text"),
    }
    assert!(matches!(global_get(&g, "idle").unwrap(), ConfigValue::Null));
    global_set(&mut g, "scan.roots", " /a ; /b,, ", &targets).unwrap();
    assert_eq!(g.scan_roots, Some(vec!["/a".to_string(), "/b".to_string()]));
    global_set(&mut g, "scan.roots", " , ", &targets).unwrap();
    assert_eq!(g.scan_roots, None);
    global_set(&mut g, "skill.target", "agents", &targets).unwrap();
    assert_eq!(g.skill_target.as_deref(), Some("agents"));
    assert_eq!(message(global_set(&mut g, "skill.target", "x", &targets).unwrap_err()), "skill.target must be one|agents");
    assert_eq!(message(global_set(&mut g, "ui.theme", "pink", &targets).unwrap_err()), "ui.theme must be light|dark|system");
    assert_eq!(message(global_set(&mut g, "identity.default", "  ", &targets).unwrap_err()), "identity.default cannot be empty (use e.g. 'human')");
    assert_eq!(message(global_set(&mut g, "default.port", "x", &targets).unwrap_err()), "port must be 0-65535: invalid digit found in string");
    assert_eq!(message(global_get(&g, "bogus").unwrap_err()), "unknown global key 'bogus'");
}

#[test]
fn identity_resolution_order() {
    assert_eq!(resolve(Some("  ".to_string()), None, Some("agent-7".to_string()), Some("sess".to_string()), None), Some("agent-7".to_string()));
    assert_eq!(resolve(None, None, None, None, Some("T <t@e.com>".to_string())), Some("T <t@e.com>".to_string()));
    assert_eq!(resolve(None, None, None, None, Some(" ".to_string())), None);
    assert_eq!(set_override(Some(" ".to_string())), None);
    assert_eq!(agent_env(Some("  gizmo ".to_string())), Some("gizmo".to_string()));
    let g = GlobalConfig::default();
    assert_eq!(source(None, false, true, true, None, &g, true), "$WIPE_AGENT (per-terminal)");
    assert_eq!(source(None, false, false, false, None, &g, false), "default identity");
    assert_eq!(effective_default(&g), "human");
}

#[test]
fn sessions_bind_and_clear() {
    let mut s = Sessions { active: Vec::new() };
    let key = session_key(Some(" sess-A ".to_string()));
    assert_eq!(key, "sess-A");
    assert_eq!(session_key(None), "default");
    set_active(&mut s, &key, "gizmo");
    set_active(&mut s, &key, " gizmo2 ");
    assert_eq!(active(&s, &key), Some("gizmo2".to_string()));
    assert!(clear_active(&mut s, &key));
    assert!(!clear_active(&mut s, &key));
    assert_eq!(active(&s, &key), None);
}

#[test]
fn export_hints_per_shell() {
    assert_eq!(export_hint("ada", false), "export WIPE_AUTHOR=\"ada\"");
    assert_eq!(export_hint("ada", true), "$env:WIPE_AUTHOR = \"ada\"");
}

#[test]
fn agent_ids_register_once() {
    let mut s = Store::init("/tmp/ids", "Ids", NOW, false).unwrap();
    ensure_registered(&mut s, " gizmo ", None, true);
    ensure_registered(&mut s, "gizmo", Some("Other"), false);
    ensure_registered(&mut s, "  ", None, true);
    let ids = s.load_identities();
    assert_eq!(ids.len(), 1);
    assert_eq!(ids[0].id, "gizmo");
    assert_eq!(ids[0].display_name, "gizmo");
    assert_eq!(ids[0].kind, IdentityKind::Agent);
}

#[test]
fn onboarding_plans() {
    let mut g = GlobalConfig::default();
    g.default_port = Some(7000);
    let p = non_interactive("Board".to_string(), None, &g);
    assert_eq!(p.port, 7000);
    assert_eq!(p.starter, Starter::Standard);
    assert_eq!(p.idle_timeout_secs, 900);
    assert!(p.skill.is_none());
    assert_eq!(starter_at(starter_index(Starter::Empty)), Starter::Empty);
    assert_eq!(skill_at(3), Some(SkillChoice { target: Target::Agents, global: true }));
    assert_eq!(skill_at(4), None);
    let w = wizard_plan("W".to_string(), Starter::ListsOnly, 1, Exposure::Proxy, true, skill_at(1), &g);
    remember(&w, &mut g, "agents");
    assert_eq!(g.starter, Some(Starter::ListsOnly));
    assert_eq!(g.default_expose, Some(Exposure::Proxy));
    assert_eq!(g.skill_target.as_deref(), Some("agents"));
    assert_eq!(g.skill_global, Some(false));
}

#[test]
fn ui_patch_trims_the_default_identity() {
    let mut g = GlobalConfig::default();
    apply_config_patch(&mut g, &ConfigPatch { accent: Some("sage".to_string()), theme: None, default_identity: Some("  ada  ".to_string()), prefer_default_identity: Some(true) });
    assert_eq!(g.ui_accent.as_deref(), Some("sage"));
    assert_eq!(g.default_identity.as_deref(), Some("ada"));
    apply_config_patch(&mut g, &ConfigPatch { accent: None, theme: None, default_identity: Some("   ".to_string()), prefer_default_identity: None });
    assert_eq!(g.default_identity.as_deref(), Some("ada"));
    assert_eq!(g.prefer_default_identity, Some(true));
    assert!(!listens_everywhere(Exposure::Local));
    assert!(listens_everywhere(Exposure::Proxy));
}

#[test]
fn forum_listing_summarises_threads() {
    let mut s = Store::init("/tmp/sum", "Sum", NOW, false).unwrap();
    wipe::forum::create_thread(&mut s, wipe::forum::NewThread { title: "A".to_string(), body: "x".to_string(), ..Default::default() }, "ada", NOW);
    wipe::forum::reply(&mut s, "F-1", wipe::forum::NewReply { body: "y".to_string(), ..Default::default() }, "bob", NOW + 1).unwrap();
    let sums = thread_summaries(&wipe::forum::index(&s));
    assert_eq!(sums.len(), 1);
    assert_eq!(sums[0].id, "F-1");
    assert_eq!(sums[0].posts, 2);
}

#[test]
fn mime_types_by_extension() {
    assert_eq!(guess_mime("logo.PNG"), "image/png");
    assert_eq!(guess_mime("notes.tar.md"), "text/markdown");
    assert_eq!(guess_mime("README"), "application/octet-stream");
    assert_eq!(guess_mime("run.log"), "text/plain");
}

#[test]
fn close_targets_done_or_the_last_list() {
    let b = Board::new("B", NOW);
    assert_eq!(done_list(&b), Some("done".to_string()));
    let e = Board::empty("E", NOW);
    assert_eq!(done_list(&e), None);
    assert!(Out::new(true).json);
}

#[test]
fn login_entries_quote_the_executable() {
    assert_eq!(launcher("C:\\w \"x\".exe"), "CreateObject(\"WScript.Shell\").Run \"\"\"C:\\w \"\"x\"\".exe\"\" serve --idle 0\", 0, False\r\n");
    assert!(systemd_unit("/usr/bin/wipe").contains("ExecStart=/usr/bin/wipe serve --idle 0\n"));
}

#[test]
fn media_paths_normalise_separators_and_refuse_climbing() {
    assert_eq!(media_request_path(".wipe\\media\\a.png").as_deref(), Some(".wipe/media/a.png"));
    assert_eq!(media_request_path("docs/shot.png").as_deref(), Some("docs/shot.png"));
    assert_eq!(media_request_path("../secret"), None);
    assert_eq!(media_request_path("a\\..\\..\\b"), None);
}

#[test]
fn identity_use_decides_the_kind_and_refuses_blank_ids() {
    assert_eq!(use_kind("codex-1", false, false).unwrap(), IdentityKind::Agent);
    assert_eq!(use_kind("ada@example.com", false, false).unwrap(), IdentityKind::Human);
    assert_eq!(use_kind("ada@example.com", true, false).unwrap(), IdentityKind::Agent);
    assert_eq!(use_kind("bot", false, true).unwrap(), IdentityKind::Human);
    assert_eq!(message(use_kind("   ", true, false).unwrap_err()), "identity id cannot be empty");
}

#[test]
fn init_plan_lands_in_the_board_settings() {
    let mut s = Store::init("/tmp/plan", "Plan", NOW, false).unwrap();
    let mut g = GlobalConfig::default();
    let plan = non_interactive("Plan".to_string(), None, &g);
    wipe::onboard::apply_plan(&mut s, &plan, &g);
    let st = s.load_settings();
    assert_eq!(st.daemon.port, plan.port);
    assert_eq!(st.daemon.idle_timeout_secs, plan.idle_timeout_secs);
    assert_eq!(st.default_author.as_deref(), Some("human"));
    g.default_identity = Some("ada".to_string());
    wipe::onboard::apply_plan(&mut s, &plan, &g);
    assert_eq!(s.load_settings().default_author.as_deref(), Some("ada"));
}

#[test]
fn binding_a_session_leaves_the_others_alone() {
    let mut s = Sessions { active: vec![("ci".to_string(), "bot".to_string())] };
    set_active(&mut s, "default", "  ada  ");
    assert_eq!(active(&s, "default").as_deref(), Some("ada"));
    assert_eq!(active(&s, "ci").as_deref(), Some("bot"));
    set_active(&mut s, "ci", "   ");
    assert_eq!(active(&s, "ci"), None);
    assert_eq!(active(&s, "default").as_deref(), Some("ada"));
}

#[test]
fn skill_targets_parse_by_slug_dir_or_alias() {
    let tool = "tool";
    assert_eq!(wipe::onboard::parse_target("  TOOL ", tool), Some(Target::Claude));
    assert_eq!(wipe::onboard::parse_target(".tool", tool), Some(Target::Claude));
    assert_eq!(wipe::onboard::parse_target("Agents", tool), Some(Target::Agents));
    assert_eq!(wipe::onboard::parse_target(".agent", tool), Some(Target::Agents));
    assert_eq!(wipe::onboard::parse_target("agent", tool), Some(Target::Agents));
    assert_eq!(wipe::onboard::parse_target("cursor", tool), None);
}
