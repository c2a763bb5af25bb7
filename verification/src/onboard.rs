//! The decisions behind `wipe init` onboarding: the plan of the board to
//! create, the daemon settings to write, and whether to install the agent
//! skill. The prompting itself is the front end's.

use vstd::prelude::*;

use crate::config::{GlobalConfig, GlobalConfigV};
use crate::model::{DaemonSettings, Exposure, SettingsV, Starter, DEFAULT_IDLE_TIMEOUT_SECS, DEFAULT_PORT};
use crate::store::{Store, StoreV};
use crate::keys::{fold, folded};
use crate::text::{cat, owned, same};

verus! {

/// Which skills-directory convention to target.
#[derive(Debug, Clone, Copy, PartialEq, Eq, Structural)]
pub enum Target {
    /// A tool-specific skills directory.
    Claude,
    /// The cross-tool agent skills convention.
    Agents,
}

/// Where (if anywhere) to install the agent skill during onboarding.
#[derive(Debug, Clone, Copy, PartialEq, Eq, Structural)]
pub struct SkillChoice {
    pub target: Target,
    pub global: bool,
}

/// The resolved onboarding decisions.
#[derive(Debug)]
pub struct Plan {
    pub name: String,
    pub starter: Starter,
    pub port: u16,
    pub expose: Exposure,
    pub autoserve: bool,
    pub idle_timeout_secs: u64,
    pub skill: Option<SkillChoice>,
}

/// The port offered by default: the user's default, else the built-in one.
pub open spec fn default_port_of(g: GlobalConfigV) -> u16 {
    match g.default_port {
        Some(p) => p,
        None => DEFAULT_PORT,
    }
}

/// The port offered by default.
pub fn default_port(g: &GlobalConfig) -> (p: u16)
    ensures
        p == default_port_of(g@),
{
    match g.default_port {
        Some(p) => p,
        None => DEFAULT_PORT,
    }
}

/// The idle timeout a plan uses: the user's default, else the built-in one.
pub open spec fn idle_of(g: GlobalConfigV) -> u64 {
    match g.idle_timeout_secs {
        Some(n) => n,
        None => DEFAULT_IDLE_TIMEOUT_SECS,
    }
}

fn idle_timeout(g: &GlobalConfig) -> (n: u64)
    ensures
        n == idle_of(g@),
{
    match g.idle_timeout_secs {
        Some(n) => n,
        None => DEFAULT_IDLE_TIMEOUT_SECS,
    }
}

/// Build a plan without prompting, from flags and global defaults (for `--yes`,
/// non-interactive and `--json` runs). Such runs never install the skill.
pub fn non_interactive(name: String, starter: Option<Starter>, g: &GlobalConfig) -> (p: Plan)
    ensures
        p.name@ == name@,
        p.starter == match starter {
            Some(s) => s,
            None => match g.starter {
                Some(s) => s,
                None => Starter::Standard,
            },
        },
        p.port == default_port_of(g@),
        p.expose == match g.default_expose {
            Some(e) => e,
            None => Exposure::Local,
        },
        p.autoserve == match g.autoserve {
            Some(b) => b,
            None => false,
        },
        p.idle_timeout_secs == idle_of(g@),
        p.skill is None,
{
    let st = match starter {
        Some(s) => s,
        None => match g.starter {
            Some(s) => s,
            None => Starter::Standard,
        },
    };
    Plan {
        name,
        starter: st,
        port: default_port(g),
        expose: match g.default_expose {
            Some(e) => e,
            None => Exposure::Local,
        },
        autoserve: match g.autoserve {
            Some(b) => b,
            None => false,
        },
        idle_timeout_secs: idle_timeout(g),
        skill: None,
    }
}

/// The starter at position `index` of the wizard's starter menu (standard,
/// lists only, empty; anything else means standard).
pub open spec fn starter_menu(index: int) -> Starter {
    if index == 1 {
        Starter::ListsOnly
    } else if index == 2 {
        Starter::Empty
    } else {
        Starter::Standard
    }
}

/// The starter at position `index` of the wizard's starter menu.
pub fn starter_at(index: usize) -> (s: Starter)
    ensures
        s == starter_menu(index as int),
{
    if index == 1 {
        Starter::ListsOnly
    } else if index == 2 {
        Starter::Empty
    } else {
        Starter::Standard
    }
}

/// The position of `s` in the wizard's starter menu.
pub fn starter_index(s: Starter) -> (i: usize)
    ensures
        starter_menu(i as int) == s,
        i < 3,
{
    match s {
        Starter::Standard => 0,
        Starter::ListsOnly => 1,
        Starter::Empty => 2,
    }
}

/// The exposure at position `index` of the wizard's menu (local, Tailscale,
/// reverse proxy).
pub fn exposure_at(index: usize) -> (e: Exposure)
    ensures
        e == if index == 1 {
            Exposure::Tailscale
        } else if index == 2 {
            Exposure::Proxy
        } else {
            Exposure::Local
        },
{
    if index == 1 {
        Exposure::Tailscale
    } else if index == 2 {
        Exposure::Proxy
    } else {
        Exposure::Local
    }
}

/// The skill choice at position `index` of the wizard's menu: project or
/// global, for either convention; anything else skips.
pub fn skill_at(index: usize) -> (c: Option<SkillChoice>)
    ensures
        index == 0 ==> c == Some(SkillChoice { target: Target::Claude, global: false }),
        index == 1 ==> c == Some(SkillChoice { target: Target::Agents, global: false }),
        index == 2 ==> c == Some(SkillChoice { target: Target::Claude, global: true }),
        index == 3 ==> c == Some(SkillChoice { target: Target::Agents, global: true }),
        index > 3 ==> c is None,
{
    if index == 0 {
        Some(SkillChoice { target: Target::Claude, global: false })
    } else if index == 1 {
        Some(SkillChoice { target: Target::Agents, global: false })
    } else if index == 2 {
        Some(SkillChoice { target: Target::Claude, global: true })
    } else if index == 3 {
        Some(SkillChoice { target: Target::Agents, global: true })
    } else {
        None
    }
}

/// Whether the wizard offers to auto-stop the server: the user's default, else
/// yes.
pub fn autoserve_default(g: &GlobalConfig) -> (b: bool)
    ensures
        b == match g.autoserve {
            Some(a) => a,
            None => true,
        },
{
    match g.autoserve {
        Some(a) => a,
        None => true,
    }
}

/// The plan from the wizard's answers; the idle timeout is the user's default.
pub fn wizard_plan(
    name: String,
    starter: Starter,
    port: u16,
    expose: Exposure,
    autoserve: bool,
    skill: Option<SkillChoice>,
    g: &GlobalConfig,
) -> (p: Plan)
    ensures
        p.name@ == name@,
        p.starter == starter,
        p.port == port,
        p.expose == expose,
        p.autoserve == autoserve,
        p.idle_timeout_secs == idle_of(g@),
        p.skill == skill,
{
    Plan { name, starter, port, expose, autoserve, idle_timeout_secs: idle_timeout(g), skill }
}

/// Remember the plan's choices as global defaults so future runs pre-fill them.
/// `target_slug` is the name of the plan's skill target, if it has one.
pub fn remember(plan: &Plan, g: &mut GlobalConfig, target_slug: &str)
    ensures
        final(g)@ == (GlobalConfigV {
            default_port: Some(plan.port),
            default_expose: Some(plan.expose),
            autoserve: Some(plan.autoserve),
            idle_timeout_secs: Some(plan.idle_timeout_secs),
            starter: Some(plan.starter),
            skill_target: match plan.skill {
                Some(_) => Some(target_slug@),
                None => old(g)@.skill_target,
            },
            skill_global: match plan.skill {
                Some(s) => Some(s.global),
                None => old(g)@.skill_global,
            },
            ..old(g)@
        }),
{
    g.default_port = Some(plan.port);
    g.default_expose = Some(plan.expose);
    g.autoserve = Some(plan.autoserve);
    g.idle_timeout_secs = Some(plan.idle_timeout_secs);
    g.starter = Some(plan.starter);
    match plan.skill {
        Some(s) => {
            g.skill_target = Some(owned(target_slug));
            g.skill_global = Some(s.global);
        },
        None => {},
    }
}

/// The board's shared fallback author: the user's default identity, else the
/// generic `human` (settings are shared through git, so no personal fallback).
pub open spec fn fallback_author(g: GlobalConfigV) -> Seq<char> {
    match g.default_identity {
        Some(d) => d,
        None => "human"@,
    }
}

/// Write the plan's daemon choices and the fallback author into a new board's
/// settings.
pub fn apply_plan(store: &mut Store, plan: &Plan, g: &GlobalConfig)
    requires
        old(store).wf(),
    ensures
        final(store).wf(),
        final(store)@ == (StoreV {
            settings: SettingsV {
                daemon: DaemonSettings {
                    port: plan.port,
                    expose: plan.expose,
                    autoserve: plan.autoserve,
                    idle_timeout_secs: plan.idle_timeout_secs,
                },
                default_author: Some(fallback_author(g@)),
                ..old(store)@.settings
            },
            ..old(store)@
        }),
{
    let mut settings = store.load_settings();
    settings.daemon.port = plan.port;
    settings.daemon.expose = plan.expose;
    settings.daemon.autoserve = plan.autoserve;
    settings.daemon.idle_timeout_secs = plan.idle_timeout_secs;
    let author = match &g.default_identity {
        Some(d) => d.clone(),
        None => owned("human"),
    };
    settings.default_author = Some(author);
    store.save_settings(&settings);
}

/// The skill target a name picks, with the tool-specific target's slug given as
/// `tool`: that slug or its dot-directory picks it; `agents`, `agent` or either
/// as a dot-directory picks the cross-tool target; names are trimmed and
/// compared in ASCII lowercase.
pub open spec fn target_of(name: Seq<char>, tool: Seq<char>) -> Option<Target> {
    let t = folded(name);
    if t == tool || t == seq!['.'] + tool {
        Some(Target::Claude)
    } else if t == "agents"@ || t == "agent"@ || t == ".agents"@ || t == ".agent"@ {
        Some(Target::Agents)
    } else {
        None
    }
}

/// Parse a skill target name (see [`target_of`]).
pub fn parse_target(name: &str, tool: &str) -> (r: Option<Target>)
    ensures
        r == target_of(name@, tool@),
{
    let t = fold(name);
    let dotted = cat(".", tool);
    proof {
        reveal_strlit(".");
        assert("."@ + tool@ =~= seq!['.'] + tool@);
    }
    if same(t.as_str(), tool) || same(t.as_str(), dotted.as_str()) {
        Some(Target::Claude)
    } else if same(t.as_str(), "agents") || same(t.as_str(), "agent") || same(t.as_str(), ".agents")
        || same(t.as_str(), ".agent") {
        Some(Target::Agents)
    } else {
        None
    }
}

} // verus!
