//! User-global configuration: the defaults a user picks once during onboarding
//! (preferred port, exposure, auto-serve, starter content, skill install target,
//! UI styling, fallback identity, scan roots, trash retention), distinct from a
//! board's own git-tracked settings.

use vstd::prelude::*;

use crate::model::{opt_text, texts, Exposure, Starter};

verus! {

/// The built-in default trash retention window, in days.
pub const DEFAULT_TRASH_RETENTION_DAYS: u64 = 7;

/// Machine-wide user preferences. Every field is optional; an absent field means
/// "use the built-in default".
#[derive(Debug)]
pub struct GlobalConfig {
    /// Default daemon port for new boards.
    pub default_port: Option<u16>,
    /// Default exposure for new boards.
    pub default_expose: Option<Exposure>,
    /// Default: shut the daemon down when idle.
    pub autoserve: Option<bool>,
    /// Default idle timeout in seconds.
    pub idle_timeout_secs: Option<u64>,
    /// Start the UI daemon automatically at login.
    pub autostart: Option<bool>,
    /// How much content a fresh board is seeded with.
    pub starter: Option<Starter>,
    /// Preferred install convention for the agent skill (a target slug).
    pub skill_target: Option<String>,
    /// Whether to install the skill user-globally by default.
    pub skill_global: Option<bool>,
    /// Preferred UI accent color.
    pub ui_accent: Option<String>,
    /// Preferred UI theme: `light`, `dark`, or `system`.
    pub ui_theme: Option<String>,
    /// Fallback identity used when a project's VCS reports no user.
    pub default_identity: Option<String>,
    /// Always attribute actions to `default_identity`, even when the VCS reports a user.
    pub prefer_default_identity: Option<bool>,
    /// Directories scanned for boards; absent means the home directory.
    pub scan_roots: Option<Vec<String>>,
    /// Days a deleted ticket stays restorable in the trash; `0` disables the trash.
    pub trash_retention_days: Option<u64>,
}

impl Default for GlobalConfig {
    fn default() -> (g: Self)
        ensures
            g.default_port is None,
            g.default_expose is None,
            g.autoserve is None,
            g.idle_timeout_secs is None,
            g.autostart is None,
            g.starter is None,
            g.skill_target is None,
            g.skill_global is None,
            g.ui_accent is None,
            g.ui_theme is None,
            g.default_identity is None,
            g.prefer_default_identity is None,
            g.scan_roots is None,
            g.trash_retention_days is None,
    {
        GlobalConfig {
            default_port: None,
            default_expose: None,
            autoserve: None,
            idle_timeout_secs: None,
            autostart: None,
            starter: None,
            skill_target: None,
            skill_global: None,
            ui_accent: None,
            ui_theme: None,
            default_identity: None,
            prefer_default_identity: None,
            scan_roots: None,
            trash_retention_days: None,
        }
    }
}

/// The value of a [`GlobalConfig`].
pub struct GlobalConfigV {
    pub default_port: Option<u16>,
    pub default_expose: Option<Exposure>,
    pub autoserve: Option<bool>,
    pub idle_timeout_secs: Option<u64>,
    pub autostart: Option<bool>,
    pub starter: Option<Starter>,
    pub skill_target: Option<Seq<char>>,
    pub skill_global: Option<bool>,
    pub ui_accent: Option<Seq<char>>,
    pub ui_theme: Option<Seq<char>>,
    pub default_identity: Option<Seq<char>>,
    pub prefer_default_identity: Option<bool>,
    pub scan_roots: Option<Seq<Seq<char>>>,
    pub trash_retention_days: Option<u64>,
}

impl View for GlobalConfig {
    type V = GlobalConfigV;

    open spec fn view(&self) -> GlobalConfigV {
        GlobalConfigV {
            default_port: self.default_port,
            default_expose: self.default_expose,
            autoserve: self.autoserve,
            idle_timeout_secs: self.idle_timeout_secs,
            autostart: self.autostart,
            starter: self.starter,
            skill_target: opt_text(self.skill_target),
            skill_global: self.skill_global,
            ui_accent: opt_text(self.ui_accent),
            ui_theme: opt_text(self.ui_theme),
            default_identity: opt_text(self.default_identity),
            prefer_default_identity: self.prefer_default_identity,
            scan_roots: match self.scan_roots {
                Some(v) => Some(texts(v@)),
                None => None,
            },
            trash_retention_days: self.trash_retention_days,
        }
    }
}

impl GlobalConfig {
    /// The effective trash retention window in days (the built-in default of 7
    /// when unset).
    pub fn trash_retention_days(&self) -> (d: u64)
        ensures
            d == match self.trash_retention_days {
                Some(n) => n,
                None => DEFAULT_TRASH_RETENTION_DAYS,
            },
    {
        match self.trash_retention_days {
            Some(n) => n,
            None => DEFAULT_TRASH_RETENTION_DAYS,
        }
    }
}

} // verus!
