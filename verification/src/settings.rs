//! User settings.
//!
//! A global config file provides defaults; a per-project file overrides
//! individual keys. Per-project files are looked up, in order:
//!   1. `<workspace>/.zed/pypilot.toml`
//!   2. `<workspace>/pypilot.toml`
//!
//! The same per-project file also remembers "Never for this project".

use vstd::prelude::*;

verus! {

/// Which package manager drives installs. `pip` mode never downloads or invokes uv.
#[derive(Debug, Clone, Copy, PartialEq, Eq, Structural)]
pub enum PackageManager {
    Uv,
    Pip,
}

/// Toast verbosity.
#[derive(Debug, Clone, Copy, PartialEq, Eq, Structural)]
pub enum Notifications {
    All,
    ProblemsOnly,
    Off,
}

/// How the environment is built.
#[derive(Debug, Clone, Copy, PartialEq, Eq, Structural)]
pub enum ResolvedMode {
    /// uv manages the project: pyproject.toml, lockfile and all.
    UvFull,
    /// uv installs, but only requirements.txt is ever written.
    UvPipCompat,
    /// pip installs into an interpreter that is already there.
    PurePip,
}

/// Raw, all-optional shape of a config file. Merging is "last write wins per
/// present key", which is why every field is an `Option`.
#[derive(Debug, Clone, Copy, PartialEq, Eq, Structural)]
pub struct RawSettings {
    pub package_manager: Option<PackageManager>,
    pub notifications: Option<Notifications>,
    pub auto_check_on_open: Option<bool>,
    pub data_refresh_days: Option<u32>,
    pub state: RawState,
}

#[derive(Debug, Clone, Copy, PartialEq, Eq, Structural)]
pub struct RawState {
    /// "Never for this project".
    pub never: Option<bool>,
}

/// Fully-resolved settings after merging global defaults with a project override.
#[derive(Debug, Clone, Copy, PartialEq, Eq, Structural)]
pub struct Settings {
    pub package_manager: PackageManager,
    pub notifications: Notifications,
    pub auto_check_on_open: bool,
    /// TTL in days for bundled data refresh; `0` = fully offline.
    pub data_refresh_days: u32,
    /// True when the user chose "Never for this project".
    pub dismissed: bool,
}

/// A config file that sets nothing.
pub open spec fn no_settings() -> RawSettings {
    RawSettings {
        package_manager: None,
        notifications: None,
        auto_check_on_open: None,
        data_refresh_days: None,
        state: RawState { never: None },
    }
}

/// The value of a key: the overlay's where present, else the base's.
pub open spec fn over<T>(overlay: Option<T>, base: Option<T>) -> Option<T> {
    if overlay is Some {
        overlay
    } else {
        base
    }
}

/// `base` with every key that `overlay` sets.
pub open spec fn overlaid(base: RawSettings, overlay: Option<RawSettings>) -> RawSettings {
    match overlay {
        None => base,
        Some(o) => RawSettings {
            package_manager: over(o.package_manager, base.package_manager),
            notifications: over(o.notifications, base.notifications),
            auto_check_on_open: over(o.auto_check_on_open, base.auto_check_on_open),
            data_refresh_days: over(o.data_refresh_days, base.data_refresh_days),
            state: RawState { never: over(o.state.never, base.state.never) },
        },
    }
}

/// The settings a merged config gives; a key that nobody set has its default.
pub open spec fn resolved_settings(raw: RawSettings) -> Settings {
    Settings {
        package_manager: match raw.package_manager {
            Some(m) => m,
            None => PackageManager::Uv,
        },
        notifications: match raw.notifications {
            Some(n) => n,
            None => Notifications::ProblemsOnly,
        },
        auto_check_on_open: match raw.auto_check_on_open {
            Some(b) => b,
            None => true,
        },
        data_refresh_days: match raw.data_refresh_days {
            Some(d) => d,
            None => 7,
        },
        dismissed: match raw.state.never {
            Some(b) => b,
            None => false,
        },
    }
}

impl Default for PackageManager {
    fn default() -> (r: PackageManager)
        ensures
            r == PackageManager::Uv,
    {
        PackageManager::Uv
    }
}

impl Default for Notifications {
    fn default() -> (r: Notifications)
        ensures
            r == Notifications::ProblemsOnly,
    {
        Notifications::ProblemsOnly
    }
}

impl Default for RawSettings {
    fn default() -> (r: RawSettings)
        ensures
            r == no_settings(),
    {
        RawSettings {
            package_manager: None,
            notifications: None,
            auto_check_on_open: None,
            data_refresh_days: None,
            state: RawState { never: None },
        }
    }
}

impl Default for Settings {
    fn default() -> (r: Settings)
        ensures
            r == resolved_settings(no_settings()),
    {
        Settings {
            package_manager: PackageManager::default(),
            notifications: Notifications::default(),
            auto_check_on_open: true,
            data_refresh_days: 7,
            dismissed: false,
        }
    }
}

impl Settings {
    /// The global config, then the per-project override, on top of the defaults.
    /// A file that is absent or malformed sets nothing.
    pub fn load(global: Option<RawSettings>, project: Option<RawSettings>) -> (r: Settings)
        ensures
            r == resolved_settings(overlaid(overlaid(no_settings(), global), project)),
    {
        let mut merged = RawSettings::default();
        merge(&mut merged, global);
        merge(&mut merged, project);
        let d = Settings::default();
        Settings {
            package_manager: merged.package_manager.unwrap_or(d.package_manager),
            notifications: merged.notifications.unwrap_or(d.notifications),
            auto_check_on_open: merged.auto_check_on_open.unwrap_or(d.auto_check_on_open),
            data_refresh_days: merged.data_refresh_days.unwrap_or(d.data_refresh_days),
            dismissed: merged.state.never.unwrap_or(false),
        }
    }

    /// The project config to write for "Never for this project", preserving any
    /// settings already there.
    pub fn mark_dismissed(existing: Option<RawSettings>) -> (r: RawSettings)
        ensures
            r == (RawSettings {
                state: RawState { never: Some(true) },
                ..match existing {
                    Some(raw) => raw,
                    None => no_settings(),
                }
            }),
    {
        let mut raw = match existing {
            Some(raw) => raw,
            None => RawSettings::default(),
        };
        raw.state.never = Some(true);
        raw
    }

    /// The mode a package manager implies.
    pub open spec fn resolved_mode(self) -> ResolvedMode {
        match self.package_manager {
            PackageManager::Uv => ResolvedMode::UvFull,
            PackageManager::Pip => ResolvedMode::PurePip,
        }
    }

    /// How the environment is built under these settings.
    pub fn resolve_mode(&self) -> (r: ResolvedMode)
        ensures
            r == self.resolved_mode(),
    {
        match self.package_manager {
            PackageManager::Uv => ResolvedMode::UvFull,
            PackageManager::Pip => ResolvedMode::PurePip,
        }
    }
}

/// Overlay `overlay` onto `base`, key by key (present keys win).
pub fn merge(base: &mut RawSettings, overlay: Option<RawSettings>)
    ensures
        *final(base) == overlaid(*old(base), overlay),
{
    let o = match overlay {
        Some(o) => o,
        None => return,
    };
    if o.package_manager.is_some() {
        base.package_manager = o.package_manager;
    }
    if o.notifications.is_some() {
        base.notifications = o.notifications;
    }
    if o.auto_check_on_open.is_some() {
        base.auto_check_on_open = o.auto_check_on_open;
    }
    if o.data_refresh_days.is_some() {
        base.data_refresh_days = o.data_refresh_days;
    }
    if o.state.never.is_some() {
        base.state.never = o.state.never;
    }
}

/// Per-project config path below the workspace, preferring `.zed/pypilot.toml`:
/// the preferred location even if neither file exists.
pub fn project_config_path(zed_exists: bool, root_exists: bool) -> (r: &'static str)
    ensures
        r@ == if zed_exists || !root_exists {
            ".zed/pypilot.toml"@
        } else {
            "pypilot.toml"@
        },
{
    if zed_exists {
        return ".zed/pypilot.toml";
    }
    if root_exists {
        return "pypilot.toml";
    }
    ".zed/pypilot.toml"
}

/// A key that neither file sets has its default, one that only the global file
/// sets has the global value, and one that the project file sets has the
/// project's.
pub proof fn project_wins_over_global_wins_over_default(
    global: RawSettings,
    project: RawSettings,
)
    ensures
        ({
            let s = resolved_settings(
                overlaid(overlaid(no_settings(), Some(global)), Some(project)),
            );
            let d = resolved_settings(no_settings());
            &&& s.package_manager == (match (project.package_manager, global.package_manager) {
                (Some(m), _) => m,
                (None, Some(m)) => m,
                (None, None) => d.package_manager,
            })
            &&& s.notifications == (match (project.notifications, global.notifications) {
                (Some(n), _) => n,
                (None, Some(n)) => n,
                (None, None) => d.notifications,
            })
            &&& s.auto_check_on_open == (match (
                project.auto_check_on_open,
                global.auto_check_on_open,
            ) {
                (Some(b), _) => b,
                (None, Some(b)) => b,
                (None, None) => d.auto_check_on_open,
            })
            &&& s.data_refresh_days == (match (
                project.data_refresh_days,
                global.data_refresh_days,
            ) {
                (Some(n), _) => n,
                (None, Some(n)) => n,
                (None, None) => d.data_refresh_days,
            })
            &&& s.dismissed == (match (project.state.never, global.state.never) {
                (Some(b), _) => b,
                (None, Some(b)) => b,
                (None, None) => d.dismissed,
            })
        }),
{
}

/// A project that was dismissed loads as dismissed, whatever the global file
/// says, and every other key loads as before.
pub proof fn dismissal_is_remembered(global: Option<RawSettings>, project: RawSettings)
    ensures
        ({
            let marked = RawSettings { state: RawState { never: Some(true) }, ..project };
            let before = resolved_settings(
                overlaid(overlaid(no_settings(), global), Some(project)),
            );
            let after = resolved_settings(overlaid(overlaid(no_settings(), global), Some(marked)));
            after == (Settings { dismissed: true, ..before })
        }),
{
}

/// Where nobody set anything: uv, problems only, checks on open, a week between refreshes.
pub proof fn defaults_are_quiet_and_use_uv()
    ensures
        resolved_settings(no_settings()).package_manager == PackageManager::Uv,
        resolved_settings(no_settings()).notifications == Notifications::ProblemsOnly,
        resolved_settings(no_settings()).auto_check_on_open,
        resolved_settings(no_settings()).data_refresh_days == 7,
        !resolved_settings(no_settings()).dismissed,
        resolved_settings(no_settings()).resolved_mode() == ResolvedMode::UvFull,
{
}

/// The package manager decides how an environment is built.
pub proof fn the_manager_decides_the_mode(s: Settings)
    ensures
        s.package_manager == PackageManager::Pip <==> s.resolved_mode() == ResolvedMode::PurePip,
        s.package_manager == PackageManager::Uv <==> s.resolved_mode() == ResolvedMode::UvFull,
{
}

} // verus!
