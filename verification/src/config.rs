//! Which sources to read, and where: the settings and their defaults.
use vstd::prelude::*;

verus! {

#[derive(Debug, Clone)]
pub struct AppConfig {
    pub hermes: HermesConfig,
    pub moltis: MoltisConfig,
    pub nanobot: NanobotConfig,
    pub notes: NotesConfig,
}

#[derive(Debug, Clone)]
pub struct HermesConfig {
    pub enabled: bool,
    pub path: String,
}

#[derive(Debug, Clone)]
pub struct MoltisConfig {
    pub enabled: bool,
    pub path: String,
}

#[derive(Debug, Clone)]
pub struct NanobotConfig {
    pub enabled: bool,
    pub path: String,
}

#[derive(Debug, Clone)]
pub struct NotesConfig {
    pub enabled: bool,
    pub globs: Vec<String>,
}

/// The texts of a sequence of strings.
pub open spec fn texts(v: Seq<String>) -> Seq<Seq<char>> {
    v.map_values(|s: String| s@)
}

/// Where Hermes keeps its database by default.
pub open spec fn default_hermes_path_text() -> Seq<char> {
    "~/.hermes/state.db"@
}

/// Where Moltis keeps its session log by default.
pub open spec fn default_moltis_path_text() -> Seq<char> {
    "~/.moltis/sessions/main.jsonl"@
}

/// Where Nanobot keeps its session files by default.
pub open spec fn default_nanobot_path_text() -> Seq<char> {
    "~/.nanobot/workspace/sessions"@
}

/// The notes and memory files read by default.
pub open spec fn default_notes_globs_text() -> Seq<Seq<char>> {
    seq![
        "~/SESJA-*.md"@,
        "~/INFRA-*.md"@,
        "~/RESEARCH-*.md"@,
        "~/CHANGELOG-*.md"@,
        "~/.hermes/memories/MEMORY.md"@,
        "~/.hermes/memories/USER.md"@,
        "~/.nanobot/workspace/memory/MEMORY.md"@,
        "~/.nanobot/workspace/memory/HISTORY.md"@,
        "~/.moltis/SOUL.md"@,
    ]
}

/// A source is enabled unless the settings say otherwise.
pub fn default_true() -> (b: bool)
    ensures
        b,
{
    true
}

pub fn default_hermes_path() -> (p: String)
    ensures
        p@ == default_hermes_path_text(),
{
    String::from_str("~/.hermes/state.db")
}

pub fn default_moltis_path() -> (p: String)
    ensures
        p@ == default_moltis_path_text(),
{
    String::from_str("~/.moltis/sessions/main.jsonl")
}

pub fn default_nanobot_path() -> (p: String)
    ensures
        p@ == default_nanobot_path_text(),
{
    String::from_str("~/.nanobot/workspace/sessions")
}

pub fn default_notes_globs() -> (g: Vec<String>)
    ensures
        texts(g@) == default_notes_globs_text(),
{
    let mut g: Vec<String> = Vec::new();
    g.push(String::from_str("~/SESJA-*.md"));
    g.push(String::from_str("~/INFRA-*.md"));
    g.push(String::from_str("~/RESEARCH-*.md"));
    g.push(String::from_str("~/CHANGELOG-*.md"));
    g.push(String::from_str("~/.hermes/memories/MEMORY.md"));
    g.push(String::from_str("~/.hermes/memories/USER.md"));
    g.push(String::from_str("~/.nanobot/workspace/memory/MEMORY.md"));
    g.push(String::from_str("~/.nanobot/workspace/memory/HISTORY.md"));
    g.push(String::from_str("~/.moltis/SOUL.md"));
    assert(texts(g@) =~= default_notes_globs_text());
    g
}

impl Default for HermesConfig {
    fn default() -> (c: Self)
        ensures
            c.enabled,
            c.path@ == default_hermes_path_text(),
    {
        Self { enabled: true, path: default_hermes_path() }
    }
}

impl Default for MoltisConfig {
    fn default() -> (c: Self)
        ensures
            c.enabled,
            c.path@ == default_moltis_path_text(),
    {
        Self { enabled: true, path: default_moltis_path() }
    }
}

impl Default for NanobotConfig {
    fn default() -> (c: Self)
        ensures
            c.enabled,
            c.path@ == default_nanobot_path_text(),
    {
        Self { enabled: true, path: default_nanobot_path() }
    }
}

impl Default for NotesConfig {
    fn default() -> (c: Self)
        ensures
            c.enabled,
            texts(c.globs@) == default_notes_globs_text(),
    {
        Self { enabled: true, globs: default_notes_globs() }
    }
}

/// All four sources hold their default settings.
pub open spec fn is_default_config(c: AppConfig) -> bool {
    &&& c.hermes.enabled && c.hermes.path@ == default_hermes_path_text()
    &&& c.moltis.enabled && c.moltis.path@ == default_moltis_path_text()
    &&& c.nanobot.enabled && c.nanobot.path@ == default_nanobot_path_text()
    &&& c.notes.enabled && texts(c.notes.globs@) == default_notes_globs_text()
}

impl Default for AppConfig {
    fn default() -> (c: Self)
        ensures
            is_default_config(c),
    {
        Self {
            hermes: HermesConfig::default(),
            moltis: MoltisConfig::default(),
            nanobot: NanobotConfig::default(),
            notes: NotesConfig::default(),
        }
    }
}

impl HermesConfig {
    /// The settings of a `[hermes]` table: each member that is absent takes its default.
    pub fn from_parts(enabled: Option<bool>, path: Option<String>) -> (c: Self)
        ensures
            c.enabled == (match enabled {
                Some(b) => b,
                None => true,
            }),
            c.path@ == (match path {
                Some(p) => p@,
                None => default_hermes_path_text(),
            }),
    {
        Self {
            enabled: match enabled {
                Some(b) => b,
                None => default_true(),
            },
            path: match path {
                Some(p) => p,
                None => default_hermes_path(),
            },
        }
    }
}

impl MoltisConfig {
    /// The settings of a `[moltis]` table: each member that is absent takes its default.
    pub fn from_parts(enabled: Option<bool>, path: Option<String>) -> (c: Self)
        ensures
            c.enabled == (match enabled {
                Some(b) => b,
                None => true,
            }),
            c.path@ == (match path {
                Some(p) => p@,
                None => default_moltis_path_text(),
            }),
    {
        Self {
            enabled: match enabled {
                Some(b) => b,
                None => default_true(),
            },
            path: match path {
                Some(p) => p,
                None => default_moltis_path(),
            },
        }
    }
}

impl NanobotConfig {
    /// The settings of a `[nanobot]` table: each member that is absent takes its default.
    pub fn from_parts(enabled: Option<bool>, path: Option<String>) -> (c: Self)
        ensures
            c.enabled == (match enabled {
                Some(b) => b,
                None => true,
            }),
            c.path@ == (match path {
                Some(p) => p@,
                None => default_nanobot_path_text(),
            }),
    {
        Self {
            enabled: match enabled {
                Some(b) => b,
                None => default_true(),
            },
            path: match path {
                Some(p) => p,
                None => default_nanobot_path(),
            },
        }
    }
}

impl NotesConfig {
    /// The settings of a `[notes]` table: each member that is absent takes its default.
    pub fn from_parts(enabled: Option<bool>, globs: Option<Vec<String>>) -> (c: Self)
        ensures
            c.enabled == (match enabled {
                Some(b) => b,
                None => true,
            }),
            texts(c.globs@) == (match globs {
                Some(g) => texts(g@),
                None => default_notes_globs_text(),
            }),
    {
        Self {
            enabled: match enabled {
                Some(b) => b,
                None => default_true(),
            },
            globs: match globs {
                Some(g) => g,
                None => default_notes_globs(),
            },
        }
    }
}

impl AppConfig {
    /// The settings of a whole configuration file: each table that is absent takes its
    /// defaults.
    pub fn from_parts(
        hermes: Option<HermesConfig>,
        moltis: Option<MoltisConfig>,
        nanobot: Option<NanobotConfig>,
        notes: Option<NotesConfig>,
    ) -> (c: Self)
        ensures
            hermes matches Some(h) ==> c.hermes == h,
            moltis matches Some(m) ==> c.moltis == m,
            nanobot matches Some(n) ==> c.nanobot == n,
            notes matches Some(t) ==> c.notes == t,
            hermes is None ==> c.hermes.enabled && c.hermes.path@ == default_hermes_path_text(),
            moltis is None ==> c.moltis.enabled && c.moltis.path@ == default_moltis_path_text(),
            nanobot is None ==> c.nanobot.enabled && c.nanobot.path@ == default_nanobot_path_text(),
            notes is None ==> c.notes.enabled && texts(c.notes.globs@) == default_notes_globs_text(),
    {
        Self {
            hermes: match hermes {
                Some(h) => h,
                None => HermesConfig::default(),
            },
            moltis: match moltis {
                Some(m) => m,
                None => MoltisConfig::default(),
            },
            nanobot: match nanobot {
                Some(n) => n,
                None => NanobotConfig::default(),
            },
            notes: match notes {
                Some(t) => t,
                None => NotesConfig::default(),
            },
        }
    }
}

} // verus!
