//! The sources that an indexing run reads.
use std::path::PathBuf;
use vstd::prelude::*;

use crate::config::{texts, AppConfig};
use crate::sources::hermes::HermesSource;
use crate::sources::markdown::MarkdownSource;
use crate::sources::moltis::MoltisSource;
use crate::sources::nanobot::NanobotSource;

verus! {

/// A source that an indexing run reads.
pub enum ConfiguredSource {
    Hermes(HermesSource),
    Moltis(MoltisSource),
    Nanobot(NanobotSource),
    Notes(MarkdownSource),
}

/// What a [`ConfiguredSource`] reads.
pub enum SourcePlan {
    Hermes(PathBuf),
    Moltis(PathBuf),
    Nanobot(PathBuf),
    Notes(Seq<Seq<char>>),
}

/// What `s` reads.
pub open spec fn plan_of(s: ConfiguredSource) -> SourcePlan {
    match s {
        ConfiguredSource::Hermes(h) => SourcePlan::Hermes(h.spec_db_path()),
        ConfiguredSource::Moltis(m) => SourcePlan::Moltis(m.spec_jsonl_path()),
        ConfiguredSource::Nanobot(n) => SourcePlan::Nanobot(n.spec_sessions_dir()),
        ConfiguredSource::Notes(md) => SourcePlan::Notes(texts(md.spec_globs())),
    }
}

/// The sources of a run: Hermes, Moltis and Nanobot where the settings enable them and
/// their data exists, in that order, then the notes with the configured globs where the
/// settings enable them.
pub open spec fn planned_sources(
    cfg: AppConfig,
    hermes_db: Option<PathBuf>,
    moltis_jsonl: Option<PathBuf>,
    nanobot_dir: Option<PathBuf>,
) -> Seq<SourcePlan> {
    let a: Seq<SourcePlan> = match hermes_db {
        Some(p) => if cfg.hermes.enabled { seq![SourcePlan::Hermes(p)] } else { seq![] },
        None => seq![],
    };
    let b: Seq<SourcePlan> = match moltis_jsonl {
        Some(p) => if cfg.moltis.enabled { seq![SourcePlan::Moltis(p)] } else { seq![] },
        None => seq![],
    };
    let c: Seq<SourcePlan> = match nanobot_dir {
        Some(p) => if cfg.nanobot.enabled { seq![SourcePlan::Nanobot(p)] } else { seq![] },
        None => seq![],
    };
    let d: Seq<SourcePlan> = if cfg.notes.enabled {
        seq![SourcePlan::Notes(texts(cfg.notes.globs@))]
    } else {
        seq![]
    };
    a + b + c + d
}

/// A source disabled in the settings is never read; an enabled one is read, from the
/// path the settings give, whenever its data exists; the notes read the configured globs.
pub proof fn law_settings_choose_sources(
    cfg: AppConfig,
    hermes_db: Option<PathBuf>,
    moltis_jsonl: Option<PathBuf>,
    nanobot_dir: Option<PathBuf>,
)
    ensures
        ({
            let plan = planned_sources(cfg, hermes_db, moltis_jsonl, nanobot_dir);
            &&& (exists|i: int| 0 <= i < plan.len() && #[trigger] plan[i] is Hermes) <==> (
            cfg.hermes.enabled && hermes_db is Some)
            &&& (exists|i: int| 0 <= i < plan.len() && #[trigger] plan[i] is Moltis) <==> (
            cfg.moltis.enabled && moltis_jsonl is Some)
            &&& (exists|i: int| 0 <= i < plan.len() && #[trigger] plan[i] is Nanobot) <==> (
            cfg.nanobot.enabled && nanobot_dir is Some)
            &&& (exists|i: int| 0 <= i < plan.len() && #[trigger] plan[i] is Notes) <==> cfg.notes.enabled
            &&& forall|i: int|
                0 <= i < plan.len() ==> match #[trigger] plan[i] {
                    SourcePlan::Hermes(p) => hermes_db == Some(p),
                    SourcePlan::Moltis(p) => moltis_jsonl == Some(p),
                    SourcePlan::Nanobot(p) => nanobot_dir == Some(p),
                    SourcePlan::Notes(g) => g == texts(cfg.notes.globs@),
                }
        }),
{
    let plan = planned_sources(cfg, hermes_db, moltis_jsonl, nanobot_dir);
    let a: Seq<SourcePlan> = match hermes_db {
        Some(p) => if cfg.hermes.enabled { seq![SourcePlan::Hermes(p)] } else { seq![] },
        None => seq![],
    };
    let b: Seq<SourcePlan> = match moltis_jsonl {
        Some(p) => if cfg.moltis.enabled { seq![SourcePlan::Moltis(p)] } else { seq![] },
        None => seq![],
    };
    let c: Seq<SourcePlan> = match nanobot_dir {
        Some(p) => if cfg.nanobot.enabled { seq![SourcePlan::Nanobot(p)] } else { seq![] },
        None => seq![],
    };
    let d: Seq<SourcePlan> = if cfg.notes.enabled {
        seq![SourcePlan::Notes(texts(cfg.notes.globs@))]
    } else {
        seq![]
    };
    assert(plan =~= a + b + c + d);
    let ab = a + b;
    let abc = ab + c;
    assert forall|i: int| 0 <= i < plan.len() implies (if i < a.len() {
        plan[i] == a[i]
    } else if i < ab.len() {
        plan[i] == b[i - a.len()]
    } else if i < abc.len() {
        plan[i] == c[i - ab.len()]
    } else {
        plan[i] == d[i - abc.len()]
    }) by {}
    if cfg.hermes.enabled && hermes_db is Some {
        assert(plan[0] is Hermes);
    }
    if cfg.moltis.enabled && moltis_jsonl is Some {
        assert(plan[a.len() as int] is Moltis);
    }
    if cfg.nanobot.enabled && nanobot_dir is Some {
        assert(plan[ab.len() as int] is Nanobot);
    }
    if cfg.notes.enabled {
        assert(plan[abc.len() as int] is Notes);
    }
}

/// A copy of a list of texts.
fn copy_texts(v: &Vec<String>) -> (r: Vec<String>)
    ensures
        texts(r@) == texts(v@),
{
    let mut r: Vec<String> = Vec::new();
    let mut i: usize = 0;
    while i < v.len()
        invariant
            i <= v.len(),
            texts(r@) == texts(v@).take(i as int),
        decreases v.len() - i,
    {
        let t = v[i].clone();
        let ghost before = texts(r@);
        r.push(t);
        assert(texts(r@) =~= before.push(v@[i as int]@));
        assert(texts(v@).take(i + 1) =~= texts(v@).take(i as int).push(v@[i as int]@));
        i += 1;
    }
    assert(texts(v@).take(v.len() as int) =~= texts(v@));
    r
}

impl ConfiguredSource {
    /// The name under which the source's items are indexed.
    pub fn name(&self) -> (n: &'static str)
        ensures
            n@ == match *self {
                ConfiguredSource::Hermes(_) => "hermes"@,
                ConfiguredSource::Moltis(_) => "moltis"@,
                ConfiguredSource::Nanobot(_) => "nanobot"@,
                ConfiguredSource::Notes(_) => "notes"@,
            },
    {
        match self {
            ConfiguredSource::Hermes(h) => h.name(),
            ConfiguredSource::Moltis(m) => m.name(),
            ConfiguredSource::Nanobot(n) => n.name(),
            ConfiguredSource::Notes(md) => md.name(),
        }
    }
}

/// The sources of a run under the settings `cfg`. `hermes_db`, `moltis_jsonl` and
/// `nanobot_dir` are the paths the settings give, with `~` expanded, for those that exist
/// (`None` for the others). A source disabled in the settings is left out; the notes
/// source reads the configured globs.
pub fn build_sources(
    cfg: &AppConfig,
    hermes_db: Option<PathBuf>,
    moltis_jsonl: Option<PathBuf>,
    nanobot_dir: Option<PathBuf>,
) -> (sources: Vec<ConfiguredSource>)
    ensures
        sources@.map_values(|s: ConfiguredSource| plan_of(s)) == planned_sources(
            *cfg,
            hermes_db,
            moltis_jsonl,
            nanobot_dir,
        ),
{
    let ghost h = hermes_db;
    let ghost m = moltis_jsonl;
    let ghost n = nanobot_dir;
    let mut sources: Vec<ConfiguredSource> = Vec::new();
    match hermes_db {
        Some(p) => if cfg.hermes.enabled {
            sources.push(ConfiguredSource::Hermes(HermesSource::new(p)));
        },
        None => {},
    }
    match moltis_jsonl {
        Some(p) => if cfg.moltis.enabled {
            sources.push(ConfiguredSource::Moltis(MoltisSource::new(p)));
        },
        None => {},
    }
    match nanobot_dir {
        Some(p) => if cfg.nanobot.enabled {
            sources.push(ConfiguredSource::Nanobot(NanobotSource::new(p)));
        },
        None => {},
    }
    if cfg.notes.enabled {
        let globs = copy_texts(&cfg.notes.globs);
        sources.push(ConfiguredSource::Notes(MarkdownSource::new(globs)));
    }
    assert(sources@.map_values(|s: ConfiguredSource| plan_of(s)) =~= planned_sources(
        *cfg,
        h,
        m,
        n,
    ));
    sources
}

} // verus!
