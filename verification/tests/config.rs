use agentsearch::config::{
    default_hermes_path, default_moltis_path, default_nanobot_path, default_notes_globs,
    default_true, AppConfig, HermesConfig, MoltisConfig, NanobotConfig, NotesConfig,
};

/// The settings of one TOML table, read the way the configuration file is read.
fn table<'a>(doc: &'a toml::Table, name: &str) -> Option<&'a toml::Table> {
    doc.get(name).and_then(|v| v.as_table())
}

fn enabled(t: &toml::Table) -> Option<bool> {
    t.get("enabled").and_then(|v| v.as_bool())
}

fn path(t: &toml::Table) -> Option<String> {
    t.get("path").and_then(|v| v.as_str()).map(|s| s.to_string())
}

fn parse(raw: &str) -> AppConfig {
    let doc: toml::Table = raw.parse().expect("valid TOML");
    AppConfig::from_parts(
        table(&doc, "hermes").map(|t| HermesConfig::from_parts(enabled(t), path(t))),
        table(&doc, "moltis").map(|t| MoltisConfig::from_parts(enabled(t), path(t))),
        table(&doc, "nanobot").map(|t| NanobotConfig::from_parts(enabled(t), path(t))),
        table(&doc, "notes").map(|t| {
            let globs = t.get("globs").and_then(|v| v.as_array()).map(|a| {
                a.iter().map(|g| g.as_str().unwrap().to_string()).collect::<Vec<String>>()
            });
            NotesConfig::from_parts(enabled(t), globs)
        }),
    )
}

#[test]
fn default_config_values_are_set() {
    let cfg = AppConfig::default();
    assert!(cfg.hermes.enabled);
    assert!(cfg.moltis.enabled);
    assert!(cfg.nanobot.enabled);
    assert!(cfg.notes.enabled);
    assert!(cfg.hermes.path.contains(".hermes/state.db"));
    assert!(!cfg.notes.globs.is_empty());
}

#[test]
fn loads_from_toml_string() {
    let raw = r#"
        [hermes]
        enabled = false
        path = "/tmp/hermes.db"

        [moltis]
        path = "/tmp/main.jsonl"

        [notes]
        globs = ["/tmp/*.md"]
    "#;

    let cfg = parse(raw);
    assert!(!cfg.hermes.enabled);
    assert_eq!(cfg.hermes.path, "/tmp/hermes.db");
    assert!(cfg.moltis.enabled);
    assert_eq!(cfg.moltis.path, "/tmp/main.jsonl");
    assert_eq!(cfg.notes.globs, vec!["/tmp/*.md"]);
}

#[test]
fn disabled_sources_are_respected_in_parsed_config() {
    let raw = r#"
        [hermes]
        enabled = false
        [moltis]
        enabled = false
        [nanobot]
        enabled = false
        [notes]
        enabled = false
    "#;
    let cfg = parse(raw);
    assert!(!cfg.hermes.enabled);
    assert!(!cfg.moltis.enabled);
    assert!(!cfg.nanobot.enabled);
    assert!(!cfg.notes.enabled);
}

#[test]
fn default_paths_and_globs() {
    assert!(default_true());
    assert_eq!(default_hermes_path(), "~/.hermes/state.db");
    assert_eq!(default_moltis_path(), "~/.moltis/sessions/main.jsonl");
    assert_eq!(default_nanobot_path(), "~/.nanobot/workspace/sessions");
    let globs = default_notes_globs();
    assert_eq!(globs.len(), 9);
    assert_eq!(globs[0], "~/SESJA-*.md");
    assert_eq!(globs[1], "~/INFRA-*.md");
    assert_eq!(globs[8], "~/.moltis/SOUL.md");
}

#[test]
fn missing_tables_take_defaults() {
    let cfg = parse("[nanobot]\npath = \"/srv/nb\"\n");
    assert_eq!(cfg.nanobot.path, "/srv/nb");
    assert!(cfg.nanobot.enabled);
    assert_eq!(cfg.hermes.path, "~/.hermes/state.db");
    assert_eq!(cfg.moltis.path, "~/.moltis/sessions/main.jsonl");
    assert_eq!(cfg.notes.globs, default_notes_globs());
}
