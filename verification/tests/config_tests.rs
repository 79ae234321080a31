use r34_hooks::config::{
    config_format, default_limit, default_log_level, default_storage_dir, extension_of,
    ConfigError, ConfigFormat, DynamicConfig, StaticConfig, Target,
};
use r34_hooks::hooks::{Discord, HookImpl};
use std::path::Path;

fn target(id: Option<&str>, tags: &[&str], url: &str) -> Target {
    Target {
        id: id.map(|s| s.to_string()),
        tags: tags.iter().map(|s| s.to_string()).collect(),
        hook: HookImpl::Discord(Discord::new(url)),
    }
}

fn dynamic(targets: Vec<Target>) -> DynamicConfig {
    DynamicConfig {
        user_id: "123456".to_string(),
        api_token: "token".to_string(),
        default_tags: Some(vec!["high_res".to_string()]),
        targets,
        limit: default_limit(),
    }
}

fn url_of(h: &HookImpl) -> String {
    match h {
        HookImpl::Discord(d) => d.webhook_url().to_string(),
        HookImpl::Local(l) => l.directory().to_string(),
    }
}

#[test]
fn defaults() {
    assert_eq!(default_storage_dir(), "storage.json");
    assert_eq!(default_log_level(), "info");
    assert_eq!(default_limit(), 100);
    let s = StaticConfig { storage_dir: default_storage_dir(), log_level: default_log_level(), schedule: None, dynamic_config_path: None };
    assert_eq!(s.storage_dir, "storage.json");
}

#[test]
fn watch_map_ids_from_tags() {
    let cfg = dynamic(vec![target(None, &["kindred", "-ai_generated"], "u1"), target(Some("mine"), &["a"], "u2")]);
    let map = cfg.get_watch_map();
    assert_eq!(map.len(), 2);
    let (id0, (tags0, hooks0)) = map.get(0);
    assert_eq!(id0, "kindred,-ai_generated");
    assert_eq!(tags0, &vec!["kindred".to_string(), "-ai_generated".to_string()]);
    assert_eq!(hooks0.len(), 1);
    assert_eq!(url_of(&hooks0[0]), "u1");
    let (id1, _) = map.get(1);
    assert_eq!(id1, "mine");
}

#[test]
fn watch_map_later_target_wins() {
    let cfg = dynamic(vec![target(Some("x"), &["a"], "u1"), target(None, &["b"], "u2"), target(Some("x"), &["c"], "u3")]);
    let map = cfg.get_watch_map();
    assert_eq!(map.len(), 2);
    let (id0, (tags0, hooks0)) = map.get(0);
    assert_eq!(id0, "x");
    assert_eq!(tags0, &vec!["c".to_string()]);
    assert_eq!(url_of(&hooks0[0]), "u3");
    assert!(!map.is_empty());
    assert!(dynamic(vec![]).get_watch_map().is_empty());
}

#[test]
fn format_by_extension() {
    assert_eq!(config_format("config.yml"), Ok(ConfigFormat::Yaml));
    assert_eq!(config_format("/etc/r34-hooks/dynamic-config.yaml"), Ok(ConfigFormat::Yaml));
    assert_eq!(config_format("a.toml"), Ok(ConfigFormat::Toml));
    assert_eq!(config_format("a.json"), Err(ConfigError::InvalidConfigFileType));
    assert_eq!(config_format("config"), Err(ConfigError::InvalidConfigFileType));
    assert_eq!(config_format(".yml"), Err(ConfigError::InvalidConfigFileType));
    assert_eq!(config_format("a.YML"), Err(ConfigError::InvalidConfigFileType));
}

#[test]
fn extension_like_std_path() {
    for p in ["a.b", "a", ".a", "..", ".", "a.", "a.b.c", "dir/a.toml", "dir.x/a", "a/b/", "a/.", "/", "", "./x.yml", "x/..", "a..b", "..a", "a/./", ".a.b", "dir/.hidden"] {
        let ours = extension_of(p);
        let std = Path::new(p).extension().map(|e| e.to_str().unwrap());
        assert_eq!(ours, std, "path {p:?}");
    }
}
