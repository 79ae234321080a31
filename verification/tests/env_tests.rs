use r34_hooks::env::{
    env_key, get_database, get_watch_hook, get_watch_tags, get_watchpart, parse_env,
    DatabaseConfig, EnvError, EnvScanner, WatchPart,
};
use r34_hooks::text::IntFault;
use r34_hooks::hooks::HookImpl;

fn vars(v: &[(&str, &str)]) -> Vec<(String, String)> {
    v.iter().map(|(a, b)| (a.to_string(), b.to_string())).collect()
}

fn keys(v: &[&str]) -> Vec<String> {
    v.iter().map(|s| s.to_string()).collect()
}

#[test]
fn watch_tags_split_at_commas() {
    assert_eq!(get_watch_tags(" kindred, high_res ,,-ai "), keys(&["kindred", "high_res", "-ai"]));
    assert!(get_watch_tags("").is_empty());
}

#[test]
fn watch_hook_kinds() {
    match get_watch_hook(&keys(&["DISCORD"]), "https://hook") {
        Ok(HookImpl::Discord(d)) => assert_eq!(d.webhook_url(), "https://hook"),
        _ => panic!("expected a Discord hook"),
    }
    assert_eq!(get_watch_hook(&keys(&["SLACK"]), "x").err(), Some(EnvError::UnsupportedHook));
    assert_eq!(get_watch_hook(&[], "x").err(), Some(EnvError::UnsupportedHook));
}

#[test]
fn watch_parts() {
    match get_watchpart(&keys(&["MYID", "TAGS"]), "a,b") {
        Ok((id, WatchPart::Tags(t))) => {
            assert_eq!(id, "MYID");
            assert_eq!(t, keys(&["a", "b"]));
        }
        _ => panic!("expected tags"),
    }
    assert!(matches!(get_watchpart(&keys(&["MYID", "HOOK", "DISCORD"]), "u"), Ok((_, WatchPart::Hook(_)))));
    assert_eq!(get_watchpart(&keys(&["MYID"]), "u").err(), Some(EnvError::InvalidWatchKey));
    assert_eq!(get_watchpart(&keys(&["MYID", "OTHER"]), "u").err(), Some(EnvError::InvalidWatchKey));
    assert_eq!(get_watchpart(&keys(&["MYID", "HOOK"]), "u").err(), Some(EnvError::UnsupportedHook));
}

#[test]
fn database_kinds() {
    assert!(matches!(get_database(&keys(&["POSTGRES"]), "postgres://db"), Some(DatabaseConfig::Postgres(d)) if d == "postgres://db"));
    assert!(get_database(&keys(&["MYSQL"]), "x").is_none());
    assert!(get_database(&[], "x").is_none());
}

#[test]
fn env_keys() {
    assert_eq!(env_key("R34_WATCH_abc_hook_discord"), Some(keys(&["WATCH", "ABC", "HOOK", "DISCORD"])));
    assert_eq!(env_key("R34_LIMIT"), Some(keys(&["LIMIT"])));
    assert_eq!(env_key("R34_"), Some(keys(&[""])));
    assert_eq!(env_key("PATH"), None);
    assert_eq!(env_key("r34_LIMIT"), None);
}

#[test]
fn full_environment() {
    let cfg = parse_env(&vars(&[
        ("HOME", "/root"),
        ("R34_DATABASE_POSTGRES", "postgres://db"),
        ("R34_LIMIT", "25"),
        ("R34_WATCH_k_TAGS", "kindred, high_res"),
        ("R34_WATCH_K_HOOK_DISCORD", "https://hook"),
    ]))
    .unwrap();
    assert!(matches!(&cfg.database, DatabaseConfig::Postgres(d) if d == "postgres://db"));
    assert_eq!(cfg.limit, 25);
    assert_eq!(cfg.watchers.len(), 1);
    let (id, (tags, hooks)) = cfg.watchers.get(0);
    assert_eq!(id, "K");
    assert_eq!(tags, &keys(&["kindred", "high_res"]));
    assert_eq!(hooks.len(), 1);
    assert!(matches!(&hooks[0], HookImpl::Discord(d) if d.webhook_url() == "https://hook"));
}

#[test]
fn default_limit_and_last_value_wins() {
    let cfg = parse_env(&vars(&[
        ("R34_DATABASE_POSTGRES", "first"),
        ("R34_WATCH_A_TAGS", "x"),
        ("R34_WATCH_A_TAGS", "y"),
        ("R34_WATCH_A_HOOK_DISCORD", "h"),
        ("R34_DATABASE_POSTGRES", "second"),
    ]))
    .unwrap();
    assert_eq!(cfg.limit, 100);
    assert!(matches!(&cfg.database, DatabaseConfig::Postgres(d) if d == "second"));
    let (_, (tags, _)) = cfg.watchers.get(0);
    assert_eq!(tags, &keys(&["y"]));
}

#[test]
fn errors_in_order() {
    assert_eq!(parse_env(&vars(&[("R34_LIMIT", "ten")])).err(), Some(EnvError::InvalidLimit(IntFault::InvalidDigit)));
    assert_eq!(parse_env(&vars(&[("R34_WATCH_A", "x")])).err(), Some(EnvError::InvalidWatchKey));
    assert_eq!(parse_env(&vars(&[("R34_WATCH_A_HOOK_SLACK", "x")])).err(), Some(EnvError::UnsupportedHook));
    assert_eq!(parse_env(&vars(&[])).err(), Some(EnvError::NoDatabase));
    assert_eq!(
        parse_env(&vars(&[("R34_DATABASE_POSTGRES", "db"), ("R34_DATABASE_OTHER", "x"), ("R34_WATCH_A_TAGS", "t")])).err(),
        Some(EnvError::NoDatabase)
    );
    assert_eq!(
        parse_env(&vars(&[("R34_DATABASE_POSTGRES", "db"), ("R34_WATCH_A_TAGS", "t")])).err(),
        Some(EnvError::NoHookForTags("A".to_string()))
    );
    assert_eq!(parse_env(&vars(&[("R34_DATABASE_POSTGRES", "db")])).err(), Some(EnvError::NoWatchers));
    assert_eq!(
        parse_env(&vars(&[("R34_DATABASE_POSTGRES", "db"), ("R34_WATCH_A_HOOK_DISCORD", "h")])).err(),
        Some(EnvError::NoWatchers)
    );
    assert_eq!(
        parse_env(&vars(&[("R34_LIMIT", "x"), ("R34_WATCH_A", "y")])).err(),
        Some(EnvError::InvalidLimit(IntFault::InvalidDigit))
    );
    assert_eq!(parse_env(&vars(&[("R34_LIMIT", "")])).err(), Some(EnvError::InvalidLimit(IntFault::Empty)));
    assert_eq!(
        parse_env(&vars(&[("R34_LIMIT", "99999999999999999999999")])).err(),
        Some(EnvError::InvalidLimit(IntFault::PosOverflow))
    );
}

#[test]
fn error_messages() {
    assert_eq!(EnvError::NoDatabase.message(), "No database has been configured");
    assert_eq!(EnvError::NoHookForTags("A".to_string()).message(), "No hook defined for tags in ID A");
    assert_eq!(EnvError::NoWatchers.message(), "No watchers have been specified");
    assert_eq!(EnvError::UnsupportedHook.message(), "unsupported or invalid hook type");
    assert_eq!(
        EnvError::InvalidWatchKey.message(),
        "WATCH environment key must be in format WATCH_<ID>_TAGS or WATCH_<ID>_HOOK_<HookImpl>"
    );
}

#[test]
fn bad_limit_reports_parse_error_text() {
    let e = parse_env(&vars(&[("PATH", "/bin"), ("R34_limit", "ten")])).err().unwrap();
    assert_eq!(e.message(), "invalid digit found in string");
    for v in ["ten", "", "99999999999999999999999", "+"] {
        let want = v.parse::<usize>().unwrap_err().to_string();
        let got = parse_env(&vars(&[("R34_LIMIT", v)])).err().unwrap().message();
        assert_eq!(got, want, "value {v:?}");
    }
}

#[test]
fn scanner_hands_out_databases_as_read() {
    let mut scan = EnvScanner::new();
    assert!(matches!(scan.feed("PATH", "/bin"), Ok(None)));
    assert!(matches!(scan.feed("R34_LIMIT", "5"), Ok(None)));
    match scan.feed("R34_database_postgres", "postgres://db") {
        Ok(Some(DatabaseConfig::Postgres(d))) => assert_eq!(d, "postgres://db"),
        _ => panic!("expected a database to connect to"),
    }
    assert!(matches!(scan.feed("R34_DATABASE_OTHER", "x"), Ok(None)));
    assert!(matches!(scan.feed("R34_WATCH_A_TAGS", "t"), Ok(None)));
    assert!(matches!(scan.feed("R34_WATCH_A_HOOK_DISCORD", "h"), Ok(None)));
    assert_eq!(scan.finish().err(), Some(EnvError::NoDatabase));
    let mut scan = EnvScanner::new();
    assert_eq!(scan.feed("R34_LIMIT", "x").err(), Some(EnvError::InvalidLimit(IntFault::InvalidDigit)));
}

#[test]
fn name_case_and_other_vars_ignored() {
    let a = vars(&[
        ("R34_DATABASE_POSTGRES", "db"),
        ("R34_LIMIT", "7"),
        ("R34_WATCH_A_TAGS", "t"),
        ("R34_WATCH_A_HOOK_DISCORD", "h"),
    ]);
    let b = vars(&[
        ("HOME", "/root"),
        ("R34_database_Postgres", "db"),
        ("R34_OTHER", "1"),
        ("R34_Limit", "7"),
        ("r34_LIMIT", "x"),
        ("R34_watch_a_tags", "t"),
        ("R34_Watch_A_Hook_Discord", "h"),
    ]);
    let ca = parse_env(&a).unwrap();
    let cb = parse_env(&b).unwrap();
    assert_eq!(ca.limit, cb.limit);
    assert_eq!(ca.watchers.len(), cb.watchers.len());
    assert_eq!(ca.watchers.get(0).0, cb.watchers.get(0).0);
    assert_eq!(ca.watchers.get(0).1 .0, cb.watchers.get(0).1 .0);
}
