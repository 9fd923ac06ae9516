//! Server configuration.

use albumplayer::auth::SECOND;
use albumplayer::config::{truthy, Config, Env};
use albumplayer::path::FilePath;
use albumplayer::server::ServerError;

fn env(password: &str) -> Env {
    Env {
        music_root: None,
        data_dir: None,
        bind: None,
        password: Some(password.into()),
        scan_on_start: None,
        session_hours: None,
        ui_dir: None,
        trust_proxy: None,
    }
}

fn message(result: Result<Config, ServerError>) -> String {
    match result {
        Err(ServerError::Config(m)) => m,
        other => panic!("expected a refusal, got {other:?}"),
    }
}

#[test]
fn compose_style_booleans_are_understood() {
    for yes in ["1", "true", "TRUE", "yes", "On", " true "] {
        assert!(truthy(yes), "{yes}");
    }
    for no in ["0", "false", "no", "off", "", "maybe"] {
        assert!(!truthy(no), "{no}");
    }
}

#[test]
fn paths_are_derived_from_the_data_directory() {
    let config = Config {
        music_root: FilePath::parse("/music"),
        data_dir: FilePath::parse("/data"),
        bind: "0.0.0.0:8080".into(),
        password: "hunter2!!".into(),
        scan_on_start: true,
        session_ttl: 60 * SECOND,
        ui_dir: None,
        trust_proxy: false,
    };
    assert_eq!(config.database_path(), FilePath::parse("/data/library.db"));
    assert_eq!(config.art_cache_dir(None), FilePath::parse("/data/art"));
    assert_eq!(config.art_cache_dir(Some("".into())), FilePath::parse("/data/art"));
    assert_eq!(config.art_cache_dir(Some("/covers".into())), FilePath::parse("/covers"));
}

#[test]
fn unset_variables_have_defaults() {
    let config = Config::from_env(&env("hunter2!!"), None, false).unwrap();
    assert_eq!(config.music_root, FilePath::parse("/music"));
    assert_eq!(config.bind, "0.0.0.0:8080");
    assert_eq!(config.session_ttl, 720 * 3600 * SECOND);
    assert!(config.scan_on_start);
    assert!(!config.trust_proxy);
    assert_eq!(config.ui_dir, None);
    assert_eq!(env("x").ui_index(), FilePath::parse("/app/ui/index.html"));
}

#[test]
fn set_variables_are_taken() {
    let env = Env {
        music_root: Some("/m".into()),
        session_hours: Some("2".into()),
        scan_on_start: Some("no".into()),
        trust_proxy: Some("1".into()),
        ui_dir: Some("/ui".into()),
        bind: Some("  ".into()),
        ..env("hunter2!!")
    };
    let config = Config::from_env(&env, None, true).unwrap();
    assert_eq!(config.music_root, FilePath::parse("/m"));
    assert_eq!(config.session_ttl, 2 * 3600 * SECOND);
    assert!(!config.scan_on_start);
    assert!(config.trust_proxy);
    assert_eq!(config.ui_dir, Some(FilePath::parse("/ui")));
    assert_eq!(config.bind, "0.0.0.0:8080", "a blank value is as good as none");
}

#[test]
fn a_server_without_a_password_does_not_start() {
    let none = Env { password: None, ..env("") };
    assert_eq!(
        message(Config::from_env(&none, None, false)),
        "ALBUMPLAYER_PASSWORD must be set; refusing to start without a password"
    );
    assert_eq!(
        message(Config::from_env(&env("short"), None, false)),
        "ALBUMPLAYER_PASSWORD must be at least 8 characters"
    );
}

#[test]
fn nonsense_is_refused_loudly() {
    assert_eq!(
        message(Config::from_env(&env("hunter2!!"), Some("invalid socket address syntax".into()), false)),
        "ALBUMPLAYER_BIND is not a socket address: invalid socket address syntax"
    );
    let hours = Env { session_hours: Some("soon".into()), ..env("hunter2!!") };
    assert_eq!(
        message(Config::from_env(&hours, None, false)),
        "ALBUMPLAYER_SESSION_HOURS is not a number: invalid digit found in string"
    );
}
