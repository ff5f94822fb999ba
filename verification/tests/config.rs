//! Where everything is kept.
use cxa::config::{env_path, paths_overlap, resolved, Config, Environment};
use cxa::effects::{Halt, Reply, Request};
use cxa::error::Error;

fn drive<T>(
    mut perform: impl FnMut(Request) -> Reply,
    mut step: impl FnMut(&Vec<Reply>, &mut usize) -> Result<T, Halt>,
) -> Result<T, Error> {
    let mut log = Vec::new();
    loop {
        let mut at = 0;
        match step(&log, &mut at) {
            Ok(value) => return Ok(value),
            Err(Halt::Fail(error)) => return Err(error),
            Err(Halt::Ask(request)) => log.push(perform(request)),
        }
    }
}

fn nothing_there(request: Request) -> Reply {
    match request {
        Request::Exists(path) => Reply::Flag(path == "/" || path == "/home"),
        Request::Canonical(path) if path == "/" || path == "/home" => Reply::Text(path),
        Request::Canonical(_) => Reply::Missing,
        _ => panic!("unexpected request"),
    }
}

fn environment() -> Environment {
    Environment {
        home: Some("/home/one".to_owned()),
        codex_home: None,
        account_store: None,
        codex_binary: None,
        usage_ttl: None,
        skip_usage_refresh: None,
    }
}

#[test]
fn overlapping_stores_are_rejected() {
    assert!(paths_overlap("/tmp/codex", "/tmp/codex/accounts", false));
}

#[test]
fn separate_sibling_stores_are_allowed() {
    assert!(!paths_overlap("/tmp/codex", "/tmp/codex-auth", false));
}

#[test]
fn overlapping_is_symmetric() {
    assert!(paths_overlap("/tmp/codex/accounts", "/tmp/codex", false));
    assert!(paths_overlap("/tmp/codex", "/tmp/codex", false));
    assert!(paths_overlap("/tmp/Codex", "/tmp/codex/accounts", true));
    assert!(!paths_overlap("/tmp/Codex", "/tmp/codex/accounts", false));
}

#[test]
fn the_home_directory_holds_both_stores_by_default() {
    let environment = environment();
    let config = drive(nothing_there, |log, at| {
        Config::from_env(&environment, false, log, at)
    })
    .ok()
    .unwrap();

    assert_eq!(config.codex_home, "/home/one/.codex");
    assert_eq!(config.account_store, "/home/one/.codex-auth");
    assert_eq!(config.session_auth, "/home/one/.codex/auth.json");
    assert_eq!(config.switch_lock, "/home/one/.codex-auth/switch.lock");
    assert_eq!(config.usage_ttl_seconds, 120);
    assert!(!config.skip_usage_refresh);
    assert_eq!(config.codex_binary(), "codex");
    assert_eq!(config.profile_dir(3), "/home/one/.codex-auth/profile-3");
    assert_eq!(config.profile_auth(3), "/home/one/.codex-auth/profile-3/auth.json");
    assert_eq!(config.profile_usage(3), "/home/one/.codex-auth/profile-3/usage.json");
}

#[test]
fn relative_configuration_paths_are_rejected() {
    let environment = Environment {
        account_store: Some("relative-store".to_owned()),
        ..environment()
    };
    let error = drive(nothing_there, |log, at| {
        Config::from_env(&environment, false, log, at)
    })
    .err()
    .unwrap();

    assert!(error.text().contains("must be an absolute path"));
    assert!(env_path("CODEX_HOME", &Some(String::new())).ok().unwrap().is_none());
}

#[test]
fn overlapping_codex_home_and_account_store_are_rejected() {
    let environment = Environment {
        account_store: Some("/home/one/.codex/accounts".to_owned()),
        usage_ttl: Some("30".to_owned()),
        skip_usage_refresh: Some("1".to_owned()),
        ..environment()
    };
    let error = drive(nothing_there, |log, at| {
        Config::from_env(&environment, false, log, at)
    })
    .err()
    .unwrap();

    assert!(error.text().contains("must be separate directories"));
}

#[test]
fn absolute_path_overrides_do_not_require_home() {
    let environment = Environment {
        home: None,
        codex_home: Some("/srv/codex".to_owned()),
        account_store: Some("/srv/accounts".to_owned()),
        usage_ttl: Some("30".to_owned()),
        skip_usage_refresh: Some("1".to_owned()),
        codex_binary: Some("/opt/codex".to_owned()),
    };
    let config = drive(nothing_there, |log, at| {
        Config::from_env(&environment, false, log, at)
    })
    .ok()
    .unwrap();

    assert_eq!(config.usage_ttl_seconds, 30);
    assert!(config.skip_usage_refresh);
    assert_eq!(config.codex_binary(), "/opt/codex");
}

#[test]
fn a_directory_that_is_not_there_is_resolved_from_one_that_is() {
    let path = drive(
        |request| match request {
            Request::Exists(path) => Reply::Flag(path == "/" || path == "/link"),
            Request::Canonical(path) if path == "/link" => Reply::Text("/real".to_owned()),
            Request::Canonical(_) => Reply::Missing,
            _ => panic!("unexpected request"),
        },
        |log, at| resolved("/link/a/b", log, at),
    )
    .ok()
    .unwrap();

    assert_eq!(path, "/real/a/b");
}

#[test]
fn credential_environment_overrides_are_rejected() {
    let environment = environment();
    let config = drive(nothing_there, |log, at| {
        Config::from_env(&environment, false, log, at)
    })
    .ok()
    .unwrap();

    let error = config
        .require_no_credential_override(&Some("external-token".to_owned()))
        .err()
        .unwrap();
    assert!(error.text().contains("Unset CODEX_ACCESS_TOKEN"));
    assert!(config.require_no_credential_override(&None).is_ok());
}

#[test]
fn different_accounts_have_different_files() {
    let environment = environment();
    let config = drive(nothing_there, |log, at| Config::from_env(&environment, false, log, at))
        .ok()
        .unwrap();
    let files = |slot| {
        vec![
            config.profile_dir(slot),
            config.profile_auth(slot),
            config.profile_usage(slot),
            config.usage_attempt(slot),
            config.profile_pending(slot),
            config.profile_backup(slot),
        ]
    };
    assert_eq!(files(1)[1], "/home/one/.codex-auth/profile-1/auth.json");
    for (a, b) in [(1, 2), (1, 11), (11, 111), (2, 12), (9, 10), (0, u32::MAX)] {
        for path in files(a) {
            assert!(!files(b).contains(&path), "{path}");
        }
    }
}
