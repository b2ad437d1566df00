use wineenv::envmgr::{
    launch_outcome, resolve_data_dir, resolve_environment, wine_invocation, EnvironmentHandle,
};
use wineenv::errors::EnvError;
use wineenv::path::AbsPath;
use wineenv::tricks::pending_tricks;

fn p(s: &str) -> AbsPath {
    let comps: Vec<String> = s.split('/').filter(|c| !c.is_empty()).map(String::from).collect();
    AbsPath::new(comps).expect("well-formed path")
}

#[test]
fn first_run_persists_the_default_data_dir() {
    let default_dir = "/home/u/.local/share/wineenv".to_string();
    let (dir, rewrite) = resolve_data_dir("", &default_dir).expect("fresh config resolves");
    assert_eq!(dir, default_dir);
    let text = rewrite.expect("fresh config must be persisted");
    // A later run reads the persisted path verbatim and rewrites nothing.
    let (dir2, rewrite2) = resolve_data_dir(text.as_str(), &"/elsewhere".to_string())
        .expect("stored config resolves");
    assert_eq!(dir2, default_dir);
    assert!(rewrite2.is_none());
}

#[test]
fn unparseable_config_is_fatal() {
    let r = resolve_data_dir("data_dir = 5", &"/d".to_string());
    assert!(matches!(r, Err(EnvError::ConfigIo)));
    let r2 = resolve_data_dir("[[broken", &"/d".to_string());
    assert!(matches!(r2, Err(EnvError::ConfigIo)));
}

#[test]
fn resolution_is_stable_across_table_rewrites() {
    let data = p("/data");
    let key = "/apps/game.exe".to_string();
    let first = resolve_environment("", &key, &data).expect("fresh table resolves");
    let table_text = first.rewritten_table.as_ref().expect("fresh id must be persisted");
    let second = resolve_environment(table_text.as_str(), &key, &data)
        .expect("stored table resolves");
    assert_eq!(second.id, first.id);
    assert!(second.rewritten_table.is_none());
    assert_eq!(second.env_dir.components(), first.env_dir.components());
}

#[test]
fn unparseable_table_is_fatal() {
    let data = p("/data");
    let r = resolve_environment("path_map = false", &"/apps/a.exe".to_string(), &data);
    assert!(matches!(r, Err(EnvError::ConfigIo)));
}

#[test]
fn stored_id_that_names_no_directory_is_fatal() {
    let data = p("/data");
    let text = "[path_map]\n\"/apps/a.exe\" = \"bad/id\"\n";
    let r = resolve_environment(text, &"/apps/a.exe".to_string(), &data);
    assert!(matches!(r, Err(EnvError::ConfigIo)));
}

#[test]
fn handle_exposes_record_and_prefix_paths() {
    let env_dir = p("/data/abc");
    let handle = EnvironmentHandle::from_record(env_dir, "").expect("empty record loads");
    assert_eq!(handle.state_record_path().render(), "/data/abc/conf.toml");
    assert_eq!(handle.wine_prefix_path().render(), "/data/abc/.wine");
}

#[test]
fn corrupted_record_is_fatal_not_fresh() {
    let env_dir = p("/data/abc");
    let r = EnvironmentHandle::from_record(env_dir, "executed_tricks = \"x\"");
    assert!(matches!(r, Err(EnvError::EnvironmentIo)));
}

#[test]
fn launch_status_is_surfaced() {
    assert!(launch_outcome(true, 0).is_ok());
    assert!(matches!(launch_outcome(false, 53), Err(EnvError::Launch { status: 53 })));
}

#[test]
fn fresh_directory_end_to_end() {
    // A fresh data directory: resolving /apps/game.exe creates exactly one
    // environment with an empty trick set, and the launch step gets the
    // executable plus forwarded arguments.
    let data = p("/data");
    let key = "/apps/game.exe".to_string();
    let resolved = resolve_environment("", &key, &data).expect("fresh table resolves");
    assert_eq!(resolved.table.entries().len(), 1);
    assert_eq!(
        resolved.env_dir.render(),
        format!("/data/{}", resolved.id)
    );

    let handle = EnvironmentHandle::from_record(resolved.env_dir, "").expect("fresh env loads");
    assert_eq!(handle.state.tricks().len(), 0);
    assert!(pending_tricks(&handle.state, &Vec::new()).is_empty());
    assert_eq!(
        handle.wine_prefix_path().render(),
        format!("/data/{}/.wine", resolved.id)
    );

    let argv = wine_invocation(&key, &vec!["--fullscreen".to_string()]);
    assert_eq!(argv, vec!["/apps/game.exe".to_string(), "--fullscreen".to_string()]);
}
