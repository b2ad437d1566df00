use wineenv::detect::{accept_candidate, get_base_env_dir_from_exec_path};
use wineenv::path::AbsPath;

fn p(s: &str) -> AbsPath {
    let comps: Vec<String> = s.split('/').filter(|c| !c.is_empty()).map(String::from).collect();
    AbsPath::new(comps).expect("well-formed path")
}

#[test]
fn render_root_and_paths() {
    assert_eq!(AbsPath::root().render(), "/");
    assert_eq!(p("/a/b").render(), "/a/b");
    assert_eq!(p("/home/user/.local/share/wineenv").render(), "/home/user/.local/share/wineenv");
}

#[test]
fn join_prefix_and_components() {
    let base = p("/data/dir");
    let joined = base.join(&"abc".to_string());
    assert_eq!(joined.render(), "/data/dir/abc");
    assert_eq!(joined.prefix(2).render(), "/data/dir");
    assert_eq!(joined.depth(), 3);
    assert_eq!(joined.components(), &vec!["data".to_string(), "dir".to_string(), "abc".to_string()]);
}

#[test]
fn ill_formed_components_rejected() {
    assert!(AbsPath::new(vec!["a/b".to_string()]).is_none());
    assert!(AbsPath::new(vec!["".to_string()]).is_none());
    assert!(AbsPath::new(vec!["ok".to_string(), "al/so".to_string()]).is_none());
}

#[test]
fn nested_inside_prefix_returns_env_dir() {
    let data = p("/home/u/.local/share/wineenv");
    let env = data.join(&"abc123".to_string());
    let exec = p("/home/u/.local/share/wineenv/abc123/.wine/drive_c/Games/game.exe");
    let got = get_base_env_dir_from_exec_path(&exec, &data).expect("nested detected");
    assert_eq!(got.components(), env.components());
}

#[test]
fn no_marker_means_not_nested() {
    let data = p("/home/u/.local/share/wineenv");
    let exec = p("/apps/game.exe");
    assert!(get_base_env_dir_from_exec_path(&exec, &data).is_none());
}

#[test]
fn containment_tests_the_candidate_not_the_marker_dir() {
    // The data directory's text overlaps only into the trailing marker
    // segment: the candidate's own text does not contain it, so the
    // executable is not nested.
    let data = p("/x/.w");
    let exec = p("/x/.wine/drive_c/game.exe");
    assert!(get_base_env_dir_from_exec_path(&exec, &data).is_none());
}

#[test]
fn marker_outside_data_dir_rejected() {
    let data = p("/home/u/.local/share/wineenv");
    let exec = p("/srv/other/.wine/drive_c/game.exe");
    assert!(get_base_env_dir_from_exec_path(&exec, &data).is_none());
}

#[test]
fn nearest_marker_wins() {
    let data = p("/d");
    let exec = p("/d/e1/.wine/drive_c/.wine/x/game.exe");
    let got = get_base_env_dir_from_exec_path(&exec, &data).expect("nested detected");
    assert_eq!(got.render(), "/d/e1/.wine/drive_c");
}

#[test]
fn file_named_like_marker_is_not_a_marker() {
    let data = p("/d");
    let exec = p("/d/e1/.wine");
    assert!(get_base_env_dir_from_exec_path(&exec, &data).is_none());
}

#[test]
fn candidate_needs_state_record() {
    let cand = Some(p("/d/e1"));
    let accepted = accept_candidate(cand, true).expect("record present");
    assert_eq!(accepted.render(), "/d/e1");
    let cand2 = Some(p("/d/e1"));
    assert!(accept_candidate(cand2, false).is_none());
    assert!(accept_candidate(None, true).is_none());
}
