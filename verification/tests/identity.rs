use wineenv::identity::{parse_identity_table, IdentityTable};

#[test]
fn same_path_resolves_to_same_id() {
    let mut table = IdentityTable::new();
    let path = "/apps/game.exe".to_string();
    let (id1, inserted1) = table.resolve(&path);
    let (id2, inserted2) = table.resolve(&path);
    assert!(inserted1);
    assert!(!inserted2);
    assert_eq!(id1, id2);
    assert_eq!(table.entries().len(), 1);
}

#[test]
fn distinct_paths_resolve_to_distinct_ids() {
    let mut table = IdentityTable::new();
    let (id1, _) = table.resolve(&"/apps/a.exe".to_string());
    let (id2, _) = table.resolve(&"/apps/b.exe".to_string());
    assert_ne!(id1, id2);
    assert_eq!(table.entries().len(), 2);
}

#[test]
fn fresh_ids_have_fixed_length() {
    let mut table = IdentityTable::new();
    let (id, _) = table.resolve(&"/apps/a.exe".to_string());
    assert_eq!(id.chars().count(), 21);
    assert!(id.chars().all(|c| c.is_ascii_alphanumeric() || c == '_' || c == '-'));
}

#[test]
fn table_round_trip_restores_entries() {
    let mut table = IdentityTable::new();
    let (id1, _) = table.resolve(&"/apps/a.exe".to_string());
    let (id2, _) = table.resolve(&"/apps/with space/b.exe".to_string());
    let text = table.encode();
    let reloaded = parse_identity_table(text.as_str()).expect("parses back");
    assert_eq!(reloaded.entries(), table.entries());
    assert_eq!(reloaded.lookup(&"/apps/a.exe".to_string()), Some(id1));
    assert_eq!(reloaded.lookup(&"/apps/with space/b.exe".to_string()), Some(id2));
}

#[test]
fn stable_across_reload() {
    let mut table = IdentityTable::new();
    let path = "/apps/game.exe".to_string();
    let (id1, _) = table.resolve(&path);
    let text = table.encode();
    let mut reloaded = parse_identity_table(text.as_str()).expect("parses back");
    let (id2, inserted) = reloaded.resolve(&path);
    assert!(!inserted);
    assert_eq!(id1, id2);
}

#[test]
fn empty_text_is_empty_table() {
    let table = parse_identity_table("").expect("empty text parses");
    assert_eq!(table.entries().len(), 0);
}

#[test]
fn handwritten_record_parses() {
    let table = parse_identity_table("[path_map]\n\"/a/b\" = \"xyz\"\n").expect("parses");
    assert_eq!(table.lookup(&"/a/b".to_string()), Some("xyz".to_string()));
    assert_eq!(table.lookup(&"/a/c".to_string()), None);
}

#[test]
fn malformed_record_rejected() {
    assert!(parse_identity_table("path_map = 3").is_none());
    assert!(parse_identity_table("not toml at all [[").is_none());
}

#[test]
fn encoded_table_names_its_key() {
    let mut table = IdentityTable::new();
    table.resolve(&"/apps/a.exe".to_string());
    let text = table.encode();
    assert!(text.contains("path_map"));
    assert!(text.contains("/apps/a.exe"));
}
