use guiguitsu::config::{Config, StackEntry, FILE_NAME};

fn config() -> Config {
    Config {
        workspace_branch: "workspace".to_string(),
        workspace_remote: "origin".to_string(),
        trunk: "main".to_string(),
        stacks: vec![StackEntry::for_branch("workspace", "origin")],
        merge_commit: None,
    }
}

#[test]
fn config_path_joins_file_name() {
    assert_eq!(FILE_NAME, ".guiguitsu.json");
    assert_eq!(Config::path("/repo"), "/repo/.guiguitsu.json");
    assert_eq!(Config::path("/repo/"), "/repo/.guiguitsu.json");
    assert_eq!(Config::path(""), ".guiguitsu.json");
}

#[test]
fn base_ref_and_trunk_ref() {
    let c = config();
    assert_eq!(c.base_ref(), "origin/main");
    assert_eq!(c.trunk_remote_ref(), "main@origin");
    let inv = c.validate("/repo");
    assert_eq!(inv.args, vec!["remote".to_string(), "get-url".to_string(), "origin".to_string()]);
}
