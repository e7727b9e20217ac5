use guiguitsu::repo::log_record_lines;

/// A `jj log` JSON export of a fork whose two tips share a parent, and a
/// commit whose parent is not in the log.
const FORK_WITH_ORPHAN: &str = "{\"commit_id\":\"4f4658\",\"parents\":[\"636d81\"],\"change_id\":\"kkk\",\"description\":\"left\\n\",\"author\":{\"name\":\"A\",\"email\":\"a@x\"}}\n\
     \n\
     {\"commit_id\":\"b74d31\",\"parents\":[\"0rphan\"],\"change_id\":\"lll\",\"description\":\"orphan\\n\",\"author\":{\"name\":\"A\",\"email\":\"a@x\"}}\n\
     {\"commit_id\":\"c0ffee\",\"parents\":[\"636d81\"],\"change_id\":\"mmm\",\"description\":\"right\\n\",\"author\":{\"name\":\"A\",\"email\":\"a@x\"}}\n\
     \x20\x20\n\
     {\"commit_id\":\"636d81\",\"parents\":[],\"change_id\":\"nnn\",\"description\":\"base\\n\",\"author\":{\"name\":\"A\",\"email\":\"a@x\"}}\n";

#[test]
fn parse_sample1() {
    let records = log_record_lines(FORK_WITH_ORPHAN);
    assert_eq!(records.len(), 4);
    let commits: Vec<serde_json::Value> = records.iter().map(|l| serde_json::from_str(l).unwrap()).collect();
    assert_eq!(commits[0]["parents"][0], commits[2]["parents"][0]);
}

#[test]
fn record_lines_skip_blank_lines_only() {
    assert_eq!(log_record_lines("a\n\n  \nb\r\n"), vec!["a".to_string(), "b".to_string()]);
    assert!(log_record_lines("").is_empty());
    assert_eq!(log_record_lines(" x \n"), vec![" x ".to_string()]);
}
