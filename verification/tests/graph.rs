use guiguitsu::graph::{find_free_or_append, find_or_alloc};
use guiguitsu::graph::{compute_graph, GraphCell, GraphRow};
use guiguitsu::repo::CommitInfo;

fn commit(id: &str, parents: &[&str]) -> CommitInfo {
    CommitInfo {
        id: id.to_string(),
        parents: parents.iter().map(|p| p.to_string()).collect(),
        ..Default::default()
    }
}

fn compute(commits: &[CommitInfo]) -> Vec<GraphRow> {
    compute_graph(commits)
}

#[test]
fn test_linear() {
    let rows = compute(&[commit("A", &["B"]), commit("B", &["C"]), commit("C", &["D"]), commit("D", &[])]);
    assert_eq!(rows.len(), 4);
    assert!(rows.iter().all(|r| r.node_column == 0));
    assert!(rows.iter().all(|r| r.cells.len() == 1));
    assert!(rows.iter().all(|r| r.cells[0].cell == GraphCell::Node));
    assert!(!rows[0].cells[0].line_above);
    assert!(rows[0].cells[0].line_below);
    assert!(rows[1].cells[0].line_above);
    assert!(rows[1].cells[0].line_below);
    assert!(rows[2].cells[0].line_above);
    assert!(rows[2].cells[0].line_below);
    assert!(rows[3].cells[0].line_above);
    assert!(!rows[3].cells[0].line_below);
}

#[test]
fn test_single() {
    let rows = compute(&[commit("A", &[])]);
    assert_eq!(rows.len(), 1);
    assert_eq!(rows[0].node_column, 0);
    assert_eq!(rows[0].cells.len(), 1);
    assert_eq!(rows[0].cells[0].cell, GraphCell::Node);
    assert!(!rows[0].cells[0].line_above);
    assert!(!rows[0].cells[0].line_below);
}

#[test]
fn test_fork() {
    let rows = compute(&[commit("A", &["C"]), commit("B", &["C"]), commit("C", &["D"]), commit("D", &[])]);
    assert_eq!(rows.len(), 4);
    assert_eq!(rows[0].node_column, 0);
    assert!(!rows[0].cells[0].line_above);
    assert!(rows[0].cells[0].line_below);
    assert_eq!(rows[1].node_column, 1);
    assert!(!rows[1].cells[1].line_above);
    assert_eq!(rows[1].cells[0].cell, GraphCell::Vertical);
    assert_eq!(rows[2].node_column, 0);
    assert!(rows[2].cells[0].line_above);
    assert!(rows[2].cells[0].line_below);
    assert_eq!(rows[2].cells[1].cell, GraphCell::MergeLeft);
    assert!(rows[2].cells[1].line_above);
    assert!(!rows[2].cells[1].line_below);
    assert_eq!(rows[3].node_column, 0);
    assert!(rows[3].cells[0].line_above);
    assert!(!rows[3].cells[0].line_below);
}

#[test]
fn test_merge() {
    let rows = compute(&[commit("A", &["B", "C"]), commit("B", &["D"]), commit("C", &["D"]), commit("D", &[])]);
    assert_eq!(rows.len(), 4);
    assert_eq!(rows[0].node_column, 0);
    assert!(!rows[0].cells[0].line_above);
    assert!(rows[0].cells[0].line_below);
    assert_eq!(rows[1].node_column, 0);
    assert_eq!(rows[1].cells[1].cell, GraphCell::Vertical);
    assert_eq!(rows[2].node_column, 1);
    assert!(rows[2].cells[1].line_above);
    assert_eq!(rows[3].node_column, 0);
}

#[test]
fn test_diamond() {
    let rows = compute(&[
        commit("A", &["B"]),
        commit("B", &["C", "D"]),
        commit("C", &["E"]),
        commit("D", &["E"]),
        commit("E", &[]),
    ]);
    assert_eq!(rows.len(), 5);
    assert_eq!(rows[0].node_column, 0);
    assert_eq!(rows[1].node_column, 0);
    assert_eq!(rows[2].node_column, 0);
    assert_eq!(rows[3].node_column, 1);
    assert_eq!(rows[4].node_column, 0);
    assert_eq!(rows[4].cells[1].cell, GraphCell::MergeLeft);
}

#[test]
fn test_orphan_only() {
    let rows = compute(&[commit("A", &["X"]), commit("B", &["Y"]), commit("C", &["Z"])]);
    assert_eq!(rows.len(), 3);
    for row in &rows {
        assert_eq!(row.node_column, 0);
        assert_eq!(row.cells.len(), 1);
        assert_eq!(row.cells[0].cell, GraphCell::Node);
        assert!(!row.cells[0].line_below);
    }
    assert!(!rows[0].cells[0].line_above);
}

#[test]
fn test_two_roots() {
    let rows = compute(&[commit("A", &["B"]), commit("C", &["D"]), commit("B", &[]), commit("D", &[])]);
    assert_eq!(rows.len(), 4);
    assert_eq!(rows[0].node_column, 0);
    assert_eq!(rows[1].node_column, 1);
    assert_eq!(rows[2].node_column, 0);
    assert!(rows[2].cells[0].line_above);
    assert!(!rows[2].cells[0].line_below);
    assert_eq!(rows[3].node_column, 1);
    assert!(rows[3].cells[1].line_above);
    assert!(!rows[3].cells[1].line_below);
}

#[test]
fn test_wide() {
    let rows = compute(&[
        commit("A1", &["P"]),
        commit("A2", &["P"]),
        commit("A3", &["P"]),
        commit("A4", &["P"]),
        commit("P", &["ROOT"]),
        commit("ROOT", &[]),
    ]);
    assert_eq!(rows.len(), 6);
    assert_eq!(rows[0].node_column, 0);
    assert_eq!(rows[1].node_column, 1);
    assert_eq!(rows[2].node_column, 2);
    assert_eq!(rows[3].node_column, 3);
    assert_eq!(rows[4].node_column, 0);
    assert!(rows[4].cells[0].line_above);
    assert!(rows[4].cells[0].line_below);
    assert_eq!(rows[5].node_column, 0);
    assert_eq!(rows[5].cells.len(), 1);
}

#[test]
fn test_long_fork() {
    let rows = compute(&[
        commit("A", &["P"]),
        commit("B", &["C"]),
        commit("C", &["D"]),
        commit("D", &["P"]),
        commit("P", &["ROOT"]),
        commit("ROOT", &[]),
    ]);
    assert_eq!(rows.len(), 6);
    assert_eq!(rows[0].node_column, 0);
    assert_eq!(rows[1].node_column, 1);
    assert_eq!(rows[2].node_column, 1);
    assert_eq!(rows[3].node_column, 1);
    assert_eq!(rows[1].cells[0].cell, GraphCell::Vertical);
    assert_eq!(rows[2].cells[0].cell, GraphCell::Vertical);
    assert_eq!(rows[3].cells[0].cell, GraphCell::Vertical);
    assert_eq!(rows[4].node_column, 0);
    assert_eq!(rows[4].cells[1].cell, GraphCell::MergeLeft);
    assert_eq!(rows[5].node_column, 0);
}

#[test]
fn test_crossing() {
    let rows = compute(&[
        commit("A", &["D"]),
        commit("B", &["E"]),
        commit("C", &["D"]),
        commit("D", &["F"]),
        commit("E", &["F"]),
        commit("F", &[]),
    ]);
    assert_eq!(rows.len(), 6);
    assert_eq!(rows[0].node_column, 0);
    assert_eq!(rows[1].node_column, 1);
    assert_eq!(rows[2].node_column, 2);
    assert_eq!(rows[3].node_column, 0);
    assert_eq!(rows[3].cells[1].cell, GraphCell::Crossing);
    assert!(rows[3].cells[1].line_above);
    assert!(rows[3].cells[1].line_below);
    assert_eq!(rows[3].cells[2].cell, GraphCell::MergeLeft);
    assert!(rows[3].cells[2].line_above);
    assert!(!rows[3].cells[2].line_below);
    assert_eq!(rows[4].node_column, 1);
    assert_eq!(rows[5].node_column, 0);
}

#[test]
fn test_fork_with_orphan() {
    let rows = compute(&[
        commit("4f4658", &["636d81"]),
        commit("b74d31", &["0rphan"]),
        commit("c0ffee", &["636d81"]),
        commit("636d81", &[]),
    ]);
    assert_eq!(rows.len(), 4);
    assert_eq!(rows[0].node_column, 0);
    assert!(!rows[0].cells[0].line_above);
    assert!(rows[0].cells[0].line_below);
    assert!(!rows[1].cells[rows[1].node_column].line_below);
    assert_eq!(rows[3].node_column, 0);
}

#[test]
fn graph_rows_follow_commits_and_nodes_sit_in_their_column() {
    let commits = vec![
        commit("A", &["B", "C"]),
        commit("B", &["D"]),
        commit("C", &["D", "Q"]),
        commit("D", &[]),
    ];
    let rows = compute(&commits);
    assert_eq!(rows.len(), commits.len());
    for (row, c) in rows.iter().zip(commits.iter()) {
        assert_eq!(row.commit_id, c.id);
        assert!(row.node_column < row.cells.len());
        assert_eq!(row.cells[row.node_column].cell, GraphCell::Node);
    }
    // The merge row draws both incoming lanes.
    assert!(rows[3].cells[0].merge_from_right);
    assert!(!rows[3].cells[0].merge_from_left);
}

#[test]
fn graph_never_merges_from_the_left() {
    // A node takes the first lane that runs to it, so every merge source lies to its right.
    let rows = compute(&[
        commit("A", &["D"]),
        commit("B", &["E", "D"]),
        commit("C", &["D"]),
        commit("D", &["F"]),
        commit("E", &["F"]),
        commit("F", &[]),
    ]);
    for row in &rows {
        assert!(!row.cells[row.node_column].merge_from_left);
        assert!(row.cells.iter().all(|c| c.cell != GraphCell::MergeRight));
    }
    assert!(rows[3].cells[0].merge_from_right);
}

#[test]
fn graph_empty_log_has_no_rows() {
    let rows = compute(&[]);
    assert!(rows.is_empty());
}

#[test]
fn node_connects_upward_iff_named_by_an_earlier_commit() {
    // C names A as a parent, but A comes before C: A's node has no line above.
    let rows = compute(&[commit("A", &["B"]), commit("C", &["A"]), commit("B", &[])]);
    let above: Vec<bool> = rows.iter().map(|r| r.cells[r.node_column].line_above).collect();
    assert_eq!(above, vec![false, false, true]);
}

#[test]
fn lanes_are_reused_first_then_appended() {
    let mut lanes = vec![Some("a".to_string()), None, Some("b".to_string()), None];
    assert_eq!(find_free_or_append(&mut lanes), 1);
    assert_eq!(lanes.len(), 4);
    let mut full = vec![Some("a".to_string())];
    assert_eq!(find_free_or_append(&mut full), 1);
    assert_eq!(full, vec![Some("a".to_string()), None]);
    let mut l = vec![None, Some("x".to_string()), Some("x".to_string())];
    assert_eq!(find_or_alloc(&mut l, &"x".to_string()), (1, true));
    assert_eq!(find_or_alloc(&mut l, &"y".to_string()), (0, false));
    assert_eq!(l.len(), 3);
}
