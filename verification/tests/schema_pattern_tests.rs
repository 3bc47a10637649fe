use dbx_core::schema_coverage::UncoveredEdge;
use dbx_core::schema_graph::{DependencyGraph, DependencyNode};
use dbx_core::schema_patterns::{detect_pattern_conflicts, diff_names_with_patterns, BatchPattern};

fn pattern(p: &str, is_regex: bool, description: &str) -> BatchPattern {
    BatchPattern { pattern: p.to_string(), is_regex, description: description.to_string() }
}

#[test]
fn batch_pattern_matching_wildcard() {
    let source = vec!["log_2024_01".to_string(), "log_2024_02".to_string(), "users".to_string()];
    let target = vec!["log_2024_03".to_string()];
    let patterns = vec![BatchPattern {
        pattern: "log_*".to_string(),
        is_regex: false,
        description: "all log tables".to_string(),
    }];

    let (_added, removed, common, matches) = diff_names_with_patterns(&source, &target, &patterns);
    assert_eq!(removed, vec!["log_2024_03"]);
    assert_eq!(common.len(), 0);
    assert_eq!(matches.len(), 1);
    assert_eq!(matches[0].len(), 2);
}

#[test]
fn batch_pattern_regex_matching() {
    let source = vec!["tbl_001".to_string(), "tbl_002".to_string(), "other".to_string()];
    let target = vec![];
    let patterns = vec![BatchPattern {
        pattern: r"tbl_\d{3}".to_string(),
        is_regex: true,
        description: "numbered tables".to_string(),
    }];

    let (_added, _removed, _common, matches) = diff_names_with_patterns(&source, &target, &patterns);
    assert_eq!(matches[0].len(), 2);
}

#[test]
fn pattern_conflict_detection() {
    let patterns = vec![
        BatchPattern { pattern: "user_*".to_string(), is_regex: false, description: "user tables".to_string() },
        BatchPattern {
            pattern: "user_data".to_string(),
            is_regex: false,
            description: "specific user data".to_string(),
        },
    ];

    let names = vec!["user_data".to_string(), "user_log".to_string()];
    let conflicts = detect_pattern_conflicts(&patterns, &names);
    assert!(!conflicts.is_empty());
}

#[test]
fn pattern_groups_skip_empty_and_invalid_patterns() {
    let source = vec!["a_1".to_string(), "b_2".to_string(), "a_x".to_string()];
    let patterns = vec![
        pattern("a_?", false, "a tables"),
        pattern("zzz*", false, "nothing"),
        pattern("(", true, "broken"),
        pattern("_2", true, "unanchored"),
    ];
    let (added, removed, common, matches) = diff_names_with_patterns(&source, &vec!["a_1".to_string()], &patterns);
    assert_eq!(added, vec!["b_2", "a_x"]);
    assert!(removed.is_empty());
    assert_eq!(common, vec!["a_1"]);
    assert_eq!(matches, vec![vec!["a_1".to_string(), "a_x".to_string()], vec!["b_2".to_string()]]);
}

#[test]
fn conflicts_list_pairs_in_order_and_anchor_regexes() {
    let patterns = vec![
        pattern("log_*", false, "logs"),
        pattern("log_2024", true, "2024"),
        pattern("log", true, "bare"),
        pattern("[", true, "broken"),
    ];
    let names = vec!["log_2024".to_string(), "log_2023".to_string()];
    let conflicts = detect_pattern_conflicts(&patterns, &names);
    assert_eq!(conflicts, vec![vec!["logs".to_string(), "2024".to_string()]]);
    assert!(detect_pattern_conflicts(&patterns, &[]).is_empty());
}

fn chain() -> DependencyGraph {
    let node = |name: &str, deps: &[&str], by: &[&str]| DependencyNode {
        table_name: name.to_string(),
        depends_on: deps.iter().map(|d| d.to_string()).collect(),
        depended_by: by.iter().map(|d| d.to_string()).collect(),
    };
    DependencyGraph {
        nodes: vec![node("a", &["b"], &[]), node("b", &["c"], &["a"]), node("c", &[], &["b"])],
        topological_order: vec!["c".to_string(), "b".to_string(), "a".to_string()],
    }
}

fn names(ns: &[&str]) -> Vec<String> {
    ns.iter().map(|n| n.to_string()).collect()
}

#[test]
fn coverage_counts_for_a_dependency_chain() {
    let g = chain();
    assert_eq!(g.count_edges(&names(&["a", "b"])), (1, 2));
    assert_eq!(g.count_transitive_edges(&names(&["a", "b"])), (0, 1));
    assert_eq!(g.count_edges(&names(&["a", "b", "c"])), (2, 2));
    assert_eq!(g.count_transitive_edges(&names(&["a", "b", "c"])), (1, 1));
    assert_eq!(g.count_transitive_edges(&names(&["b"])), (0, 0));
    let empty = DependencyGraph { nodes: vec![], topological_order: vec![] };
    assert_eq!(empty.count_edges(&[]), (0, 0));
}

#[test]
fn uncovered_edges_list_direct_then_two_step() {
    let g = chain();
    let edges: Vec<(String, String, u32)> = g
        .collect_uncovered_edges(&names(&["a", "b"]))
        .into_iter()
        .map(|e: UncoveredEdge| (e.from_table, e.to_table, e.level))
        .collect();
    assert_eq!(edges, vec![("a".to_string(), "c".to_string(), 2), ("b".to_string(), "c".to_string(), 1)]);
    assert!(g.collect_uncovered_edges(&names(&["a", "b", "c"])).is_empty());
}
