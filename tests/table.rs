use vscli::history::{EntryId, History};
use vscli::record::{Behavior, ContainerStrategy, Entry, Timestamp};
use vscli::table::{add_num_opt, TableData, MAX_QUERY_LEN};

fn entry(name: &str, path: &str, secs: i64) -> Entry {
    Entry {
        workspace_name: name.to_string(),
        dev_container_name: None,
        workspace_path: path.to_string(),
        config_path: None,
        behavior: Behavior { strategy: ContainerStrategy::Detect, args: vec![], command: "code".to_string() },
        last_opened: Timestamp { secs, nanos: 0 },
    }
}

fn names(t: &TableData) -> Vec<String> {
    t.as_rows_full().iter().map(|r| r.entry.workspace_name.clone()).collect()
}

fn three() -> TableData {
    let h = History::from_entries(vec![
        entry("alpha-service", "/w/one", 30),
        entry("beta-tool", "/w/two", 20),
        entry("alpha-cli", "/w/three", 10),
    ]);
    TableData::from_iter(h.to_vec())
}

#[test]
fn add_num_opt_cases() {
    assert_eq!(add_num_opt(Some(2), Some(3)), Some(5));
    assert_eq!(add_num_opt(Some(2), None), Some(2));
    assert_eq!(add_num_opt(None, Some(3)), Some(3));
    assert_eq!(add_num_opt(None, None), None);
}

#[test]
fn build_orders_by_recency() {
    let items = vec![
        (EntryId::new(0), entry("old", "/a", 1)),
        (EntryId::new(1), entry("new", "/b", 9)),
        (EntryId::new(2), entry("tie-first", "/c", 5)),
        (EntryId::new(3), entry("tie-second", "/d", 5)),
    ];
    let t = TableData::from_iter(items);
    assert_eq!(names(&t), vec!["new", "tie-first", "tie-second", "old"]);
    assert!(t.as_rows_full().iter().all(|r| r.search_score == Some(0)));
    assert_eq!(t.max_workspace_name_len(), Some(10));
    assert_eq!(t.max_devcontainer_name_len(), Some(0));
    let empty = TableData::from_iter(vec![]);
    assert_eq!(empty.visible_len(), 0);
    assert_eq!(empty.max_workspace_name_len(), None);
}

#[test]
fn filter_alp_keeps_alpha_rows() {
    let mut t = three();
    let changed = t.apply_filter("alp");
    assert!(changed);
    let rows = t.as_rows_full();
    let shown: Vec<&str> = rows.iter().map(|r| r.entry.workspace_name.as_str()).collect();
    assert_eq!(shown.len(), 2);
    assert!(shown.contains(&"alpha-service"));
    assert!(shown.contains(&"alpha-cli"));
    assert!(!shown.contains(&"beta-tool"));
    assert!(rows[0].search_score.unwrap() >= rows[1].search_score.unwrap());
    assert!(rows[0].search_score.unwrap() > 0);
}

#[test]
fn filter_is_case_insensitive() {
    let mut t = three();
    t.apply_filter("BETA");
    assert_eq!(names(&t), vec!["beta-tool"]);
    t.apply_filter("zzz");
    assert_eq!(t.visible_len(), 0);
}

#[test]
fn filter_then_reset_restores_build_order() {
    let built = three();
    let expected = names(&built);
    let mut t = three();
    t.apply_filter("");
    t.reset_filter();
    assert_eq!(names(&t), expected);
    let mut u = three();
    u.apply_filter("cli");
    u.reset_filter();
    assert_eq!(names(&u), expected);
    assert!(u.as_rows_full().iter().all(|r| r.search_score == Some(0)));
}

#[test]
fn empty_query_hides_nothing() {
    let mut all = three();
    all.apply_filter("");
    assert_eq!(all.visible_len(), 3);
    let mut some = three();
    some.apply_filter("alp");
    let everything = names(&all);
    for name in names(&some) {
        assert!(everything.contains(&name));
    }
    // scores of the empty query are all zero, so nothing changed
    let mut again = three();
    assert!(!again.apply_filter(""));
}

#[test]
fn remove_row_keeps_ranking() {
    let mut t = three();
    let id = t.visible_row(1).id;
    assert!(t.remove_row(id));
    assert_eq!(names(&t), vec!["alpha-service", "alpha-cli"]);
    assert!(!t.remove_row(id));
    assert_eq!(t.visible_position(id), None);
    let first = t.visible_row(0).id;
    assert_eq!(t.visible_position(first), Some(0));
}

#[test]
fn overlong_query_matches_nothing() {
    let mut t = three();
    let long = "a".repeat(MAX_QUERY_LEN + 1);
    assert!(t.apply_filter(&long));
    assert_eq!(t.visible_len(), 0);
    let mut u = three();
    let longest = "a".repeat(MAX_QUERY_LEN);
    u.apply_filter(&longest);
    assert_eq!(u.visible_len(), 0);
    u.reset_filter();
    assert_eq!(u.visible_len(), 3);
}

#[test]
fn unchanged_scores_keep_table() {
    let mut t = three();
    t.apply_filter("alp");
    let before = names(&t);
    assert!(!t.apply_filter("alp"));
    assert_eq!(names(&t), before);
}

#[test]
fn filter_order_depends_on_query_alone() {
    let mut direct = three();
    direct.apply_filter("al");
    let mut after_other = three();
    after_other.apply_filter("cli");
    after_other.apply_filter("al");
    assert_eq!(names(&after_other), names(&direct));
}
