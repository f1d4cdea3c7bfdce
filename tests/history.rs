use vscli::history::{backup_file_name, EntryId, History, Tracker, BACKUP_PROBE_LIMIT, MAX_HISTORY_ENTRIES};
use vscli::record::{Behavior, ContainerStrategy, Entry, Timestamp};

fn behavior(args: &[&str]) -> Behavior {
    Behavior {
        strategy: ContainerStrategy::Detect,
        args: args.iter().map(|a| a.to_string()).collect(),
        command: "code".to_string(),
    }
}

fn entry(name: &str, path: &str, secs: i64) -> Entry {
    Entry {
        workspace_name: name.to_string(),
        dev_container_name: None,
        workspace_path: path.to_string(),
        config_path: None,
        behavior: behavior(&[]),
        last_opened: Timestamp { secs, nanos: 0 },
    }
}

const NINE: i64 = 9 * 3600;
const TEN: i64 = 10 * 3600;

#[test]
fn equality_ignores_names_and_time() {
    let a = entry("one", "/ws/alpha", NINE);
    let mut b = entry("other", "/ws/alpha", TEN);
    b.dev_container_name = Some("box".to_string());
    assert!(a == b);
    let mut c = entry("one", "/ws/alpha", NINE);
    c.behavior.args.push("--verbose".to_string());
    assert!(a != c);
    let mut d = entry("one", "/ws/alpha", NINE);
    d.config_path = Some("/ws/alpha/.devcontainer.json".to_string());
    assert!(a != d);
    assert!(a != entry("one", "/ws/beta", NINE));
}

#[test]
fn compare_orders_by_time_unless_equal() {
    let a = entry("a", "/ws/alpha", NINE);
    let b = entry("b", "/ws/beta", TEN);
    assert_eq!(a.compare(&b), std::cmp::Ordering::Less);
    assert_eq!(b.compare(&a), std::cmp::Ordering::Greater);
    let c = entry("c", "/ws/alpha", TEN);
    assert_eq!(a.compare(&c), std::cmp::Ordering::Equal);
}

#[test]
fn upsert_replaces_same_launch_keeping_id() {
    let mut h = History::new();
    let a = h.insert(entry("A", "/ws/alpha", NINE));
    let id = h.upsert(entry("A", "/ws/alpha", TEN));
    assert_eq!(id, a);
    assert_eq!(h.len(), 1);
    assert_eq!(h.get(a).unwrap().last_opened, Timestamp { secs: TEN, nanos: 0 });
}

#[test]
fn upsert_twice_keeps_one_entry() {
    let mut h = History::new();
    h.insert(entry("other", "/ws/zero", 5));
    let first = h.upsert(entry("first", "/ws/alpha", NINE));
    let second = h.upsert(entry("second", "/ws/alpha", TEN));
    assert_eq!(first, second);
    assert_eq!(h.len(), 2);
    let stored = h.get(second).unwrap();
    assert_eq!(stored.workspace_name, "second");
    assert_eq!(stored.last_opened.secs, TEN);
}

#[test]
fn upsert_of_new_launch_inserts() {
    let mut h = History::new();
    let a = h.upsert(entry("a", "/ws/alpha", NINE));
    let b = h.upsert(entry("b", "/ws/beta", NINE));
    assert_ne!(a, b);
    assert_eq!(h.len(), 2);
}

#[test]
fn insert_never_deduplicates() {
    let mut h = History::new();
    let a = h.insert(entry("a", "/ws/alpha", NINE));
    let b = h.insert(entry("a", "/ws/alpha", NINE));
    assert_ne!(a, b);
    assert_eq!(h.len(), 2);
}

#[test]
fn update_and_delete() {
    let mut h = History::new();
    let a = h.insert(entry("a", "/ws/alpha", NINE));
    let old = h.update(a, entry("b", "/ws/beta", TEN)).unwrap();
    assert_eq!(old.workspace_name, "a");
    assert_eq!(h.get(a).unwrap().workspace_name, "b");
    let removed = h.delete(a).unwrap();
    assert_eq!(removed.workspace_name, "b");
    assert!(h.get(a).is_none());
    assert!(h.delete(a).is_none());
    assert!(h.update(a, entry("c", "/ws/gamma", TEN)).is_none());
    assert_eq!(h.len(), 0);
}

#[test]
fn from_entries_gives_distinct_ids() {
    let h = History::from_entries(vec![entry("a", "/a", 1), entry("b", "/b", 2), entry("c", "/c", 3)]);
    assert_eq!(h.len(), 3);
    let items = h.to_vec();
    assert_eq!(items.len(), 3);
    assert_ne!(items[0].0, items[1].0);
    assert_ne!(items[1].0, items[2].0);
    assert_eq!(h.get(items[1].0).unwrap().workspace_name, "b");
    assert_eq!(items[0].0, EntryId::new(0));
    assert!(!h.ids_exhausted());
}

#[test]
fn store_keeps_most_recent_bounded() {
    let mut entries = Vec::new();
    for i in 0..40i64 {
        entries.push(entry(&format!("w{i}"), &format!("/w{i}"), (i * 7919) % 40));
    }
    let tracker = Tracker { path: "/tmp/history.json".to_string(), history: History::from_entries(entries) };
    let (path, stored) = tracker.into_stored();
    assert_eq!(path, "/tmp/history.json");
    assert_eq!(stored.len(), MAX_HISTORY_ENTRIES);
    for pair in stored.windows(2) {
        assert!(pair[0].last_opened.secs >= pair[1].last_opened.secs);
    }
    // the five oldest (times 0..5) are dropped
    assert!(stored.iter().all(|e| e.last_opened.secs >= 5));
}

#[test]
fn store_of_small_history_keeps_all() {
    let h = History::from_entries(vec![entry("a", "/a", 1), entry("b", "/b", 3), entry("c", "/c", 2)]);
    let stored = h.most_recent(MAX_HISTORY_ENTRIES);
    let names: Vec<&str> = stored.iter().map(|e| e.workspace_name.as_str()).collect();
    assert_eq!(names, vec!["b", "c", "a"]);
    assert!(History::new().most_recent(MAX_HISTORY_ENTRIES).is_empty());
}

#[test]
fn broken_history_gets_free_backup_name() {
    // a file that does not parse: the tracker starts empty and the file moves aside
    let tracker = Tracker { path: "/tmp/h/history.json".to_string(), history: History::new() };
    assert_eq!(tracker.history.len(), 0);
    assert_eq!(backup_file_name(&vec![]), ".history_0.json.bak");
    let taken = vec![".history_0.json.bak".to_string(), "history.json".to_string(), ".history_1.json.bak".to_string()];
    let name = backup_file_name(&taken);
    assert_eq!(name, ".history_2.json.bak");
    assert!(!taken.contains(&name));
}

#[test]
fn backup_name_falls_back_when_all_taken() {
    let taken: Vec<String> = (0..BACKUP_PROBE_LIMIT).map(|i| format!(".history_{i}.json.bak")).collect();
    assert_eq!(backup_file_name(&taken), ".history.json.bak");
}
