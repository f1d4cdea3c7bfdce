use vscli::history::History;
use vscli::record::{Behavior, ContainerStrategy, Entry, Timestamp};
use vscli::selector::{handle_input, AppAction, Flow, InputEvent, Key, UI};

fn entry(name: &str, secs: i64) -> Entry {
    Entry {
        workspace_name: name.to_string(),
        dev_container_name: Some(format!("{name}-box")),
        workspace_path: format!("/w/{secs}"),
        config_path: None,
        behavior: Behavior { strategy: ContainerStrategy::Detect, args: vec![], command: "code".to_string() },
        last_opened: Timestamp { secs, nanos: 0 },
    }
}

fn history() -> History {
    History::from_entries(vec![entry("first", 30), entry("second", 20), entry("third", 10)])
}

fn selected_name(ui: &UI) -> Option<String> {
    ui.get_selected_row().map(|r| r.entry.workspace_name.clone())
}

fn key(code: Key, ctrl: bool) -> InputEvent {
    InputEvent::Key { code, ctrl, pressed: true }
}

#[test]
fn starts_on_most_recent() {
    let ui = UI::new(&history(), false, true);
    assert_eq!(ui.selected(), Some(0));
    assert_eq!(selected_name(&ui), Some("first".to_string()));
    assert!(!ui.hide_instructions());
    assert!(ui.hide_info());
    let empty = UI::new(&History::new(), false, false);
    assert_eq!(empty.selected(), None);
    assert!(empty.get_selected_row().is_none());
}

#[test]
fn navigation_wraps() {
    let mut ui = UI::new(&history(), false, false);
    ui.select_previous();
    assert_eq!(ui.selected(), Some(2));
    ui.select_next();
    assert_eq!(ui.selected(), Some(0));
    ui.select_next();
    assert_eq!(ui.selected(), Some(1));
    ui.select_last();
    assert_eq!(ui.selected(), Some(2));
    ui.select_first();
    assert_eq!(ui.selected(), Some(0));
}

#[test]
fn navigation_on_empty_view_is_noop() {
    let mut ui = UI::new(&History::new(), false, false);
    ui.select_next();
    ui.select_previous();
    ui.select_first();
    ui.select_last();
    assert_eq!(ui.selected(), None);
}

#[test]
fn delete_last_row_clamps_cursor() {
    let mut h = history();
    let mut ui = UI::new(&h, false, false);
    ui.select_last();
    assert_eq!(ui.selected(), Some(2));
    let flow = ui.update(&mut h, AppAction::DeleteSelectedEntry, 0, 20);
    assert_eq!(flow, Flow::Continue);
    assert_eq!(h.len(), 2);
    assert_eq!(ui.table().visible_len(), 2);
    assert_eq!(ui.selected(), Some(1));
    assert_eq!(selected_name(&ui), Some("second".to_string()));
}

#[test]
fn delete_middle_row_shows_next() {
    let mut h = history();
    let mut ui = UI::new(&h, false, false);
    ui.select_next();
    assert_eq!(ui.selected(), Some(1));
    ui.delete_selected(&mut h);
    assert_eq!(ui.selected(), Some(1));
    assert_eq!(selected_name(&ui), Some("third".to_string()));
    ui.delete_selected(&mut h);
    ui.delete_selected(&mut h);
    assert_eq!(ui.selected(), None);
    assert_eq!(h.len(), 0);
    ui.delete_selected(&mut h);
    assert_eq!(h.len(), 0);
}

#[test]
fn filter_reanchors_cursor() {
    let mut ui = UI::new(&history(), false, false);
    ui.select_next();
    ui.select_next();
    assert_eq!(selected_name(&ui), Some("third".to_string()));
    ui.search_changed(Some("thi"));
    assert_eq!(ui.table().visible_len(), 1);
    assert_eq!(ui.selected(), Some(0));
    assert_eq!(selected_name(&ui), Some("third".to_string()));
    ui.apply_filter(Some("   "));
    assert_eq!(ui.table().visible_len(), 3);
    assert_eq!(selected_name(&ui), Some("third".to_string()));
    ui.apply_filter(Some("sec"));
    assert_eq!(selected_name(&ui), Some("second".to_string()));
    ui.apply_filter(Some("qqq"));
    assert_eq!(ui.selected(), None);
    ui.apply_filter(None);
    assert_eq!(ui.table().visible_len(), 3);
    assert_eq!(ui.selected(), Some(0));
    ui.reset_filter();
    assert_eq!(ui.selected(), Some(0));
}

#[test]
fn click_selects_then_opens() {
    let mut h = history();
    let mut ui = UI::new(&h, false, false);
    // the table's rows start two lines below the frame top
    assert_eq!(ui.click(3, 0, 20), None);
    assert_eq!(ui.selected(), Some(1));
    let opened = ui.click(3, 0, 20);
    assert_eq!(opened, Some(ui.get_selected_row().unwrap().id));
    assert_eq!(ui.click(1, 0, 20), None);
    assert_eq!(ui.click(10, 0, 20), None);
    assert_eq!(ui.selected(), Some(1));
    let flow = ui.update(&mut h, AppAction::TableClick(4), 0, 20);
    assert_eq!(flow, Flow::Continue);
    assert_eq!(ui.selected(), Some(2));
}

#[test]
fn open_and_quit() {
    let mut h = history();
    let mut ui = UI::new(&h, false, false);
    let first = ui.get_selected_row().unwrap().id;
    assert_eq!(ui.update(&mut h, AppAction::OpenSelected, 0, 20), Flow::Exit(Some(first)));
    assert_eq!(ui.update(&mut h, AppAction::Quit, 0, 20), Flow::Exit(None));
    assert_eq!(ui.update(&mut h, AppAction::SelectNext, 0, 20), Flow::Continue);
    assert_eq!(ui.selected(), Some(1));
    assert_eq!(ui.update(&mut h, AppAction::SearchInput, 0, 20), Flow::Continue);
    let mut empty_history = History::new();
    let mut empty = UI::new(&empty_history, false, false);
    assert_eq!(empty.update(&mut empty_history, AppAction::OpenSelected, 0, 20), Flow::Continue);
}

#[test]
fn resync_rebuilds_from_history() {
    let mut h = history();
    let mut ui = UI::new(&h, false, false);
    let id = ui.get_selected_row().unwrap().id;
    h.delete(id);
    ui.resync_table(&h);
    assert_eq!(ui.table().visible_len(), 2);
    assert_eq!(ui.selected(), Some(0));
    assert_eq!(selected_name(&ui), Some("second".to_string()));
    assert!(!ui.delete(id));
}

#[test]
fn input_mapping() {
    assert_eq!(handle_input(&key(Key::Esc, false)), Some(AppAction::Quit));
    assert_eq!(handle_input(&key(Key::Char('c'), true)), Some(AppAction::Quit));
    assert_eq!(handle_input(&key(Key::Char('c'), false)), Some(AppAction::SearchInput));
    assert_eq!(handle_input(&key(Key::Char('j'), true)), Some(AppAction::SelectNext));
    assert_eq!(handle_input(&key(Key::Up, false)), Some(AppAction::SelectPrevious));
    assert_eq!(handle_input(&key(Key::Char('1'), true)), Some(AppAction::SelectFirst));
    assert_eq!(handle_input(&key(Key::End, false)), Some(AppAction::SelectLast));
    assert_eq!(handle_input(&key(Key::Enter, false)), Some(AppAction::OpenSelected));
    assert_eq!(handle_input(&key(Key::Char('x'), true)), Some(AppAction::DeleteSelectedEntry));
    assert_eq!(handle_input(&key(Key::Delete, false)), Some(AppAction::DeleteSelectedEntry));
    assert_eq!(
        handle_input(&InputEvent::Key { code: Key::Esc, ctrl: false, pressed: false }),
        None
    );
    assert_eq!(handle_input(&InputEvent::LeftClick(7)), Some(AppAction::TableClick(7)));
    assert_eq!(handle_input(&InputEvent::ScrollDown), Some(AppAction::SelectNext));
    assert_eq!(handle_input(&InputEvent::ScrollUp), Some(AppAction::SelectPrevious));
    assert_eq!(handle_input(&InputEvent::OtherMouse), Some(AppAction::SearchInput));
    assert_eq!(handle_input(&InputEvent::Other), Some(AppAction::SearchInput));
}

#[test]
fn unicode_blank_query_resets() {
    let mut ui = UI::new(&history(), false, false);
    ui.apply_filter(Some("thi"));
    assert_eq!(ui.table().visible_len(), 1);
    ui.apply_filter(Some("\u{3000}\t\u{2003}"));
    assert_eq!(ui.table().visible_len(), 3);
    assert_eq!(selected_name(&ui), Some("third".to_string()));
}

#[test]
fn unchanged_filter_keeps_cursor() {
    let mut ui = UI::new(&history(), false, false);
    ui.apply_filter(Some("d"));
    ui.select_last();
    let before = ui.selected();
    ui.apply_filter(Some("d"));
    assert_eq!(ui.selected(), before);
}
