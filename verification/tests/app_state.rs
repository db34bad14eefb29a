use map_info::app::content_state::ContentState;
use map_info::app::event_handler::{handle_events, Action, AppState, Key, KeyInput};
use map_info::app::filter_state::FilterState;
use map_info::app::list_state::{FileListState, ListState};
use map_info::app::screen::{FilterMode, Screen};
use indexmap::IndexMap;
use map_info::app::sort_state::{FileTimes, SortField, SortState};
use std::cmp::Ordering;
use std::path::PathBuf;

fn content(scroll: u16, lines: u16, height: u16) -> ContentState {
    ContentState { scroll_offset: scroll, line_count: lines, area_height: height }
}

#[test]
fn content_scroll_up_stops_at_top() {
    let mut c = content(0, 100, 10);
    c.scroll_up();
    assert_eq!(c.scroll_offset, 0);
    let mut c = content(5, 100, 10);
    c.scroll_up();
    assert_eq!(c.scroll_offset, 4);
}

#[test]
fn content_scroll_down_until_past_end() {
    let mut c = content(89, 100, 10);
    c.scroll_down();
    assert_eq!(c.scroll_offset, 90);
    c.scroll_down();
    assert_eq!(c.scroll_offset, 91);
    c.scroll_down();
    assert_eq!(c.scroll_offset, 91);
}

#[test]
fn content_page_down_stops_at_bottom() {
    let mut c = content(0, 100, 10);
    c.scroll_page_down();
    assert_eq!(c.scroll_offset, 10);
    let mut c = content(85, 100, 10);
    c.scroll_page_down();
    assert_eq!(c.scroll_offset, 91);
    c.scroll_to_bottom();
    assert_eq!(c.scroll_offset, 91);
    c.scroll_page_up();
    assert_eq!(c.scroll_offset, 81);
    c.scroll_to_top();
    assert_eq!(c.scroll_offset, 0);
}

#[test]
fn content_bottom_of_short_text() {
    let mut c = content(0, 3, 10);
    c.scroll_to_bottom();
    assert_eq!(c.scroll_offset, 1);
    c.reset();
    assert_eq!((c.scroll_offset, c.line_count, c.area_height), (0, 0, 0));
}

#[test]
fn content_scroll_up_undoes_scroll_down() {
    let mut c = content(7, 100, 10);
    c.scroll_down();
    c.scroll_up();
    assert_eq!(c.scroll_offset, 7);
}

fn file_list(offset: usize, counts: Vec<u16>, height: u16) -> FileListState {
    FileListState {
        selected: ListState { offset, selected: Some(offset) },
        line_counts: counts,
        area_height: height,
    }
}

#[test]
fn list_page_down_moves_past_visible_items() {
    let mut l = file_list(0, vec![1, 2, 1, 3, 1, 1], 4);
    l.page_down();
    assert_eq!(l.offset(), 3);
    assert_eq!(l.selected(), Some(3));
}

#[test]
fn list_page_down_on_last_page_does_nothing() {
    let mut l = file_list(3, vec![1, 2, 1, 3, 1], 5);
    l.page_down();
    assert_eq!(l.offset(), 3);
    assert_eq!(l.selected(), Some(3));
}

#[test]
fn list_page_up_fills_a_page_before() {
    let mut l = file_list(5, vec![1, 2, 1, 3, 1, 1], 4);
    l.page_up();
    assert_eq!(l.offset(), 3);
    assert_eq!(l.selected(), Some(3));
    let mut l = file_list(0, vec![1, 1], 4);
    l.page_up();
    assert_eq!(l.offset(), 0);
}

#[test]
fn list_state_selection_moves() {
    let mut s = ListState::default();
    s.select_next();
    assert_eq!(s.selected(), Some(0));
    s.select_next();
    assert_eq!(s.selected(), Some(1));
    s.select_previous();
    s.select_previous();
    assert_eq!(s.selected(), Some(0));
    let mut t = ListState::default();
    t.select_previous();
    assert_eq!(t.selected(), Some(usize::MAX));
    t.offset = 4;
    t.select(None);
    assert_eq!((t.selected(), t.offset()), (None, 0));
}

#[test]
fn sort_toggles() {
    let mut s = SortState::default();
    assert_eq!(s.field, SortField::CreatedAt);
    assert!(!s.ascending);
    s.toggle_field();
    assert_eq!(s.field, SortField::ModifiedAt);
    s.toggle_field();
    assert_eq!(s.field, SortField::CreatedAt);
    s.toggle_order();
    assert!(s.ascending);
}

fn listed(names: &[&str]) -> IndexMap<String, PathBuf> {
    names.iter().map(|n| (n.to_string(), PathBuf::from(format!("/addons/{}", n)))).collect()
}

fn times(entries: &[(&str, i128)]) -> FileTimes {
    FileTimes { entries: entries.iter().map(|(n, t)| (n.to_string(), *t)).collect() }
}

fn names(m: &IndexMap<String, PathBuf>) -> Vec<&str> {
    m.keys().map(|k| k.as_str()).collect()
}

#[test]
fn sort_newest_created_first_and_stable() {
    let mut files = listed(&["a", "b", "c", "d"]);
    let created = times(&[("a", 5), ("b", 9), ("d", 5)]);
    let modified = times(&[]);
    SortState::default().apply_to(&mut files, &created, &modified);
    assert_eq!(names(&files), vec!["b", "a", "d", "c"]);
    assert_eq!(files["b"], PathBuf::from("/addons/b"));
}

#[test]
fn sort_oldest_modified_first() {
    let mut files = listed(&["a", "b", "c", "d"]);
    let created = times(&[("a", 100)]);
    let modified = times(&[("a", 3), ("b", -2), ("d", 3)]);
    let s = SortState { field: SortField::ModifiedAt, ascending: true };
    s.apply_to(&mut files, &created, &modified);
    assert_eq!(names(&files), vec!["b", "c", "a", "d"]);
    s.apply_to(&mut files, &created, &modified);
    assert_eq!(names(&files), vec!["b", "c", "a", "d"]);
}

#[test]
fn file_times_lookup() {
    let t = times(&[("a", 7), ("b", -1)]);
    assert_eq!(t.lookup(&"a".to_string()), 7);
    assert_eq!(t.lookup(&"b".to_string()), -1);
    assert_eq!(t.lookup(&"z".to_string()), 0);
}

#[test]
fn files_compared_by_time() {
    let created = times(&[("a", 1), ("b", 2)]);
    let modified = times(&[("a", 9)]);
    let (a, b) = ("a".to_string(), "b".to_string());
    let s = SortState { field: SortField::CreatedAt, ascending: true };
    assert_eq!(s.compare_names(&created, &modified, &a, &b), Ordering::Less);
    let s = SortState { field: SortField::CreatedAt, ascending: false };
    assert_eq!(s.compare_names(&created, &modified, &a, &b), Ordering::Greater);
    let s = SortState { field: SortField::ModifiedAt, ascending: true };
    assert_eq!(s.compare_names(&created, &modified, &a, &b), Ordering::Greater);
    assert_eq!(s.compare_names(&created, &modified, &b, &b), Ordering::Equal);
}

fn app_state() -> AppState {
    AppState {
        screen: Screen::FileList,
        filter: FilterState::default(),
        list: FileListState::default(),
        content: ContentState::default(),
        sort: SortState::default(),
        duplicate_list: ListState::default(),
        map_codes_list: ListState::default(),
        list_layout_percentage: 30,
        selected_file_name: Some("a.vpk".to_string()),
        exit: false,
    }
}

fn key(code: Key) -> KeyInput {
    KeyInput { code, ctrl: false }
}

fn ctrl(code: Key) -> KeyInput {
    KeyInput { code, ctrl: true }
}

#[test]
fn events_filter_typing_and_clearing() {
    let mut app = app_state();
    assert_eq!(handle_events(&mut app, key(Key::Char('s'))), Action::Nothing);
    assert_eq!(app.screen, Screen::Filter(FilterMode::FileName));
    handle_events(&mut app, key(Key::Char('c')));
    handle_events(&mut app, key(Key::Char('1')));
    assert_eq!(app.filter.input, "c1");
    handle_events(&mut app, key(Key::Backspace));
    assert_eq!(app.filter.input, "c");
    assert_eq!(handle_events(&mut app, ctrl(Key::Char('x'))), Action::FilterCleared);
    assert_eq!(app.filter.input, "");
    assert_eq!(app.filter.mode, FilterMode::FileName);
    handle_events(&mut app, key(Key::Enter));
    assert_eq!(app.screen, Screen::FileList);
}

#[test]
fn events_list_commands() {
    let mut app = app_state();
    assert_eq!(handle_events(&mut app, key(Key::Char('d'))), Action::FindDuplicates);
    assert_eq!(app.screen, Screen::Duplicates);
    handle_events(&mut app, key(Key::Esc));
    assert_eq!(app.screen, Screen::FileList);
    assert_eq!(handle_events(&mut app, key(Key::Char('t'))), Action::SortFiles);
    assert_eq!(app.sort.field, SortField::ModifiedAt);
    assert_eq!(handle_events(&mut app, key(Key::Char('r'))), Action::SortFiles);
    assert!(app.sort.ascending);
    handle_events(&mut app, key(Key::Char('f')));
    assert_eq!(app.screen, Screen::MapCodes);
    assert_eq!(handle_events(&mut app, key(Key::Enter)), Action::CopyMapCode(0));
    assert_eq!(app.screen, Screen::FileList);
    assert_eq!(app.selected_file_name, Some("a.vpk".to_string()));
    handle_events(&mut app, key(Key::Right));
    assert_eq!(app.screen, Screen::Content);
    handle_events(&mut app, key(Key::Left));
    assert_eq!(app.screen, Screen::FileList);
    handle_events(&mut app, key(Key::Char('q')));
    assert!(app.exit);
}

#[test]
fn events_sort_keys_ignored_while_filtering() {
    let mut app = app_state();
    app.filter.input = "x".to_string();
    assert_eq!(handle_events(&mut app, key(Key::Char('t'))), Action::Nothing);
    assert_eq!(app.sort.field, SortField::CreatedAt);
}

#[test]
fn events_layout_resize_is_bounded() {
    let mut app = app_state();
    app.list_layout_percentage = 11;
    handle_events(&mut app, ctrl(Key::Left));
    handle_events(&mut app, ctrl(Key::Left));
    assert_eq!(app.list_layout_percentage, 10);
    app.list_layout_percentage = 79;
    handle_events(&mut app, ctrl(Key::Right));
    handle_events(&mut app, ctrl(Key::Right));
    assert_eq!(app.list_layout_percentage, 80);
    handle_events(&mut app, ctrl(Key::Char('c')));
    assert!(app.exit);
}
