use map_info::app::content_layout::{
    codes_dialog_height, duplicates_rows, hint_for, measure_mission, mission_display_text,
    DialogRow, Hint, TooManyLines,
};
use map_info::app::content_state::ContentState;
use map_info::app::list_layout::{
    highlight_matches, lines_in, measure_list, position_label, selected_item_name, Segment,
};
use map_info::app::list_state::FileListState;
use map_info::app::screen::{FilterMode, Screen};
use map_info::is_vpk_file_name;

fn seg(start: usize, end: usize, matched: bool) -> Segment {
    Segment { start, end, matched }
}

#[test]
fn lines_counted_as_str_lines_does() {
    assert_eq!(lines_in(""), 0);
    assert_eq!(lines_in("a"), 1);
    assert_eq!(lines_in("a\n"), 1);
    assert_eq!(lines_in("a\nb"), 2);
    assert_eq!(lines_in("a\n\n"), 2);
    assert_eq!(lines_in("\n"), 1);
    for s in ["x\r\ny", "one\ntwo\nthree\n", "\n\n\n"] {
        assert_eq!(lines_in(s), s.lines().count());
    }
}

#[test]
fn list_measured_with_wrapped_names() {
    let mut list = FileListState::default();
    list.select(Some(1));
    let items = vec!["hello world".to_string(), "abc".to_string()];
    // 8 columns less border and marker: wrapped at 5
    let wrapped = measure_list(&mut list, &items, 8, 12);
    assert_eq!(wrapped, vec![textwrap::fill("hello world", 5), "abc".to_string()]);
    assert_eq!(wrapped[0], "hello\nworld");
    assert_eq!(list.line_counts, vec![2, 1]);
    assert_eq!(list.area_height, 10);
    assert_eq!(list.selected(), Some(1));
    let wrapped = measure_list(&mut list, &items, 2, 1);
    assert_eq!(wrapped.len(), 2);
    assert_eq!(list.area_height, 0);
}

#[test]
fn list_title_position() {
    assert_eq!(position_label(None, 5), 0);
    assert_eq!(position_label(Some(0), 5), 1);
    assert_eq!(position_label(Some(4), 5), 5);
    assert_eq!(position_label(Some(9), 5), 5);
}

#[test]
fn list_selected_name() {
    let items = vec!["a.vpk".to_string(), "b.vpk".to_string()];
    assert_eq!(selected_item_name(&items, Some(1)), Some("b.vpk".to_string()));
    assert_eq!(selected_item_name(&items, None), None);
}

#[test]
fn highlight_case_blind_occurrences() {
    assert_eq!(
        highlight_matches("Hello World", "o"),
        vec![seg(0, 4, false), seg(4, 5, true), seg(5, 7, false), seg(7, 8, true), seg(8, 11, false)]
    );
    assert_eq!(highlight_matches("ABab", "ab"), vec![seg(0, 2, true), seg(2, 4, true)]);
    assert_eq!(highlight_matches("c1m1_hotel", "M1"), vec![seg(0, 2, false), seg(2, 4, true), seg(4, 10, false)]);
    assert_eq!(highlight_matches("abc", "x"), vec![seg(0, 3, false)]);
}

#[test]
fn highlight_empty_filter_or_name() {
    assert_eq!(highlight_matches("abc", ""), vec![seg(0, 3, false)]);
    assert_eq!(highlight_matches("", "x"), vec![seg(0, 0, false)]);
}

#[test]
fn mission_tabs_become_spaces() {
    assert_eq!(mission_display_text("a\tb"), "a    b");
    assert_eq!(mission_display_text("\t\"Map\"\t\"c1\""), "    \"Map\"    \"c1\"");
    assert_eq!(mission_display_text("plain"), "plain");
}

#[test]
fn mission_measured() {
    let mut c = ContentState { scroll_offset: 3, line_count: 0, area_height: 0 };
    assert_eq!(measure_mission(&mut c, "ab\ncd\nef", 10, 7), Ok(()));
    assert_eq!(c.line_count, 3);
    assert_eq!(c.area_height, 7);
    assert_eq!(c.scroll_offset, 3);
    assert_eq!(measure_mission(&mut c, "ab\ncd", 0, 4), Ok(()));
    assert_eq!(c.line_count, 0);
}

#[test]
fn mission_of_too_many_lines_refused() {
    let text = "x\n".repeat(70000);
    let mut c = ContentState { scroll_offset: 1, line_count: 2, area_height: 3 };
    assert_eq!(measure_mission(&mut c, &text, 10, 7), Err(TooManyLines { lines: 70000 }));
    assert_eq!((c.scroll_offset, c.line_count, c.area_height), (1, 2, 3));
}

#[test]
fn scroll_percentage_in_title() {
    let c = ContentState { scroll_offset: 0, line_count: 100, area_height: 10 };
    assert_eq!(c.scroll_percentage(), 10);
    let c = ContentState { scroll_offset: 45, line_count: 100, area_height: 10 };
    assert_eq!(c.scroll_percentage(), 55);
    let c = ContentState { scroll_offset: 95, line_count: 100, area_height: 10 };
    assert_eq!(c.scroll_percentage(), 100);
    let c = ContentState { scroll_offset: 0, line_count: 0, area_height: 10 };
    assert_eq!(c.scroll_percentage(), 100);
}

#[test]
fn duplicates_dialog_rows() {
    let groups = vec![
        vec!["a.vpk".to_string(), "b.vpk".to_string()],
        vec!["c.vpk".to_string(), "d.vpk".to_string()],
    ];
    let rows: Vec<String> = duplicates_rows(&groups)
        .into_iter()
        .map(|r| match r {
            DialogRow::Blank => String::new(),
            DialogRow::GroupHeading(n) => format!("#{}", n),
            DialogRow::File(f) => f,
        })
        .collect();
    assert_eq!(rows, vec!["#1", "a.vpk", "b.vpk", "", "#2", "c.vpk", "d.vpk"]);
    assert!(duplicates_rows(&Vec::new()).is_empty());
}

#[test]
fn codes_dialog_heights() {
    assert_eq!(codes_dialog_height(1), 3);
    assert_eq!(codes_dialog_height(18), 20);
    assert_eq!(codes_dialog_height(30), 20);
}

#[test]
fn status_bar_hints() {
    assert_eq!(hint_for(Screen::Duplicates, true), Hint::Dialog);
    assert_eq!(hint_for(Screen::Filter(FilterMode::MapName), false), Hint::Dialog);
    assert_eq!(hint_for(Screen::MapCodes, true), Hint::Dialog);
    assert_eq!(hint_for(Screen::FileList, false), Hint::Filtering);
    assert_eq!(hint_for(Screen::Content, true), Hint::Browsing);
}

#[test]
fn vpk_file_names() {
    assert!(is_vpk_file_name("a.vpk"));
    assert!(is_vpk_file_name("..vpk"));
    assert!(is_vpk_file_name("my addon.vpk"));
    assert!(!is_vpk_file_name(".vpk"));
    assert!(!is_vpk_file_name("a.VPK"));
    assert!(!is_vpk_file_name("a.vpk.bak"));
    assert!(!is_vpk_file_name("vpk"));
    for name in ["a.vpk", "..vpk", ".vpk", "a.VPK", "x.vpkx", "b.txt"] {
        let by_path = std::path::Path::new(name).extension().unwrap_or_default() == "vpk";
        assert_eq!(is_vpk_file_name(name), by_path, "{}", name);
    }
}
