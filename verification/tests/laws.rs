use map_info::app::content_state::ContentState;
use map_info::app::event_handler::{handle_events, Action, AppState, Key, KeyInput};
use map_info::app::list_state::ListState;
use map_info::app::screen::{FilterMode, Screen};
use indexmap::IndexMap;
use map_info::app::sort_state::{FileTimes, SortField, SortState};
use std::path::PathBuf;
use map_info::mission::{parse_coop_maps, vpk_coop_maps};
use map_info::vpk::{VPKInfo, VpkError};

fn key(code: Key) -> KeyInput {
    KeyInput { code, ctrl: false }
}

fn ctrl(code: Key) -> KeyInput {
    KeyInput { code, ctrl: true }
}

#[test]
fn law_comment_line_is_skipped() {
    let rest = "\"modes\" { \"coop\" { \"Map\" \"c3m1_plankcountry\" } }";
    let with_comment = format!("// \"modes\" {{ \"coop\" {{ \"Map\" \"fake\" }} }}\n{}", rest);
    assert_eq!(parse_coop_maps(&with_comment), parse_coop_maps(rest));
    assert_eq!(parse_coop_maps(rest), vec!["c3m1_plankcountry"]);
}

#[test]
fn law_no_modes_or_coop_no_maps() {
    assert!(parse_coop_maps("\"coop\" { \"Map\" \"c1m1_hotel\" }").is_empty());
    assert!(parse_coop_maps("\"modes\" { \"versus\" { \"Map\" \"c1m1_hotel\" } }").is_empty());
}

#[test]
fn law_reported_code_follows_map_key() {
    let raw = "\"modes\" { \"coop\" { \"1\" { \"Map\" \"a1\" \"DisplayName\" \"x\" } \"2\" { \"Map\" \"a2\" } } }";
    let maps = parse_coop_maps(raw);
    assert_eq!(maps, vec!["a1", "a2"]);
    for m in &maps {
        assert!(raw.contains(&format!("\"Map\" \"{}\"", m)));
    }
}

/// The bytes of a VPK file that lists `missions/<name>.txt` with `text`
/// stored right after the tree.
fn single_mission_vpk(name: &[u8], text: &[u8]) -> Vec<u8> {
    let mut tree = Vec::new();
    tree.extend_from_slice(b"txt\0missions\0");
    tree.extend_from_slice(name);
    tree.push(0);
    tree.extend_from_slice(&0u32.to_le_bytes());
    tree.extend_from_slice(&0u16.to_le_bytes());
    tree.extend_from_slice(&0x7FFFu16.to_le_bytes());
    tree.extend_from_slice(&0u32.to_le_bytes());
    tree.extend_from_slice(&(text.len() as u32).to_le_bytes());
    tree.extend_from_slice(&0xFFFFu16.to_le_bytes());
    tree.extend_from_slice(&[0, 0, 0]);
    let mut out = Vec::new();
    out.extend_from_slice(&0x55AA1234u32.to_le_bytes());
    out.extend_from_slice(&1u32.to_le_bytes());
    out.extend_from_slice(&(tree.len() as u32).to_le_bytes());
    out.extend_from_slice(&tree);
    out.extend_from_slice(text);
    out
}

#[test]
fn law_single_mission_vpk_reads_back() {
    let text = b"\"mission\"\n{\n\t\"modes\" { \"coop\" { \"1\" { \"Map\" \"c8m1_apartment\" } } }\n}";
    let data = single_mission_vpk(b"l4d2_campaign", text);
    let info = VPKInfo::new(&data).unwrap();
    assert_eq!(info.get_mission().unwrap(), String::from_utf8_lossy(text));
    assert_eq!(info.get_addoninfo().unwrap_err(), VpkError::NoAddonInfo);
    assert_eq!(vpk_coop_maps(&data), vec!["c8m1_apartment"]);
    let empty = single_mission_vpk(b"x", b"");
    assert_eq!(VPKInfo::new(&empty).unwrap().get_mission().unwrap(), "");
}

#[test]
fn law_header_checked() {
    let mut data = single_mission_vpk(b"a", b"x");
    data[0] = 0;
    assert_eq!(VPKInfo::new(&data).unwrap_err(), VpkError::BadSignature(0x55AA1200));
    let mut data = single_mission_vpk(b"a", b"x");
    data[4] = 2;
    assert_eq!(VPKInfo::new(&data).unwrap_err(), VpkError::UnsupportedVersion(2));
    assert!(vpk_coop_maps(&data).is_empty());
}

#[test]
fn law_scroll_down_then_up_restores() {
    let start = ContentState { scroll_offset: 4, line_count: 40, area_height: 10 };
    let mut c = ContentState { ..start };
    c.scroll_down();
    assert_eq!(c.scroll_offset, 5);
    c.scroll_up();
    assert_eq!((c.scroll_offset, c.line_count, c.area_height), (4, 40, 10));
}

#[test]
fn law_page_down_then_up_restores() {
    let mut c = ContentState { scroll_offset: 3, line_count: 40, area_height: 10 };
    c.scroll_page_down();
    assert_eq!(c.scroll_offset, 13);
    c.scroll_page_up();
    assert_eq!(c.scroll_offset, 3);
}

#[test]
fn law_scrolling_stays_within_text() {
    let mut c = ContentState { scroll_offset: 28, line_count: 40, area_height: 10 };
    for _ in 0..5 {
        c.scroll_page_down();
        c.scroll_down();
        assert!(c.scroll_offset <= 31);
    }
    c.scroll_to_bottom();
    assert_eq!(c.scroll_offset, 31);
}

#[test]
fn law_next_then_previous_restores() {
    let mut ls = ListState { offset: 2, selected: Some(5) };
    ls.select_next();
    assert_eq!(ls.selected, Some(6));
    ls.select_previous();
    assert_eq!(ls, ListState { offset: 2, selected: Some(5) });
    ls.select_previous();
    ls.select_next();
    assert_eq!(ls, ListState { offset: 2, selected: Some(5) });
}

#[test]
fn law_ctrl_c_quits_everywhere() {
    for screen in [
        Screen::FileList,
        Screen::Content,
        Screen::Filter(FilterMode::MapName),
        Screen::Duplicates,
        Screen::MapCodes,
    ] {
        let mut app = AppState::new();
        app.screen = screen;
        assert_eq!(handle_events(&mut app, ctrl(Key::Char('c'))), Action::Nothing);
        assert!(app.exit);
        assert_eq!(app.screen, screen);
        handle_events(&mut app, key(Key::Esc));
        handle_events(&mut app, key(Key::Char('x')));
        assert!(app.exit);
    }
}

#[test]
fn law_layout_border_stays_in_bounds() {
    let mut app = AppState::new();
    assert_eq!(app.list_layout_percentage, 30);
    for _ in 0..100 {
        handle_events(&mut app, ctrl(Key::Left));
        assert!((10..=80).contains(&app.list_layout_percentage));
    }
    assert_eq!(app.list_layout_percentage, 10);
    for _ in 0..100 {
        handle_events(&mut app, ctrl(Key::Right));
        assert!((10..=80).contains(&app.list_layout_percentage));
    }
    assert_eq!(app.list_layout_percentage, 80);
}

#[test]
fn law_type_then_backspace_restores_filter() {
    let mut app = AppState::new();
    handle_events(&mut app, key(Key::Char('c')));
    assert_eq!(app.screen, Screen::Filter(FilterMode::MapName));
    handle_events(&mut app, key(Key::Char('m')));
    let before = app.filter.input.clone();
    handle_events(&mut app, key(Key::Char('q')));
    assert_eq!(app.filter.input, "mq");
    handle_events(&mut app, key(Key::Backspace));
    assert_eq!(app.filter.input, before);
    assert_eq!(app.screen, Screen::Filter(FilterMode::MapName));
    assert!(!app.exit);
}

#[test]
fn law_ctrl_x_clears_filter_anywhere() {
    let mut app = AppState::new();
    handle_events(&mut app, key(Key::Char('c')));
    handle_events(&mut app, key(Key::Char('a')));
    assert_eq!(handle_events(&mut app, ctrl(Key::Char('x'))), Action::FilterCleared);
    assert_eq!(app.filter.input, "");
    assert_eq!(app.filter.mode, FilterMode::FileName);
    assert_eq!(app.screen, Screen::Filter(FilterMode::MapName));
}

#[test]
fn app_state_at_start() {
    let app = AppState::new();
    assert_eq!(app.screen, Screen::FileList);
    assert_eq!(app.list.selected(), Some(0));
    assert_eq!(app.sort.field, SortField::CreatedAt);
    assert!(!app.sort.ascending);
    assert_eq!(app.selected_file_name, None);
    assert!(!app.exit);
}

#[test]
fn law_sorting_is_determined_and_idempotent() {
    let created = FileTimes {
        entries: vec![("a".to_string(), 3), ("b".to_string(), 1), ("c".to_string(), 3)],
    };
    let modified = FileTimes { entries: vec![] };
    let s = SortState { field: SortField::CreatedAt, ascending: false };
    let mut one: IndexMap<String, PathBuf> =
        ["b", "a", "c"].iter().map(|n| (n.to_string(), PathBuf::from(n))).collect();
    let mut two: IndexMap<String, PathBuf> =
        ["b", "a", "c"].iter().map(|n| (n.to_string(), PathBuf::from(n))).collect();
    s.apply_to(&mut one, &created, &modified);
    s.apply_to(&mut two, &created, &modified);
    s.apply_to(&mut two, &created, &modified);
    let keys = |m: &IndexMap<String, PathBuf>| m.keys().cloned().collect::<Vec<_>>();
    assert_eq!(keys(&one), vec!["a", "c", "b"]);
    assert_eq!(keys(&one), keys(&two));
}

#[test]
fn law_separators_only_separate() {
    let text = "\"modes\" { \"coop\" { \"Map\" \"c5m1_waterfront\" } }";
    for prefix in [" ", "\t", "\n", "\r\n", "x"] {
        assert_eq!(parse_coop_maps(&format!("{}{}", prefix, text)), parse_coop_maps(text));
    }
    assert_eq!(
        parse_coop_maps("\"modes\"\n{\n\t\"coop\"\n\t{\n\t\t\"Map\"\t\"c5m1_waterfront\"\n\t}\n}"),
        parse_coop_maps(text)
    );
}

#[test]
fn law_enter_and_esc_close_dialogs() {
    for screen in [Screen::Filter(FilterMode::FileName), Screen::Duplicates, Screen::MapCodes] {
        for code in [Key::Enter, Key::Esc] {
            let mut app = AppState::new();
            app.screen = screen;
            app.map_codes_list.select(Some(2));
            let action = handle_events(&mut app, key(code));
            assert_eq!(app.screen, Screen::FileList);
            let copies = screen == Screen::MapCodes && code == Key::Enter;
            assert_eq!(action, if copies { Action::CopyMapCode(2) } else { Action::Nothing });
        }
    }
}

#[test]
fn law_map_codes_are_quoted_text() {
    let raw = "\"modes\" { \"coop\" { \"Map\" \"c2m1 highway\" \"Map\" \"c2m2\" } }";
    for m in parse_coop_maps(raw) {
        assert!(!m.contains('"'));
        assert!(raw.contains(&format!("\"{}", m)));
    }
    assert!(parse_coop_maps(raw).len() <= raw.matches("\"Map\"").count());
}
