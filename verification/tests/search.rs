use std::collections::VecDeque;

use map_info::app::event_handler::Key;
use map_info::search::{
    build_code_map, choose_search_mode, decode_captures, duplicate_code_groups, extract_coop_maps,
    format_hash_set, keep_listed, page_fits, page_size_for, print_groups, join_with_commas,
    split_at_commas, files_with_codes, cache_needs_scan, page_rows, CodeMap, FileCodes, Mode1State, Mode2State, ModeChoice, PageRow,
    SearchAction,
};

fn strings(v: &[&str]) -> Vec<String> {
    v.iter().map(|s| s.to_string()).collect()
}

fn mode1(matched: Option<Vec<String>>) -> Mode1State {
    Mode1State {
        input_buffer: VecDeque::new(),
        selected_index: -1,
        matched_file_list: matched,
        page_offset: 0,
        page_size: 2,
    }
}

fn opened(a: SearchAction) -> String {
    match a {
        SearchAction::Open(s) => s,
        other => panic!("expected Open, got {:?}", other),
    }
}

#[test]
fn mode1_typing_and_enter() {
    let mut s = mode1(None);
    assert!(matches!(s.handle_key_event(Key::Enter), SearchAction::EmptyInput));
    assert!(matches!(s.handle_key_event(Key::Char('a')), SearchAction::Render));
    s.handle_key_event(Key::Char('b'));
    assert_eq!(opened(s.handle_key_event(Key::Enter)), "ab");
    assert!(matches!(s.handle_key_event(Key::Backspace), SearchAction::Render));
    s.handle_key_event(Key::Backspace);
    assert!(matches!(s.handle_key_event(Key::Backspace), SearchAction::Nothing));
}

#[test]
fn mode1_selection_and_paging() {
    let mut s = mode1(Some(strings(&["x.vpk", "y.vpk", "z.vpk"])));
    assert!(matches!(s.handle_key_event(Key::Down), SearchAction::Render));
    assert_eq!(s.selected_index, 0);
    s.handle_key_event(Key::Down);
    s.handle_key_event(Key::Down);
    assert_eq!(s.selected_index, 2);
    assert_eq!(s.page_offset, 1);
    assert!(matches!(s.handle_key_event(Key::Down), SearchAction::Nothing));
    assert_eq!(s.selected_index, 2);
    assert_eq!(opened(s.handle_key_event(Key::Enter)), "z.vpk");
    s.handle_key_event(Key::Up);
    s.handle_key_event(Key::Up);
    assert_eq!(s.selected_index, 0);
    assert_eq!(s.page_offset, 0);
    s.handle_key_event(Key::Up);
    assert_eq!(s.selected_index, -1);
    assert!(matches!(s.handle_key_event(Key::Up), SearchAction::Nothing));
}

#[test]
fn mode1_tab_completes() {
    let mut s = mode1(Some(strings(&["x.vpk", "y.vpk"])));
    s.handle_key_event(Key::Down);
    s.handle_key_event(Key::Down);
    assert!(matches!(s.handle_key_event(Key::Tab), SearchAction::Render));
    assert_eq!(s.input_buffer.iter().collect::<String>(), "y.vpk");
    assert_eq!(s.selected_index, -1);
}

fn code_map() -> CodeMap {
    build_code_map(&vec![
        FileCodes { name: "a.vpk".into(), codes: strings(&["c1m1", "c1m2"]) },
        FileCodes { name: "b.vpk".into(), codes: strings(&["c1m2", "c9m9"]) },
        FileCodes { name: "c.vpk".into(), codes: strings(&["c1m2", "c1m2"]) },
    ])
}

#[test]
fn code_map_groups_files_by_code() {
    let m = code_map();
    let codes: Vec<&str> = m.entries.iter().map(|e| e.code.as_str()).collect();
    assert_eq!(codes, vec!["c1m1", "c1m2", "c9m9"]);
    assert_eq!(m.entries[1].files, strings(&["a.vpk", "b.vpk", "c.vpk"]));
    assert_eq!(m.get(&"c9m9".to_string()).unwrap(), &strings(&["b.vpk"]));
    assert!(m.get(&"nope".to_string()).is_none());
}

#[test]
fn duplicate_groups_of_shared_codes() {
    let m = build_code_map(&vec![
        FileCodes { name: "z.vpk".into(), codes: strings(&["m1", "m2"]) },
        FileCodes { name: "a.vpk".into(), codes: strings(&["m1", "m2"]) },
        FileCodes { name: "q.vpk".into(), codes: strings(&["m3"]) },
    ]);
    let groups = duplicate_code_groups(&m);
    assert_eq!(groups, vec![strings(&["a.vpk", "z.vpk"])]);
}

fn mode2() -> Mode2State {
    Mode2State {
        input_buffer: VecDeque::new(),
        selected_index: -1,
        mode: 1,
        matched_code_list: None,
        matched_file_list: None,
        code_map: code_map(),
        page_offset: 0,
        page_size: 5,
    }
}

#[test]
fn mode2_single_file_code_opens_it() {
    let mut s = mode2();
    for c in "c9m9".chars() {
        s.handle_key_event(Key::Char(c));
    }
    assert_eq!(opened(s.handle_key_event(Key::Enter)), "b.vpk");
}

#[test]
fn mode2_unknown_and_empty_code() {
    let mut s = mode2();
    assert!(matches!(s.handle_key_event(Key::Enter), SearchAction::EmptyInput));
    s.handle_key_event(Key::Char('x'));
    match s.handle_key_event(Key::Enter) {
        SearchAction::UnknownCode(c) => assert_eq!(c, "x"),
        other => panic!("{:?}", other),
    }
}

#[test]
fn mode2_shared_code_lists_files() {
    let mut s = mode2();
    s.matched_code_list = Some(strings(&["c1m2"]));
    s.handle_key_event(Key::Down);
    assert!(matches!(s.handle_key_event(Key::Enter), SearchAction::ChooseFile));
    assert_eq!(s.mode, 2);
    assert_eq!(s.selected_index, 0);
    assert!(matches!(s.handle_key_event(Key::Char('q')), SearchAction::Nothing));
    assert!(matches!(s.handle_key_event(Key::Up), SearchAction::Nothing));
    s.handle_key_event(Key::Down);
    assert_eq!(opened(s.handle_key_event(Key::Enter)), "b.vpk");
}

#[test]
fn extract_map_codes_of_coop_block() {
    let text = "\"modes\" { \"coop\" { \"1\" { \"Map\" \"c1m1_hotel\" } \"2\" { \"Map\"\t\"c1m2\" } } \"versus\" { \"1\" { \"map\" \"c1m2\" } \"2\" { \"Map\" \"c9m9\" } } }";
    assert_eq!(extract_coop_maps(text).unwrap(), strings(&["c1m1_hotel", "c1m2", "c1m2"]));
    assert_eq!(extract_coop_maps("nothing here").unwrap(), Vec::<String>::new());
    assert_eq!(
        extract_coop_maps("\"modes\" { \"versus\" { \"Map\" \"c5m1\" } }").unwrap(),
        Vec::<String>::new()
    );
}

#[test]
fn captures_decoded_in_order() {
    let caps = vec![Some(b"c1m1".to_vec()), None, Some(vec![0xff, 0x41]), Some("c2\u{e9}".as_bytes().to_vec())];
    assert_eq!(decode_captures(&caps), strings(&["c1m1", "c2\u{e9}"]));
}

#[test]
fn listed_entries_kept() {
    assert_eq!(
        keep_listed(&strings(&["a", "b", "a", "c"]), &strings(&["c", "a"])),
        strings(&["a", "a", "c"])
    );
    assert!(keep_listed(&strings(&["a"]), &Vec::new()).is_empty());
}

#[test]
fn page_size_of_terminal() {
    assert_eq!(page_size_for(3), None);
    assert_eq!(page_size_for(4), Some(1));
    assert_eq!(page_size_for(40), Some(37));
    assert!(page_fits(0, 5));
    assert!(!page_fits(0, 0));
    assert!(!page_fits(0x7fff_ffff, 1));
}

#[test]
fn page_rows_of_a_page() {
    let rows = page_rows(5, 2, 2, 3);
    assert_eq!(
        rows,
        vec![PageRow { index: 2, selected: false }, PageRow { index: 3, selected: true }]
    );
    assert_eq!(page_rows(3, 2, 5, -1), vec![PageRow { index: 2, selected: false }]);
    assert!(page_rows(0, 0, 3, -1).is_empty());
    assert!(page_rows(2, 4, 3, 0).is_empty());
}

#[test]
fn search_mode_keys() {
    assert_eq!(choose_search_mode(Key::Char('2'), false, true, true), ModeChoice::Search(2));
    assert_eq!(choose_search_mode(Key::Char('1'), false, true, true), ModeChoice::Search(1));
    assert_eq!(choose_search_mode(Key::Char('3'), false, true, true), ModeChoice::Search(3));
    assert_eq!(choose_search_mode(Key::Char('c'), true, false, true), ModeChoice::Quit);
    assert_eq!(choose_search_mode(Key::Char('c'), true, false, false), ModeChoice::Quit);
    assert_eq!(choose_search_mode(Key::Char('1'), false, false, true), ModeChoice::Ignore);
    assert_eq!(choose_search_mode(Key::Char('1'), false, true, false), ModeChoice::Ignore);
    assert_eq!(choose_search_mode(Key::Char('4'), false, true, true), ModeChoice::Ignore);
    assert_eq!(choose_search_mode(Key::Enter, false, true, true), ModeChoice::Ignore);
}

#[test]
fn search_states_checked() {
    assert!(mode1(None).is_valid());
    let mut m = mode1(Some(strings(&["a", "b"])));
    m.selected_index = 1;
    assert!(m.is_valid());
    m.selected_index = 2;
    assert!(!m.is_valid());
    m.selected_index = -2;
    assert!(!m.is_valid());
    m.selected_index = -1;
    m.page_size = 0;
    assert!(!m.is_valid());
    let mut m2 = mode2();
    assert!(m2.is_valid());
    m2.mode = 3;
    assert!(!m2.is_valid());
    let mut m2 = mode2();
    m2.mode = 2;
    assert!(!m2.is_valid());
    m2.matched_file_list = Some(strings(&["a.vpk"]));
    m2.selected_index = 0;
    assert!(m2.is_valid());
}

#[test]
fn search_keys_keep_states_valid() {
    let mut m = mode1(Some(strings(&["a", "b", "c"])));
    for k in [Key::Down, Key::Down, Key::Down, Key::Down, Key::Up, Key::Tab, Key::Char('x'), Key::Backspace] {
        m.handle_key_event(k);
        assert!(m.is_valid());
    }
    let mut m2 = mode2();
    for k in [Key::Char('c'), Key::Enter, Key::Down, Key::Down, Key::Up, Key::Up, Key::Up] {
        m2.handle_key_event(k);
        assert!(m2.is_valid());
    }
}

#[test]
fn files_listed_in_set_notation() {
    assert_eq!(format_hash_set(&Vec::new()), "");
    assert_eq!(format_hash_set(&strings(&["a.vpk"])), "\"a.vpk\"");
    assert_eq!(format_hash_set(&strings(&["a.vpk", "b.vpk"])), "[\"a.vpk\", \"b.vpk\"]");
}

#[test]
fn report_groups_joined_and_split_at_commas() {
    assert_eq!(join_with_commas(&strings(&["a.vpk", "b,c.vpk"])), "a.vpk,b,c.vpk");
    assert_eq!(join_with_commas(&Vec::new()), "");
    assert_eq!(split_at_commas(&"a,b,,c".to_string()), strings(&["a", "b", "", "c"]));
    assert_eq!(split_at_commas(&"".to_string()), strings(&[""]));
    assert_eq!(split_at_commas(&"a,".to_string()), strings(&["a", ""]));
    let groups = vec![
        strings(&["a", "b,c"]),
        strings(&["a,b", "c"]),
        strings(&["d.vpk", "e.vpk"]),
    ];
    assert_eq!(
        print_groups(&groups),
        vec![strings(&["a", "b", "c"]), strings(&["d.vpk", "e.vpk"])]
    );
}

#[test]
fn report_of_comma_names_from_code_map() {
    let m = build_code_map(&vec![
        FileCodes { name: "x,1.vpk".into(), codes: strings(&["m1"]) },
        FileCodes { name: "y.vpk".into(), codes: strings(&["m1"]) },
    ]);
    let lines = print_groups(&duplicate_code_groups(&m));
    assert_eq!(lines, vec![strings(&["x", "1.vpk", "y.vpk"])]);
}

#[test]
fn files_kept_in_cache() {
    assert!(cache_needs_scan(0));
    assert!(!cache_needs_scan(3));
    let scanned = vec![
        FileCodes { name: "a.vpk".into(), codes: strings(&["c1"]) },
        FileCodes { name: "b.vpk".into(), codes: Vec::new() },
        FileCodes { name: "c.vpk".into(), codes: strings(&["c2", "c3"]) },
    ];
    let kept = files_with_codes(&scanned);
    let names: Vec<&str> = kept.iter().map(|f| f.name.as_str()).collect();
    assert_eq!(names, vec!["a.vpk", "c.vpk"]);
    assert_eq!(kept[1].codes, strings(&["c2", "c3"]));
}
