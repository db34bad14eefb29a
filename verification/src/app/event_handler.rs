//! What a key press does to the state of the interface.
use vstd::prelude::*;

use super::content_state::{
    scroll_down_spec, scroll_page_down_spec, scroll_page_up_spec, scroll_up_spec, with_offset,
    ContentState,
};
use super::filter_state::FilterState;
use super::list_state::{
    page_down_spec, page_up_spec, select_next_spec, select_previous_spec, select_spec,
    FileListState, ListState,
};
use super::screen::{FilterMode, Screen};
use super::sort_state::{other_field, SortField, SortState};

verus! {

/// A key, as far as the interface tells keys apart.
#[derive(Debug, Clone, Copy, PartialEq, Eq, Structural)]
pub enum Key {
    Char(char),
    Up,
    Down,
    Left,
    Right,
    Home,
    End,
    PageUp,
    PageDown,
    Enter,
    Esc,
    Backspace,
    Tab,
    Other,
}

/// A key press, with whether Control was held.
#[derive(Debug, Clone, Copy, PartialEq, Eq, Structural)]
pub struct KeyInput {
    pub code: Key,
    pub ctrl: bool,
}

/// What the caller has to do after a key press, beyond the state change.
#[derive(Debug, Clone, Copy, PartialEq, Eq, Structural)]
pub enum Action {
    Nothing,
    /// Tell the user that the filter was cleared.
    FilterCleared,
    /// Group the files that share map codes, for the duplicates dialog.
    FindDuplicates,
    /// Reorder the file list by the (changed) sort state.
    SortFiles,
    /// Copy the map code at this index of the selected file to the clipboard.
    CopyMapCode(usize),
}

/// The state of the interface that key presses change.
#[derive(Debug)]
pub struct AppState {
    pub screen: Screen,
    pub filter: FilterState,
    pub list: FileListState,
    pub content: ContentState,
    pub sort: SortState,
    pub duplicate_list: ListState,
    pub map_codes_list: ListState,
    pub list_layout_percentage: u16,
    pub selected_file_name: Option<String>,
    pub exit: bool,
}

/// The interface state as plain values.
pub struct AppView {
    pub screen: Screen,
    pub input: Seq<char>,
    pub mode: FilterMode,
    pub list: ListState,
    pub line_counts: Seq<u16>,
    pub list_area_height: u16,
    pub content: ContentState,
    pub sort_field: SortField,
    pub ascending: bool,
    pub duplicate_list: ListState,
    pub map_codes_list: ListState,
    pub list_layout_percentage: u16,
    pub selected_file: Option<Seq<char>>,
    pub exit: bool,
}

impl View for AppState {
    type V = AppView;

    open spec fn view(&self) -> AppView {
        AppView {
            screen: self.screen,
            input: self.filter.input@,
            mode: self.filter.mode,
            list: self.list.selected,
            line_counts: self.list.line_counts@,
            list_area_height: self.list.area_height,
            content: ContentState {
                scroll_offset: self.content.scroll_offset,
                line_count: self.content.line_count,
                area_height: self.content.area_height,
            },
            sort_field: self.sort.field,
            ascending: self.sort.ascending,
            duplicate_list: self.duplicate_list,
            map_codes_list: self.map_codes_list,
            list_layout_percentage: self.list_layout_percentage,
            selected_file: match self.selected_file_name {
                Some(n) => Some(n@),
                None => None,
            },
            exit: self.exit,
        }
    }
}

impl AppState {
    /// The state at start: the file list has the keyboard with its first
    /// file selected and takes 30% of the width; the files are ordered
    /// newest created first, and nothing is filtered, measured or open.
    pub fn new() -> (s: AppState)
        ensures
            s@.screen == Screen::FileList,
            s@.input.len() == 0,
            s@.mode == FilterMode::FileName,
            s@.list == (ListState { offset: 0, selected: Some(0usize) }),
            s@.line_counts.len() == 0,
            s@.list_area_height == 0,
            s@.content == (ContentState { scroll_offset: 0, line_count: 0, area_height: 0 }),
            s@.sort_field == SortField::CreatedAt,
            !s@.ascending,
            s@.duplicate_list == (ListState { offset: 0, selected: None }),
            s@.map_codes_list == (ListState { offset: 0, selected: None }),
            s@.list_layout_percentage == 30,
            s@.selected_file is None,
            !s@.exit,
    {
        let mut list = FileListState::default();
        list.select(Some(0));
        AppState {
            screen: Screen::FileList,
            filter: FilterState { input: String::new(), mode: FilterMode::FileName },
            list,
            content: ContentState::default(),
            sort: SortState::default(),
            duplicate_list: ListState { offset: 0, selected: None },
            map_codes_list: ListState { offset: 0, selected: None },
            list_layout_percentage: 30,
            selected_file_name: None,
            exit: false,
        }
    }
}

/// Keys on the file list.
pub open spec fn list_step(v: AppView, k: Key) -> (AppView, Action) {
    match k {
        Key::Up => (AppView { list: select_previous_spec(v.list), ..v }, Action::Nothing),
        Key::Down => (AppView { list: select_next_spec(v.list), ..v }, Action::Nothing),
        Key::End => (AppView { list: select_spec(v.list, Some(usize::MAX)), ..v }, Action::Nothing),
        Key::Home => (AppView { list: select_spec(v.list, Some(0usize)), ..v }, Action::Nothing),
        Key::PageUp => (
            AppView { list: page_up_spec(v.line_counts, v.list_area_height, v.list), ..v },
            Action::Nothing,
        ),
        Key::PageDown => (
            AppView { list: page_down_spec(v.line_counts, v.list_area_height, v.list), ..v },
            Action::Nothing,
        ),
        Key::Char(c) => if c == 's' || c == 'c' {
            let mode = if c == 's' {
                FilterMode::FileName
            } else {
                FilterMode::MapName
            };
            (
                AppView {
                    screen: Screen::Filter(mode),
                    mode,
                    input: Seq::empty(),
                    list: select_spec(v.list, Some(0usize)),
                    ..v
                },
                Action::Nothing,
            )
        } else if c == 'd' {
            (
                AppView {
                    screen: Screen::Duplicates,
                    duplicate_list: select_spec(v.duplicate_list, Some(0usize)),
                    ..v
                },
                Action::FindDuplicates,
            )
        } else if (c == 't' || c == 'r') && v.input.len() == 0 {
            (
                AppView {
                    sort_field: if c == 't' {
                        other_field(v.sort_field)
                    } else {
                        v.sort_field
                    },
                    ascending: if c == 'r' {
                        !v.ascending
                    } else {
                        v.ascending
                    },
                    list: select_spec(v.list, Some(0usize)),
                    ..v
                },
                Action::SortFiles,
            )
        } else if c == 'q' {
            (AppView { exit: true, ..v }, Action::Nothing)
        } else if c == 'f' && v.selected_file is Some {
            (
                AppView {
                    map_codes_list: select_spec(v.map_codes_list, Some(0usize)),
                    screen: Screen::MapCodes,
                    ..v
                },
                Action::Nothing,
            )
        } else {
            (v, Action::Nothing)
        },
        Key::Right => if v.selected_file is Some {
            (AppView { screen: Screen::Content, ..v }, Action::Nothing)
        } else {
            (v, Action::Nothing)
        },
        _ => (v, Action::Nothing),
    }
}

/// Keys on the mission text pane.
pub open spec fn content_step(v: AppView, k: Key) -> AppView {
    match k {
        Key::Char(c) => if c == 'q' {
            AppView { exit: true, ..v }
        } else {
            v
        },
        Key::Left => AppView {
            screen: Screen::FileList,
            content: ContentState { scroll_offset: 0, line_count: 0, area_height: 0 },
            ..v
        },
        Key::Up => AppView { content: scroll_up_spec(v.content), ..v },
        Key::Down => AppView { content: scroll_down_spec(v.content), ..v },
        Key::End => AppView { content: with_offset(v.content, v.content.bottom_offset()), ..v },
        Key::Home => AppView { content: with_offset(v.content, 0), ..v },
        Key::PageUp => AppView { content: scroll_page_up_spec(v.content), ..v },
        Key::PageDown => AppView { content: scroll_page_down_spec(v.content), ..v },
        _ => v,
    }
}

/// Keys in the filter dialog.
pub open spec fn filter_step(v: AppView, k: Key) -> AppView {
    match k {
        Key::Char(c) => AppView {
            input: v.input.push(c),
            list: select_spec(v.list, Some(0usize)),
            ..v
        },
        Key::Backspace => AppView {
            input: if v.input.len() > 0 {
                v.input.drop_last()
            } else {
                v.input
            },
            list: select_spec(v.list, Some(0usize)),
            ..v
        },
        Key::Enter | Key::Esc => AppView { screen: Screen::FileList, ..v },
        Key::Up => AppView { screen: Screen::FileList, list: select_previous_spec(v.list), ..v },
        Key::Down => AppView { screen: Screen::FileList, list: select_next_spec(v.list), ..v },
        _ => v,
    }
}

/// Keys in the duplicates dialog.
pub open spec fn duplicates_step(v: AppView, k: Key) -> AppView {
    match k {
        Key::Enter | Key::Esc => AppView { screen: Screen::FileList, ..v },
        Key::Up => AppView { duplicate_list: select_previous_spec(v.duplicate_list), ..v },
        Key::Down => AppView { duplicate_list: select_next_spec(v.duplicate_list), ..v },
        _ => v,
    }
}

/// Keys in the map codes dialog: Enter copies the selected code and, like
/// Esc, closes the dialog.
pub open spec fn map_codes_step(v: AppView, k: Key) -> (AppView, Action) {
    match k {
        Key::Up => (
            AppView { map_codes_list: select_previous_spec(v.map_codes_list), ..v },
            Action::Nothing,
        ),
        Key::Down => (
            AppView { map_codes_list: select_next_spec(v.map_codes_list), ..v },
            Action::Nothing,
        ),
        Key::Enter => (
            AppView { screen: Screen::FileList, ..v },
            match v.map_codes_list.selected {
                Some(idx) => Action::CopyMapCode(idx),
                None => Action::Nothing,
            },
        ),
        Key::Esc => (AppView { screen: Screen::FileList, ..v }, Action::Nothing),
        _ => (v, Action::Nothing),
    }
}

/// What a key press does: Control+C quits; Control+Left and Control+Right
/// move the border between list and text (within 10% to 80% of the width);
/// Control+X clears the filter; any other key goes to the screen that has
/// the keyboard.
pub open spec fn key_step(v: AppView, key: KeyInput) -> (AppView, Action) {
    if key.ctrl && key.code == Key::Char('c') {
        (AppView { exit: true, ..v }, Action::Nothing)
    } else if key.ctrl && (key.code == Key::Left || key.code == Key::Right) {
        let pct = v.list_layout_percentage;
        let new_pct = if key.code == Key::Left && pct > 10 {
            (pct - 1) as u16
        } else if key.code == Key::Right && pct < 80 {
            (pct + 1) as u16
        } else {
            pct
        };
        (AppView { list_layout_percentage: new_pct, ..v }, Action::Nothing)
    } else if key.ctrl && key.code == Key::Char('x') {
        (AppView { input: Seq::empty(), mode: FilterMode::FileName, ..v }, Action::FilterCleared)
    } else {
        match v.screen {
            Screen::Content => (content_step(v, key.code), Action::Nothing),
            Screen::Filter(_) => (filter_step(v, key.code), Action::Nothing),
            Screen::Duplicates => (duplicates_step(v, key.code), Action::Nothing),
            Screen::MapCodes => map_codes_step(v, key.code),
            Screen::FileList => list_step(v, key.code),
        }
    }
}

/// Control+C quits from every screen and changes nothing else.
pub proof fn lemma_ctrl_c_quits(v: AppView)
    ensures
        key_step(v, KeyInput { code: Key::Char('c'), ctrl: true }) == (
        AppView { exit: true, ..v },
        Action::Nothing,
    ),
{
}

/// Once the interface is told to quit, no key press takes that back.
pub proof fn lemma_exit_is_final(v: AppView, key: KeyInput)
    requires
        v.exit,
    ensures
        key_step(v, key).0.exit,
{
}

/// The border between list and text stays within 10% and 80% of the width.
pub proof fn lemma_layout_percentage_bounded(v: AppView, key: KeyInput)
    requires
        10 <= v.list_layout_percentage <= 80,
    ensures
        10 <= key_step(v, key).0.list_layout_percentage <= 80,
{
}

/// In a filter dialog, typing a character and then Backspace gives back the
/// filter text, and the dialog stays open.
pub proof fn lemma_type_then_backspace(v: AppView, c: char)
    requires
        v.screen is Filter,
    ensures
        ({
            let typed = key_step(v, KeyInput { code: Key::Char(c), ctrl: false }).0;
            let erased = key_step(typed, KeyInput { code: Key::Backspace, ctrl: false }).0;
            &&& typed.input == v.input.push(c)
            &&& erased.input == v.input
            &&& erased.screen == v.screen
        }),
{
    let typed = key_step(v, KeyInput { code: Key::Char(c), ctrl: false }).0;
    assert(typed.input.drop_last() == v.input);
}

/// Control+X empties the filter text and goes back to matching file names,
/// wherever the keyboard is.
pub proof fn lemma_ctrl_x_clears_filter(v: AppView)
    ensures
        ({
            let (w, action) = key_step(v, KeyInput { code: Key::Char('x'), ctrl: true });
            &&& w.input.len() == 0
            &&& w.mode == FilterMode::FileName
            &&& w.screen == v.screen
            &&& action == Action::FilterCleared
        }),
{
}

/// Enter and Esc close every dialog: the filter, duplicates and map codes
/// dialogs give the keyboard back to the file list; in the map codes dialog
/// Enter also asks to copy the selected code.
pub proof fn lemma_enter_esc_close_dialogs(v: AppView, code: Key)
    requires
        code == Key::Enter || code == Key::Esc,
        v.screen is Filter || v.screen == Screen::Duplicates || v.screen == Screen::MapCodes,
    ensures
        key_step(v, KeyInput { code, ctrl: false }).0.screen == Screen::FileList,
        v.screen == Screen::MapCodes && code == Key::Enter ==> key_step(
            v,
            KeyInput { code, ctrl: false },
        ).1 == match v.map_codes_list.selected {
            Some(idx) => Action::CopyMapCode(idx),
            None => Action::Nothing,
        },
{
}

/// No key press changes the name of the selected file (only drawing the
/// list sets it).
pub proof fn lemma_selected_file_kept(v: AppView, key: KeyInput)
    ensures
        key_step(v, key).0.selected_file == v.selected_file,
{
}

/// On the file list, `c` opens the filter by coop map name and `s` the
/// filter by file name: the dialog shown and the text matched agree, the
/// filter text starts empty and the first file is selected.
pub proof fn lemma_list_filter_keys(v: AppView)
    requires
        v.screen == Screen::FileList,
    ensures
        ({
            let (w, a) = key_step(v, KeyInput { code: Key::Char('c'), ctrl: false });
            &&& w.screen == Screen::Filter(FilterMode::MapName)
            &&& w.mode == FilterMode::MapName
            &&& w.input.len() == 0
            &&& w.list.selected == Some(0usize)
            &&& a == Action::Nothing
            &&& w.exit == v.exit
        }),
        ({
            let (w, a) = key_step(v, KeyInput { code: Key::Char('s'), ctrl: false });
            &&& w.screen == Screen::Filter(FilterMode::FileName)
            &&& w.mode == FilterMode::FileName
            &&& w.input.len() == 0
            &&& w.list.selected == Some(0usize)
            &&& a == Action::Nothing
            &&& w.exit == v.exit
        }),
{
}

/// On the file list, Down selects the next file (the first when none is
/// selected), Up the previous one (the last when none is), Home the first
/// and End the last; the screen and the scroll offset stay.
pub proof fn lemma_list_navigation(v: AppView)
    requires
        v.screen == Screen::FileList,
    ensures
        ({
            let w = key_step(v, KeyInput { code: Key::Down, ctrl: false }).0;
            &&& w.screen == Screen::FileList
            &&& w.list.offset == v.list.offset
            &&& w.list.selected == Some(
                match v.list.selected {
                    Some(i) => if i < usize::MAX {
                        (i + 1) as usize
                    } else {
                        i
                    },
                    None => 0usize,
                },
            )
        }),
        ({
            let w = key_step(v, KeyInput { code: Key::Up, ctrl: false }).0;
            &&& w.screen == Screen::FileList
            &&& w.list.offset == v.list.offset
            &&& w.list.selected == Some(
                match v.list.selected {
                    Some(i) => if i > 0 {
                        (i - 1) as usize
                    } else {
                        0usize
                    },
                    None => usize::MAX,
                },
            )
        }),
        key_step(v, KeyInput { code: Key::Home, ctrl: false }).0.list.selected == Some(0usize),
        key_step(v, KeyInput { code: Key::End, ctrl: false }).0.list.selected == Some(usize::MAX),
{
}

/// The commands of the file list: `q` quits, `d` opens the duplicates
/// dialog at its first row and asks for the groups, `t` switches the sort
/// field and `r` the direction (only while nothing is filtered), `f` opens
/// the map codes of the selected file and Right its mission text (only when
/// a file is selected).
pub proof fn lemma_list_commands(v: AppView)
    requires
        v.screen == Screen::FileList,
    ensures
        key_step(v, KeyInput { code: Key::Char('q'), ctrl: false }).0.exit,
        ({
            let (w, a) = key_step(v, KeyInput { code: Key::Char('d'), ctrl: false });
            w.screen == Screen::Duplicates && w.duplicate_list.selected == Some(0usize) && a
                == Action::FindDuplicates
        }),
        ({
            let (w, a) = key_step(v, KeyInput { code: Key::Char('t'), ctrl: false });
            if v.input.len() == 0 {
                w.sort_field != v.sort_field && w.ascending == v.ascending && a == Action::SortFiles
                    && w.list.selected == Some(0usize)
            } else {
                w == v && a == Action::Nothing
            }
        }),
        ({
            let (w, a) = key_step(v, KeyInput { code: Key::Char('r'), ctrl: false });
            if v.input.len() == 0 {
                w.ascending == !v.ascending && w.sort_field == v.sort_field && a == Action::SortFiles
                    && w.list.selected == Some(0usize)
            } else {
                w == v && a == Action::Nothing
            }
        }),
        ({
            let w = key_step(v, KeyInput { code: Key::Char('f'), ctrl: false }).0;
            if v.selected_file is Some {
                w.screen == Screen::MapCodes && w.map_codes_list.selected == Some(0usize)
            } else {
                w == v
            }
        }),
        ({
            let w = key_step(v, KeyInput { code: Key::Right, ctrl: false }).0;
            if v.selected_file is Some {
                w.screen == Screen::Content && w.content == v.content
            } else {
                w == v
            }
        }),
{
}

/// On the mission text pane: Home shows the top (offset 0); End shows the
/// bottom, the offset at which the last line is the last one shown, plus
/// one (`line_count - area_height + 1`, or 1 for a text that fits, at most
/// `u16::MAX`); Up and PageUp move back one line or one page, stopping at
/// 0; Down moves one line while the text continues below; PageDown moves
/// one page, stopping at the bottom. No scroll key changes the measured
/// sizes or the screen.
pub proof fn lemma_content_keys(v: AppView)
    requires
        v.screen == Screen::Content,
    ensures
        ({
            let o = v.content.scroll_offset as int;
            let l = v.content.line_count as int;
            let h = v.content.area_height as int;
            let bottom = if l > h {
                if l - h + 1 <= u16::MAX {
                    l - h + 1
                } else {
                    u16::MAX as int
                }
            } else {
                1
            };
            let end = key_step(v, KeyInput { code: Key::End, ctrl: false }).0;
            let home = key_step(v, KeyInput { code: Key::Home, ctrl: false }).0;
            let up = key_step(v, KeyInput { code: Key::Up, ctrl: false }).0;
            let down = key_step(v, KeyInput { code: Key::Down, ctrl: false }).0;
            let page_up = key_step(v, KeyInput { code: Key::PageUp, ctrl: false }).0;
            let page_down = key_step(v, KeyInput { code: Key::PageDown, ctrl: false }).0;
            &&& end.content.scroll_offset == bottom
            &&& home.content.scroll_offset == 0
            &&& up.content.scroll_offset == if o > 0 {
                o - 1
            } else {
                0
            }
            &&& down.content.scroll_offset == if o + h <= l && o < u16::MAX {
                o + 1
            } else {
                o
            }
            &&& page_up.content.scroll_offset == if o > h {
                o - h
            } else {
                0
            }
            &&& page_down.content.scroll_offset <= bottom
            &&& (o + h <= bottom ==> page_down.content.scroll_offset == o + h)
            &&& (o + h > bottom ==> page_down.content.scroll_offset == bottom)
            &&& end.content.line_count == l && end.content.area_height == h
            &&& home.content.line_count == l && home.content.area_height == h
            &&& up.content.line_count == l && up.content.area_height == h
            &&& down.content.line_count == l && down.content.area_height == h
            &&& page_up.content.line_count == l && page_up.content.area_height == h
            &&& page_down.content.line_count == l && page_down.content.area_height == h
            &&& end.screen == Screen::Content && home.screen == Screen::Content
            &&& up.screen == Screen::Content && down.screen == Screen::Content
            &&& page_up.screen == Screen::Content && page_down.screen == Screen::Content
        }),
{
}

/// On the mission text pane, Left goes back to the file list and forgets
/// the scroll position and sizes; `q` quits.
pub proof fn lemma_content_leave(v: AppView)
    requires
        v.screen == Screen::Content,
    ensures
        ({
            let w = key_step(v, KeyInput { code: Key::Left, ctrl: false }).0;
            w.screen == Screen::FileList && w.content.scroll_offset == 0 && w.content.line_count
                == 0 && w.content.area_height == 0 && w.exit == v.exit
        }),
        key_step(v, KeyInput { code: Key::Char('q'), ctrl: false }).0.exit,
{
}

/// In a filter dialog a character is added to the end of the filter text,
/// Backspace removes the last one, and the first file is selected; Up and
/// Down leave the dialog and move the selection.
pub proof fn lemma_filter_keys(v: AppView, c: char)
    requires
        v.screen is Filter,
    ensures
        ({
            let w = key_step(v, KeyInput { code: Key::Char(c), ctrl: false }).0;
            w.input == v.input.push(c) && w.screen == v.screen && w.mode == v.mode
                && w.list.selected == Some(0usize)
        }),
        ({
            let w = key_step(v, KeyInput { code: Key::Backspace, ctrl: false }).0;
            &&& v.input.len() > 0 ==> w.input == v.input.subrange(0, v.input.len() - 1)
            &&& v.input.len() == 0 ==> w.input.len() == 0
            &&& w.screen == v.screen
            &&& w.list.selected == Some(0usize)
        }),
        ({
            let w = key_step(v, KeyInput { code: Key::Down, ctrl: false }).0;
            w.screen == Screen::FileList && w.input == v.input && w.list.selected == Some(
                match v.list.selected {
                    Some(i) => if i < usize::MAX {
                        (i + 1) as usize
                    } else {
                        i
                    },
                    None => 0usize,
                },
            )
        }),
        ({
            let w = key_step(v, KeyInput { code: Key::Up, ctrl: false }).0;
            w.screen == Screen::FileList && w.input == v.input && w.list.selected == Some(
                match v.list.selected {
                    Some(i) => if i > 0 {
                        (i - 1) as usize
                    } else {
                        0usize
                    },
                    None => usize::MAX,
                },
            )
        }),
        key_step(v, KeyInput { code: Key::Enter, ctrl: false }).0.input == v.input,
{
    let w = key_step(v, KeyInput { code: Key::Backspace, ctrl: false }).0;
    if v.input.len() > 0 {
        assert(w.input == v.input.subrange(0, v.input.len() - 1));
    }
}

/// In the duplicates and map codes dialogs, Down and Up move the selection
/// of the dialog's list by one.
pub proof fn lemma_dialog_navigation(v: AppView)
    ensures
        v.screen == Screen::Duplicates ==> key_step(
            v,
            KeyInput { code: Key::Down, ctrl: false },
        ).0.duplicate_list.selected == Some(
            match v.duplicate_list.selected {
                Some(i) => if i < usize::MAX {
                    (i + 1) as usize
                } else {
                    i
                },
                None => 0usize,
            },
        ),
        v.screen == Screen::Duplicates ==> key_step(
            v,
            KeyInput { code: Key::Up, ctrl: false },
        ).0.duplicate_list.selected == Some(
            match v.duplicate_list.selected {
                Some(i) => if i > 0 {
                    (i - 1) as usize
                } else {
                    0usize
                },
                None => usize::MAX,
            },
        ),
        v.screen == Screen::MapCodes ==> key_step(
            v,
            KeyInput { code: Key::Down, ctrl: false },
        ).0.map_codes_list.selected == Some(
            match v.map_codes_list.selected {
                Some(i) => if i < usize::MAX {
                    (i + 1) as usize
                } else {
                    i
                },
                None => 0usize,
            },
        ),
        v.screen == Screen::MapCodes ==> key_step(
            v,
            KeyInput { code: Key::Up, ctrl: false },
        ).0.map_codes_list.selected == Some(
            match v.map_codes_list.selected {
                Some(i) => if i > 0 {
                    (i - 1) as usize
                } else {
                    0usize
                },
                None => usize::MAX,
            },
        ),
{
}

/// Control+Left narrows the list by one percent of the width down to 10%,
/// Control+Right widens it by one up to 80%, on every screen, and nothing
/// else changes.
pub proof fn lemma_resize_keys(v: AppView)
    ensures
        ({
            let (w, a) = key_step(v, KeyInput { code: Key::Left, ctrl: true });
            &&& w.list_layout_percentage == if v.list_layout_percentage > 10 {
                v.list_layout_percentage - 1
            } else {
                v.list_layout_percentage as int
            }
            &&& w == AppView { list_layout_percentage: w.list_layout_percentage, ..v }
            &&& a == Action::Nothing
        }),
        ({
            let (w, a) = key_step(v, KeyInput { code: Key::Right, ctrl: true });
            &&& w.list_layout_percentage == if v.list_layout_percentage < 80 {
                v.list_layout_percentage + 1
            } else {
                v.list_layout_percentage as int
            }
            &&& w == AppView { list_layout_percentage: w.list_layout_percentage, ..v }
            &&& a == Action::Nothing
        }),
{
}

/// Whether the key moves the text pane one line down, which needs the lines
/// shown to be countable.
pub open spec fn scrolls_content_down(v: AppView, key: KeyInput) -> bool {
    v.screen == Screen::Content && key.code == Key::Down
}

/// Applies a key press to the interface state (see [`key_step`]) and says
/// what else has to be done.
pub fn handle_events(app: &mut AppState, key: KeyInput) -> (action: Action)
    requires
        scrolls_content_down(old(app)@, key) ==> old(app).content.scroll_offset
            + old(app).content.area_height <= u16::MAX,
    ensures
        (final(app)@, action) == key_step(old(app)@, key),
{
    // Global: Ctrl+C
    if key.ctrl && key.code == Key::Char('c') {
        app.exit = true;
        return Action::Nothing;
    }
    // Global: Ctrl+arrow resize list/content split
    if key.ctrl && (key.code == Key::Left || key.code == Key::Right) {
        match key.code {
            Key::Left => {
                if app.list_layout_percentage > 10 {
                    app.list_layout_percentage -= 1;
                }
            },
            Key::Right => {
                if app.list_layout_percentage < 80 {
                    app.list_layout_percentage += 1;
                }
            },
            _ => {},
        }
        return Action::Nothing;
    }
    // Global: Ctrl+X clear filter and reset to filename mode
    if key.ctrl && key.code == Key::Char('x') {
        app.filter.input = String::new();
        app.filter.mode = FilterMode::FileName;
        return Action::FilterCleared;
    }
    // Dispatch by screen
    match app.screen {
        Screen::Content => {
            content_handler(app, key.code);
            Action::Nothing
        },
        Screen::Filter(_) => {
            filter_handler(app, key.code);
            Action::Nothing
        },
        Screen::Duplicates => {
            duplicates_handler(app, key.code);
            Action::Nothing
        },
        Screen::MapCodes => map_codes_handler(app, key.code),
        Screen::FileList => list_handler(app, key.code),
    }
}

fn list_handler(app: &mut AppState, key: Key) -> (action: Action)
    requires
        old(app).screen == Screen::FileList,
    ensures
        (final(app)@, action) == list_step(old(app)@, key),
{
    match key {
        Key::Up => {
            app.list.select_previous();
            Action::Nothing
        },
        Key::Down => {
            app.list.select_next();
            Action::Nothing
        },
        Key::End => {
            app.list.select_last();
            Action::Nothing
        },
        Key::Home => {
            app.list.select_first();
            Action::Nothing
        },
        Key::PageUp => {
            app.list.page_up();
            Action::Nothing
        },
        Key::PageDown => {
            app.list.page_down();
            Action::Nothing
        },
        Key::Char(c) => {
            if c == 's' {
                app.screen = Screen::Filter(FilterMode::FileName);
                app.filter.mode = FilterMode::FileName;
                app.filter.input = String::new();
                app.list.select(Some(0));
                Action::Nothing
            } else if c == 'c' {
                app.screen = Screen::Filter(FilterMode::MapName);
                app.filter.mode = FilterMode::MapName;
                app.filter.input = String::new();
                app.list.select(Some(0));
                Action::Nothing
            } else if c == 'd' {
                app.duplicate_list.select(Some(0));
                app.screen = Screen::Duplicates;
                Action::FindDuplicates
            } else if c == 't' && app.filter.input.as_str().is_empty() {
                app.sort.toggle_field();
                app.list.select(Some(0));
                Action::SortFiles
            } else if c == 'r' && app.filter.input.as_str().is_empty() {
                app.sort.toggle_order();
                app.list.select(Some(0));
                Action::SortFiles
            } else if c == 'q' {
                app.exit = true;
                Action::Nothing
            } else if c == 'f' {
                if app.selected_file_name.is_some() {
                    app.map_codes_list.select(Some(0));
                    app.screen = Screen::MapCodes;
                }
                Action::Nothing
            } else {
                Action::Nothing
            }
        },
        Key::Right => {
            if app.selected_file_name.is_some() {
                app.screen = Screen::Content;
            }
            Action::Nothing
        },
        _ => Action::Nothing,
    }
}

fn content_handler(app: &mut AppState, key: Key)
    requires
        old(app).screen == Screen::Content,
        key == Key::Down ==> old(app).content.scroll_offset + old(app).content.area_height
            <= u16::MAX,
    ensures
        final(app)@ == content_step(old(app)@, key),
{
    match key {
        Key::Char(c) => {
            if c == 'q' {
                app.exit = true;
            }
        },
        Key::Left => {
            app.screen = Screen::FileList;
            app.content.reset();
        },
        Key::Up => app.content.scroll_up(),
        Key::Down => app.content.scroll_down(),
        Key::End => app.content.scroll_to_bottom(),
        Key::Home => app.content.scroll_to_top(),
        Key::PageUp => app.content.scroll_page_up(),
        Key::PageDown => app.content.scroll_page_down(),
        _ => {},
    }
}

fn filter_handler(app: &mut AppState, key: Key)
    requires
        old(app).screen is Filter,
    ensures
        final(app)@ == filter_step(old(app)@, key),
{
    match key {
        Key::Char(c) => {
            app.filter.input.push(c);
            app.list.select(Some(0));
        },
        Key::Backspace => {
            app.filter.input.pop();
            app.list.select(Some(0));
        },
        Key::Enter | Key::Esc => {
            app.screen = Screen::FileList;
        },
        Key::Up => {
            app.screen = Screen::FileList;
            app.list.select_previous();
        },
        Key::Down => {
            app.screen = Screen::FileList;
            app.list.select_next();
        },
        _ => {},
    }
}

fn duplicates_handler(app: &mut AppState, key: Key)
    requires
        old(app).screen == Screen::Duplicates,
    ensures
        final(app)@ == duplicates_step(old(app)@, key),
{
    match key {
        Key::Enter | Key::Esc => {
            app.screen = Screen::FileList;
        },
        Key::Up => app.duplicate_list.select_previous(),
        Key::Down => app.duplicate_list.select_next(),
        _ => {},
    }
}

fn map_codes_handler(app: &mut AppState, key: Key) -> (action: Action)
    requires
        old(app).screen == Screen::MapCodes,
    ensures
        (final(app)@, action) == map_codes_step(old(app)@, key),
{
    match key {
        Key::Up => {
            app.map_codes_list.select_previous();
            Action::Nothing
        },
        Key::Down => {
            app.map_codes_list.select_next();
            Action::Nothing
        },
        Key::Enter => {
            app.screen = Screen::FileList;
            match app.map_codes_list.selected() {
                Some(idx) => Action::CopyMapCode(idx),
                None => Action::Nothing,
            }
        },
        Key::Esc => {
            app.screen = Screen::FileList;
            Action::Nothing
        },
        _ => Action::Nothing,
    }
}

} // verus!
