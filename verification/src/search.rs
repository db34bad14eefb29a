//! The interactive search of the command line program: find a file by name
//! (and show its mission text), or a map code (and the files holding it).
use std::collections::VecDeque;
use vstd::prelude::*;
use vstd::string::StringSliceAdditionalSpecFns;

use crate::app::event_handler::Key;
use crate::text::{chars_of, sort_strings, sorted_texts, strings_view};
use vstd::string::StringExecFns;

verus! {

/// What the caller has to do after a key press in a search.
#[derive(Debug)]
pub enum SearchAction {
    Nothing,
    /// Recompute the matches of the input and redraw the input and the list.
    Render,
    /// Show the mission text of the file (or map code) with this name.
    Open(String),
    /// Enter was pressed on an empty input.
    EmptyInput,
    /// No file holds the map code that was entered.
    UnknownCode(String),
    /// Several files hold the map code: the list now shows them to choose
    /// from (clear the screen, prompt, and redraw the list).
    ChooseFile,
}

/// [`SearchAction`] as plain values.
pub enum SearchOutcome {
    Nothing,
    Render,
    Open(Seq<char>),
    EmptyInput,
    UnknownCode(Seq<char>),
    ChooseFile,
}

impl View for SearchAction {
    type V = SearchOutcome;

    open spec fn view(&self) -> SearchOutcome {
        match self {
            SearchAction::Nothing => SearchOutcome::Nothing,
            SearchAction::Render => SearchOutcome::Render,
            SearchAction::Open(s) => SearchOutcome::Open(s@),
            SearchAction::EmptyInput => SearchOutcome::EmptyInput,
            SearchAction::UnknownCode(s) => SearchOutcome::UnknownCode(s@),
            SearchAction::ChooseFile => SearchOutcome::ChooseFile,
        }
    }
}

/// The strings of a vector, taken by their views.
pub open spec fn names_view(v: Seq<String>) -> Seq<Seq<char>> {
    v.map_values(|s: String| s@)
}

/// An optional list of strings, taken by its view.
pub open spec fn opt_names_view(o: Option<Vec<String>>) -> Option<Seq<Seq<char>>> {
    match o {
        Some(v) => Some(names_view(v@)),
        None => None,
    }
}

/// Number of entries of an optional list (0 for none).
pub open spec fn opt_len(o: Option<Seq<Seq<char>>>) -> int {
    match o {
        Some(v) => v.len() as int,
        None => 0,
    }
}

/// The selection and scroll state of a list of matches: the selected index
/// (-1 for none) and the first index shown on a page of `page_size` lines.
pub struct Cursor {
    pub selected: int,
    pub page_offset: int,
}

/// Moving the selection one down a list of `count` matches: it stops at the
/// last one, and the page scrolls when the selection leaves it.
pub open spec fn cursor_down(c: Cursor, count: int, page_size: int) -> (Cursor, bool) {
    if c.selected >= count - 1 {
        (Cursor { selected: count - 1, ..c }, false)
    } else {
        let sel = c.selected + 1;
        (
            Cursor {
                selected: sel,
                page_offset: if sel == c.page_offset + page_size {
                    c.page_offset + 1
                } else {
                    c.page_offset
                },
            },
            true,
        )
    }
}

/// Moving the selection one up: it stops at `floor` (-1 for no selection, 0
/// when something has to stay selected), and the page scrolls back when the
/// selection leaves it.
pub open spec fn cursor_up(c: Cursor, floor: int) -> (Cursor, bool) {
    if c.selected <= floor {
        (Cursor { selected: floor, ..c }, false)
    } else {
        let sel = c.selected - 1;
        (
            Cursor {
                selected: sel,
                page_offset: if c.page_offset > 0 && sel + 1 == c.page_offset {
                    c.page_offset - 1
                } else {
                    c.page_offset
                },
            },
            true,
        )
    }
}

/// A search of file names: the typed text, the selected match (-1 for none),
/// the matches of the text (none while the text is empty) and the paging of
/// the list of matches.
#[derive(Debug)]
pub struct Mode1State {
    pub input_buffer: VecDeque<char>,
    pub selected_index: i32,
    pub matched_file_list: Option<Vec<String>>,
    pub page_offset: usize,
    pub page_size: usize,
}

/// [`Mode1State`] as plain values.
pub struct Mode1View {
    pub input: Seq<char>,
    pub selected: int,
    pub matched: Option<Seq<Seq<char>>>,
    pub page_offset: int,
    pub page_size: int,
}

impl View for Mode1State {
    type V = Mode1View;

    open spec fn view(&self) -> Mode1View {
        Mode1View {
            input: self.input_buffer@,
            selected: self.selected_index as int,
            matched: opt_names_view(self.matched_file_list),
            page_offset: self.page_offset as int,
            page_size: self.page_size as int,
        }
    }
}

/// Whether a selection index fits a list of matches: -1 or a valid index.
pub open spec fn selection_fits(selected: int, matched: Option<Seq<Seq<char>>>) -> bool {
    &&& -1 <= selected
    &&& selected >= 0 ==> (matched is Some && selected < opt_len(matched))
    &&& opt_len(matched) <= i32::MAX
}

/// Whether page offset and size keep list positions within `i32`.
pub open spec fn paging_fits(page_offset: int, page_size: int) -> bool {
    &&& page_offset >= 0
    &&& page_size >= 1
    &&& page_offset + page_size <= i32::MAX
}

impl Mode1View {
    /// Whether the state is one that the search can be in.
    pub open spec fn wf(self) -> bool {
        &&& selection_fits(self.selected, self.matched)
        &&& paging_fits(self.page_offset, self.page_size)
    }

    pub open spec fn cursor(self) -> Cursor {
        Cursor { selected: self.selected, page_offset: self.page_offset }
    }

    pub open spec fn with_cursor(self, c: Cursor) -> Mode1View {
        Mode1View { selected: c.selected, page_offset: c.page_offset, ..self }
    }
}

/// What a key press does to a file name search.
///
/// Typing or deleting a character drops the selection; Up and Down move it;
/// Tab completes the input with the selected (or first) match; Enter opens
/// the selected match, or the typed name when nothing is selected.
pub open spec fn mode1_step(v: Mode1View, key: Key) -> (Mode1View, SearchOutcome) {
    match key {
        Key::Char(c) => (
            Mode1View { input: v.input.push(c), selected: -1, page_offset: 0, ..v },
            SearchOutcome::Render,
        ),
        Key::Backspace => if v.input.len() > 0 {
            (
                Mode1View { input: v.input.drop_last(), selected: -1, page_offset: 0, ..v },
                SearchOutcome::Render,
            )
        } else {
            (v, SearchOutcome::Nothing)
        },
        Key::Enter => if v.selected >= 0 {
            (v, SearchOutcome::Open(v.matched->0[v.selected]))
        } else if v.input.len() == 0 {
            (v, SearchOutcome::EmptyInput)
        } else {
            (v, SearchOutcome::Open(v.input))
        },
        Key::Down => {
            let (c, render) = cursor_down(v.cursor(), opt_len(v.matched), v.page_size);
            (v.with_cursor(c), if render { SearchOutcome::Render } else { SearchOutcome::Nothing })
        },
        Key::Up => {
            let (c, render) = cursor_up(v.cursor(), -1);
            (v.with_cursor(c), if render { SearchOutcome::Render } else { SearchOutcome::Nothing })
        },
        Key::Tab => if opt_len(v.matched) > 0 {
            let index = if v.selected >= 0 {
                v.selected
            } else {
                0
            };
            (
                Mode1View { input: v.matched->0[index], selected: -1, page_offset: 0, ..v },
                SearchOutcome::Render,
            )
        } else {
            (v, SearchOutcome::Nothing)
        },
        _ => (v, SearchOutcome::Nothing),
    }
}

/// The text held by a character buffer.
fn buffer_string(buf: &VecDeque<char>) -> (s: String)
    ensures
        s@ == buf@,
{
    let mut s = String::new();
    let mut i: usize = 0;
    while i < buf.len()
        invariant
            i <= buf@.len(),
            s@ == buf@.subrange(0, i as int),
        decreases buf@.len() - i,
    {
        s.push(buf[i]);
        i += 1;
    }
    s
}

/// Replaces the contents of `buf` with the characters of `text`.
fn set_buffer(buf: &mut VecDeque<char>, text: &String)
    ensures
        final(buf)@ == text@,
{
    let chars = chars_of(text.as_str());
    buf.clear();
    let mut i: usize = 0;
    while i < chars.len()
        invariant
            i <= chars@.len(),
            buf@ == chars@.subrange(0, i as int),
        decreases chars.len() - i,
    {
        buf.push_back(chars[i]);
        i += 1;
    }
}

/// Number of entries of an optional list, as the program counts them.
fn list_count(list: &Option<Vec<String>>) -> (n: i32)
    requires
        opt_len(opt_names_view(*list)) <= i32::MAX,
    ensures
        n == opt_len(opt_names_view(*list)),
{
    match list {
        Some(v) => v.len() as i32,
        None => 0,
    }
}

/// Moves the selection one down a list of `count` matches (see [`cursor_down`]).
fn move_down(selected: &mut i32, page_offset: &mut usize, page_size: usize, count: i32) -> (render: bool)
    requires
        -1 <= *old(selected) < count || (count == 0 && *old(selected) == -1),
        0 <= count <= i32::MAX,
        paging_fits(*old(page_offset) as int, page_size as int),
    ensures
        (Cursor { selected: *final(selected) as int, page_offset: *final(page_offset) as int }, render)
            == cursor_down(
            Cursor { selected: *old(selected) as int, page_offset: *old(page_offset) as int },
            count as int,
            page_size as int,
        ),
        paging_fits(*final(page_offset) as int, page_size as int),
{
    if *selected >= count - 1 {
        *selected = count - 1;
        false
    } else {
        *selected += 1;
        if *selected == (*page_offset + page_size) as i32 {
            *page_offset += 1;
        }
        true
    }
}

/// Moves the selection one up, stopping at `floor` (see [`cursor_up`]).
fn move_up(selected: &mut i32, page_offset: &mut usize, floor: i32) -> (render: bool)
    requires
        -1 <= *old(selected),
        -1 <= floor <= 0,
        *old(page_offset) <= i32::MAX,
    ensures
        (Cursor { selected: *final(selected) as int, page_offset: *final(page_offset) as int }, render)
            == cursor_up(
            Cursor { selected: *old(selected) as int, page_offset: *old(page_offset) as int },
            floor as int,
        ),
{
    if *selected <= floor {
        *selected = floor;
        false
    } else {
        *selected -= 1;
        let po = *page_offset as i32;
        if po > 0 && *selected + 1 == po {
            *page_offset -= 1;
        }
        true
    }
}

impl Mode1State {
    /// Applies a key press to the search (see [`mode1_step`]) and says what
    /// else has to be done.
    pub fn handle_key_event(&mut self, key: Key) -> (action: SearchAction)
        requires
            old(self)@.wf(),
        ensures
            (final(self)@, action@) == mode1_step(old(self)@, key),
    {
        match key {
            Key::Char(c) => {
                self.input_buffer.push_back(c);
                self.selected_index = -1;
                self.page_offset = 0;
                SearchAction::Render
            },
            Key::Backspace => {
                if self.input_buffer.pop_back().is_some() {
                    self.selected_index = -1;
                    self.page_offset = 0;
                    SearchAction::Render
                } else {
                    SearchAction::Nothing
                }
            },
            Key::Enter => {
                let selected = self.selected_index;
                if selected >= 0 {
                    match &self.matched_file_list {
                        Some(list) => {
                            proof {
                                assert(names_view(list@)[selected as int] == list@[selected as int]@);
                            }
                            SearchAction::Open(list[selected as usize].clone())
                        },
                        None => SearchAction::Nothing,
                    }
                } else {
                    let path = buffer_string(&self.input_buffer);
                    if path.as_str().is_empty() {
                        SearchAction::EmptyInput
                    } else {
                        SearchAction::Open(path)
                    }
                }
            },
            Key::Down => {
                let count = list_count(&self.matched_file_list);
                if move_down(&mut self.selected_index, &mut self.page_offset, self.page_size, count) {
                    SearchAction::Render
                } else {
                    SearchAction::Nothing
                }
            },
            Key::Up => {
                if move_up(&mut self.selected_index, &mut self.page_offset, -1) {
                    SearchAction::Render
                } else {
                    SearchAction::Nothing
                }
            },
            Key::Tab => {
                let count = list_count(&self.matched_file_list);
                if count > 0 {
                    let index: usize = if self.selected_index >= 0 {
                        self.selected_index as usize
                    } else {
                        0
                    };
                    match &self.matched_file_list {
                        Some(list) => {
                            proof {
                                assert(names_view(list@)[index as int] == list@[index as int]@);
                            }
                            let first_file = list[index].clone();
                            self.selected_index = -1;
                            self.page_offset = 0;
                            set_buffer(&mut self.input_buffer, &first_file);
                            SearchAction::Render
                        },
                        None => SearchAction::Nothing,
                    }
                } else {
                    SearchAction::Nothing
                }
            },
            _ => SearchAction::Nothing,
        }
    }
}

/// What a key does while the program asks which search to run.
#[derive(Debug, Clone, Copy, PartialEq, Eq, Structural)]
pub enum ModeChoice {
    /// Control+C: leave the program.
    Quit,
    /// Run search 1 (by file name), 2 (by map code) or 3 (files sharing map
    /// codes).
    Search(u32),
    /// Any other key is ignored.
    Ignore,
}

/// The choice a key makes: Control (and nothing else) with `c` quits; a
/// press of `1`, `2` or `3` without modifiers picks that search.
pub fn choose_search_mode(code: Key, ctrl_only: bool, no_modifiers: bool, pressed: bool) -> (c: ModeChoice)
    ensures
        c == if ctrl_only && code == Key::Char('c') {
            ModeChoice::Quit
        } else if pressed && no_modifiers && code == Key::Char('1') {
            ModeChoice::Search(1)
        } else if pressed && no_modifiers && code == Key::Char('2') {
            ModeChoice::Search(2)
        } else if pressed && no_modifiers && code == Key::Char('3') {
            ModeChoice::Search(3)
        } else {
            ModeChoice::Ignore
        },
{
    if ctrl_only && code == Key::Char('c') {
        return ModeChoice::Quit;
    }
    if pressed && no_modifiers {
        match code {
            Key::Char('1') => ModeChoice::Search(1),
            Key::Char('2') => ModeChoice::Search(2),
            Key::Char('3') => ModeChoice::Search(3),
            _ => ModeChoice::Ignore,
        }
    } else {
        ModeChoice::Ignore
    }
}

/// Rows of the terminal that the list of matches does not use: the prompt,
/// the input line and the page counter.
pub const RESERVED_ROWS: u16 = 3;

/// The number of matches a page shows in a terminal `rows` lines high: all
/// rows but the reserved ones, or none when that leaves no row.
pub fn page_size_for(rows: u16) -> (r: Option<usize>)
    requires
        rows >= RESERVED_ROWS,
    ensures
        r == (if rows - RESERVED_ROWS >= 1 {
            Some((rows - RESERVED_ROWS) as usize)
        } else {
            None::<usize>
        }),
{
    let page_size = (rows - RESERVED_ROWS) as usize;
    if page_size < 1 {
        None
    } else {
        Some(page_size)
    }
}

/// A line of the list of matches: the index of the match it shows and
/// whether that match is the selected one.
#[derive(Debug, Clone, Copy, PartialEq, Eq, Structural)]
pub struct PageRow {
    pub index: usize,
    pub selected: bool,
}

/// The lines drawn for a page of a list of `count` matches starting at
/// `page_offset`, at most `page_size` of them, with the match at index
/// `selected` marked.
pub open spec fn page_rows_spec(count: int, page_offset: int, page_size: int, selected: int) -> Seq<PageRow> {
    let end = if page_offset + page_size < count {
        page_offset + page_size
    } else {
        count
    };
    let n = if end > page_offset {
        end - page_offset
    } else {
        0
    };
    Seq::new(
        n as nat,
        |k: int| PageRow { index: (page_offset + k) as usize, selected: page_offset + k == selected },
    )
}

/// The lines drawn for the current page of a list of `count` matches (see
/// [`page_rows_spec`]).
pub fn page_rows(count: usize, page_offset: usize, page_size: usize, selected: i32) -> (rows: Vec<PageRow>)
    requires
        paging_fits(page_offset as int, page_size as int),
    ensures
        rows@ == page_rows_spec(count as int, page_offset as int, page_size as int, selected as int),
{
    let end: usize = if page_offset + page_size < count {
        page_offset + page_size
    } else {
        count
    };
    let mut rows: Vec<PageRow> = Vec::new();
    let mut index = page_offset;
    while index < end
        invariant
            paging_fits(page_offset as int, page_size as int),
            end <= page_offset + page_size,
            page_offset <= index,
            index <= end || end < page_offset,
            end < page_offset ==> index == page_offset,
            rows@.len() == index - page_offset,
            forall|k: int|
                0 <= k < rows@.len() ==> #[trigger] rows@[k] == (PageRow {
                    index: (page_offset + k) as usize,
                    selected: page_offset + k == selected,
                }),
        decreases end - index,
    {
        let is_selected = index as i32 == selected;
        rows.push(PageRow { index, selected: is_selected });
        index += 1;
    }
    proof {
        let spec = page_rows_spec(count as int, page_offset as int, page_size as int, selected as int);
        assert(rows@.len() == spec.len());
        assert(rows@ == spec);
    }
    rows
}

/// Whether a selection index fits a list of matches (see
/// [`selection_fits`]).
fn selection_fits_exec(selected: i32, list: &Option<Vec<String>>) -> (b: bool)
    ensures
        b == selection_fits(selected as int, opt_names_view(*list)),
{
    let fits_i32 = match list {
        Some(l) => l.len() <= 0x7fff_ffff,
        None => true,
    };
    let in_list = if selected >= 0 {
        match list {
            Some(l) => (selected as usize) < l.len(),
            None => false,
        }
    } else {
        true
    };
    -1 <= selected && in_list && fits_i32
}

/// Whether page offset and size keep positions within `i32` (see
/// [`paging_fits`]).
pub fn page_fits(page_offset: usize, page_size: usize) -> (b: bool)
    ensures
        b == paging_fits(page_offset as int, page_size as int),
{
    page_size >= 1 && page_offset <= 0x7fff_ffff && page_size <= 0x7fff_ffff - page_offset
}

impl Mode1State {
    /// Whether the search is in a state it can be in (see [`Mode1View::wf`]).
    pub fn is_valid(&self) -> (b: bool)
        ensures
            b == self@.wf(),
    {
        selection_fits_exec(self.selected_index, &self.matched_file_list) && page_fits(
            self.page_offset,
            self.page_size,
        )
    }
}

/// A map code with the names of the files whose mission holds it.
#[derive(Debug)]
pub struct CodeEntry {
    pub code: String,
    pub files: Vec<String>,
}

/// The map codes of a set of files, each with the files that hold it.
#[derive(Debug)]
pub struct CodeMap {
    pub entries: Vec<CodeEntry>,
}

/// A code entry as plain values.
pub open spec fn entry_view(e: CodeEntry) -> (Seq<char>, Seq<Seq<char>>) {
    (e.code@, names_view(e.files@))
}

impl View for CodeMap {
    type V = Seq<(Seq<char>, Seq<Seq<char>>)>;

    open spec fn view(&self) -> Seq<(Seq<char>, Seq<Seq<char>>)> {
        self.entries@.map_values(|e: CodeEntry| entry_view(e))
    }
}

/// Index of the entry for `code` at or after `i`, or `m.len()` when there is
/// none.
pub open spec fn code_index(m: Seq<(Seq<char>, Seq<Seq<char>>)>, code: Seq<char>, i: int) -> int
    decreases m.len() - i,
{
    if i < 0 || i >= m.len() {
        m.len() as int
    } else if m[i].0 == code {
        i
    } else {
        code_index(m, code, i + 1)
    }
}

/// The entry found for a code lies between the start of the search and the
/// end, holds the code when before the end, and no entry before it does.
pub proof fn lemma_code_index_bounds(m: Seq<(Seq<char>, Seq<Seq<char>>)>, code: Seq<char>, i: int)
    requires
        0 <= i <= m.len(),
    ensures
        i <= code_index(m, code, i) <= m.len(),
        code_index(m, code, i) < m.len() ==> m[code_index(m, code, i)].0 == code,
        forall|k: int| i <= k < code_index(m, code, i) ==> m[k].0 != code,
    decreases m.len() - i,
{
    if i < m.len() && m[i].0 != code {
        lemma_code_index_bounds(m, code, i + 1);
    }
}

/// The files that hold `code`, if any file does.
pub open spec fn code_files(m: Seq<(Seq<char>, Seq<Seq<char>>)>, code: Seq<char>) -> Option<Seq<Seq<char>>> {
    let k = code_index(m, code, 0);
    if k < m.len() {
        Some(m[k].1)
    } else {
        None
    }
}

/// Whether every code of the map has at least one file.
pub open spec fn code_map_wf(m: Seq<(Seq<char>, Seq<Seq<char>>)>) -> bool {
    forall|k: int| 0 <= k < m.len() ==> #[trigger] m[k].1.len() >= 1
}

impl CodeMap {
    /// The files that hold `code`, if any file does.
    pub fn get(&self, code: &String) -> (res: Option<&Vec<String>>)
        ensures
            match (res, code_files(self@, code@)) {
                (Some(files), Some(f)) => names_view(files@) == f,
                (None, None) => true,
                _ => false,
            },
    {
        let mut i: usize = 0;
        let ghost m = self@;
        proof {
            lemma_code_index_bounds(m, code@, 0);
        }
        while i < self.entries.len()
            invariant
                m == self@,
                m.len() == self.entries@.len(),
                i <= m.len(),
                code_index(m, code@, i as int) == code_index(m, code@, 0),
            decreases self.entries.len() - i,
        {
            proof {
                assert(m[i as int] == entry_view(self.entries@[i as int]));
            }
            if self.entries[i].code.eq(code) {
                return Some(&self.entries[i].files);
            }
            i += 1;
        }
        None
    }
}

/// A search of map codes. In the first mode the typed text is matched
/// against the map codes; in the second the files that hold the chosen code
/// are listed to choose from.
#[derive(Debug)]
pub struct Mode2State {
    pub input_buffer: VecDeque<char>,
    pub selected_index: i32,
    /// 1: choosing a map code; 2: choosing a file.
    pub mode: u8,
    pub matched_code_list: Option<Vec<String>>,
    pub matched_file_list: Option<Vec<String>>,
    pub code_map: CodeMap,
    pub page_offset: usize,
    pub page_size: usize,
}

/// [`Mode2State`] as plain values.
pub struct Mode2View {
    pub input: Seq<char>,
    pub selected: int,
    pub mode: u8,
    pub codes: Option<Seq<Seq<char>>>,
    pub files: Option<Seq<Seq<char>>>,
    pub code_map: Seq<(Seq<char>, Seq<Seq<char>>)>,
    pub page_offset: int,
    pub page_size: int,
}

impl View for Mode2State {
    type V = Mode2View;

    open spec fn view(&self) -> Mode2View {
        Mode2View {
            input: self.input_buffer@,
            selected: self.selected_index as int,
            mode: self.mode,
            codes: opt_names_view(self.matched_code_list),
            files: opt_names_view(self.matched_file_list),
            code_map: self.code_map@,
            page_offset: self.page_offset as int,
            page_size: self.page_size as int,
        }
    }
}

impl Mode2View {
    /// Whether the state is one that the search can be in.
    pub open spec fn wf(self) -> bool {
        &&& self.mode == 1 || self.mode == 2
        &&& self.mode == 1 ==> selection_fits(self.selected, self.codes)
        &&& self.mode == 2 ==> {
            &&& self.files is Some
            &&& 0 <= self.selected < opt_len(self.files) <= i32::MAX
        }
        &&& code_map_wf(self.code_map)
        &&& forall|k: int| 0 <= k < self.code_map.len() ==> #[trigger] self.code_map[k].1.len() <= i32::MAX
        &&& paging_fits(self.page_offset, self.page_size)
    }

    pub open spec fn cursor(self) -> Cursor {
        Cursor { selected: self.selected, page_offset: self.page_offset }
    }

    pub open spec fn with_cursor(self, c: Cursor) -> Mode2View {
        Mode2View { selected: c.selected, page_offset: c.page_offset, ..self }
    }
}

/// What Enter does while choosing a map code: the selected (or typed) code
/// is looked up; a code held by one file opens that file, a code held by
/// several lists them to choose from.
pub open spec fn mode2_enter_code(v: Mode2View) -> (Mode2View, SearchOutcome) {
    if v.selected < 0 && v.input.len() == 0 {
        (v, SearchOutcome::EmptyInput)
    } else {
        let code = if v.selected >= 0 {
            v.codes->0[v.selected]
        } else {
            v.input
        };
        match code_files(v.code_map, code) {
            None => (v, SearchOutcome::UnknownCode(code)),
            Some(files) => if files.len() == 1 {
                (v, SearchOutcome::Open(files[0]))
            } else {
                (
                    Mode2View {
                        mode: 2,
                        files: Some(files),
                        selected: 0,
                        page_offset: 0,
                        ..v
                    },
                    SearchOutcome::ChooseFile,
                )
            },
        }
    }
}

/// What a key press does to a map code search.
///
/// While choosing a code, keys work as in the file name search, and Enter
/// looks the code up (see [`mode2_enter_code`]). While choosing a file, only
/// Up, Down and Enter (which opens the selected file) do anything, and one
/// file always stays selected.
pub open spec fn mode2_step(v: Mode2View, key: Key) -> (Mode2View, SearchOutcome) {
    if v.mode == 1 {
        match key {
            Key::Char(c) => (
                Mode2View { input: v.input.push(c), selected: -1, page_offset: 0, ..v },
                SearchOutcome::Render,
            ),
            Key::Backspace => if v.input.len() > 0 {
                (
                    Mode2View { input: v.input.drop_last(), selected: -1, page_offset: 0, ..v },
                    SearchOutcome::Render,
                )
            } else {
                (v, SearchOutcome::Nothing)
            },
            Key::Enter => mode2_enter_code(v),
            Key::Down => {
                let (c, render) = cursor_down(v.cursor(), opt_len(v.codes), v.page_size);
                (v.with_cursor(c), if render { SearchOutcome::Render } else { SearchOutcome::Nothing })
            },
            Key::Up => {
                let (c, render) = cursor_up(v.cursor(), -1);
                (v.with_cursor(c), if render { SearchOutcome::Render } else { SearchOutcome::Nothing })
            },
            Key::Tab => if opt_len(v.codes) > 0 {
                let index = if v.selected >= 0 {
                    v.selected
                } else {
                    0
                };
                (
                    Mode2View { input: v.codes->0[index], selected: -1, page_offset: 0, ..v },
                    SearchOutcome::Render,
                )
            } else {
                (v, SearchOutcome::Nothing)
            },
            _ => (v, SearchOutcome::Nothing),
        }
    } else {
        match key {
            Key::Enter => (v, SearchOutcome::Open(v.files->0[v.selected])),
            Key::Down => {
                let (c, render) = cursor_down(v.cursor(), opt_len(v.files), v.page_size);
                (v.with_cursor(c), if render { SearchOutcome::Render } else { SearchOutcome::Nothing })
            },
            Key::Up => {
                let (c, render) = cursor_up(v.cursor(), 0);
                (v.with_cursor(c), if render { SearchOutcome::Render } else { SearchOutcome::Nothing })
            },
            _ => (v, SearchOutcome::Nothing),
        }
    }
}

impl Mode2State {
    /// Whether the search is in a state it can be in (see [`Mode2View::wf`]).
    pub fn is_valid(&self) -> (b: bool)
        ensures
            b == self@.wf(),
    {
        if self.mode != 1 && self.mode != 2 {
            return false;
        }
        if self.mode == 1 && !selection_fits_exec(self.selected_index, &self.matched_code_list) {
            return false;
        }
        if self.mode == 2 {
            match &self.matched_file_list {
                Some(l) => {
                    if !(self.selected_index >= 0 && (self.selected_index as usize) < l.len()
                        && l.len() <= 0x7fff_ffff) {
                        return false;
                    }
                },
                None => {
                    return false;
                },
            }
        }
        let ghost m = self.code_map@;
        let mut k: usize = 0;
        while k < self.code_map.entries.len()
            invariant
                m == self.code_map@,
                k <= m.len(),
                forall|j: int| 0 <= j < k ==> 1 <= #[trigger] m[j].1.len() <= i32::MAX,
            decreases self.code_map.entries.len() - k,
        {
            let n = self.code_map.entries[k].files.len();
            proof {
                assert(m[k as int] == entry_view(self.code_map.entries@[k as int]));
                assert(m[k as int].1.len() == n);
            }
            if n < 1 || n > 0x7fff_ffff {
                return false;
            }
            k += 1;
        }
        page_fits(self.page_offset, self.page_size)
    }
}

/// What the keys of a file name search do, in terms of the state: a
/// character is added to the input and drops the selection; Backspace
/// removes the last character (nothing happens on an empty input); Tab
/// completes the input with the selected match, or the first one when none
/// is selected; Enter opens the selected match, or the typed name when none
/// is selected; Down and Up move the selection by one within -1 (none) and
/// the last match.
pub proof fn lemma_mode1_keys(v: Mode1View, c: char)
    requires
        v.wf(),
    ensures
        ({
            let (w, o) = mode1_step(v, Key::Char(c));
            w.input == v.input.push(c) && w.selected == -1 && w.page_offset == 0 && o
                is Render
        }),
        ({
            let (w, o) = mode1_step(v, Key::Backspace);
            if v.input.len() > 0 {
                w.input == v.input.subrange(0, v.input.len() - 1) && w.selected == -1 && o
                    is Render
            } else {
                w == v && o is Nothing
            }
        }),
        ({
            let (w, o) = mode1_step(v, Key::Tab);
            let n = opt_len(v.matched);
            if n > 0 {
                &&& v.selected >= 0 ==> w.input == v.matched->0[v.selected]
                &&& v.selected < 0 ==> w.input == v.matched->0[0]
                &&& w.selected == -1
                &&& o is Render
            } else {
                w == v && o is Nothing
            }
        }),
        ({
            let (w, o) = mode1_step(v, Key::Enter);
            &&& w == v
            &&& v.selected >= 0 ==> o == SearchOutcome::Open(v.matched->0[v.selected])
            &&& v.selected < 0 && v.input.len() > 0 ==> o == SearchOutcome::Open(v.input)
            &&& v.selected < 0 && v.input.len() == 0 ==> o is EmptyInput
        }),
        ({
            let w = mode1_step(v, Key::Down).0;
            let n = opt_len(v.matched);
            w.selected == if v.selected + 1 < n {
                v.selected + 1
            } else {
                n - 1
            } && w.input == v.input
        }),
        ({
            let w = mode1_step(v, Key::Up).0;
            w.selected == if v.selected > -1 {
                v.selected - 1
            } else {
                -1
            } && w.input == v.input
        }),
{
    let w = mode1_step(v, Key::Backspace).0;
    if v.input.len() > 0 {
        assert(w.input == v.input.subrange(0, v.input.len() - 1));
    }
}

/// What the keys of a map code search do while a code is being chosen (as
/// in the file name search for typing, Tab and moving), and what Enter
/// does: the selected code (or the typed one) is looked up; a code no file
/// holds is reported, a code held by one file opens that file, and a code
/// held by several lists them to choose from, the first one selected.
pub proof fn lemma_mode2_code_keys(v: Mode2View, c: char)
    requires
        v.wf(),
        v.mode == 1,
    ensures
        ({
            let (w, o) = mode2_step(v, Key::Char(c));
            w.input == v.input.push(c) && w.selected == -1 && w.mode == 1 && o is Render
        }),
        ({
            let (w, o) = mode2_step(v, Key::Tab);
            let n = opt_len(v.codes);
            if n > 0 {
                &&& v.selected >= 0 ==> w.input == v.codes->0[v.selected]
                &&& v.selected < 0 ==> w.input == v.codes->0[0]
                &&& w.selected == -1
                &&& w.mode == 1
                &&& o is Render
            } else {
                w == v && o is Nothing
            }
        }),
        ({
            let w = mode2_step(v, Key::Down).0;
            let n = opt_len(v.codes);
            w.selected == if v.selected + 1 < n {
                v.selected + 1
            } else {
                n - 1
            } && w.mode == 1
        }),
        ({
            let (w, o) = mode2_step(v, Key::Enter);
            let code = if v.selected >= 0 {
                v.codes->0[v.selected]
            } else {
                v.input
            };
            if v.selected < 0 && v.input.len() == 0 {
                o is EmptyInput && w == v
            } else {
                match code_files(v.code_map, code) {
                    None => o == SearchOutcome::UnknownCode(code) && w == v,
                    Some(files) => if files.len() == 1 {
                        o == SearchOutcome::Open(files[0]) && w == v
                    } else {
                        &&& o is ChooseFile
                        &&& w.mode == 2
                        &&& w.files == Some(files)
                        &&& w.selected == 0
                    },
                }
            }
        }),
{
}

/// While a file is being chosen in a map code search, Enter opens the
/// selected file, Down and Up move the selection within the listed files
/// (one stays selected), and typing does nothing.
pub proof fn lemma_mode2_file_keys(v: Mode2View, c: char)
    requires
        v.wf(),
        v.mode == 2,
    ensures
        mode2_step(v, Key::Enter) == (v, SearchOutcome::Open(v.files->0[v.selected])),
        ({
            let w = mode2_step(v, Key::Down).0;
            let n = opt_len(v.files);
            w.selected == if v.selected + 1 < n {
                v.selected + 1
            } else {
                n - 1
            } && w.mode == 2 && w.files == v.files
        }),
        ({
            let w = mode2_step(v, Key::Up).0;
            w.selected == if v.selected > 0 {
                v.selected - 1
            } else {
                0
            } && w.mode == 2 && w.files == v.files
        }),
        mode2_step(v, Key::Char(c)).0 == v,
        mode2_step(v, Key::Tab).0 == v,
{
}

/// Every key press keeps a file name search in a state it can be in: the
/// selection is -1 or a match, and the page stays within `i32`.
pub proof fn lemma_mode1_step_keeps_wf(v: Mode1View, key: Key)
    requires
        v.wf(),
    ensures
        mode1_step(v, key).0.wf(),
{
}

/// Every key press keeps a map code search in a state it can be in; in
/// particular, while choosing a file, one of the listed files is selected.
pub proof fn lemma_mode2_step_keeps_wf(v: Mode2View, key: Key)
    requires
        v.wf(),
    ensures
        mode2_step(v, key).0.wf(),
{
    if v.mode == 1 && key == Key::Enter && !(v.selected < 0 && v.input.len() == 0) {
        let code = if v.selected >= 0 {
            v.codes->0[v.selected]
        } else {
            v.input
        };
        lemma_code_index_bounds(v.code_map, code, 0);
        let k = code_index(v.code_map, code, 0);
        if k < v.code_map.len() {
            assert(v.code_map[k].1.len() >= 1);
            assert(v.code_map[k].1.len() <= i32::MAX);
        }
    }
}

/// A copy of a list of strings.
fn clone_names(v: &Vec<String>) -> (r: Vec<String>)
    ensures
        names_view(r@) == names_view(v@),
{
    let mut r: Vec<String> = Vec::new();
    let mut i: usize = 0;
    while i < v.len()
        invariant
            i <= v@.len(),
            names_view(r@) == names_view(v@).subrange(0, i as int),
        decreases v.len() - i,
    {
        let ghost old_r = r@;
        r.push(v[i].clone());
        proof {
            assert(names_view(r@) == names_view(old_r).push(v@[i as int]@));
        }
        i += 1;
    }
    proof {
        assert(names_view(v@).subrange(0, v@.len() as int) == names_view(v@));
    }
    r
}

impl Mode2State {
    /// Applies a key press to the search (see [`mode2_step`]) and says what
    /// else has to be done.
    pub fn handle_key_event(&mut self, key: Key) -> (action: SearchAction)
        requires
            old(self)@.wf(),
        ensures
            (final(self)@, action@) == mode2_step(old(self)@, key),
    {
        if self.mode == 1 {
            match key {
                Key::Char(c) => {
                    self.input_buffer.push_back(c);
                    self.selected_index = -1;
                    self.page_offset = 0;
                    SearchAction::Render
                },
                Key::Backspace => {
                    if self.input_buffer.pop_back().is_some() {
                        self.selected_index = -1;
                        self.page_offset = 0;
                        SearchAction::Render
                    } else {
                        SearchAction::Nothing
                    }
                },
                Key::Enter => self.enter_code(),
                Key::Down => {
                    let count = list_count(&self.matched_code_list);
                    if move_down(&mut self.selected_index, &mut self.page_offset, self.page_size, count) {
                        SearchAction::Render
                    } else {
                        SearchAction::Nothing
                    }
                },
                Key::Up => {
                    if move_up(&mut self.selected_index, &mut self.page_offset, -1) {
                        SearchAction::Render
                    } else {
                        SearchAction::Nothing
                    }
                },
                Key::Tab => {
                    let count = list_count(&self.matched_code_list);
                    if count > 0 {
                        let index: usize = if self.selected_index >= 0 {
                            self.selected_index as usize
                        } else {
                            0
                        };
                        match &self.matched_code_list {
                            Some(list) => {
                                proof {
                                    assert(names_view(list@)[index as int] == list@[index as int]@);
                                }
                                let first = list[index].clone();
                                self.selected_index = -1;
                                self.page_offset = 0;
                                set_buffer(&mut self.input_buffer, &first);
                                SearchAction::Render
                            },
                            None => SearchAction::Nothing,
                        }
                    } else {
                        SearchAction::Nothing
                    }
                },
                _ => SearchAction::Nothing,
            }
        } else {
            match key {
                Key::Enter => {
                    let selected = self.selected_index as usize;
                    match &self.matched_file_list {
                        Some(list) => {
                            proof {
                                assert(names_view(list@)[selected as int] == list@[selected as int]@);
                            }
                            SearchAction::Open(list[selected].clone())
                        },
                        None => SearchAction::Nothing,
                    }
                },
                Key::Down => {
                    let count = list_count(&self.matched_file_list);
                    if move_down(&mut self.selected_index, &mut self.page_offset, self.page_size, count) {
                        SearchAction::Render
                    } else {
                        SearchAction::Nothing
                    }
                },
                Key::Up => {
                    if move_up(&mut self.selected_index, &mut self.page_offset, 0) {
                        SearchAction::Render
                    } else {
                        SearchAction::Nothing
                    }
                },
                _ => SearchAction::Nothing,
            }
        }
    }

    /// Enter while choosing a map code (see [`mode2_enter_code`]).
    fn enter_code(&mut self) -> (action: SearchAction)
        requires
            old(self)@.wf(),
            old(self).mode == 1,
        ensures
            (final(self)@, action@) == mode2_enter_code(old(self)@),
    {
        let selected = self.selected_index;
        let code: String = if selected >= 0 {
            match &self.matched_code_list {
                Some(list) => {
                    proof {
                        assert(names_view(list@)[selected as int] == list@[selected as int]@);
                    }
                    list[selected as usize].clone()
                },
                None => String::new(),
            }
        } else {
            let c = buffer_string(&self.input_buffer);
            if c.as_str().is_empty() {
                return SearchAction::EmptyInput;
            }
            c
        };
        let ghost m = self.code_map@;
        let found = match self.code_map.get(&code) {
            None => None,
            Some(files) => Some(clone_names(files)),
        };
        match found {
            None => SearchAction::UnknownCode(code),
            Some(files) => {
                proof {
                    let k = code_index(m, code@, 0);
                    lemma_code_index_bounds(m, code@, 0);
                    assert(m[k].1.len() >= 1);
                }
                if files.len() == 1 {
                    proof {
                        assert(names_view(files@)[0] == files@[0]@);
                    }
                    SearchAction::Open(files[0].clone())
                } else {
                    self.mode = 2;
                    self.matched_file_list = Some(files);
                    self.selected_index = 0;
                    self.page_offset = 0;
                    SearchAction::ChooseFile
                }
            },
        }
    }
}

/// The map codes found in one file's mission text.
#[derive(Debug)]
pub struct FileCodes {
    pub name: String,
    pub codes: Vec<String>,
}

/// Whether the map codes of the files still have to be read: none has been
/// kept yet.
pub fn cache_needs_scan(cached_files: usize) -> (r: bool)
    ensures
        r == (cached_files == 0),
{
    cached_files == 0
}

/// The files that are worth keeping with their codes: those with at least
/// one map code, in order.
pub open spec fn with_codes(fs: Seq<(Seq<char>, Seq<Seq<char>>)>) -> Seq<(Seq<char>, Seq<Seq<char>>)>
    decreases fs.len(),
{
    if fs.len() == 0 {
        Seq::empty()
    } else {
        let rest = with_codes(fs.drop_last());
        if fs.last().1.len() > 0 {
            rest.push(fs.last())
        } else {
            rest
        }
    }
}

/// The scanned files that have map codes, each with its codes (see
/// [`with_codes`]).
pub fn files_with_codes(scanned: &Vec<FileCodes>) -> (kept: Vec<FileCodes>)
    ensures
        files_view(kept@) == with_codes(files_view(scanned@)),
{
    let ghost sv = files_view(scanned@);
    let mut kept: Vec<FileCodes> = Vec::new();
    let mut i: usize = 0;
    while i < scanned.len()
        invariant
            i <= scanned@.len(),
            sv == files_view(scanned@),
            files_view(kept@) == with_codes(sv.subrange(0, i as int)),
        decreases scanned.len() - i,
    {
        proof {
            assert(sv.subrange(0, i + 1).drop_last() == sv.subrange(0, i as int));
            assert(sv.subrange(0, i + 1).last() == file_codes_view(scanned@[i as int]));
        }
        let ghost before = files_view(kept@);
        if scanned[i].codes.len() > 0 {
            let entry = FileCodes { name: scanned[i].name.clone(), codes: clone_names(&scanned[i].codes) };
            kept.push(entry);
            proof {
                assert(files_view(kept@) == before.push(file_codes_view(scanned@[i as int])));
            }
        }
        i += 1;
    }
    proof {
        assert(sv.subrange(0, scanned@.len() as int) == sv);
    }
    kept
}

/// A file's codes as plain values: its name and its codes.
pub open spec fn file_codes_view(f: FileCodes) -> (Seq<char>, Seq<Seq<char>>) {
    (f.name@, names_view(f.codes@))
}

pub open spec fn files_view(v: Seq<FileCodes>) -> Seq<(Seq<char>, Seq<Seq<char>>)> {
    v.map_values(|f: FileCodes| file_codes_view(f))
}

/// Whether some file holds the code `c`.
pub open spec fn some_file_holds(fs: Seq<(Seq<char>, Seq<Seq<char>>)>, c: Seq<char>) -> bool {
    exists|i: int| 0 <= i < fs.len() && #[trigger] fs[i].1.contains(c)
}

/// Whether a file named `f` holds the code `c`.
pub open spec fn named_file_holds(fs: Seq<(Seq<char>, Seq<Seq<char>>)>, f: Seq<char>, c: Seq<char>) -> bool {
    exists|i: int| 0 <= i < fs.len() && #[trigger] fs[i].0 == f && fs[i].1.contains(c)
}

/// The codes of a code map.
pub open spec fn map_codes(m: Seq<(Seq<char>, Seq<Seq<char>>)>) -> Seq<Seq<char>> {
    m.map_values(|e: (Seq<char>, Seq<Seq<char>>)| e.0)
}

/// `m` maps each code that some file of `fs` holds, once, to the names of
/// the files that hold it, each once.
pub open spec fn is_code_map_of(
    m: Seq<(Seq<char>, Seq<Seq<char>>)>,
    fs: Seq<(Seq<char>, Seq<Seq<char>>)>,
) -> bool {
    &&& map_codes(m).no_duplicates()
    &&& forall|c: Seq<char>| #[trigger] map_codes(m).contains(c) <==> some_file_holds(fs, c)
    &&& forall|k: int| 0 <= k < m.len() ==> (#[trigger] m[k]).1.no_duplicates()
    &&& forall|k: int, f: Seq<char>|
        0 <= k < m.len() ==> (#[trigger] m[k].1.contains(f) <==> named_file_holds(fs, f, m[k].0))
}

/// Looking a code up in the map built from some files gives exactly the
/// files that hold the code, and nothing for a code that no file holds.
pub proof fn lemma_code_lookup(
    m: Seq<(Seq<char>, Seq<Seq<char>>)>,
    fs: Seq<(Seq<char>, Seq<Seq<char>>)>,
    c: Seq<char>,
)
    requires
        is_code_map_of(m, fs),
    ensures
        code_files(m, c) is Some <==> some_file_holds(fs, c),
        code_files(m, c) matches Some(files) ==> forall|f: Seq<char>|
            #[trigger] files.contains(f) <==> named_file_holds(fs, f, c),
{
    lemma_code_index_bounds(m, c, 0);
    let k = code_index(m, c, 0);
    if k < m.len() {
        assert(map_codes(m)[k] == c);
        assert(map_codes(m).contains(c));
    } else if some_file_holds(fs, c) {
        assert(map_codes(m).contains(c));
        let j = choose|j: int| 0 <= j < map_codes(m).len() && map_codes(m)[j] == c;
        assert(m[j].0 == c);
    }
}

/// Whether the list `v` holds `x`.
fn contains_string(v: &Vec<String>, x: &String) -> (r: bool)
    ensures
        r == names_view(v@).contains(x@),
{
    let mut i: usize = 0;
    while i < v.len()
        invariant
            i <= v@.len(),
            forall|k: int| 0 <= k < i ==> names_view(v@)[k] != x@,
        decreases v.len() - i,
    {
        if v[i].eq(x) {
            proof {
                assert(names_view(v@)[i as int] == x@);
            }
            return true;
        }
        i += 1;
    }
    false
}

/// Groups the map codes of `files` by code: each code that some file holds,
/// with the names of the files that hold it.
pub fn build_code_map(files: &Vec<FileCodes>) -> (m: CodeMap)
    ensures
        is_code_map_of(m@, files_view(files@)),
        code_map_wf(m@),
{
    let ghost fs = files_view(files@);
    // the distinct codes, in order of first appearance
    let mut codes: Vec<String> = Vec::new();
    let mut i: usize = 0;
    while i < files.len()
        invariant
            fs == files_view(files@),
            i <= files@.len(),
            names_view(codes@).no_duplicates(),
            forall|c: Seq<char>|
                #[trigger] names_view(codes@).contains(c) <==> exists|a: int|
                    0 <= a < i && #[trigger] fs[a].1.contains(c),
        decreases files.len() - i,
    {
        let ghost before = i;
        let file_codes = &files[i].codes;
        proof {
            assert(fs[i as int] == file_codes_view(files@[i as int]));
        }
        let mut j: usize = 0;
        while j < file_codes.len()
            invariant
                fs == files_view(files@),
                i < files@.len(),
                file_codes == files@[i as int].codes,
                fs[i as int].1 == names_view(file_codes@),
                j <= file_codes@.len(),
                names_view(codes@).no_duplicates(),
                forall|c: Seq<char>|
                    #[trigger] names_view(codes@).contains(c) <==> ((exists|a: int|
                        0 <= a < i && #[trigger] fs[a].1.contains(c)) || names_view(
                        file_codes@,
                    ).subrange(0, j as int).contains(c)),
            decreases file_codes.len() - j,
        {
            let c = &file_codes[j];
            let ghost old_codes = names_view(codes@);
            proof {
                assert(names_view(file_codes@).subrange(0, j + 1) == names_view(file_codes@).subrange(
                    0,
                    j as int,
                ).push(c@));
            }
            let present = contains_string(&codes, c);
            if !present {
                codes.push(c.clone());
                proof {
                    assert(names_view(codes@) == old_codes.push(c@));
                    assert forall|a: int, b: int|
                        0 <= a < names_view(codes@).len() && 0 <= b < names_view(codes@).len() && a
                            != b implies names_view(codes@)[a] != names_view(codes@)[b] by {
                        if a == old_codes.len() as int {
                            assert(names_view(codes@)[b] == old_codes[b]);
                            assert(old_codes.contains(old_codes[b]));
                        } else if b == old_codes.len() as int {
                            assert(names_view(codes@)[a] == old_codes[a]);
                            assert(old_codes.contains(old_codes[a]));
                        }
                    }
                }
            }
            proof {
                let sub_j = names_view(file_codes@).subrange(0, j as int);
                let sub_j1 = names_view(file_codes@).subrange(0, j + 1);
                assert(sub_j1[j as int] == c@);
                assert(names_view(codes@).contains(c@)) by {
                    if !present {
                        assert(names_view(codes@)[old_codes.len() as int] == c@);
                    }
                }
                assert forall|x: Seq<char>| old_codes.contains(x) implies names_view(codes@).contains(x) by {
                    let q = choose|q: int| 0 <= q < old_codes.len() && #[trigger] old_codes[q] == x;
                    assert(names_view(codes@)[q] == x);
                }
                assert forall|x: Seq<char>| sub_j.contains(x) implies sub_j1.contains(x) by {
                    let q = choose|q: int| 0 <= q < sub_j.len() && #[trigger] sub_j[q] == x;
                    assert(sub_j1[q] == x);
                }
                assert forall|x: Seq<char>| #[trigger] names_view(codes@).contains(x) <==> ((exists|a: int|
                    0 <= a < i && #[trigger] fs[a].1.contains(x)) || sub_j1.contains(x)) by {
                    if old_codes.contains(x) {
                        assert(names_view(codes@).contains(x));
                    }
                    if sub_j.contains(x) {
                        assert(sub_j1.contains(x));
                    }
                    if names_view(codes@).contains(x) && x != c@ {
                        let q = choose|q: int|
                            0 <= q < names_view(codes@).len() && #[trigger] names_view(codes@)[q] == x;
                        if !present {
                            assert(q < old_codes.len());
                        }
                        assert(old_codes[q] == x);
                        assert(old_codes.contains(x));
                    }
                    if sub_j1.contains(x) && x != c@ {
                        let q = choose|q: int| 0 <= q < j + 1 && #[trigger] sub_j1[q] == x;
                        assert(sub_j[q] == x);
                        assert(sub_j.contains(x));
                    }
                }
            }
            j += 1;
        }
        proof {
            assert(names_view(file_codes@).subrange(0, file_codes@.len() as int) == names_view(
                file_codes@,
            ));
            assert forall|x: Seq<char>| #[trigger] names_view(codes@).contains(x) <==> exists|a: int|
                0 <= a < i + 1 && #[trigger] fs[a].1.contains(x) by {
                if fs[i as int].1.contains(x) {
                    assert(0 <= i < i + 1 && fs[i as int].1.contains(x));
                }
            }
        }
        i += 1;
    }

    // the files of each code, in the order of `files`
    let mut entries: Vec<CodeEntry> = Vec::new();
    let mut k: usize = 0;
    while k < codes.len()
        invariant
            fs == files_view(files@),
            i == files@.len(),
            k <= codes@.len(),
            names_view(codes@).no_duplicates(),
            forall|c: Seq<char>|
                #[trigger] names_view(codes@).contains(c) <==> some_file_holds(fs, c),
            entries@.len() == k,
            forall|e: int| 0 <= e < k ==> (#[trigger] entries@[e]).code@ == names_view(codes@)[e],
            forall|e: int|
                0 <= e < k ==> names_view((#[trigger] entries@[e]).files@).no_duplicates(),
            forall|e: int| 0 <= e < k ==> names_view((#[trigger] entries@[e]).files@).len() >= 1,
            forall|e: int, f: Seq<char>|
                0 <= e < k ==> (#[trigger] names_view(entries@[e].files@).contains(f)
                    <==> named_file_holds(fs, f, names_view(codes@)[e])),
        decreases codes.len() - k,
    {
        let code = &codes[k];
        proof {
            assert(names_view(codes@)[k as int] == code@);
        }
        let mut holders: Vec<String> = Vec::new();
        let mut a: usize = 0;
        while a < files.len()
            invariant
                fs == files_view(files@),
                a <= files@.len(),
                names_view(holders@).no_duplicates(),
                forall|f: Seq<char>|
                    #[trigger] names_view(holders@).contains(f) <==> exists|b: int|
                        0 <= b < a && #[trigger] fs[b].0 == f && fs[b].1.contains(code@),
            decreases files.len() - a,
        {
            proof {
                assert(fs[a as int] == file_codes_view(files@[a as int]));
            }
            let ghost old_h = names_view(holders@);
            let holds = contains_string(&files[a].codes, code);
            let listed = contains_string(&holders, &files[a].name);
            if holds && !listed {
                holders.push(files[a].name.clone());
                proof {
                    assert(names_view(holders@) == old_h.push(fs[a as int].0));
                    assert forall|x: int, y: int|
                        0 <= x < names_view(holders@).len() && 0 <= y < names_view(holders@).len()
                            && x != y implies names_view(holders@)[x] != names_view(holders@)[y] by {
                        if x == old_h.len() as int {
                            assert(names_view(holders@)[y] == old_h[y]);
                            assert(old_h.contains(old_h[y]));
                        } else if y == old_h.len() as int {
                            assert(names_view(holders@)[x] == old_h[x]);
                            assert(old_h.contains(old_h[x]));
                        }
                    }
                }
            }
            proof {
                assert forall|f: Seq<char>| #[trigger] names_view(holders@).contains(f) <==> exists|b: int|
                    0 <= b < a + 1 && #[trigger] fs[b].0 == f && fs[b].1.contains(code@) by {
                    if names_view(holders@).contains(f) && !old_h.contains(f) {
                        assert(f == fs[a as int].0);
                    }
                    if fs[a as int].0 == f && fs[a as int].1.contains(code@) {
                        assert(holds);
                        if !listed {
                            assert(names_view(holders@)[old_h.len() as int] == f);
                        } else {
                            assert(old_h.contains(f));
                        }
                        assert(names_view(holders@).contains(f) || old_h.contains(f));
                        if old_h.contains(f) {
                            let q = choose|q: int| 0 <= q < old_h.len() && #[trigger] old_h[q] == f;
                            assert(names_view(holders@)[q] == f);
                        }
                    }
                    if old_h.contains(f) {
                        let q = choose|q: int| 0 <= q < old_h.len() && #[trigger] old_h[q] == f;
                        assert(names_view(holders@)[q] == f);
                    }
                }
            }
            a += 1;
        }
        proof {
            // the code is held by some file, so it has a holder
            assert(names_view(codes@).contains(code@));
            let b = choose|b: int| 0 <= b < fs.len() && #[trigger] fs[b].1.contains(code@);
            assert(names_view(holders@).contains(fs[b].0));
        }
        let ghost old_entries = entries@;
        entries.push(CodeEntry { code: code.clone(), files: holders });
        proof {
            assert forall|e: int, f: Seq<char>|
                0 <= e < k + 1 implies (#[trigger] names_view(entries@[e].files@).contains(f)
                    <==> named_file_holds(fs, f, names_view(codes@)[e])) by {
                if e < k {
                    assert(entries@[e] == old_entries[e]);
                } else {
                    if named_file_holds(fs, f, code@) {
                        let b = choose|b: int|
                            0 <= b < fs.len() && #[trigger] fs[b].0 == f && fs[b].1.contains(code@);
                        assert(names_view(entries@[e].files@).contains(fs[b].0));
                    }
                }
            }
        }
        k += 1;
    }
    let m = CodeMap { entries };
    proof {
        assert(map_codes(m@) == names_view(codes@));
        assert forall|e: int| 0 <= e < m@.len() implies #[trigger] m@[e].1.len() >= 1 by {
            assert(m@[e] == entry_view(entries@[e]));
        }
        assert forall|e: int| 0 <= e < m@.len() implies (#[trigger] m@[e]).1.no_duplicates() by {
            assert(m@[e] == entry_view(entries@[e]));
        }
        assert forall|e: int, f: Seq<char>| 0 <= e < m@.len() implies (#[trigger] m@[e].1.contains(f)
            <==> named_file_holds(fs, f, m@[e].0)) by {
            assert(m@[e] == entry_view(entries@[e]));
        }
    }
    m
}

/// The matches of the regular expression `pattern` (`regex::bytes`
/// syntax) in `text`: for each match, left to right, the bytes of its first
/// group, when that group took part in the match; `None` when the pattern
/// is not a valid regular expression.
pub uninterp spec fn regex_group1(pattern: Seq<char>, text: Seq<u8>) -> Option<Seq<Option<Seq<u8>>>>;

/// A capture as plain values.
pub open spec fn capture_view(c: Option<Vec<u8>>) -> Option<Seq<u8>> {
    match c {
        Some(b) => Some(b@),
        None => None,
    }
}

/// Compiles `pattern` with `regex::bytes::Regex::new` and collects, with
/// `captures_iter`, the first group of every match in `text`. The result is
/// named by `regex_group1`.
#[verifier::external_body]
fn regex_captures(pattern: &str, text: &[u8]) -> (r: Option<Vec<Option<Vec<u8>>>>)
    ensures
        regex_group1(pattern@, text@) == match r {
            Some(v) => Some(v@.map_values(|c: Option<Vec<u8>>| capture_view(c))),
            None => None::<Seq<Option<Seq<u8>>>>,
        },
{
    match regex::bytes::Regex::new(pattern) {
        Ok(re) => Some(
            re.captures_iter(text).map(|c| c.get(1).map(|m| m.as_bytes().to_vec())).collect(),
        ),
        Err(_) => None,
    }
}

/// The pattern of a `"Map" "<code>"` pair, in any case of `map`.
pub open spec fn coop_map_pattern() -> Seq<char> {
    "(?i)\"map\"\\s*\"([^\"]+)\""@
}

/// The texts of the captures that are present and valid UTF-8, in order.
pub open spec fn decoded_captures(caps: Seq<Option<Seq<u8>>>) -> Seq<Seq<char>>
    decreases caps.len(),
{
    if caps.len() == 0 {
        Seq::empty()
    } else {
        let rest = decoded_captures(caps.drop_last());
        match caps.last() {
            Some(b) => if vstd::utf8::valid_utf8(b) {
                rest.push(vstd::utf8::decode_utf8(b))
            } else {
                rest
            },
            None => rest,
        }
    }
}

/// Decodes the captures of the map code pattern: the text of every capture
/// that is present and valid UTF-8, in order (see [`decoded_captures`]).
pub fn decode_captures(caps: &Vec<Option<Vec<u8>>>) -> (results: Vec<String>)
    ensures
        strings_view(results@) == decoded_captures(
            caps@.map_values(|c: Option<Vec<u8>>| capture_view(c)),
        ),
{
    let ghost cv = caps@.map_values(|c: Option<Vec<u8>>| capture_view(c));
    let mut results: Vec<String> = Vec::new();
    let mut i: usize = 0;
    while i < caps.len()
        invariant
            i <= caps@.len(),
            cv == caps@.map_values(|c: Option<Vec<u8>>| capture_view(c)),
            strings_view(results@) == decoded_captures(cv.subrange(0, i as int)),
        decreases caps.len() - i,
    {
        let ghost before = strings_view(results@);
        proof {
            assert(cv.subrange(0, i + 1).drop_last() == cv.subrange(0, i as int));
            assert(cv.subrange(0, i + 1).last() == capture_view(caps@[i as int]));
        }
        match &caps[i] {
            Some(bytes) => {
                match crate::text::utf8_text(bytes.as_slice()) {
                    Some(s) => {
                        results.push(s);
                        proof {
                            assert(strings_view(results@) == before.push(results@.last()@));
                        }
                    },
                    None => {},
                }
            },
            None => {},
        }
        i += 1;
    }
    proof {
        assert(cv.subrange(0, caps@.len() as int) == cv);
    }
    results
}

/// The entries of `found` that `keep` lists, in order.
pub open spec fn only_listed(found: Seq<Seq<char>>, keep: Seq<Seq<char>>) -> Seq<Seq<char>>
    decreases found.len(),
{
    if found.len() == 0 {
        Seq::empty()
    } else {
        let rest = only_listed(found.drop_last(), keep);
        if keep.contains(found.last()) {
            rest.push(found.last())
        } else {
            rest
        }
    }
}

/// An entry kept is one of `found` and one that `keep` lists.
pub proof fn lemma_only_listed_sound(found: Seq<Seq<char>>, keep: Seq<Seq<char>>, x: Seq<char>)
    requires
        only_listed(found, keep).contains(x),
    ensures
        found.contains(x),
        keep.contains(x),
    decreases found.len(),
{
    if found.len() > 0 {
        let rest = only_listed(found.drop_last(), keep);
        if rest.contains(x) {
            lemma_only_listed_sound(found.drop_last(), keep, x);
            let k = choose|k: int| 0 <= k < found.drop_last().len() && found.drop_last()[k] == x;
            assert(found[k] == x);
        } else {
            let r = only_listed(found, keep);
            let k = choose|k: int| 0 <= k < r.len() && r[k] == x;
            assert(x == found.last());
            assert(found[found.len() - 1] == x);
        }
    }
}

/// The entries of `found` that `keep` lists (see [`only_listed`]).
pub fn keep_listed(found: &Vec<String>, keep: &Vec<String>) -> (r: Vec<String>)
    ensures
        strings_view(r@) == only_listed(strings_view(found@), strings_view(keep@)),
{
    let ghost fv = strings_view(found@);
    let mut r: Vec<String> = Vec::new();
    let mut i: usize = 0;
    while i < found.len()
        invariant
            i <= found@.len(),
            fv == strings_view(found@),
            strings_view(r@) == only_listed(fv.subrange(0, i as int), strings_view(keep@)),
        decreases found.len() - i,
    {
        let ghost before = strings_view(r@);
        proof {
            assert(fv.subrange(0, i + 1).drop_last() == fv.subrange(0, i as int));
            assert(fv.subrange(0, i + 1).last() == found@[i as int]@);
            assert(strings_view(keep@) == names_view(keep@));
        }
        if contains_string(keep, &found[i]) {
            r.push(found[i].clone());
            proof {
                assert(strings_view(r@) == before.push(found@[i as int]@));
            }
        }
        i += 1;
    }
    proof {
        assert(fv.subrange(0, found@.len() as int) == fv);
    }
    r
}

/// The map codes of the coop block of a mission text: the values of the
/// `"Map" "<code>"` pairs (with `map` in any case) that a regular expression
/// finds, keeping those that the coop block lists (see
/// [`crate::mission::parse_coop_maps`]); `None` when the expression cannot
/// be compiled.
pub fn extract_coop_maps(text: &str) -> (r: Option<Vec<String>>)
    ensures
        match (r, regex_group1(coop_map_pattern(), text.spec_bytes())) {
            (Some(v), Some(caps)) => strings_view(v@) == only_listed(
                decoded_captures(caps),
                crate::mission::spec_coop_maps(crate::mission::spec_tokenize(text@)),
            ),
            (None, None) => true,
            _ => false,
        },
{
    let pattern = "(?i)\"map\"\\s*\"([^\"]+)\"";
    let caps = match regex_captures(pattern, text.as_bytes()) {
        Some(c) => c,
        None => return None,
    };
    let found = decode_captures(&caps);
    let coop = crate::mission::parse_coop_maps(text);
    proof {
        assert(strings_view(coop@) == crate::mission::strings_view(coop@));
    }
    Some(keep_listed(&found, &coop))
}

/// Every code the pattern search reports is a map code of the coop block.
pub proof fn lemma_extracted_codes_are_coop(found: Seq<Seq<char>>, text: Seq<char>, x: Seq<char>)
    requires
        only_listed(found, crate::mission::spec_coop_maps(crate::mission::spec_tokenize(text))).contains(x),
    ensures
        crate::mission::spec_coop_maps(crate::mission::spec_tokenize(text)).contains(x),
{
    lemma_only_listed_sound(found, crate::mission::spec_coop_maps(crate::mission::spec_tokenize(text)), x);
}

/// Whether a list of texts is sorted and holds the same texts, as often, as
/// `files`.
pub open spec fn is_sorted_copy(group: Seq<Seq<char>>, files: Seq<Seq<char>>) -> bool {
    sorted_texts(group) && group.to_multiset() == files.to_multiset()
}

/// Whether `group` is the sorted list of the files of a code of `m` that
/// more than one file holds.
pub open spec fn is_shared_code_group(m: Seq<(Seq<char>, Seq<Seq<char>>)>, group: Seq<Seq<char>>) -> bool {
    exists|e: int| 0 <= e < m.len() && (#[trigger] m[e]).1.len() > 1 && is_sorted_copy(group, m[e].1)
}

/// Whether two lists of strings hold the same texts in the same order.
fn same_names(a: &Vec<String>, b: &Vec<String>) -> (r: bool)
    ensures
        r == (strings_view(a@) == strings_view(b@)),
{
    if a.len() != b.len() {
        proof {
            assert(strings_view(a@).len() != strings_view(b@).len());
        }
        return false;
    }
    let mut i: usize = 0;
    while i < a.len()
        invariant
            a@.len() == b@.len(),
            i <= a@.len(),
            forall|k: int| 0 <= k < i ==> strings_view(a@)[k] == strings_view(b@)[k],
        decreases a.len() - i,
    {
        if !a[i].eq(&b[i]) {
            proof {
                assert(strings_view(a@)[i as int] != strings_view(b@)[i as int]);
            }
            return false;
        }
        i += 1;
    }
    proof {
        assert(strings_view(a@) == strings_view(b@));
    }
    true
}

/// A sorted copy of a list of names.
fn sorted_copy(files: &Vec<String>) -> (r: Vec<String>)
    ensures
        is_sorted_copy(strings_view(r@), names_view(files@)),
{
    let mut copy: Vec<String> = Vec::new();
    let mut c: usize = 0;
    while c < files.len()
        invariant
            c <= files@.len(),
            strings_view(copy@) == strings_view(files@).subrange(0, c as int),
        decreases files.len() - c,
    {
        let ghost before = strings_view(copy@);
        copy.push(files[c].clone());
        proof {
            assert(strings_view(copy@) == before.push(files@[c as int]@));
        }
        c += 1;
    }
    proof {
        assert(strings_view(files@).subrange(0, files@.len() as int) == strings_view(files@));
        assert(strings_view(files@) == names_view(files@));
    }
    sort_strings(copy)
}

/// The groups of files that share a map code: for each code held by more
/// than one file, the names of its files in sorted order; each group once.
pub fn duplicate_code_groups(m: &CodeMap) -> (groups: Vec<Vec<String>>)
    ensures
        forall|g: int|
            0 <= g < groups@.len() ==> is_shared_code_group(m@, strings_view(#[trigger] groups@[g]@)),
        forall|k: int|
            0 <= k < m@.len() && (#[trigger] m@[k]).1.len() > 1 ==> exists|g: int|
                0 <= g < groups@.len() && is_sorted_copy(strings_view(#[trigger] groups@[g]@), m@[k].1),
        forall|g: int, h: int|
            0 <= g < h < groups@.len() ==> strings_view(#[trigger] groups@[g]@) != strings_view(
                #[trigger] groups@[h]@,
            ),
{
    let mut groups: Vec<Vec<String>> = Vec::new();
    let mut k: usize = 0;
    while k < m.entries.len()
        invariant
            k <= m@.len(),
            m@.len() == m.entries@.len(),
            forall|g: int|
                0 <= g < groups@.len() ==> is_shared_code_group(m@, strings_view(#[trigger] groups@[g]@)),
            forall|e: int|
                0 <= e < k && (#[trigger] m@[e]).1.len() > 1 ==> exists|g: int|
                    0 <= g < groups@.len() && is_sorted_copy(strings_view(#[trigger] groups@[g]@), m@[e].1),
            forall|g: int, h: int|
                0 <= g < h < groups@.len() ==> strings_view(#[trigger] groups@[g]@) != strings_view(
                    #[trigger] groups@[h]@,
                ),
        decreases m.entries.len() - k,
    {
        proof {
            assert(m@[k as int] == entry_view(m.entries@[k as int]));
        }
        let files = &m.entries[k].files;
        if files.len() > 1 {
            let sorted = sorted_copy(files);
            // skip a group that is already listed
            let mut seen = false;
            let mut g: usize = 0;
            while g < groups.len()
                invariant
                    g <= groups@.len(),
                    seen ==> exists|h: int|
                        0 <= h < groups@.len() && strings_view(#[trigger] groups@[h]@) == strings_view(
                            sorted@,
                        ),
                    !seen ==> forall|h: int|
                        0 <= h < g ==> strings_view(#[trigger] groups@[h]@) != strings_view(sorted@),
                decreases groups.len() - g,
            {
                if same_names(&groups[g], &sorted) {
                    seen = true;
                }
                g += 1;
            }
            let ghost old_groups = groups@;
            if !seen {
                groups.push(sorted);
                proof {
                    assert forall|x: int, y: int|
                        0 <= x < y < groups@.len() implies strings_view(#[trigger] groups@[x]@)
                            != strings_view(#[trigger] groups@[y]@) by {
                        if y == old_groups.len() {
                            assert(groups@[x] == old_groups[x]);
                        } else {
                            assert(groups@[x] == old_groups[x]);
                            assert(groups@[y] == old_groups[y]);
                        }
                    }
                    assert forall|gg: int| 0 <= gg < groups@.len() implies is_shared_code_group(
                        m@,
                        strings_view(#[trigger] groups@[gg]@),
                    ) by {
                        if gg < old_groups.len() {
                            assert(groups@[gg] == old_groups[gg]);
                        } else {
                            assert(is_sorted_copy(strings_view(groups@[gg]@), m@[k as int].1));
                        }
                    }
                    assert forall|e: int|
                        0 <= e < k + 1 && (#[trigger] m@[e]).1.len() > 1 implies exists|gg: int|
                            0 <= gg < groups@.len() && is_sorted_copy(
                                strings_view(#[trigger] groups@[gg]@),
                                m@[e].1,
                            ) by {
                        if e < k {
                            let gg = choose|gg: int|
                                0 <= gg < old_groups.len() && is_sorted_copy(
                                    strings_view(#[trigger] old_groups[gg]@),
                                    m@[e].1,
                                );
                            assert(groups@[gg] == old_groups[gg]);
                        } else {
                            let last = (groups@.len() - 1) as int;
                            assert(is_sorted_copy(strings_view(groups@[last]@), m@[e].1));
                        }
                    }
                }
            } else {
                proof {
                    let h = choose|h: int|
                        0 <= h < groups@.len() && strings_view(#[trigger] groups@[h]@) == strings_view(
                            sorted@,
                        );
                    assert(is_sorted_copy(strings_view(groups@[h]@), m@[k as int].1));
                }
            }
        }
        k += 1;
    }
    groups
}

/// The names joined into one text, separated by commas.
pub open spec fn join_commas(names: Seq<Seq<char>>) -> Seq<char>
    decreases names.len(),
{
    if names.len() == 0 {
        Seq::empty()
    } else if names.len() == 1 {
        names[0]
    } else {
        join_commas(names.drop_last()) + seq![','] + names.last()
    }
}

/// The pieces of a text between its commas, as `str::split(",")` gives
/// them (an empty text is one empty piece).
pub open spec fn split_commas(s: Seq<char>) -> Seq<Seq<char>>
    decreases s.len(),
{
    if s.len() == 0 {
        seq![Seq::empty()]
    } else {
        let r = split_commas(s.drop_last());
        if s.last() == ',' {
            r.push(Seq::empty())
        } else {
            r.update(r.len() - 1, r.last().push(s.last()))
        }
    }
}

/// The lists of names of the groups, by view.
pub open spec fn name_lists_view(groups: Seq<Vec<String>>) -> Seq<Seq<Seq<char>>> {
    groups.map_values(|g: Vec<String>| strings_view(g@))
}

/// The groups as the report of files sharing map codes lists them: each
/// group's names are joined with commas, a joined text that an earlier
/// group already gave is left out, and each text is split again at its
/// commas into the lines of its group.
pub open spec fn printed_groups(groups: Seq<Seq<Seq<char>>>) -> Seq<Seq<Seq<char>>>
    decreases groups.len(),
{
    if groups.len() == 0 {
        Seq::empty()
    } else {
        let before = groups.drop_last();
        let joined = join_commas(groups.last());
        let rest = printed_groups(before);
        if before.map_values(|g: Seq<Seq<char>>| join_commas(g)).contains(joined) {
            rest
        } else {
            rest.push(split_commas(joined))
        }
    }
}

/// The names joined with commas (see [`join_commas`]).
pub fn join_with_commas(names: &Vec<String>) -> (r: String)
    ensures
        r@ == join_commas(strings_view(names@)),
{
    let ghost nv = strings_view(names@);
    let mut r = String::new();
    let mut i: usize = 0;
    while i < names.len()
        invariant
            i <= names@.len(),
            nv == strings_view(names@),
            r@ == join_commas(nv.subrange(0, i as int)),
        decreases names.len() - i,
    {
        let ghost before = r@;
        proof {
            assert(nv.subrange(0, i + 1).drop_last() == nv.subrange(0, i as int));
            assert(nv.subrange(0, i + 1).last() == names@[i as int]@);
        }
        if i > 0 {
            r.push(',');
        }
        let chars = crate::text::chars_of(names[i].as_str());
        let ghost mid = r@;
        let mut k: usize = 0;
        while k < chars.len()
            invariant
                k <= chars@.len(),
                r@ == mid + chars@.subrange(0, k as int),
            decreases chars.len() - k,
        {
            r.push(chars[k]);
            k += 1;
        }
        proof {
            assert(chars@.subrange(0, chars@.len() as int) == chars@);
            if i == 0 {
                assert(r@ == names@[0]@);
            } else {
                assert(r@ == before + seq![','] + names@[i as int]@);
            }
        }
        i += 1;
    }
    proof {
        assert(nv.subrange(0, names@.len() as int) == nv);
    }
    r
}

/// The pieces of `s` between its commas (see [`split_commas`]).
pub fn split_at_commas(s: &String) -> (r: Vec<String>)
    ensures
        strings_view(r@) == split_commas(s@),
{
    let chars = crate::text::chars_of(s.as_str());
    let mut done: Vec<String> = Vec::new();
    let mut current = String::new();
    let mut i: usize = 0;
    while i < chars.len()
        invariant
            chars@ == s@,
            i <= chars@.len(),
            strings_view(done@).push(current@) == split_commas(s@.subrange(0, i as int)),
        decreases chars.len() - i,
    {
        let ghost prefix = s@.subrange(0, i + 1);
        let ghost before = strings_view(done@);
        let ghost cur = current@;
        proof {
            assert(prefix.drop_last() == s@.subrange(0, i as int));
            assert(prefix.last() == chars@[i as int]);
        }
        if chars[i] == ',' {
            let finished = current;
            done.push(finished);
            current = String::new();
            proof {
                assert(strings_view(done@) == before.push(cur));
            }
        } else {
            current.push(chars[i]);
            proof {
                let r = before.push(cur);
                assert(r.update(r.len() - 1, r.last().push(chars@[i as int])) == before.push(
                    current@,
                ));
            }
        }
        i += 1;
    }
    proof {
        assert(s@.subrange(0, chars@.len() as int) == s@);
    }
    let ghost before = strings_view(done@);
    done.push(current);
    proof {
        assert(strings_view(done@) == before.push(done@.last()@));
    }
    done
}

/// The groups as the report of files sharing map codes lists them (see
/// [`printed_groups`]).
pub fn print_groups(groups: &Vec<Vec<String>>) -> (lines: Vec<Vec<String>>)
    ensures
        name_lists_view(lines@) == printed_groups(name_lists_view(groups@)),
{
    let ghost gv = name_lists_view(groups@);
    let mut lines: Vec<Vec<String>> = Vec::new();
    let mut joins: Vec<String> = Vec::new();
    let mut i: usize = 0;
    while i < groups.len()
        invariant
            i <= groups@.len(),
            gv == name_lists_view(groups@),
            name_lists_view(lines@) == printed_groups(gv.subrange(0, i as int)),
            strings_view(joins@) == gv.subrange(0, i as int).map_values(
                |g: Seq<Seq<char>>| join_commas(g),
            ),
        decreases groups.len() - i,
    {
        let ghost pre = gv.subrange(0, i + 1);
        proof {
            assert(pre.drop_last() == gv.subrange(0, i as int));
            assert(pre.last() == strings_view(groups@[i as int]@));
        }
        let joined = join_with_commas(&groups[i]);
        let seen = contains_string(&joins, &joined);
        proof {
            assert(strings_view(joins@) == names_view(joins@));
        }
        let ghost old_lines = name_lists_view(lines@);
        let ghost old_joins = strings_view(joins@);
        if !seen {
            let pieces = split_at_commas(&joined);
            lines.push(pieces);
            proof {
                assert(name_lists_view(lines@) == old_lines.push(split_commas(joined@)));
            }
        }
        joins.push(joined);
        proof {
            assert(strings_view(joins@) == old_joins.push(join_commas(pre.last())));
            assert(pre.map_values(|g: Seq<Seq<char>>| join_commas(g)) == gv.subrange(
                0,
                i as int,
            ).map_values(|g: Seq<Seq<char>>| join_commas(g)).push(join_commas(pre.last())));
        }
        i += 1;
    }
    proof {
        assert(gv.subrange(0, groups@.len() as int) == gv);
    }
    lines
}

/// A name in double quotes.
pub open spec fn quoted(s: Seq<char>) -> Seq<char> {
    seq!['"'] + s + seq!['"']
}

/// Quoted names separated by `", "`.
pub open spec fn join_quoted(names: Seq<Seq<char>>) -> Seq<char>
    decreases names.len(),
{
    if names.len() == 0 {
        Seq::empty()
    } else if names.len() == 1 {
        quoted(names[0])
    } else {
        join_quoted(names.drop_last()) + ", "@ + quoted(names.last())
    }
}

/// How a set of file names is shown: nothing for none, `"a.vpk"` for one,
/// `["a.vpk", "b.vpk"]` for more.
pub open spec fn spec_format_files(names: Seq<Seq<char>>) -> Seq<char> {
    if names.len() == 0 {
        Seq::empty()
    } else if names.len() == 1 {
        quoted(names[0])
    } else {
        "["@ + join_quoted(names) + "]"@
    }
}

/// Formats the names of the files that hold a map code (see
/// [`spec_format_files`]).
pub fn format_hash_set(set: &Vec<String>) -> (s: String)
    ensures
        s@ == spec_format_files(names_view(set@)),
{
    let ghost nv = names_view(set@);
    if set.len() == 0 {
        return String::new();
    }
    let mut joined = String::new();
    let mut i: usize = 0;
    while i < set.len()
        invariant
            nv == names_view(set@),
            1 <= set@.len(),
            i <= set@.len(),
            joined@ == join_quoted(nv.subrange(0, i as int)),
        decreases set.len() - i,
    {
        proof {
            let sub = nv.subrange(0, i + 1);
            assert(sub.drop_last() == nv.subrange(0, i as int));
            assert(sub.last() == set@[i as int]@);
            reveal_strlit(", ");
            reveal_strlit("\"");
        }
        if i > 0 {
            joined.append(", ");
        }
        joined.append("\"");
        joined.append(set[i].as_str());
        joined.append("\"");
        i += 1;
    }
    proof {
        assert(nv.subrange(0, set@.len() as int) == nv);
        reveal_strlit("[");
        reveal_strlit("]");
        reveal_strlit("\"");
    }
    if set.len() == 1 {
        let mut one = String::new();
        one.append("\"");
        one.append(set[0].as_str());
        one.append("\"");
        proof {
            assert(nv[0] == set@[0]@);
        }
        one
    } else {
        let mut out = String::new();
        out.append("[");
        out.append(joined.as_str());
        out.append("]");
        out
    }
}

} // verus!
