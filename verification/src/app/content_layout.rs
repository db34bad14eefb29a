//! The decisions behind drawing the right-hand pane and the dialogs: the
//! mission text as shown, its measured height, the scroll percentage in the
//! title, and the rows of the duplicates and map codes dialogs.
use vstd::prelude::*;

use super::content_state::ContentState;
use super::screen::Screen;

verus! {

/// The mission text as drawn: each tab becomes four spaces.
pub open spec fn expand_tabs(s: Seq<char>) -> Seq<char>
    decreases s.len(),
{
    if s.len() == 0 {
        Seq::empty()
    } else {
        expand_tabs(s.drop_last()) + if s.last() == '\t' {
            seq![' ', ' ', ' ', ' ']
        } else {
            seq![s.last()]
        }
    }
}

/// The mission text as drawn (see [`expand_tabs`]).
pub fn mission_display_text(mission: &str) -> (r: String)
    ensures
        r@ == expand_tabs(mission@),
{
    let chars = crate::text::chars_of(mission);
    let mut r = String::new();
    let mut i: usize = 0;
    while i < chars.len()
        invariant
            chars@ == mission@,
            i <= chars@.len(),
            r@ == expand_tabs(mission@.subrange(0, i as int)),
        decreases chars.len() - i,
    {
        proof {
            assert(mission@.subrange(0, i + 1).drop_last() == mission@.subrange(0, i as int));
        }
        if chars[i] == '\t' {
            r.push(' ');
            r.push(' ');
            r.push(' ');
            r.push(' ');
        } else {
            r.push(chars[i]);
        }
        i += 1;
    }
    proof {
        assert(mission@.subrange(0, chars@.len() as int) == mission@);
    }
    r
}

/// How many lines `ratatui::widgets::Paragraph::line_count` gives for `text`
/// wrapped (without trimming) at `width` columns.
pub uninterp spec fn paragraph_lines(text: Seq<char>, width: u16) -> usize;

/// The number of lines the paragraph of `text`, wrapped without trimming,
/// takes at `width` columns, by `Paragraph::line_count` (ratatui). The
/// result is named by `paragraph_lines`; it is 0 for a width of 0.
#[verifier::external_body]
fn paragraph_line_count(text: &str, width: u16) -> (n: usize)
    ensures
        n == paragraph_lines(text@, width),
        width == 0 ==> n == 0,
{
    ratatui::widgets::Paragraph::new(text).wrap(ratatui::widgets::Wrap { trim: false }).line_count(
        width,
    )
}

/// The mission text takes more lines than a `u16` counts.
#[derive(Debug, Clone, Copy, PartialEq, Eq, Structural)]
pub struct TooManyLines {
    pub lines: usize,
}

/// Records the height of the text pane (`inner_height` lines) and the
/// number of lines the text `shown` takes at `inner_width` columns; a text
/// of more than 65535 lines is refused and nothing is recorded.
pub fn measure_mission(content: &mut ContentState, shown: &str, inner_width: u16, inner_height: u16) -> (res: Result<(), TooManyLines>)
    ensures
        ({
            let lines = paragraph_lines(shown@, inner_width);
            if lines <= u16::MAX {
                &&& res is Ok
                &&& final(content).line_count == lines
                &&& final(content).area_height == inner_height
                &&& final(content).scroll_offset == old(content).scroll_offset
            } else {
                &&& res == Err::<(), TooManyLines>(TooManyLines { lines })
                &&& *final(content) == *old(content)
            }
        }),
{
    let lines = paragraph_line_count(shown, inner_width);
    if lines > 65535 {
        return Err(TooManyLines { lines });
    }
    content.area_height = inner_height;
    content.line_count = lines as u16;
    Ok(())
}

/// How far down the text the pane shows, in percent: 100 when the text is
/// empty or its last line is shown, otherwise the share of lines up to the
/// bottom of the pane (rounded down).
pub open spec fn scroll_percentage_spec(c: ContentState) -> int {
    let seen = c.scroll_offset + c.area_height;
    if c.line_count == 0 || seen >= c.line_count {
        100
    } else {
        seen * 100 / c.line_count as int
    }
}

/// Whether computing the percentage stays within `u16`, as it is computed.
pub open spec fn scroll_percentage_fits(c: ContentState) -> bool {
    let seen = c.scroll_offset + c.area_height;
    c.line_count != 0 ==> (seen <= u16::MAX && (seen < c.line_count ==> seen * 100 <= u16::MAX))
}

impl ContentState {
    /// The scroll percentage shown in the title of the text pane (see
    /// [`scroll_percentage_spec`]).
    pub fn scroll_percentage(&self) -> (r: u16)
        requires
            scroll_percentage_fits(*self),
        ensures
            r == scroll_percentage_spec(*self),
    {
        if self.line_count == 0 || self.scroll_offset + self.area_height >= self.line_count {
            100
        } else {
            (self.scroll_offset + self.area_height) * 100 / self.line_count
        }
    }
}

/// A row of the duplicates dialog.
#[derive(Debug)]
pub enum DialogRow {
    /// The empty row between two groups.
    Blank,
    /// The heading of the group with this (1-based) number.
    GroupHeading(usize),
    /// A file of the group above.
    File(String),
}

/// [`DialogRow`] as plain values.
pub enum DialogRowView {
    Blank,
    GroupHeading(int),
    File(Seq<char>),
}

impl View for DialogRow {
    type V = DialogRowView;

    open spec fn view(&self) -> DialogRowView {
        match self {
            DialogRow::Blank => DialogRowView::Blank,
            DialogRow::GroupHeading(i) => DialogRowView::GroupHeading(*i as int),
            DialogRow::File(s) => DialogRowView::File(s@),
        }
    }
}

/// The rows of one group: its heading, numbered `number`, then its files.
pub open spec fn group_rows(number: int, files: Seq<Seq<char>>) -> Seq<DialogRowView> {
    seq![DialogRowView::GroupHeading(number)] + files.map_values(|f: Seq<char>| DialogRowView::File(f))
}

/// The rows of the duplicates dialog for the groups: each group's rows,
/// with an empty row between two groups.
pub open spec fn duplicates_rows_spec(groups: Seq<Seq<Seq<char>>>) -> Seq<DialogRowView>
    decreases groups.len(),
{
    if groups.len() == 0 {
        Seq::empty()
    } else {
        let k = groups.len() - 1;
        let before = duplicates_rows_spec(groups.drop_last());
        before + (if k > 0 {
            seq![DialogRowView::Blank]
        } else {
            Seq::empty()
        }) + group_rows(k + 1, groups.last())
    }
}

/// The names of each group, taken by their views.
pub open spec fn groups_view(groups: Seq<Vec<String>>) -> Seq<Seq<Seq<char>>> {
    groups.map_values(|g: Vec<String>| g@.map_values(|s: String| s@))
}

/// The rows of a dialog, taken by their views.
pub open spec fn rows_view(rows: Seq<DialogRow>) -> Seq<DialogRowView> {
    rows.map_values(|r: DialogRow| r@)
}

/// The rows of the duplicates dialog (see [`duplicates_rows_spec`]).
pub fn duplicates_rows(groups: &Vec<Vec<String>>) -> (rows: Vec<DialogRow>)
    ensures
        rows_view(rows@) == duplicates_rows_spec(groups_view(groups@)),
{
    let mut rows: Vec<DialogRow> = Vec::new();
    let mut i: usize = 0;
    while i < groups.len()
        invariant
            i <= groups@.len(),
            rows_view(rows@) == duplicates_rows_spec(groups_view(groups@).subrange(0, i as int)),
        decreases groups.len() - i,
    {
        let ghost g = groups_view(groups@);
        proof {
            assert(g.subrange(0, i + 1).drop_last() == g.subrange(0, i as int));
            assert(g.subrange(0, i + 1).last() == g[i as int]);
        }
        let ghost before = rows_view(rows@);
        if i > 0 {
            rows.push(DialogRow::Blank);
        }
        let ghost with_blank = rows_view(rows@);
        rows.push(DialogRow::GroupHeading(i + 1));
        let files = &groups[i];
        let mut j: usize = 0;
        let ghost heading_done = rows_view(rows@);
        while j < files.len()
            invariant
                j <= files@.len(),
                files == groups@[i as int],
                rows_view(rows@) == heading_done + files@.subrange(0, j as int).map_values(
                    |s: String| DialogRowView::File(s@),
                ),
            decreases files.len() - j,
        {
            let ghost r0 = rows_view(rows@);
            rows.push(DialogRow::File(files[j].clone()));
            proof {
                assert(files@.subrange(0, j + 1).map_values(|s: String| DialogRowView::File(s@))
                    == files@.subrange(0, j as int).map_values(|s: String| DialogRowView::File(s@)).push(
                    DialogRowView::File(files@[j as int]@),
                ));
                assert(rows_view(rows@) == r0.push(DialogRowView::File(files@[j as int]@)));
            }
            j += 1;
        }
        proof {
            assert(files@.subrange(0, files@.len() as int) == files@);
            assert(files@.map_values(|s: String| DialogRowView::File(s@)) == g[i as int].map_values(
                |f: Seq<char>| DialogRowView::File(f),
            ));
            assert(rows_view(rows@) == before + (if i > 0 {
                seq![DialogRowView::Blank]
            } else {
                Seq::empty()
            }) + group_rows(i + 1, g[i as int]));
        }
        i += 1;
    }
    proof {
        assert(groups_view(groups@).subrange(0, groups@.len() as int) == groups_view(groups@));
    }
    rows
}

/// Whether the height of the map codes dialog can be computed for
/// `item_count` rows: the count is taken as a `u16` (modulo 2^16) and two
/// rows of border are added to it.
pub open spec fn codes_dialog_height_fits(item_count: usize) -> bool {
    (item_count as u16) + 2 <= u16::MAX
}

/// The height of the map codes dialog for `item_count` rows: the rows and
/// the border, at most 20.
pub fn codes_dialog_height(item_count: usize) -> (h: u16)
    requires
        codes_dialog_height_fits(item_count),
    ensures
        h == if (item_count as u16) + 2 <= 20 {
            (item_count as u16) + 2
        } else {
            20
        },
{
    let rows = item_count as u16 + 2;
    if rows <= 20 {
        rows
    } else {
        20
    }
}

/// Which help line the status bar shows.
#[derive(Debug, Clone, Copy, PartialEq, Eq, Structural)]
pub enum Hint {
    /// A dialog is open: how to close it and move in it.
    Dialog,
    /// The list is filtered: the filter keys.
    Filtering,
    /// The plain list: the filter keys and the sort keys.
    Browsing,
}

/// The help line for the screen that has the keyboard and whether the
/// filter text is empty.
pub fn hint_for(screen: Screen, filter_empty: bool) -> (h: Hint)
    ensures
        h == if screen is Filter || screen == Screen::Duplicates || screen == Screen::MapCodes {
            Hint::Dialog
        } else if !filter_empty {
            Hint::Filtering
        } else {
            Hint::Browsing
        },
{
    match screen {
        Screen::Filter(_) | Screen::Duplicates | Screen::MapCodes => Hint::Dialog,
        _ => if !filter_empty {
            Hint::Filtering
        } else {
            Hint::Browsing
        },
    }
}

} // verus!
