use vstd::prelude::*;

verus! {

/// Scroll position of the mission text pane.
#[derive(Debug)]
pub struct ContentState {
    pub scroll_offset: u16,
    pub line_count: u16,
    pub area_height: u16,
}

impl Default for ContentState {
    /// Scrolled to the top, with nothing measured yet.
    fn default() -> (s: Self)
        ensures
            s.scroll_offset == 0,
            s.line_count == 0,
            s.area_height == 0,
    {
        ContentState { scroll_offset: 0, line_count: 0, area_height: 0 }
    }
}

/// `a - b`, or 0 when `b > a`.
pub open spec fn sat_sub(a: int, b: int) -> int {
    if a >= b {
        a - b
    } else {
        0
    }
}

/// `a + b`, or `u16::MAX` when the sum does not fit.
pub open spec fn sat_add_u16(a: int, b: int) -> int {
    if a + b <= u16::MAX {
        a + b
    } else {
        u16::MAX as int
    }
}

/// The state scrolled to `offset`.
pub open spec fn with_offset(c: ContentState, offset: int) -> ContentState {
    ContentState { scroll_offset: offset as u16, line_count: c.line_count, area_height: c.area_height }
}

/// The state after one line up.
pub open spec fn scroll_up_spec(c: ContentState) -> ContentState {
    with_offset(c, sat_sub(c.scroll_offset as int, 1))
}

/// The state after one line down.
pub open spec fn scroll_down_spec(c: ContentState) -> ContentState {
    if c.scroll_offset + c.area_height <= c.line_count {
        with_offset(c, sat_add_u16(c.scroll_offset as int, 1))
    } else {
        c
    }
}

/// The state after one page up.
pub open spec fn scroll_page_up_spec(c: ContentState) -> ContentState {
    with_offset(c, sat_sub(c.scroll_offset as int, c.area_height as int))
}

/// The state after one page down.
pub open spec fn scroll_page_down_spec(c: ContentState) -> ContentState {
    let result = sat_add_u16(c.scroll_offset as int, c.area_height as int);
    if result > c.bottom_offset() {
        with_offset(c, c.bottom_offset())
    } else {
        with_offset(c, result)
    }
}

/// One line down and then one line up gives back the state, when the line
/// down moved (the offset was below `u16::MAX`, which saturates).
pub proof fn lemma_scroll_down_then_up(c: ContentState)
    requires
        c.scroll_offset + c.area_height <= c.line_count,
        c.scroll_offset < u16::MAX,
    ensures
        scroll_up_spec(scroll_down_spec(c)) == c,
{
}

/// One page down and then one page up gives back the state, when the page
/// down did not stop at the bottom.
pub proof fn lemma_page_down_then_up(c: ContentState)
    requires
        c.scroll_offset + c.area_height <= c.bottom_offset(),
    ensures
        scroll_page_up_spec(scroll_page_down_spec(c)) == c,
{
}

/// No scroll key takes the text past its bottom: from an offset at or above
/// the bottom offset, every scroll lands at or above it again.
pub proof fn lemma_scroll_stays_within_text(c: ContentState)
    requires
        c.scroll_offset <= c.bottom_offset(),
    ensures
        scroll_up_spec(c).scroll_offset <= c.bottom_offset(),
        scroll_down_spec(c).scroll_offset <= c.bottom_offset(),
        scroll_page_up_spec(c).scroll_offset <= c.bottom_offset(),
        scroll_page_down_spec(c).scroll_offset <= c.bottom_offset(),
        with_offset(c, 0).scroll_offset <= c.bottom_offset(),
        with_offset(c, c.bottom_offset()).scroll_offset <= c.bottom_offset(),
        scroll_down_spec(c).same_layout(c),
        scroll_page_down_spec(c).same_layout(c),
{
}

impl ContentState {
    /// The offset at which the last line is the last one shown, plus one.
    pub open spec fn bottom_offset(self) -> int {
        sat_add_u16(sat_sub(self.line_count as int, self.area_height as int), 1)
    }

    /// Whether two states differ at most in their scroll offset.
    pub open spec fn same_layout(self, other: Self) -> bool {
        self.line_count == other.line_count && self.area_height == other.area_height
    }

    /// Back to the top, with nothing measured.
    pub fn reset(&mut self)
        ensures
            final(self).scroll_offset == 0,
            final(self).line_count == 0,
            final(self).area_height == 0,
    {
        *self = Self::default();
    }

    /// One line up, stopping at the top.
    pub fn scroll_up(&mut self)
        ensures
            final(self).scroll_offset == sat_sub(old(self).scroll_offset as int, 1),
            final(self).same_layout(*old(self)),
            *final(self) == scroll_up_spec(*old(self)),
    {
        self.scroll_offset = self.scroll_offset.saturating_sub(1);
    }

    /// One line down, while the lines shown do not yet reach past the text.
    pub fn scroll_down(&mut self)
        requires
            old(self).scroll_offset + old(self).area_height <= u16::MAX,
        ensures
            final(self).scroll_offset == if old(self).scroll_offset + old(self).area_height
                <= old(self).line_count {
                sat_add_u16(old(self).scroll_offset as int, 1)
            } else {
                old(self).scroll_offset as int
            },
            final(self).same_layout(*old(self)),
            *final(self) == scroll_down_spec(*old(self)),
    {
        if self.get_viewd_offset() <= self.line_count {
            self.scroll_offset = self.scroll_offset.saturating_add(1);
        }
    }

    /// To the bottom of the text.
    pub fn scroll_to_bottom(&mut self)
        ensures
            final(self).scroll_offset == old(self).bottom_offset(),
            final(self).same_layout(*old(self)),
            *final(self) == with_offset(*old(self), old(self).bottom_offset()),
    {
        self.scroll_offset = self.get_botton_offset();
    }

    /// To the top of the text.
    pub fn scroll_to_top(&mut self)
        ensures
            final(self).scroll_offset == 0,
            final(self).same_layout(*old(self)),
            *final(self) == with_offset(*old(self), 0),
    {
        self.scroll_offset = 0;
    }

    /// One page up, stopping at the top.
    pub fn scroll_page_up(&mut self)
        ensures
            final(self).scroll_offset == sat_sub(
                old(self).scroll_offset as int,
                old(self).area_height as int,
            ),
            final(self).same_layout(*old(self)),
            *final(self) == scroll_page_up_spec(*old(self)),
    {
        self.scroll_offset = self.scroll_offset.saturating_sub(self.area_height);
    }

    /// One page down, stopping at the bottom.
    pub fn scroll_page_down(&mut self)
        ensures
            final(self).scroll_offset == if sat_add_u16(
                old(self).scroll_offset as int,
                old(self).area_height as int,
            ) > old(self).bottom_offset() {
                old(self).bottom_offset()
            } else {
                sat_add_u16(old(self).scroll_offset as int, old(self).area_height as int)
            },
            final(self).scroll_offset <= old(self).bottom_offset(),
            final(self).same_layout(*old(self)),
            *final(self) == scroll_page_down_spec(*old(self)),
    {
        let result = self.scroll_offset.saturating_add(self.area_height);
        let bottom_offset = self.get_botton_offset();
        if result > bottom_offset {
            self.scroll_offset = bottom_offset;
        } else {
            self.scroll_offset = result;
        }
    }

    fn get_botton_offset(&self) -> (r: u16)
        ensures
            r == self.bottom_offset(),
    {
        self.line_count.saturating_sub(self.area_height).saturating_add(1)
    }

    fn get_viewd_offset(&self) -> (r: u16)
        requires
            self.scroll_offset + self.area_height <= u16::MAX,
        ensures
            r == self.scroll_offset + self.area_height,
    {
        self.scroll_offset + self.area_height
    }
}

} // verus!
