use vstd::prelude::*;

verus! {

/// Selection and scroll offset of a list widget: which item is selected, if
/// any, and the index of the first item drawn.
#[derive(Debug, Default, Clone, Copy, PartialEq, Eq, Structural)]
pub struct ListState {
    pub offset: usize,
    pub selected: Option<usize>,
}

/// The state after selecting `index`: clearing the selection also scrolls
/// back to the top.
pub open spec fn select_spec(ls: ListState, index: Option<usize>) -> ListState {
    ListState { selected: index, offset: if index is None { 0 } else { ls.offset } }
}

/// The state after selecting the next item (the first when nothing is
/// selected).
pub open spec fn select_next_spec(ls: ListState) -> ListState {
    select_spec(
        ls,
        Some(
            match ls.selected {
                Some(i) => if i < usize::MAX {
                    (i + 1) as usize
                } else {
                    i
                },
                None => 0usize,
            },
        ),
    )
}

/// The state after selecting the previous item (the last when nothing is
/// selected).
pub open spec fn select_previous_spec(ls: ListState) -> ListState {
    select_spec(
        ls,
        Some(
            match ls.selected {
                Some(i) => if i > 0 {
                    (i - 1) as usize
                } else {
                    0usize
                },
                None => usize::MAX,
            },
        ),
    )
}

/// Selecting the next item and then the previous one gives back the state,
/// when an item below the last index `usize::MAX` was selected.
pub proof fn lemma_next_then_previous(ls: ListState)
    requires
        ls.selected is Some,
        ls.selected->0 < usize::MAX,
    ensures
        select_previous_spec(select_next_spec(ls)) == ls,
{
}

/// Selecting the previous item and then the next one gives back the state,
/// when an item other than the first was selected.
pub proof fn lemma_previous_then_next(ls: ListState)
    requires
        ls.selected is Some,
        ls.selected->0 > 0,
    ensures
        select_next_spec(select_previous_spec(ls)) == ls,
{
}

impl ListState {
    /// The selected item, if any.
    pub fn selected(&self) -> (r: Option<usize>)
        ensures
            r == self.selected,
    {
        self.selected
    }

    /// The index of the first item drawn.
    pub fn offset(&self) -> (r: usize)
        ensures
            r == self.offset,
    {
        self.offset
    }

    /// Selects `index`; clearing the selection also scrolls back to the top.
    pub fn select(&mut self, index: Option<usize>)
        ensures
            *final(self) == select_spec(*old(self), index),
    {
        self.selected = index;
        if index.is_none() {
            self.offset = 0;
        }
    }

    /// Selects the next item, or the first when nothing is selected.
    pub fn select_next(&mut self)
        ensures
            *final(self) == select_next_spec(*old(self)),
    {
        let next = match self.selected {
            Some(i) => i.saturating_add(1),
            None => 0,
        };
        self.select(Some(next));
    }

    /// Selects the previous item, or the last when nothing is selected.
    pub fn select_previous(&mut self)
        ensures
            *final(self) == select_previous_spec(*old(self)),
    {
        let previous = match self.selected {
            Some(i) => i.saturating_sub(1),
            None => usize::MAX,
        };
        self.select(Some(previous));
    }

    /// Selects the first item.
    pub fn select_first(&mut self)
        ensures
            *final(self) == select_spec(*old(self), Some(0usize)),
    {
        self.select(Some(0));
    }

    /// Selects the last item (the widget clamps the index when it draws).
    pub fn select_last(&mut self)
        ensures
            *final(self) == select_spec(*old(self), Some(usize::MAX)),
    {
        self.select(Some(usize::MAX));
    }
}

/// Number of screen lines that item `k` takes: its wrapped line count when it
/// has been measured, one otherwise.
pub open spec fn line_count_at(lcs: Seq<u16>, k: int) -> int {
    if 0 <= k < lcs.len() {
        lcs[k] as int
    } else {
        1
    }
}

/// Number of screen lines that the items `a..b` take together.
pub open spec fn lines_between(lcs: Seq<u16>, a: int, b: int) -> int
    decreases b - a,
{
    if a >= b {
        0
    } else {
        line_count_at(lcs, a) + lines_between(lcs, a + 1, b)
    }
}

/// A range of items takes a non-negative number of lines.
pub proof fn lemma_lines_nonneg(lcs: Seq<u16>, a: int, b: int)
    ensures
        lines_between(lcs, a, b) >= 0,
    decreases b - a,
{
    if a < b {
        lemma_lines_nonneg(lcs, a + 1, b);
    }
}

/// Adding the item just past the end of a range adds its line count.
pub proof fn lemma_lines_extend(lcs: Seq<u16>, a: int, b: int)
    requires
        a <= b,
    ensures
        lines_between(lcs, a, b + 1) == lines_between(lcs, a, b) + line_count_at(lcs, b),
    decreases b - a,
{
    reveal_with_fuel(lines_between, 2);
    if a < b {
        lemma_lines_extend(lcs, a + 1, b);
    }
}

/// A longer range takes at least as many lines.
pub proof fn lemma_lines_monotone(lcs: Seq<u16>, a: int, b: int, c: int)
    requires
        a <= b <= c,
    ensures
        lines_between(lcs, a, b) <= lines_between(lcs, a, c),
        lines_between(lcs, b, c) <= lines_between(lcs, a, c),
    decreases c - b,
{
    if b < c {
        lemma_lines_monotone(lcs, a, b, c - 1);
        lemma_lines_extend(lcs, a, c - 1);
        lemma_lines_extend(lcs, b, c - 1);
    } else {
        lemma_lines_nonneg(lcs, a, c);
    }
}

/// The page height used for paging: at least one line.
pub open spec fn page_height(area_height: u16) -> int {
    if area_height >= 1 {
        area_height as int
    } else {
        1
    }
}

/// `t` is where paging up from first visible item `fv` lands: the items
/// `t..fv` fill at most a page, and one more item before them would not fit.
pub open spec fn is_page_up_target(lcs: Seq<u16>, fv: int, height: int, t: int) -> bool {
    &&& 0 <= t <= fv
    &&& lines_between(lcs, t, fv) <= height
    &&& (t == 0 || lines_between(lcs, t - 1, fv) > height)
}

/// `t` is where paging down from first visible item `fv` lands: the items
/// `fv..t` fill at most a page, and item `t` would not fit after them.
pub open spec fn is_page_down_target(lcs: Seq<u16>, fv: int, height: int, t: int) -> bool {
    &&& fv <= t < lcs.len()
    &&& lines_between(lcs, fv, t) <= height
    &&& lines_between(lcs, fv, t + 1) > height
}

/// Whether everything from `fv` on already fits on one page, so that there
/// is no next page.
pub open spec fn on_last_page(lcs: Seq<u16>, fv: int, height: int) -> bool {
    fv >= lcs.len() || lines_between(lcs, fv, lcs.len() as int) <= height
}

/// Where paging up from first visible item `fv` lands (see
/// [`is_page_up_target`]; there is exactly one such item).
pub open spec fn page_up_offset(lcs: Seq<u16>, fv: int, height: int) -> int {
    choose|t: int| is_page_up_target(lcs, fv, height, t)
}

/// Where paging down from first visible item `fv` lands, when there is a
/// next page (see [`is_page_down_target`]; there is exactly one such item).
pub open spec fn page_down_offset(lcs: Seq<u16>, fv: int, height: int) -> int {
    choose|t: int| is_page_down_target(lcs, fv, height, t)
}

/// At most one item is where paging up lands.
pub proof fn lemma_page_up_target_unique(lcs: Seq<u16>, fv: int, height: int, t1: int, t2: int)
    requires
        is_page_up_target(lcs, fv, height, t1),
        is_page_up_target(lcs, fv, height, t2),
    ensures
        t1 == t2,
{
    if t1 < t2 {
        lemma_lines_monotone(lcs, t1, t2 - 1, fv);
    } else if t2 < t1 {
        lemma_lines_monotone(lcs, t2, t1 - 1, fv);
    }
}

/// At most one item is where paging down lands.
pub proof fn lemma_page_down_target_unique(lcs: Seq<u16>, fv: int, height: int, t1: int, t2: int)
    requires
        is_page_down_target(lcs, fv, height, t1),
        is_page_down_target(lcs, fv, height, t2),
    ensures
        t1 == t2,
{
    if t1 < t2 {
        lemma_lines_monotone(lcs, fv, t1 + 1, t2);
    } else if t2 < t1 {
        lemma_lines_monotone(lcs, fv, t2 + 1, t1);
    }
}

/// The list state after paging up.
pub open spec fn page_up_spec(lcs: Seq<u16>, area_height: u16, ls: ListState) -> ListState {
    if ls.offset == 0 {
        ls
    } else {
        let t = page_up_offset(lcs, ls.offset as int, page_height(area_height)) as usize;
        ListState { offset: t, selected: Some(t) }
    }
}

/// The list state after paging down.
pub open spec fn page_down_spec(lcs: Seq<u16>, area_height: u16, ls: ListState) -> ListState {
    if on_last_page(lcs, ls.offset as int, page_height(area_height)) {
        ls
    } else {
        let t = page_down_offset(lcs, ls.offset as int, page_height(area_height)) as usize;
        ListState { offset: t, selected: Some(t) }
    }
}

/// Scroll state of the file list, with the wrapped line count of each item
/// and the height of the area the list is drawn in.
#[derive(Debug)]
pub struct FileListState {
    pub selected: ListState,
    pub line_counts: Vec<u16>,
    pub area_height: u16,
}

impl Default for FileListState {
    /// Nothing selected, nothing measured.
    fn default() -> (s: Self)
        ensures
            s.selected.selected is None,
            s.selected.offset == 0,
            s.line_counts@.len() == 0,
            s.area_height == 0,
    {
        Self { selected: ListState { offset: 0, selected: None }, line_counts: Vec::new(), area_height: 0 }
    }
}

impl FileListState {
    /// The selected item, if any.
    pub fn selected(&self) -> (r: Option<usize>)
        ensures
            r == self.selected.selected,
    {
        self.selected.selected()
    }

    /// Selects `index`; clearing the selection also scrolls back to the top.
    pub fn select(&mut self, index: Option<usize>)
        ensures
            final(self).selected == select_spec(old(self).selected, index),
            final(self).line_counts@ == old(self).line_counts@,
            final(self).area_height == old(self).area_height,
    {
        self.selected.select(index);
    }

    /// Selects the previous item, or the last when nothing is selected.
    pub fn select_previous(&mut self)
        ensures
            final(self).selected == select_previous_spec(old(self).selected),
            final(self).line_counts@ == old(self).line_counts@,
            final(self).area_height == old(self).area_height,
    {
        self.selected.select_previous();
    }

    /// Selects the next item, or the first when nothing is selected.
    pub fn select_next(&mut self)
        ensures
            final(self).selected == select_next_spec(old(self).selected),
            final(self).line_counts@ == old(self).line_counts@,
            final(self).area_height == old(self).area_height,
    {
        self.selected.select_next();
    }

    /// Selects the first item.
    pub fn select_first(&mut self)
        ensures
            final(self).selected == select_spec(old(self).selected, Some(0usize)),
            final(self).line_counts@ == old(self).line_counts@,
            final(self).area_height == old(self).area_height,
    {
        self.selected.select_first();
    }

    /// Selects the last item.
    pub fn select_last(&mut self)
        ensures
            final(self).selected == select_spec(old(self).selected, Some(usize::MAX)),
            final(self).line_counts@ == old(self).line_counts@,
            final(self).area_height == old(self).area_height,
    {
        self.selected.select_last();
    }

    /// The index of the first item drawn.
    pub fn offset(&self) -> (r: usize)
        ensures
            r == self.selected.offset,
    {
        self.selected.offset()
    }

    /// The index of the first item drawn, to be changed in place.
    pub fn offset_mut(&mut self) -> (r: &mut usize)
        ensures
            *r == old(self).selected.offset,
            final(self).selected.offset == *final(r),
            final(self).selected.selected == old(self).selected.selected,
            final(self).line_counts@ == old(self).line_counts@,
            final(self).area_height == old(self).area_height,
    {
        &mut self.selected.offset
    }

    /// Scrolls one page up: the items that now fill the page end where the
    /// page shown before began, and the first of them is selected.
    pub fn page_up(&mut self)
        ensures
            final(self).line_counts@ == old(self).line_counts@,
            final(self).area_height == old(self).area_height,
            old(self).selected.offset == 0 ==> *final(self) == *old(self),
            old(self).selected.offset > 0 ==> {
                &&& is_page_up_target(
                    old(self).line_counts@,
                    old(self).selected.offset as int,
                    page_height(old(self).area_height),
                    final(self).selected.offset as int,
                )
                &&& final(self).selected.selected == Some(final(self).selected.offset)
            },
            final(self).selected == page_up_spec(
                old(self).line_counts@,
                old(self).area_height,
                old(self).selected,
            ),
    {
        let first_visible = self.offset();
        if first_visible == 0 {
            return;
        }
        let height: usize = if self.area_height >= 1 {
            self.area_height as usize
        } else {
            1
        };
        let ghost lcs = self.line_counts@;
        let mut target = first_visible;
        let mut lines: usize = 0;
        while target > 0
            invariant
                lcs == self.line_counts@,
                1 <= height <= u16::MAX,
                height == page_height(self.area_height),
                target <= first_visible,
                lines == lines_between(lcs, target as int, first_visible as int),
                lines <= height,
            ensures
                is_page_up_target(lcs, first_visible as int, height as int, target as int),
            decreases target,
        {
            let lc: usize = if target - 1 < self.line_counts.len() {
                self.line_counts[target - 1] as usize
            } else {
                1
            };
            if lines + lc > height {
                break;
            }
            target -= 1;
            lines += lc;
        }
        *self.offset_mut() = target;
        self.selected.select(Some(target));
        proof {
            let t = page_up_offset(lcs, first_visible as int, height as int);
            lemma_page_up_target_unique(lcs, first_visible as int, height as int, t, target as int);
        }
    }

    /// Scrolls one page down, unless the last item is already shown: the
    /// first item that did not fit on the page shown before becomes the first
    /// one drawn, and is selected.
    pub fn page_down(&mut self)
        ensures
            final(self).line_counts@ == old(self).line_counts@,
            final(self).area_height == old(self).area_height,
            on_last_page(
                old(self).line_counts@,
                old(self).selected.offset as int,
                page_height(old(self).area_height),
            ) ==> *final(self) == *old(self),
            !on_last_page(
                old(self).line_counts@,
                old(self).selected.offset as int,
                page_height(old(self).area_height),
            ) ==> {
                &&& is_page_down_target(
                    old(self).line_counts@,
                    old(self).selected.offset as int,
                    page_height(old(self).area_height),
                    final(self).selected.offset as int,
                )
                &&& final(self).selected.selected == Some(final(self).selected.offset)
            },
            final(self).selected == page_down_spec(
                old(self).line_counts@,
                old(self).area_height,
                old(self).selected,
            ),
    {
        let first_visible = self.offset();
        let height: usize = if self.area_height >= 1 {
            self.area_height as usize
        } else {
            1
        };
        let ghost lcs = self.line_counts@;
        let len = self.line_counts.len();
        let mut lines: usize = 0;
        let mut last_visible = first_visible;
        while last_visible < len
            invariant
                lcs == self.line_counts@,
                len == lcs.len(),
                1 <= height <= u16::MAX,
                first_visible <= last_visible,
                first_visible < len ==> last_visible <= len,
                lines == lines_between(lcs, first_visible as int, last_visible as int),
                lines <= height,
            ensures
                last_visible >= len ==> on_last_page(lcs, first_visible as int, height as int),
                last_visible < len ==> is_page_down_target(
                    lcs,
                    first_visible as int,
                    height as int,
                    last_visible as int,
                ),
            decreases len - last_visible,
        {
            let lc = self.line_counts[last_visible] as usize;
            proof {
                lemma_lines_extend(lcs, first_visible as int, last_visible as int);
            }
            if lines + lc > height {
                proof {
                    lemma_lines_monotone(
                        lcs,
                        first_visible as int,
                        last_visible as int + 1,
                        len as int,
                    );
                }
                break;
            }
            lines += lc;
            last_visible += 1;
        }
        if last_visible >= len {
            return;
        }
        proof {
            lemma_lines_monotone(lcs, first_visible as int, last_visible as int + 1, len as int);
        }
        let mut target = first_visible;
        let mut lines: usize = 0;
        while target < len
            invariant
                lcs == self.line_counts@,
                len == lcs.len(),
                1 <= height <= u16::MAX,
                first_visible <= target <= last_visible,
                lines == lines_between(lcs, first_visible as int, target as int),
                lines <= height,
                is_page_down_target(lcs, first_visible as int, height as int, last_visible as int),
            ensures
                target == last_visible,
            decreases len - target,
        {
            let lc: usize = self.line_counts[target] as usize;
            proof {
                lemma_lines_extend(lcs, first_visible as int, target as int);
            }
            if lines + lc > height {
                proof {
                    if target < last_visible {
                        lemma_lines_monotone(
                            lcs,
                            first_visible as int,
                            target as int + 1,
                            last_visible as int,
                        );
                    }
                }
                break;
            }
            lines += lc;
            target += 1;
        }
        if target > len - 1 {
            target = len - 1;
        }
        *self.offset_mut() = target;
        self.selected.select(Some(target));
        proof {
            let t = page_down_offset(lcs, first_visible as int, height as int);
            lemma_page_down_target_unique(lcs, first_visible as int, height as int, t, target as int);
        }
    }
}

} // verus!
