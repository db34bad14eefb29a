//! The decisions behind drawing the file list: how many screen lines each
//! name takes once wrapped (which paging relies on), the position shown in
//! the title, the name under the selection, and the parts of a name that
//! match the filter.
use vstd::prelude::*;

use super::content_state::sat_sub;
use super::list_state::FileListState;
use vstd::string::StrSliceExecFns;

verus! {

/// What `textwrap::fill` makes of `text` wrapped at `width` columns.
pub uninterp spec fn wrap_fill(text: Seq<char>, width: usize) -> Seq<char>;

/// Wraps `text` at `width` columns with `textwrap::fill` (textwrap). The
/// result is named by `wrap_fill`.
#[verifier::external_body]
fn fill_text(text: &str, width: usize) -> (r: String)
    ensures
        r@ == wrap_fill(text@, width),
{
    textwrap::fill(text, width)
}

/// Number of line endings in `s`.
pub open spec fn count_newlines(s: Seq<char>) -> nat
    decreases s.len(),
{
    if s.len() == 0 {
        0
    } else {
        count_newlines(s.drop_last()) + if s.last() == '\n' {
            1nat
        } else {
            0nat
        }
    }
}

/// Number of lines of `s` as `str::lines` splits it: one per line ending,
/// and one more for a last line without an ending.
pub open spec fn line_count_of(s: Seq<char>) -> nat {
    count_newlines(s) + if s.len() > 0 && s.last() != '\n' {
        1nat
    } else {
        0nat
    }
}

proof fn lemma_count_newlines_bound(s: Seq<char>)
    ensures
        count_newlines(s) <= s.len(),
    decreases s.len(),
{
    if s.len() > 0 {
        lemma_count_newlines_bound(s.drop_last());
    }
}

/// The number of lines of `s` (see [`line_count_of`]).
pub fn lines_in(s: &str) -> (n: usize)
    ensures
        n == line_count_of(s@),
{
    let len = s.unicode_len();
    let mut i: usize = 0;
    let mut n: usize = 0;
    while i < len
        invariant
            len == s@.len(),
            i <= len,
            n == count_newlines(s@.subrange(0, i as int)),
            n <= i,
        decreases len - i,
    {
        proof {
            assert(s@.subrange(0, i + 1).drop_last() == s@.subrange(0, i as int));
        }
        if s.get_char(i) == '\n' {
            n += 1;
        }
        i += 1;
    }
    proof {
        assert(s@.subrange(0, len as int) == s@);
        lemma_count_newlines_bound(s@);
        if len > 0 {
            lemma_count_newlines_bound(s@.drop_last());
        }
    }
    if len > 0 && s.get_char(len - 1) != '\n' {
        n + 1
    } else {
        n
    }
}

/// The number of screen lines that the name `item` takes in a list that is
/// `width` columns wide, kept as a `u16` (modulo 2^16).
pub open spec fn wrapped_line_count(item: Seq<char>, width: usize) -> u16 {
    line_count_of(wrap_fill(item, width)) as u16
}

/// The width names are wrapped at in a list drawn `area_width` columns wide:
/// the border and the selection marker take three.
pub open spec fn list_wrap_width(area_width: u16) -> usize {
    sat_sub(area_width as int, 3) as usize
}

/// Wraps each of `items` for a list drawn in an area of `area_width` by
/// `area_height` cells and returns the wrapped texts; records, for paging,
/// how many screen lines each takes and how many lines fit inside the
/// border.
pub fn measure_list(list: &mut FileListState, items: &Vec<String>, area_width: u16, area_height: u16) -> (wrapped: Vec<String>)
    ensures
        wrapped@.len() == items@.len(),
        final(list).line_counts@.len() == items@.len(),
        forall|i: int|
            0 <= i < items@.len() ==> {
                &&& #[trigger] wrapped@[i]@ == wrap_fill(items@[i]@, list_wrap_width(area_width))
                &&& final(list).line_counts@[i] == wrapped_line_count(
                    items@[i]@,
                    list_wrap_width(area_width),
                )
            },
        final(list).area_height == sat_sub(area_height as int, 2),
        final(list).selected == old(list).selected,
{
    let max_width: usize = area_width.saturating_sub(3) as usize;
    let mut counts: Vec<u16> = Vec::new();
    let mut texts: Vec<String> = Vec::new();
    let mut i: usize = 0;
    while i < items.len()
        invariant
            i <= items@.len(),
            max_width == list_wrap_width(area_width),
            counts@.len() == i,
            texts@.len() == i,
            forall|k: int|
                0 <= k < i ==> {
                    &&& #[trigger] texts@[k]@ == wrap_fill(items@[k]@, max_width)
                    &&& counts@[k] == wrapped_line_count(items@[k]@, max_width)
                },
        decreases items.len() - i,
    {
        let wrapped = fill_text(items[i].as_str(), max_width);
        let n = lines_in(wrapped.as_str());
        counts.push(n as u16);
        texts.push(wrapped);
        i += 1;
    }
    list.line_counts = counts;
    list.area_height = area_height.saturating_sub(2);
    texts
}

/// The position shown for the selection in the title of a list of `len`
/// names: 0 with nothing selected, the 1-based index otherwise, and `len`
/// for an index past the end.
pub open spec fn position_label_spec(selected: Option<usize>, len: int) -> int {
    match selected {
        None => 0,
        Some(v) => if v >= len {
            len
        } else {
            v + 1
        },
    }
}

/// The position shown for the selection in the list title (see
/// [`position_label_spec`]).
pub fn position_label(selected: Option<usize>, len: usize) -> (r: usize)
    ensures
        r == position_label_spec(selected, len as int),
{
    match selected {
        None => 0,
        Some(v) => if v >= len {
            len
        } else {
            v + 1
        },
    }
}

/// The name under the selection once the list has been drawn (drawing keeps
/// the selection within the list), or none when nothing is selected.
pub fn selected_item_name(items: &Vec<String>, selected: Option<usize>) -> (r: Option<String>)
    requires
        selected matches Some(i) ==> i < items@.len(),
    ensures
        match selected {
            None => r is None,
            Some(i) => r matches Some(s) && s@ == items@[i as int]@,
        },
{
    match selected {
        Some(index) => Some(items[index].clone()),
        None => None,
    }
}

/// What `str::to_lowercase` makes of `s`.
pub uninterp spec fn to_lower(s: Seq<char>) -> Seq<char>;

/// Lower-cases `s` with `str::to_lowercase` (std). The result is named by
/// `to_lower`.
#[verifier::external_body]
fn lowercase(s: &str) -> (r: String)
    ensures
        r@ == to_lower(s@),
{
    s.to_lowercase()
}

/// Whether `pat` occurs in `s` at position `p`.
pub open spec fn occurs_at(s: Seq<char>, pat: Seq<char>, p: int) -> bool {
    0 <= p && p + pat.len() <= s.len() && s.subrange(p, p + pat.len()) == pat
}

/// The first position at or after `start` where `pat` occurs in `s`, if any.
pub open spec fn find_from(s: Seq<char>, pat: Seq<char>, start: int) -> Option<int>
    decreases s.len() + 1 - start,
{
    if start < 0 || start + pat.len() > s.len() {
        None
    } else if occurs_at(s, pat, start) {
        Some(start)
    } else {
        find_from(s, pat, start + 1)
    }
}

/// A found occurrence is one, at or after the start of the search.
pub proof fn lemma_find_from_bounds(s: Seq<char>, pat: Seq<char>, start: int)
    requires
        0 <= start,
    ensures
        find_from(s, pat, start) matches Some(p) ==> start <= p && occurs_at(s, pat, p),
    decreases s.len() + 1 - start,
{
    if start + pat.len() <= s.len() && !occurs_at(s, pat, start) {
        lemma_find_from_bounds(s, pat, start + 1);
    }
}

/// First position at or after `start` where `pat` occurs in `s`.
fn find_exec(s: &Vec<char>, pat: &Vec<char>, start: usize) -> (r: Option<usize>)
    ensures
        r matches Some(p) ==> find_from(s@, pat@, start as int) == Some(p as int),
        r is None ==> find_from(s@, pat@, start as int) is None,
{
    let n = s.len();
    let m = pat.len();
    let mut p = start;
    while p <= n && m <= n - p
        invariant
            n == s@.len(),
            m == pat@.len(),
            start <= p,
            find_from(s@, pat@, p as int) == find_from(s@, pat@, start as int),
        decreases n + 1 - p,
    {
        let mut k: usize = 0;
        while k < m
            invariant
                n == s@.len(),
                m == pat@.len(),
                p + m <= n,
                k <= m,
                forall|j: int| 0 <= j < k ==> s@[p + j] == pat@[j],
            ensures
                k < m ==> s@[p + k] != pat@[k as int],
            decreases m - k,
        {
            if s[p + k] != pat[k] {
                break;
            }
            k += 1;
        }
        if k == m {
            proof {
                assert(s@.subrange(p as int, p + m) == pat@);
            }
            return Some(p);
        }
        proof {
            assert(s@.subrange(p as int, p + m)[k as int] != pat@[k as int]);
        }
        p += 1;
    }
    None
}

/// A part of a name as drawn in the filtered list: the characters
/// `start..end` of the name, and whether they match the filter.
#[derive(Debug, Clone, Copy, PartialEq, Eq, Structural)]
pub struct Segment {
    pub start: usize,
    pub end: usize,
    pub matched: bool,
}

/// The segments of a name of `len` characters from `start` on, where
/// `lower` is the lower-cased name, `pat` the lower-cased filter and `n` the
/// length of the filter: each occurrence of `pat` (searched case-blind, left
/// to right, without overlap) is a matched segment of `n` characters, and
/// the text between occurrences is plain. An occurrence that would end past
/// the name (which only a lower-casing that changes lengths can cause) ends
/// the search.
pub open spec fn segments_from(len: int, lower: Seq<char>, pat: Seq<char>, n: int, start: int) -> Seq<Segment>
    decreases len + 1 - start,
{
    if n <= 0 || start < 0 || start > len {
        Seq::empty()
    } else {
        match find_from(lower, pat, start) {
            Some(pos) => if pos + n <= len {
                proof {
                    lemma_find_from_bounds(lower, pat, start);
                }
                let before = if pos > start {
                    seq![Segment { start: start as usize, end: pos as usize, matched: false }]
                } else {
                    Seq::empty()
                };
                before + seq![Segment { start: pos as usize, end: (pos + n) as usize, matched: true }]
                    + segments_from(len, lower, pat, n, pos + n)
            } else if start < len {
                seq![Segment { start: start as usize, end: len as usize, matched: false }]
            } else {
                Seq::empty()
            },
            None => if start < len {
                seq![Segment { start: start as usize, end: len as usize, matched: false }]
            } else {
                Seq::empty()
            },
        }
    }
}

/// The segments a name `text` is drawn in while the list is filtered by
/// `input`: the whole name as one plain segment when the filter is empty or
/// nothing else comes out, otherwise [`segments_from`] the start.
pub open spec fn highlight_spec(text: Seq<char>, input: Seq<char>) -> Seq<Segment> {
    let whole = seq![Segment { start: 0, end: text.len() as usize, matched: false }];
    if input.len() == 0 {
        whole
    } else {
        let segs = segments_from(
            text.len() as int,
            to_lower(text),
            to_lower(input),
            input.len() as int,
            0,
        );
        if segs.len() == 0 {
            whole
        } else {
            segs
        }
    }
}

/// Splits the name `text` into the parts drawn plain and the parts drawn
/// highlighted because they match the filter `input` (see
/// [`highlight_spec`]).
pub fn highlight_matches(text: &str, input: &str) -> (segs: Vec<Segment>)
    ensures
        segs@ == highlight_spec(text@, input@),
{
    let len = text.unicode_len();
    let n = input.unicode_len();
    if n == 0 {
        return vec![Segment { start: 0, end: len, matched: false }];
    }
    let lower_text = lowercase(text);
    let lower_input = lowercase(input);
    let lower = crate::text::chars_of(lower_text.as_str());
    let pat = crate::text::chars_of(lower_input.as_str());
    let ghost l = to_lower(text@);
    let ghost lp = to_lower(input@);
    let mut segs: Vec<Segment> = Vec::new();
    let mut start: usize = 0;
    loop
        invariant_except_break
            start <= len,
            segs@ + segments_from(len as int, l, lp, n as int, start as int) == segments_from(
                len as int,
                l,
                lp,
                n as int,
                0,
            ),
        invariant
            len == text@.len(),
            n == input@.len(),
            n > 0,
            lower@ == l,
            pat@ == lp,
        ensures
            segs@ == segments_from(len as int, l, lp, n as int, 0),
        decreases len - start,
    {
        let found = find_exec(&lower, &pat, start);
        proof {
            lemma_find_from_bounds(l, lp, start as int);
        }
        match found {
            Some(pos) => {
                if pos <= len && n <= len - pos {
                    let ghost old_segs = segs@;
                    if pos > start {
                        segs.push(Segment { start, end: pos, matched: false });
                    }
                    segs.push(Segment { start: pos, end: pos + n, matched: true });
                    proof {
                        let before = if pos > start {
                            seq![Segment { start: start, end: pos, matched: false }]
                        } else {
                            Seq::empty()
                        };
                        assert(segs@ == old_segs + before + seq![
                            Segment { start: pos, end: (pos + n) as usize, matched: true },
                        ]);
                    }
                    start = pos + n;
                } else {
                    if start < len {
                        segs.push(Segment { start, end: len, matched: false });
                    }
                    break;
                }
            },
            None => {
                if start < len {
                    segs.push(Segment { start, end: len, matched: false });
                }
                break;
            },
        }
    }
    if segs.len() == 0 {
        segs.push(Segment { start: 0, end: len, matched: false });
    }
    segs
}

} // verus!
