//! The incremental search engine: directional scanning over rendered lines,
//! match-overlay bookkeeping with snapshot restore, and the per-keystroke
//! step the interactive prompt drives.

use vstd::prelude::*;
use crate::highlight::HighlightType;
use crate::rows::Row;
use crate::text::{find_at_or_after, rfind_before};

verus! {

/// A direction intent set by an arrow key while searching.
#[derive(Clone, Copy, PartialEq, Eq, Structural, Debug)]
pub enum SearchDirection {
    Forward,
    Backward,
}

/// The search engine's state while a search is active.
pub struct SearchIndex {
    /// Render column of the previous match within its line.
    pub x_index: usize,
    /// Line the scan is anchored at: the previous match's line, or the line
    /// a fresh positional scan starts from.
    pub y_index: usize,
    /// Horizontal intent: search within the anchor line only.
    pub x_direction: Option<SearchDirection>,
    /// Vertical intent: scan whole lines above or below the anchor.
    pub y_direction: Option<SearchDirection>,
    /// The matched line's classification as it was before the overlay,
    /// so the overlay can be undone on the next step.
    pub previous_highlight: Option<(usize, Vec<HighlightType>)>,
}

impl SearchIndex {
    /// A fresh, inactive search state.
    pub fn new() -> (s: SearchIndex)
        ensures
            s.x_index == 0,
            s.y_index == 0,
            s.x_direction.is_none(),
            s.y_direction.is_none(),
            s.previous_highlight.is_none(),
    {
        SearchIndex {
            x_index: 0,
            y_index: 0,
            x_direction: None,
            y_direction: None,
            previous_highlight: None,
        }
    }

    /// Clears every field, as confirm and cancel require.
    pub fn reset(&mut self)
        ensures
            final(self).x_index == 0,
            final(self).y_index == 0,
            final(self).x_direction.is_none(),
            final(self).y_direction.is_none(),
            final(self).previous_highlight.is_none(),
    {
        self.y_index = 0;
        self.x_index = 0;
        self.y_direction = None;
        self.x_direction = None;
        self.previous_highlight = None;
    }
}

/// The first line at or below `y` whose rendering contains `kw`, with the
/// first match column in it.
pub open spec fn scan_fwd(renders: Seq<Seq<char>>, kw: Seq<char>, y: int) -> Option<(int, int)>
    decreases renders.len() - y
        when 0 <= y
{
    if y < 0 || y >= renders.len() {
        None
    } else {
        match find_at_or_after(renders[y], kw, 0) {
            Some(c) => Some((y, c)),
            None => scan_fwd(renders, kw, y + 1),
        }
    }
}

/// The first line at or above `y` whose rendering contains `kw`, with the
/// first match column in it.
pub open spec fn scan_back(renders: Seq<Seq<char>>, kw: Seq<char>, y: int) -> Option<(int, int)>
    decreases y + 1,
{
    if y < 0 || y >= renders.len() {
        None
    } else {
        match find_at_or_after(renders[y], kw, 0) {
            Some(c) => Some((y, c)),
            None => scan_back(renders, kw, y - 1),
        }
    }
}

/// Where one search step looks and what it finds: whole lines below or above
/// the anchor under a vertical intent, within the anchor line after or
/// before the previous match column under a horizontal intent, and forward
/// from the anchor line (inclusive) when no intent is set. No wraparound.
pub open spec fn search_target(
    renders: Seq<Seq<char>>,
    kw: Seq<char>,
    y_index: int,
    x_index: int,
    y_direction: Option<SearchDirection>,
    x_direction: Option<SearchDirection>,
) -> Option<(int, int)> {
    match y_direction {
        Some(SearchDirection::Forward) => scan_fwd(renders, kw, y_index + 1),
        Some(SearchDirection::Backward) => scan_back(renders, kw, y_index - 1),
        None => match x_direction {
            Some(SearchDirection::Forward) => {
                if 0 <= y_index < renders.len() {
                    match find_at_or_after(renders[y_index], kw, x_index + 1) {
                        Some(c) => Some((y_index, c)),
                        None => None,
                    }
                } else {
                    None
                }
            },
            Some(SearchDirection::Backward) => {
                if 0 <= y_index < renders.len() {
                    match rfind_before(renders[y_index], kw, x_index) {
                        Some(c) => Some((y_index, c)),
                        None => None,
                    }
                } else {
                    None
                }
            },
            None => scan_fwd(renders, kw, y_index),
        },
    }
}

/// The classification of a matched line with the match overlay applied
/// across `[c, c + k)`.
pub open spec fn overlay(tags: Seq<HighlightType>, c: int, k: int) -> Seq<HighlightType> {
    Seq::new(tags.len(), |j: int|
        if c <= j < c + k { HighlightType::SearchMatch } else { tags[j] })
}

/// A backward scan finds nothing when no line at or above `y` contains the
/// needle.
pub proof fn lemma_scan_back_none(renders: Seq<Seq<char>>, kw: Seq<char>, y: int)
    requires
        forall|i: int| 0 <= i <= y && i < renders.len()
            ==> (#[trigger] find_at_or_after(renders[i], kw, 0)).is_none(),
    ensures
        scan_back(renders, kw, y).is_none(),
    decreases y + 1,
{
    if 0 <= y && y < renders.len() {
        lemma_scan_back_none(renders, kw, y - 1);
    }
}

/// A forward search that found the needle's only occurrence, at line `m`,
/// followed immediately by a backward search, leaves the target unchanged:
/// the backward scan from the recorded match line finds nothing, so the
/// search step leaves the cursor standing on the same match.
pub proof fn lemma_forward_then_backward(
    renders: Seq<Seq<char>>,
    kw: Seq<char>,
    y0: int,
    m: int,
    c: int,
)
    requires
        0 <= m < renders.len(),
        forall|i: int| 0 <= i < renders.len() && i != m
            ==> (#[trigger] find_at_or_after(renders[i], kw, 0)).is_none(),
        search_target(renders, kw, y0, 0, Some(SearchDirection::Forward), None)
            == Some((m, c)),
    ensures
        search_target(renders, kw, m, c, Some(SearchDirection::Backward), None).is_none(),
{
    lemma_scan_back_none(renders, kw, m - 1);
}

/// The match a forward scan reports is real: its line contains the needle
/// there, and no line between the scan start and the match does.
pub proof fn lemma_scan_fwd_sound(renders: Seq<Seq<char>>, kw: Seq<char>, y: int)
    requires
        y >= 0,
    ensures
        match scan_fwd(renders, kw, y) {
            Some(p) => y <= p.0 < renders.len()
                && find_at_or_after(renders[p.0], kw, 0) == Some(p.1)
                && forall|i: int| y <= i < p.0
                    ==> (#[trigger] find_at_or_after(renders[i], kw, 0)).is_none(),
            None => forall|i: int| y <= i < renders.len()
                ==> (#[trigger] find_at_or_after(renders[i], kw, 0)).is_none(),
        },
    decreases renders.len() - y,
{
    if 0 <= y < renders.len() {
        if find_at_or_after(renders[y], kw, 0).is_none() {
            lemma_scan_fwd_sound(renders, kw, y + 1);
        }
    }
}

/// Finds the first row at or below `from` containing `kw`, scanning the
/// rendered text of each row in order.
pub fn scan_rows_fwd(rows: &Vec<Row>, kw: &Vec<char>, from: usize)
    -> (res: Option<(usize, usize)>)
    ensures
        match res {
            Some(p) => scan_fwd(crate::highlight::renders_of(rows@), kw@, from as int)
                == Some((p.0 as int, p.1 as int)),
            None => scan_fwd(crate::highlight::renders_of(rows@), kw@, from as int).is_none(),
        },
{
    let ghost renders = crate::highlight::renders_of(rows@);
    let n = rows.len();
    let mut y = from;
    loop
        invariant
            from <= y,
            n == rows@.len(),
            renders == crate::highlight::renders_of(rows@),
            scan_fwd(renders, kw@, from as int) == scan_fwd(renders, kw@, y as int),
        decreases n + 1 - y,
    {
        if y >= n {
            return None;
        }
        match crate::text::find_from(&rows[y].render, kw, 0) {
            Some(c) => {
                proof {
                    assert(renders[y as int] == rows@[y as int].render@);
                }
                return Some((y, c));
            },
            None => {
                proof {
                    assert(renders[y as int] == rows@[y as int].render@);
                }
                y += 1;
            },
        }
    }
}

/// Finds the first row at or above `from` containing `kw`.
pub fn scan_rows_back(rows: &Vec<Row>, kw: &Vec<char>, from: usize)
    -> (res: Option<(usize, usize)>)
    requires
        from < rows@.len(),
    ensures
        match res {
            Some(p) => scan_back(crate::highlight::renders_of(rows@), kw@, from as int)
                == Some((p.0 as int, p.1 as int)),
            None => scan_back(crate::highlight::renders_of(rows@), kw@, from as int).is_none(),
        },
{
    let ghost renders = crate::highlight::renders_of(rows@);
    let mut y = from;
    loop
        invariant
            0 <= y <= from,
            from < rows@.len(),
            renders == crate::highlight::renders_of(rows@),
            scan_back(renders, kw@, from as int) == scan_back(renders, kw@, y as int),
        decreases y + 1,
    {
        match crate::text::find_from(&rows[y].render, kw, 0) {
            Some(c) => {
                proof {
                    assert(renders[y as int] == rows@[y as int].render@);
                }
                return Some((y, c));
            },
            None => {
                proof {
                    assert(renders[y as int] == rows@[y as int].render@);
                }
                if y == 0 {
                    return None;
                }
                y -= 1;
            },
        }
    }
}

} // verus!
