//! The line store: rows of raw characters with their tab-expanded rendering,
//! plus the structural and per-character edits, and the save payload.

use vstd::prelude::*;
use crate::EditorError;
use crate::highlight::HighlightType;

verus! {

/// Width of a tab stop: a tab advances the render column to the next
/// multiple of this.
pub const TAB_STOP: usize = 8;

/// The render column reached after processing the first `n` raw characters,
/// starting from column 0. A tab advances to the next multiple of `TAB_STOP`;
/// every other character advances by one.
pub open spec fn render_col(raw: Seq<char>, n: int) -> int
    decreases n,
{
    if n <= 0 {
        0
    } else {
        let c = render_col(raw, n - 1);
        if raw[n - 1] == '\t' {
            c + (TAB_STOP - (c % (TAB_STOP as int)))
        } else {
            c + 1
        }
    }
}

/// The tab-expanded rendering of the first `n` raw characters.
pub open spec fn render_prefix(raw: Seq<char>, n: int) -> Seq<char>
    decreases n,
{
    if n <= 0 {
        Seq::empty()
    } else {
        let r = render_prefix(raw, n - 1);
        if raw[n - 1] == '\t' {
            r + Seq::new((TAB_STOP - (r.len() % (TAB_STOP as nat))) as nat, |i: int| ' ')
        } else {
            r.push(raw[n - 1])
        }
    }
}

/// The full tab-expanded rendering of a raw line.
pub open spec fn render_spec(raw: Seq<char>) -> Seq<char> {
    render_prefix(raw, raw.len() as int)
}

/// The rendered prefix is exactly `render_col` characters long.
pub proof fn lemma_render_prefix_len(raw: Seq<char>, n: int)
    requires
        0 <= n <= raw.len(),
    ensures
        render_prefix(raw, n).len() == render_col(raw, n),
        render_col(raw, n) >= n,
    decreases n,
{
    if n > 0 {
        lemma_render_prefix_len(raw, n - 1);
    }
}

/// Every raw line renders at least as long as itself, and the render column
/// reached just past any tab is a multiple of the tab stop.
pub proof fn lemma_render_props(raw: Seq<char>)
    ensures
        render_spec(raw).len() >= raw.len(),
        forall|i: int| 0 <= i < raw.len() && raw[i] == '\t'
            ==> #[trigger] render_col(raw, i + 1) % (TAB_STOP as int) == 0,
{
    lemma_render_prefix_len(raw, raw.len() as int);
    assert forall|i: int| 0 <= i < raw.len() && raw[i] == '\t'
        implies #[trigger] render_col(raw, i + 1) % (TAB_STOP as int) == 0 by {
        let c = render_col(raw, i);
        lemma_render_prefix_len(raw, i);
        assert(render_col(raw, i + 1) == c + (TAB_STOP - (c % (TAB_STOP as int))));
    }
}

/// One line of the buffer: the raw characters as typed, their rendering,
/// the per-rendered-character classification, and whether the line ends
/// inside an unterminated multi-line construct.
pub struct Row {
    pub row_content: Vec<char>,
    pub render: Vec<char>,
    pub highlight: Vec<HighlightType>,
    pub is_comment: bool,
}

impl Row {
    /// A row is well formed when its rendering is in sync with its raw text.
    pub open spec fn rendered(self) -> bool {
        self.render@ == render_spec(self.row_content@)
    }

    /// Builds a row; the caller supplies the rendering (normally empty, then
    /// refreshed through `Rows::render_row`).
    pub fn new(row_content: Vec<char>, render: Vec<char>) -> (r: Row)
        ensures
            r.row_content@ == row_content@,
            r.render@ == render@,
            r.highlight@ == Seq::<HighlightType>::empty(),
            r.is_comment == false,
    {
        Row { row_content, render, highlight: Vec::new(), is_comment: false }
    }

    /// Inserts `ch` at raw index `at` and refreshes the rendering.
    pub fn insert_char(&mut self, at: usize, ch: char)
        requires
            at <= old(self).row_content@.len(),
        ensures
            final(self).row_content@ == old(self).row_content@.insert(at as int, ch),
            final(self).rendered(),
            final(self).highlight@ == old(self).highlight@,
            final(self).is_comment == old(self).is_comment,
    {
        self.row_content.insert(at, ch);
        Rows::render_row(self);
    }

    /// Removes the raw character at `at` and refreshes the rendering.
    pub fn delete_char(&mut self, at: usize)
        requires
            at < old(self).row_content@.len(),
        ensures
            final(self).row_content@ == old(self).row_content@.remove(at as int),
            final(self).rendered(),
            final(self).highlight@ == old(self).highlight@,
            final(self).is_comment == old(self).is_comment,
    {
        self.row_content.remove(at);
        Rows::render_row(self);
    }

    /// Maps a render column back to the raw index of the character shown
    /// there: the first raw index whose following render column passes
    /// `render_x`, or 0 when the column lies past the whole line.
    pub fn get_row_content_x(&self, render_x: usize) -> (cx: usize)
        ensures
            cx == rx_to_cx(self.row_content@, render_x as int),
    {
        let n = self.row_content.len();
        let mut cx: usize = 0;
        let mut col: usize = 0;
        while cx < n
            invariant
                0 <= cx <= n,
                n == self.row_content@.len(),
                col == render_col(self.row_content@, cx as int),
                col <= render_x,
                rx_to_cx(self.row_content@, render_x as int)
                    == rx_to_cx_from(self.row_content@, render_x as int, cx as int),
            decreases n - cx,
        {
            let step: usize = if self.row_content[cx] == '\t' {
                TAB_STOP - col % TAB_STOP
            } else {
                1
            };
            if render_x - col < step {
                return cx;
            }
            col = col + step;
            cx += 1;
        }
        0
    }

    /// The raw index a render column maps to never lies past the line end.
    pub proof fn lemma_rx_to_cx_bound(raw: Seq<char>, rx: int, i: int)
        requires
            i >= 0,
        ensures
            0 <= rx_to_cx_from(raw, rx, i) <= raw.len(),
        decreases raw.len() - i,
    {
        if i < raw.len() && !(render_col(raw, i + 1) > rx) {
            Row::lemma_rx_to_cx_bound(raw, rx, i + 1);
        }
    }
}

/// The raw index addressed by render column `rx`, scanning from raw index `i`:
/// the first raw index whose post-character render column exceeds `rx`,
/// or 0 when none does.
pub open spec fn rx_to_cx_from(raw: Seq<char>, rx: int, i: int) -> int
    decreases raw.len() - i,
{
    if i < 0 || i >= raw.len() {
        0
    } else if render_col(raw, i + 1) > rx {
        i
    } else {
        rx_to_cx_from(raw, rx, i + 1)
    }
}

/// The raw index addressed by render column `rx`.
pub open spec fn rx_to_cx(raw: Seq<char>, rx: int) -> int {
    rx_to_cx_from(raw, rx, 0)
}

/// The ordered sequence of rows, with the optional file name the buffer was
/// loaded from or will save to.
pub struct Rows {
    pub row_contents: Vec<Row>,
    pub filename: Option<Vec<char>>,
}

impl Rows {
    /// An empty, unnamed buffer.
    pub fn new() -> (r: Rows)
        ensures
            r.row_contents@.len() == 0,
            r.filename.is_none(),
    {
        Rows { row_contents: Vec::new(), filename: None }
    }

    /// The number of rows in the buffer.
    pub fn number_of_rows(&self) -> (n: usize)
        ensures
            n == self.row_contents@.len(),
    {
        self.row_contents.len()
    }

    /// The raw content of the row at `at`.
    pub fn get_row(&self, at: usize) -> (r: &Vec<char>)
        requires
            at < self.row_contents@.len(),
        ensures
            r@ == self.row_contents@[at as int].row_content@,
    {
        &self.row_contents[at].row_content
    }

    /// The row at `at`.
    pub fn get_editor_row(&self, at: usize) -> (r: &Row)
        requires
            at < self.row_contents@.len(),
        ensures
            *r == self.row_contents@[at as int],
    {
        &self.row_contents[at]
    }

    /// A mutable borrow of the row at `at`.
    pub fn get_editor_row_mut(&mut self, at: usize) -> (r: &mut Row)
        requires
            at < old(self).row_contents@.len(),
        ensures
            *r == old(self).row_contents@[at as int],
            final(self).row_contents@
                == old(self).row_contents@.update(at as int, *final(r)),
            final(self).filename == old(self).filename,
    {
        &mut self.row_contents[at]
    }

    /// Recomputes `row.render` from `row.row_content` by tab expansion.
    pub fn render_row(row: &mut Row)
        ensures
            final(row).row_content@ == old(row).row_content@,
            final(row).rendered(),
            final(row).highlight@ == old(row).highlight@,
            final(row).is_comment == old(row).is_comment,
    {
        let n = row.row_content.len();
        let mut out: Vec<char> = Vec::new();
        let mut i: usize = 0;
        while i < n
            invariant
                0 <= i <= n,
                n == row.row_content@.len(),
                out@ == render_prefix(row.row_content@, i as int),
            decreases n - i,
        {
            let ghost pre = out@;
            if row.row_content[i] == '\t' {
                out.push(' ');
                proof {
                    assert(out@ =~= pre + Seq::new((out@.len() - pre.len()) as nat, |k: int| ' '));
                }
                while out.len() % TAB_STOP != 0
                    invariant
                        pre.len() < out@.len(),
                        out@.len() <= pre.len() + (TAB_STOP - (pre.len() % (TAB_STOP as nat))),
                        out@ == pre + Seq::new((out@.len() - pre.len()) as nat, |k: int| ' '),
                    decreases pre.len() + TAB_STOP - out@.len(),
                {
                    out.push(' ');
                    proof {
                        assert(out@ == pre + Seq::new((out@.len() - pre.len()) as nat, |k: int| ' '))
                            by {
                            assert(out@ =~= pre + Seq::new(
                                (out@.len() - pre.len()) as nat, |k: int| ' '));
                        }
                    }
                }
                proof {
                    assert(out@.len() - pre.len()
                        == TAB_STOP - (pre.len() % (TAB_STOP as nat)));
                    assert(out@ =~= render_prefix(row.row_content@, i as int + 1));
                }
            } else {
                out.push(row.row_content[i]);
            }
            i += 1;
        }
        row.render = out;
    }

    /// Inserts a freshly rendered row holding `contents` at index `at`.
    pub fn insert_row(&mut self, at: usize, contents: Vec<char>)
        requires
            at <= old(self).row_contents@.len(),
        ensures
            final(self).row_contents@.len() == old(self).row_contents@.len() + 1,
            final(self).row_contents@[at as int].row_content@ == contents@,
            final(self).row_contents@[at as int].rendered(),
            final(self).row_contents@[at as int].highlight@
                == Seq::<HighlightType>::empty(),
            final(self).row_contents@[at as int].is_comment == false,
            forall|i: int| 0 <= i < at
                ==> final(self).row_contents@[i] == old(self).row_contents@[i],
            forall|i: int| at < i < final(self).row_contents@.len()
                ==> final(self).row_contents@[i] == old(self).row_contents@[i - 1],
            final(self).filename == old(self).filename,
    {
        let mut new_row = Row::new(contents, Vec::new());
        Rows::render_row(&mut new_row);
        self.row_contents.insert(at, new_row);
    }

    /// Removes row `at` and appends its raw content to the row above, which
    /// is re-rendered. The caller keeps `at` off the buffer start.
    pub fn join_adjacent_rows(&mut self, at: usize)
        requires
            1 <= at < old(self).row_contents@.len(),
        ensures
            final(self).row_contents@.len() == old(self).row_contents@.len() - 1,
            final(self).row_contents@[at - 1].row_content@
                == old(self).row_contents@[at - 1].row_content@
                    + old(self).row_contents@[at as int].row_content@,
            final(self).row_contents@[at - 1].rendered(),
            final(self).row_contents@[at - 1].highlight@
                == old(self).row_contents@[at - 1].highlight@,
            final(self).row_contents@[at - 1].is_comment
                == old(self).row_contents@[at - 1].is_comment,
            forall|i: int| 0 <= i < at - 1
                ==> final(self).row_contents@[i] == old(self).row_contents@[i],
            forall|i: int| at <= i < final(self).row_contents@.len()
                ==> final(self).row_contents@[i] == old(self).row_contents@[i + 1],
            final(self).filename == old(self).filename,
    {
        let current_row = self.row_contents.remove(at);
        let mut previous_row = self.row_contents.remove(at - 1);
        let mut k: usize = 0;
        let n = current_row.row_content.len();
        while k < n
            invariant
                0 <= k <= n,
                n == current_row.row_content@.len(),
                previous_row.row_content@
                    == old(self).row_contents@[at - 1].row_content@
                        + current_row.row_content@.take(k as int),
                previous_row.highlight@ == old(self).row_contents@[at - 1].highlight@,
                previous_row.is_comment == old(self).row_contents@[at - 1].is_comment,
            decreases n - k,
        {
            previous_row.row_content.push(current_row.row_content[k]);
            proof {
                assert(current_row.row_content@.take(k as int).push(
                    current_row.row_content@[k as int])
                    =~= current_row.row_content@.take(k as int + 1));
            }
            k += 1;
        }
        proof {
            assert(current_row.row_content@.take(n as int) =~= current_row.row_content@);
        }
        Rows::render_row(&mut previous_row);
        self.row_contents.insert(at - 1, previous_row);
    }

    /// Replaces the classification and continuation state of row `at`,
    /// leaving its text alone.
    pub fn set_highlight(&mut self, at: usize, tags: Vec<HighlightType>, open: bool)
        requires
            at < old(self).row_contents@.len(),
        ensures
            final(self).row_contents@.len() == old(self).row_contents@.len(),
            final(self).row_contents@[at as int].row_content@
                == old(self).row_contents@[at as int].row_content@,
            final(self).row_contents@[at as int].render@
                == old(self).row_contents@[at as int].render@,
            final(self).row_contents@[at as int].highlight@ == tags@,
            final(self).row_contents@[at as int].is_comment == open,
            forall|i: int| 0 <= i < old(self).row_contents@.len() && i != at
                ==> final(self).row_contents@[i] == old(self).row_contents@[i],
            final(self).filename == old(self).filename,
    {
        let r = self.get_editor_row_mut(at);
        r.highlight = tags;
        r.is_comment = open;
    }

    /// The text a save writes: all raw lines joined by single newlines,
    /// with no trailing newline.
    pub open spec fn joined_contents(rows: Seq<Row>) -> Seq<char>
        decreases rows.len(),
    {
        if rows.len() == 0 {
            Seq::empty()
        } else if rows.len() == 1 {
            rows[0].row_content@
        } else {
            Rows::joined_contents(rows.drop_last()) + seq!['\n'] + rows.last().row_content@
        }
    }

    /// Produces the exact text a save must write, or reports that no file
    /// name is known. Succeeds if and only if a file name is set; the buffer
    /// itself is never touched.
    pub fn save_contents(&self) -> (res: Result<Vec<char>, EditorError>)
        ensures
            match res {
                Ok(out) => self.filename.is_some()
                    && out@ == Rows::joined_contents(self.row_contents@),
                Err(e) => self.filename.is_none() && e == EditorError::NoFileName,
            },
    {
        if self.filename.is_none() {
            return Err(EditorError::NoFileName);
        }
        let mut out: Vec<char> = Vec::new();
        let n = self.row_contents.len();
        let mut i: usize = 0;
        while i < n
            invariant
                0 <= i <= n,
                n == self.row_contents@.len(),
                out@ == Rows::joined_contents(self.row_contents@.take(i as int)),
            decreases n - i,
        {
            if i > 0 {
                out.push('\n');
            }
            let row = &self.row_contents[i];
            let m = row.row_content.len();
            let mut j: usize = 0;
            let ghost pre = out@;
            while j < m
                invariant
                    0 <= j <= m,
                    m == row.row_content@.len(),
                    row == self.row_contents@[i as int],
                    out@ == pre + row.row_content@.take(j as int),
                decreases m - j,
            {
                out.push(row.row_content[j]);
                proof {
                    assert(row.row_content@.take(j as int).push(row.row_content@[j as int])
                        =~= row.row_content@.take(j as int + 1));
                }
                j += 1;
            }
            proof {
                assert(row.row_content@.take(m as int) =~= row.row_content@);
                lemma_joined_take_step(self.row_contents@, i as int);
            }
            i += 1;
        }
        proof {
            assert(self.row_contents@.take(n as int) =~= self.row_contents@);
        }
        Ok(out)
    }
}

impl Rows {
    /// Builds a buffer from pre-split lines, rendering each; classification
    /// starts empty and closed, ready for a full highlight pass.
    pub fn from_lines(lines: Vec<Vec<char>>, filename: Option<Vec<char>>) -> (r: Rows)
        ensures
            r.row_contents@.len() == lines@.len(),
            forall|i: int| 0 <= i < lines@.len()
                ==> (#[trigger] r.row_contents@[i]).row_content@ == lines@[i]@,
            forall|i: int| 0 <= i < lines@.len()
                ==> (#[trigger] r.row_contents@[i]).rendered(),
            forall|i: int| 0 <= i < lines@.len()
                ==> (#[trigger] r.row_contents@[i]).highlight@
                    == Seq::<HighlightType>::empty(),
            forall|i: int| 0 <= i < lines@.len()
                ==> (#[trigger] r.row_contents@[i]).is_comment == false,
            r.filename == filename,
    {
        let mut rows = Rows { row_contents: Vec::new(), filename };
        let n = lines.len();
        let mut i: usize = 0;
        while i < n
            invariant
                0 <= i <= n,
                n == lines@.len(),
                rows.row_contents@.len() == i,
                forall|j: int| 0 <= j < i
                    ==> (#[trigger] rows.row_contents@[j]).row_content@ == lines@[j]@,
                forall|j: int| 0 <= j < i
                    ==> (#[trigger] rows.row_contents@[j]).rendered(),
                forall|j: int| 0 <= j < i
                    ==> (#[trigger] rows.row_contents@[j]).highlight@
                        == Seq::<HighlightType>::empty(),
                forall|j: int| 0 <= j < i
                    ==> (#[trigger] rows.row_contents@[j]).is_comment == false,
                rows.filename == filename,
            decreases n - i,
        {
            let line = copy_line(&lines, i);
            let mut row = Row::new(line, Vec::new());
            Rows::render_row(&mut row);
            rows.row_contents.push(row);
            i += 1;
        }
        rows
    }
}

/// Copies line `i` out of a vector of lines.
fn copy_line(lines: &Vec<Vec<char>>, i: usize) -> (r: Vec<char>)
    requires
        i < lines@.len(),
    ensures
        r@ == lines@[i as int]@,
{
    let src = &lines[i];
    let mut r: Vec<char> = Vec::new();
    let m = src.len();
    let mut j: usize = 0;
    while j < m
        invariant
            0 <= j <= m,
            m == src@.len(),
            r@ == src@.take(j as int),
        decreases m - j,
    {
        r.push(src[j]);
        proof {
            assert(src@.take(j as int).push(src@[j as int]) =~= src@.take(j as int + 1));
        }
        j += 1;
    }
    proof {
        assert(src@.take(m as int) =~= src@);
    }
    r
}

/// Inserting a character and deleting it at the same raw index restores the
/// original raw line, and with it the line's rendering; since the highlight
/// pass is a function of the rendered text alone, the classification fixed
/// point is restored with it. (round trip)
pub proof fn lemma_insert_delete_roundtrip(raw: Seq<char>, col: int, ch: char)
    requires
        0 <= col <= raw.len(),
    ensures
        raw.insert(col, ch).remove(col) == raw,
        render_spec(raw.insert(col, ch).remove(col)) == render_spec(raw),
{
    assert(raw.insert(col, ch).remove(col) =~= raw);
}

/// Joining two lines and re-splitting the merged line at the original
/// boundary column reproduces the two original raw lines. (round trip)
pub proof fn lemma_join_split_roundtrip(a: Seq<char>, b: Seq<char>)
    ensures
        (a + b).take(a.len() as int) == a,
        (a + b).skip(a.len() as int) == b,
{
    assert((a + b).take(a.len() as int) =~= a);
    assert((a + b).skip(a.len() as int) =~= b);
}

/// Unfolds one step of the joined save payload over a growing prefix.
proof fn lemma_joined_take_step(rows: Seq<Row>, i: int)
    requires
        0 <= i < rows.len(),
    ensures
        Rows::joined_contents(rows.take(i + 1))
            == if i == 0 {
                rows[0].row_content@
            } else {
                Rows::joined_contents(rows.take(i)) + seq!['\n'] + rows[i].row_content@
            },
{
    let t = rows.take(i + 1);
    assert(t.last() == rows[i]);
    assert(t.drop_last() =~= rows.take(i));
    if i == 0 {
        assert(t.len() == 1);
    }
}

} // verus!
