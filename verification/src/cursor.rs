//! The cursor and viewport: logical-to-render coordinate mapping, movement
//! primitives, and the scrolling rule that keeps the cursor visible.

use vstd::prelude::*;
use crate::rows::{Row, Rows, render_col, TAB_STOP};

verus! {

/// A logical key the engine reacts to; the terminal driver translates its
/// own events into these.
#[derive(Clone, Copy, PartialEq, Eq, Structural, Debug)]
pub enum EditorKey {
    Up,
    Down,
    Left,
    Right,
    Home,
    End,
    PageUp,
    PageDown,
    Enter,
    Escape,
    /// A printable character.
    Char(char),
    /// Any other key.
    Other,
}

/// The raw length of line `y`, or 0 past the end of the buffer.
pub open spec fn row_len(rows: Seq<Row>, y: int) -> int {
    if 0 <= y < rows.len() {
        rows[y].row_content@.len() as int
    } else {
        0
    }
}

/// Where one movement key takes the cursor from `(x, y)`: the new
/// `(raw_col, line)` pair, clamped to the buffer as the movement rules say.
pub open spec fn moved(
    rows: Seq<Row>,
    x: int,
    y: int,
    key: EditorKey,
    page: int,
) -> (int, int) {
    let n = rows.len() as int;
    match key {
        EditorKey::Left => {
            if x > 0 { (x - 1, y) }
            else if y > 0 { (row_len(rows, y - 1), y - 1) }
            else { (0, 0) }
        },
        EditorKey::Right => {
            if y < n && x < row_len(rows, y) { (x + 1, y) }
            else if y < n && x == row_len(rows, y) { (0, y + 1) }
            else { (x, y) }
        },
        EditorKey::Up => {
            if y > 0 {
                (if x <= row_len(rows, y - 1) { x } else { row_len(rows, y - 1) }, y - 1)
            } else { (x, y) }
        },
        EditorKey::Down => {
            if y < n {
                (if x <= row_len(rows, y + 1) { x } else { row_len(rows, y + 1) }, y + 1)
            } else { (x, y) }
        },
        EditorKey::Home => (0, y),
        EditorKey::End => (row_len(rows, y), y),
        EditorKey::PageUp => {
            let ty = if y >= page { y - page } else { 0 };
            (if x <= row_len(rows, ty) { x } else { row_len(rows, ty) }, ty)
        },
        EditorKey::PageDown => {
            let ty = if y + page <= n { y + page } else { n };
            (if x <= row_len(rows, ty) { x } else { row_len(rows, ty) }, ty)
        },
        _ => (x, y),
    }
}

/// The cursor position and the viewport origin.
pub struct Cursor {
    /// Raw-content column in the current line.
    pub cursor_x: usize,
    /// Line index; may equal the number of lines (the virtual line past EOF).
    pub cursor_y: usize,
    /// Tab-aware projection of `cursor_x`, kept current by `scroll`.
    pub render_x: usize,
    /// First visible line.
    pub row_offset: usize,
    /// First visible render column.
    pub column_offset: usize,
    /// Viewport width in columns.
    pub screen_columns: usize,
    /// Viewport height in rows.
    pub screen_rows: usize,
}

impl Cursor {
    /// The cursor addresses a line of the buffer (or the virtual line past
    /// its end) and a raw column within that line.
    pub open spec fn valid(self, rows: Seq<Row>) -> bool {
        &&& self.cursor_y <= rows.len()
        &&& self.cursor_x <= row_len(rows, self.cursor_y as int)
    }

    /// A cursor at the origin of an empty viewport state.
    pub fn new(win_size: (usize, usize)) -> (c: Cursor)
        ensures
            c.cursor_x == 0,
            c.cursor_y == 0,
            c.render_x == 0,
            c.row_offset == 0,
            c.column_offset == 0,
            c.screen_columns == win_size.0,
            c.screen_rows == win_size.1,
    {
        Cursor {
            cursor_x: 0,
            cursor_y: 0,
            render_x: 0,
            row_offset: 0,
            column_offset: 0,
            screen_columns: win_size.0,
            screen_rows: win_size.1,
        }
    }

    /// Applies one movement key, exactly as `moved` says; offsets and the
    /// viewport size are left for the next `scroll`.
    pub fn move_cursor(&mut self, key: EditorKey, rows: &Rows)
        requires
            old(self).valid(rows.row_contents@),
        ensures
            final(self).valid(rows.row_contents@),
            (final(self).cursor_x as int, final(self).cursor_y as int) == moved(
                rows.row_contents@,
                old(self).cursor_x as int,
                old(self).cursor_y as int,
                key,
                old(self).screen_rows as int,
            ),
            final(self).render_x == old(self).render_x,
            final(self).row_offset == old(self).row_offset,
            final(self).column_offset == old(self).column_offset,
            final(self).screen_columns == old(self).screen_columns,
            final(self).screen_rows == old(self).screen_rows,
    {
        let n = rows.number_of_rows();
        match key {
            EditorKey::Left => {
                if self.cursor_x > 0 {
                    self.cursor_x -= 1;
                } else if self.cursor_y > 0 {
                    self.cursor_y -= 1;
                    self.cursor_x = rows.get_row(self.cursor_y).len();
                }
            },
            EditorKey::Right => {
                if self.cursor_y < n {
                    let len = rows.get_row(self.cursor_y).len();
                    if self.cursor_x < len {
                        self.cursor_x += 1;
                    } else {
                        self.cursor_y += 1;
                        self.cursor_x = 0;
                    }
                }
            },
            EditorKey::Up => {
                if self.cursor_y > 0 {
                    self.cursor_y -= 1;
                    self.clamp_x(rows);
                }
            },
            EditorKey::Down => {
                if self.cursor_y < n {
                    self.cursor_y += 1;
                    self.clamp_x(rows);
                }
            },
            EditorKey::Home => {
                self.cursor_x = 0;
            },
            EditorKey::End => {
                if self.cursor_y < n {
                    self.cursor_x = rows.get_row(self.cursor_y).len();
                } else {
                    self.cursor_x = 0;
                }
            },
            EditorKey::PageUp => {
                if self.cursor_y >= self.screen_rows {
                    self.cursor_y -= self.screen_rows;
                } else {
                    self.cursor_y = 0;
                }
                self.clamp_x(rows);
            },
            EditorKey::PageDown => {
                if n - self.cursor_y >= self.screen_rows {
                    self.cursor_y += self.screen_rows;
                } else {
                    self.cursor_y = n;
                }
                self.clamp_x(rows);
            },
            _ => {},
        }
    }

    /// Clamps the raw column to the current line's raw length.
    fn clamp_x(&mut self, rows: &Rows)
        ensures
            final(self).cursor_x as int == (if old(self).cursor_x as int
                    <= row_len(rows.row_contents@, old(self).cursor_y as int) {
                old(self).cursor_x as int
            } else {
                row_len(rows.row_contents@, old(self).cursor_y as int)
            }),
            final(self).cursor_y == old(self).cursor_y,
            final(self).render_x == old(self).render_x,
            final(self).row_offset == old(self).row_offset,
            final(self).column_offset == old(self).column_offset,
            final(self).screen_columns == old(self).screen_columns,
            final(self).screen_rows == old(self).screen_rows,
    {
        let n = rows.number_of_rows();
        let len = if self.cursor_y < n {
            rows.get_row(self.cursor_y).len()
        } else {
            0
        };
        if self.cursor_x > len {
            self.cursor_x = len;
        }
    }

    /// Recomputes `render_x` and pulls the viewport origin so the cursor is
    /// inside the visible window, in constant time per call.
    pub fn scroll(&mut self, rows: &Rows)
        requires
            old(self).valid(rows.row_contents@),
            old(self).screen_rows >= 1,
            old(self).screen_columns >= 1,
            forall|i: int| 0 <= i < rows.row_contents@.len()
                ==> (#[trigger] rows.row_contents@[i]).rendered(),
        ensures
            final(self).cursor_x == old(self).cursor_x,
            final(self).cursor_y == old(self).cursor_y,
            final(self).screen_columns == old(self).screen_columns,
            final(self).screen_rows == old(self).screen_rows,
            final(self).render_x as int == cursor_render_col(
                rows.row_contents@, old(self).cursor_y as int, old(self).cursor_x as int),
            final(self).row_offset <= final(self).cursor_y
                < final(self).row_offset + final(self).screen_rows,
            final(self).column_offset <= final(self).render_x
                < final(self).column_offset + final(self).screen_columns,
            final(self).row_offset == scrolled(
                old(self).row_offset as int, old(self).cursor_y as int,
                old(self).screen_rows as int),
            final(self).column_offset == scrolled(
                old(self).column_offset as int,
                cursor_render_col(rows.row_contents@, old(self).cursor_y as int,
                    old(self).cursor_x as int),
                old(self).screen_columns as int),
    {
        let n = rows.number_of_rows();
        if self.cursor_y < n {
            let row = rows.get_editor_row(self.cursor_y);
            self.render_x = get_render_x(row, self.cursor_x);
        } else {
            self.render_x = 0;
        }
        if self.cursor_y < self.row_offset {
            self.row_offset = self.cursor_y;
        }
        if self.cursor_y - self.row_offset >= self.screen_rows {
            self.row_offset = self.cursor_y - self.screen_rows + 1;
        }
        if self.render_x < self.column_offset {
            self.column_offset = self.render_x;
        }
        if self.render_x - self.column_offset >= self.screen_columns {
            self.column_offset = self.render_x - self.screen_columns + 1;
        }
    }
}

/// The viewport origin after one scroll step: pulled up to `pos` when `pos`
/// lies before it, pulled down just far enough when `pos` lies past the
/// window of size `extent`.
pub open spec fn scrolled(offset: int, pos: int, extent: int) -> int {
    let up = if pos < offset { pos } else { offset };
    if pos >= up + extent { pos - extent + 1 } else { up }
}

/// The render column of the cursor: the tab-aware projection of its raw
/// column, or 0 on the virtual line past the buffer end.
pub open spec fn cursor_render_col(rows: Seq<Row>, y: int, x: int) -> int {
    if 0 <= y < rows.len() {
        render_col(rows[y].row_content@, x)
    } else {
        0
    }
}

/// The render column never shrinks as more raw characters are processed.
pub proof fn lemma_render_col_mono(raw: Seq<char>, a: int, b: int)
    requires
        0 <= a <= b <= raw.len(),
    ensures
        render_col(raw, a) <= render_col(raw, b),
        render_col(raw, b) - render_col(raw, a) >= b - a,
    decreases b,
{
    if a < b {
        lemma_render_col_mono(raw, a, b - 1);
    }
}

/// Computes the tab-aware render column of raw index `cx` in a rendered row.
pub fn get_render_x(row: &Row, cx: usize) -> (rx: usize)
    requires
        row.rendered(),
        cx <= row.row_content@.len(),
    ensures
        rx as int == render_col(row.row_content@, cx as int),
{
    proof {
        crate::rows::lemma_render_prefix_len(row.row_content@, row.row_content@.len() as int);
    }
    let render_len = row.render.len();
    let mut i: usize = 0;
    let mut col: usize = 0;
    while i < cx
        invariant
            0 <= i <= cx,
            cx <= row.row_content@.len(),
            row.rendered(),
            col == render_col(row.row_content@, i as int),
            render_len == row.render@.len(),
            row.render@.len() == render_col(row.row_content@, row.row_content@.len() as int),
        decreases cx - i,
    {
        proof {
            lemma_render_col_mono(row.row_content@, i as int + 1,
                row.row_content@.len() as int);
        }
        if row.row_content[i] == '\t' {
            col = col + (TAB_STOP - col % TAB_STOP);
        } else {
            col = col + 1;
        }
        i += 1;
    }
    col
}

} // verus!
