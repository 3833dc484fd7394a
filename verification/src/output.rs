//! The engine's top level: the buffer, cursor, search state and frame buffer
//! composed into one editing session, with the per-keystroke edit operations
//! and the render pipeline.

use vstd::prelude::*;
use crate::content::Content;
use crate::cursor::{Cursor, EditorKey, row_len};
use crate::highlight::{
    cascade_states, raws_of, renders_of, seed_at, states_of, HighlightType, Syntax,
};
use crate::rows::{rx_to_cx, Row, Rows};
use crate::search::{
    overlay, search_target, SearchDirection, SearchIndex,
};

verus! {

/// A dirty counter bumped by one edit, sticking at its ceiling.
pub open spec fn bumped(d: u64) -> u64 {
    if d < u64::MAX { (d + 1) as u64 } else { d }
}

/// The status message shown in the message bar, with the time it was set;
/// it expires five seconds after that.
pub struct StatusMessage {
    pub message: Option<Vec<char>>,
    pub set_time: Option<u64>,
}

/// How long a status message stays visible, in milliseconds.
pub const MESSAGE_TTL_MS: u64 = 5000;

/// A message set at `t` is no longer shown at `now`.
pub open spec fn expired(t: u64, now: u64) -> bool {
    now > t + MESSAGE_TTL_MS
}

impl StatusMessage {
    /// Both fields are set together or not at all.
    pub open spec fn wf(self) -> bool {
        self.message.is_some() == self.set_time.is_some()
    }

    /// A message shown from time `now` on.
    pub fn new(initial_message: Vec<char>, now: u64) -> (s: StatusMessage)
        ensures
            s.wf(),
            s.message == Some(initial_message),
            s.set_time == Some(now),
    {
        StatusMessage { message: Some(initial_message), set_time: Some(now) }
    }

    /// Replaces the message and restamps it.
    pub fn set_message(&mut self, message: Vec<char>, now: u64)
        ensures
            final(self).wf(),
            final(self).message == Some(message),
            final(self).set_time == Some(now),
    {
        self.message = Some(message);
        self.set_time = Some(now);
    }

    /// The current message, if one is set and not yet expired; an expired
    /// message is cleared and nothing is returned.
    pub fn message(&mut self, now: u64) -> (res: Option<Vec<char>>)
        requires
            old(self).wf(),
        ensures
            final(self).wf(),
            match old(self).set_time {
                None => res.is_none() && *final(self) == *old(self),
                Some(t) => {
                    if expired(t, now) {
                        &&& res.is_none()
                        &&& final(self).message.is_none()
                        &&& final(self).set_time.is_none()
                    } else {
                        &&& *final(self) == *old(self)
                        &&& res.is_some()
                        &&& res->0@ == old(self).message->0@
                    }
                },
            },
    {
        match self.set_time {
            None => None,
            Some(t) => {
                if now > t && now - t > MESSAGE_TTL_MS {
                    self.message = None;
                    self.set_time = None;
                    None
                } else {
                    match &self.message {
                        Some(m) => Some(copy_chars(m)),
                        None => None,
                    }
                }
            },
        }
    }
}

/// Copies a character vector.
pub fn copy_chars(v: &Vec<char>) -> (r: Vec<char>)
    ensures
        r@ == v@,
{
    let mut r: Vec<char> = Vec::new();
    let n = v.len();
    let mut i: usize = 0;
    while i < n
        invariant
            0 <= i <= n,
            n == v@.len(),
            r@ == v@.take(i as int),
        decreases n - i,
    {
        r.push(v[i]);
        proof {
            assert(v@.take(i as int).push(v@[i as int]) =~= v@.take(i as int + 1));
        }
        i += 1;
    }
    proof {
        assert(v@.take(n as int) =~= v@);
    }
    r
}

/// Copies a classification vector.
pub fn copy_tags(v: &Vec<HighlightType>) -> (r: Vec<HighlightType>)
    ensures
        r@ == v@,
{
    let mut r: Vec<HighlightType> = Vec::new();
    let n = v.len();
    let mut i: usize = 0;
    while i < n
        invariant
            0 <= i <= n,
            n == v@.len(),
            r@ == v@.take(i as int),
        decreases n - i,
    {
        r.push(v[i]);
        proof {
            assert(v@.take(i as int).push(v@[i as int]) =~= v@.take(i as int + 1));
        }
        i += 1;
    }
    proof {
        assert(v@.take(n as int) =~= v@);
    }
    r
}

/// Appends the characters of `src` to `dst`.
pub fn push_chars(dst: &mut Vec<char>, src: &Vec<char>)
    ensures
        final(dst)@ == old(dst)@ + src@,
{
    let n = src.len();
    let mut i: usize = 0;
    while i < n
        invariant
            0 <= i <= n,
            n == src@.len(),
            dst@ == old(dst)@ + src@.take(i as int),
        decreases n - i,
    {
        dst.push(src[i]);
        proof {
            assert(src@.take(i as int).push(src@[i as int]) =~= src@.take(i as int + 1));
            assert((old(dst)@ + src@.take(i as int)).push(src@[i as int])
                =~= old(dst)@ + src@.take(i as int + 1));
        }
        i += 1;
    }
    proof {
        assert(src@.take(n as int) =~= src@);
    }
}

/// One editing session: buffer, cursor, search state, status message and
/// frame buffer, with the language rules chosen at load time.
pub struct Output {
    /// Viewport (columns, rows), excluding the two bar lines.
    pub win_size: (usize, usize),
    /// The frame buffer one refresh cycle fills.
    pub content: Content,
    /// Cursor and viewport origin.
    pub cursor: Cursor,
    /// The line store.
    pub rows: Rows,
    /// The message-bar message.
    pub status_message: StatusMessage,
    /// Counts edits since the last save; any nonzero value means unsaved
    /// changes.
    pub dirty: u64,
    /// The incremental search state.
    pub search_index: SearchIndex,
    /// The language rules in force, or none for plain display.
    pub syntax_highlight: Option<Syntax>,
}

impl Output {
    /// The session is consistent: the cursor addresses the buffer and every
    /// row's rendering is in sync with its raw text.
    pub open spec fn wf(self) -> bool {
        &&& self.cursor.valid(self.rows.row_contents@)
        &&& forall|i: int| 0 <= i < self.rows.row_contents@.len()
            ==> (#[trigger] self.rows.row_contents@[i]).rendered()
        &&& self.status_message.wf()
        &&& self.cursor.screen_columns == self.win_size.0
        &&& self.cursor.screen_rows == self.win_size.1
        &&& 1 <= self.win_size.0 <= u16::MAX
        &&& 1 <= self.win_size.1 <= u16::MAX
    }

    /// The language rules for a file extension: Rust-like for `rs`,
    /// Markdown-like for `md`, none otherwise.
    pub fn select_syntax(extension: &Vec<char>) -> (res: Option<Syntax>)
        ensures
            extension@ == seq!['r', 's'] ==> res == Some(Syntax::Rust),
            extension@ == seq!['m', 'd'] ==> res == Some(Syntax::Markdown),
            extension@ != seq!['r', 's'] && extension@ != seq!['m', 'd'] ==> res.is_none(),
    {
        if extension.len() == 2 {
            let c0 = extension[0];
            let c1 = extension[1];
            if c0 == 'r' && c1 == 's' {
                proof {
                    assert(extension@ =~= seq!['r', 's']);
                }
                return Some(Syntax::Rust);
            }
            if c0 == 'm' && c1 == 'd' {
                proof {
                    assert(extension@ =~= seq!['m', 'd']);
                }
                return Some(Syntax::Markdown);
            }
            proof {
                assert(extension@ != seq!['r', 's'] && extension@ != seq!['m', 'd']) by {
                    if extension@ == seq!['r', 's'] {
                        assert(extension@[0] == 'r' && extension@[1] == 's');
                    }
                    if extension@ == seq!['m', 'd'] {
                        assert(extension@[0] == 'm' && extension@[1] == 'd');
                    }
                }
            }
            return None;
        }
        proof {
            assert(extension@.len() != 2);
            assert(extension@ != seq!['r', 's'] && extension@ != seq!['m', 'd']) by {
                assert(seq!['r', 's'].len() == 2);
                assert(seq!['m', 'd'].len() == 2);
            }
        }
        None
    }

    /// An empty, unnamed session for the given viewport, showing an initial
    /// status message.
    pub fn new(win_size: (usize, usize), initial_message: Vec<char>, now: u64) -> (out: Output)
        requires
            1 <= win_size.0 <= u16::MAX,
            1 <= win_size.1 <= u16::MAX,
        ensures
            out.wf(),
            out.win_size == win_size,
            out.rows.row_contents@.len() == 0,
            out.rows.filename.is_none(),
            out.content.content@ == Seq::<char>::empty(),
            out.dirty == 0,
            out.syntax_highlight.is_none(),
            out.cursor.cursor_x == 0 && out.cursor.cursor_y == 0,
            out.cursor.row_offset == 0 && out.cursor.column_offset == 0,
            out.cursor.screen_columns == win_size.0 && out.cursor.screen_rows == win_size.1,
            out.status_message.message == Some(initial_message),
            out.status_message.set_time == Some(now),
            out.search_index.previous_highlight.is_none(),
    {
        Output {
            win_size,
            content: Content::new(),
            cursor: Cursor::new(win_size),
            rows: Rows::new(),
            status_message: StatusMessage::new(initial_message, now),
            dirty: 0,
            search_index: SearchIndex::new(),
            syntax_highlight: None,
        }
    }

    /// Inserts `ch` at the cursor: a virtual line past the end first becomes
    /// a real empty row; the raw text gains `ch` at the cursor column, the
    /// cursor moves right, the edit counts as dirty, and under active
    /// language rules the highlight cascade runs from the edited line.
    pub fn insert_char(&mut self, ch: char)
        requires
            old(self).wf(),
        ensures
            final(self).wf(),
            ({
                let y = old(self).cursor.cursor_y as int;
                let x = old(self).cursor.cursor_x as int;
                let raws0 = raws_of(old(self).rows.row_contents@);
                let base: Seq<Seq<char>> = if y == raws0.len() {
                    raws0.push(Seq::empty())
                } else {
                    raws0
                };
                let raws1 = base.update(y, base[y].insert(x, ch));
                &&& raws_of(final(self).rows.row_contents@) == raws1
                &&& final(self).cursor.cursor_x == x + 1
                &&& final(self).cursor.cursor_y == y
                &&& final(self).dirty == (if y == raws0.len() {
                        bumped(bumped(old(self).dirty))
                    } else {
                        bumped(old(self).dirty)
                    })
                &&& (match old(self).syntax_highlight {
                    Some(lang) => states_of(final(self).rows.row_contents@)
                        == ({
                            let mid = states_of_after_edit(old(self).rows.row_contents@, y);
                            cascade_states(lang, renders_of(final(self).rows.row_contents@),
                                mid, y, seed_at(mid, y))
                        }),
                    None => states_of(final(self).rows.row_contents@)
                        == states_of_after_edit(old(self).rows.row_contents@, y),
                })
            }),
            final(self).cursor.render_x == old(self).cursor.render_x,
            final(self).cursor.row_offset == old(self).cursor.row_offset,
            final(self).cursor.column_offset == old(self).cursor.column_offset,
            final(self).cursor.screen_columns == old(self).cursor.screen_columns,
            final(self).cursor.screen_rows == old(self).cursor.screen_rows,
            final(self).search_index == old(self).search_index,
            final(self).rows.filename == old(self).rows.filename,
            final(self).win_size == old(self).win_size,
            final(self).content == old(self).content,
            final(self).status_message == old(self).status_message,
            final(self).syntax_highlight == old(self).syntax_highlight,
    {
        let ghost rows_old = old(self).rows.row_contents@;
        let ghost yg = old(self).cursor.cursor_y as int;
        let ghost xg = old(self).cursor.cursor_x as int;
        let ghost raws0 = raws_of(rows_old);
        let ghost base: Seq<Seq<char>> = if yg == raws0.len() {
            raws0.push(Seq::empty())
        } else {
            raws0
        };
        let y = self.cursor.cursor_y;
        let n = self.rows.number_of_rows();
        if y == n {
            self.rows.insert_row(n, Vec::new());
            self.dirty = bump(self.dirty);
        }
        let ghost rows_mid = self.rows.row_contents@;
        proof {
            lemma_raws_renders(rows_old);
            lemma_raws_renders(rows_mid);
            assert(raws_of(rows_mid) =~= base);
            assert(states_of(rows_mid) =~= states_of_after_edit(rows_old, yg));
            assert(rows_mid[yg].row_content@ == base[yg]);
            assert(xg <= base[yg].len());
        }
        {
            let r = self.rows.get_editor_row_mut(y);
            r.insert_char(self.cursor.cursor_x, ch);
        }
        let ghost rows_edit = self.rows.row_contents@;
        proof {
            lemma_raws_renders(rows_edit);
            assert(raws_of(rows_edit) =~= base.update(yg, base[yg].insert(xg, ch)));
            assert(states_of(rows_edit) =~= states_of(rows_mid));
            assert forall|i: int| 0 <= i < rows_edit.len()
                implies (#[trigger] rows_edit[i]).rendered() by {
                if i != yg {
                    assert(rows_edit[i] == rows_mid[i]);
                }
            }
        }
        if let Some(lang) = self.syntax_highlight {
            lang.update_syntax(y, &mut self.rows);
            proof {
                lemma_raws_renders(self.rows.row_contents@);
                assert forall|i: int| 0 <= i < self.rows.row_contents@.len()
                    implies (#[trigger] self.rows.row_contents@[i]).rendered() by {
                    assert(self.rows.row_contents@[i].row_content@
                        == raws_of(self.rows.row_contents@)[i]);
                    assert(raws_of(self.rows.row_contents@)[i] == raws_of(rows_edit)[i]);
                    assert(renders_of(self.rows.row_contents@)[i] == renders_of(rows_edit)[i]);
                    assert(rows_edit[i].rendered());
                }
            }
        }
        let newlen = self.rows.get_row(y).len();
        proof {
            assert(raws_of(self.rows.row_contents@)[yg] == base[yg].insert(xg, ch));
            assert(newlen == base[yg].len() + 1);
        }
        self.cursor.cursor_x += 1;
        self.dirty = bump(self.dirty);
    }
}

impl Output {
    /// Deletes the character left of the cursor, or joins the current line
    /// onto the one above when the cursor stands at column 0. At the buffer
    /// top-left or on the virtual line past the end nothing happens. Any
    /// active language rules then cascade from the edited line.
    pub fn delete_char(&mut self)
        requires
            old(self).wf(),
        ensures
            final(self).wf(),
            ({
                let y = old(self).cursor.cursor_y as int;
                let x = old(self).cursor.cursor_x as int;
                let raws0 = raws_of(old(self).rows.row_contents@);
                let states0 = states_of(old(self).rows.row_contents@);
                let n = raws0.len() as int;
                if y == n || (y == 0 && x == 0) {
                    &&& raws_of(final(self).rows.row_contents@) == raws0
                    &&& states_of(final(self).rows.row_contents@) == states0
                    &&& final(self).cursor.cursor_x == x
                    &&& final(self).cursor.cursor_y == y
                    &&& final(self).dirty == old(self).dirty
                } else if x > 0 {
                    let raws1 = raws0.update(y, raws0[y].remove(x - 1));
                    &&& raws_of(final(self).rows.row_contents@) == raws1
                    &&& final(self).cursor.cursor_x == x - 1
                    &&& final(self).cursor.cursor_y == y
                    &&& final(self).dirty == bumped(old(self).dirty)
                    &&& (match old(self).syntax_highlight {
                        Some(lang) => states_of(final(self).rows.row_contents@)
                            == cascade_states(lang,
                                renders_of(final(self).rows.row_contents@),
                                states0, y, seed_at(states0, y)),
                        None => states_of(final(self).rows.row_contents@) == states0,
                    })
                } else {
                    let raws1 = raws0.update(y - 1, raws0[y - 1] + raws0[y]).remove(y);
                    let mid = states0.remove(y);
                    &&& raws_of(final(self).rows.row_contents@) == raws1
                    &&& final(self).cursor.cursor_x == raws0[y - 1].len()
                    &&& final(self).cursor.cursor_y == y - 1
                    &&& final(self).dirty == bumped(old(self).dirty)
                    &&& (match old(self).syntax_highlight {
                        Some(lang) => states_of(final(self).rows.row_contents@)
                            == cascade_states(lang,
                                renders_of(final(self).rows.row_contents@),
                                mid, y - 1, seed_at(mid, y - 1)),
                        None => states_of(final(self).rows.row_contents@) == mid,
                    })
                }
            }),
            final(self).cursor.render_x == old(self).cursor.render_x,
            final(self).cursor.row_offset == old(self).cursor.row_offset,
            final(self).cursor.column_offset == old(self).cursor.column_offset,
            final(self).cursor.screen_columns == old(self).cursor.screen_columns,
            final(self).cursor.screen_rows == old(self).cursor.screen_rows,
            final(self).search_index == old(self).search_index,
            final(self).rows.filename == old(self).rows.filename,
            final(self).win_size == old(self).win_size,
            final(self).content == old(self).content,
            final(self).status_message == old(self).status_message,
            final(self).syntax_highlight == old(self).syntax_highlight,
    {
        let ghost rows_old = old(self).rows.row_contents@;
        let ghost yg = old(self).cursor.cursor_y as int;
        let ghost xg = old(self).cursor.cursor_x as int;
        let y = self.cursor.cursor_y;
        let n = self.rows.number_of_rows();
        if y == n {
            return;
        }
        if y == 0 && self.cursor.cursor_x == 0 {
            return;
        }
        if self.cursor.cursor_x > 0 {
            {
                let r = self.rows.get_editor_row_mut(y);
                r.delete_char(self.cursor.cursor_x - 1);
            }
            self.cursor.cursor_x -= 1;
        } else {
            self.cursor.cursor_x = self.rows.get_row(y - 1).len();
            self.rows.join_adjacent_rows(y);
            self.cursor.cursor_y -= 1;
        }
        let ghost rows_edit = self.rows.row_contents@;
        proof {
            lemma_raws_renders(rows_old);
            lemma_raws_renders(rows_edit);
            if xg > 0 {
                assert(raws_of(rows_edit)
                    =~= raws_of(rows_old).update(yg, raws_of(rows_old)[yg].remove(xg - 1)));
                assert(states_of(rows_edit) =~= states_of(rows_old));
            } else {
                assert(raws_of(rows_edit) =~= raws_of(rows_old).update(yg - 1,
                    raws_of(rows_old)[yg - 1] + raws_of(rows_old)[yg]).remove(yg));
                assert(states_of(rows_edit) =~= states_of(rows_old).remove(yg));
            }
            assert forall|i: int| 0 <= i < rows_edit.len()
                implies (#[trigger] rows_edit[i]).rendered() by {}
        }
        let at = self.cursor.cursor_y;
        if let Some(lang) = self.syntax_highlight {
            lang.update_syntax(at, &mut self.rows);
            proof {
                lemma_raws_renders(self.rows.row_contents@);
                assert forall|i: int| 0 <= i < self.rows.row_contents@.len()
                    implies (#[trigger] self.rows.row_contents@[i]).rendered() by {
                    assert(self.rows.row_contents@[i].row_content@
                        == raws_of(self.rows.row_contents@)[i]);
                    assert(raws_of(self.rows.row_contents@)[i] == raws_of(rows_edit)[i]);
                    assert(renders_of(self.rows.row_contents@)[i]
                        == renders_of(rows_edit)[i]);
                    assert(rows_edit[i].rendered());
                }
            }
        }
        self.dirty = bump(self.dirty);
        proof {
            lemma_raws_renders(self.rows.row_contents@);
            if xg == 0 && 0 < yg < rows_old.len() {
                assert(self.rows.row_contents@[yg - 1].row_content@
                    == raws_of(self.rows.row_contents@)[yg - 1]);
                assert(raws_of(self.rows.row_contents@)[yg - 1]
                    == raws_of(rows_old)[yg - 1] + raws_of(rows_old)[yg]);
            }
            if xg > 0 && yg < rows_old.len() {
                assert(self.rows.row_contents@[yg].row_content@
                    == raws_of(self.rows.row_contents@)[yg]);
                assert(raws_of(self.rows.row_contents@)[yg]
                    == raws_of(rows_old)[yg].remove(xg - 1));
                assert(xg <= raws_of(rows_old)[yg].len());
            }
        }
    }

    /// Breaks the current line at the cursor: at column 0 a fresh empty line
    /// is inserted above, otherwise the text right of the cursor moves to a
    /// new line below. Under active language rules the highlight engine
    /// reruns from the affected line either way, so a line break inside an
    /// open multi-line construct keeps the continuation chain intact. The
    /// cursor lands at the start of the lower line.
    pub fn insert_newline(&mut self)
        requires
            old(self).wf(),
        ensures
            final(self).wf(),
            ({
                let y = old(self).cursor.cursor_y as int;
                let x = old(self).cursor.cursor_x as int;
                let raws0 = raws_of(old(self).rows.row_contents@);
                let states0 = states_of(old(self).rows.row_contents@);
                if x == 0 {
                    let mid = states0.insert(y, (Seq::<HighlightType>::empty(), false));
                    &&& raws_of(final(self).rows.row_contents@)
                        == raws0.insert(y, Seq::empty())
                    &&& (match old(self).syntax_highlight {
                        Some(lang) => states_of(final(self).rows.row_contents@)
                            == cascade_states(lang,
                                renders_of(final(self).rows.row_contents@),
                                mid, y, seed_at(mid, y)),
                        None => states_of(final(self).rows.row_contents@) == mid,
                    })
                } else {
                    let head = raws0[y].take(x);
                    let tail = raws0[y].skip(x);
                    let raws1 = raws0.update(y, head).insert(y + 1, tail);
                    let mid = states0.insert(y + 1, (Seq::<HighlightType>::empty(), false));
                    &&& raws_of(final(self).rows.row_contents@) == raws1
                    &&& (match old(self).syntax_highlight {
                        Some(lang) => ({
                            let r1 = renders_of(final(self).rows.row_contents@);
                            let c1 = cascade_states(lang, r1, mid, y, seed_at(mid, y));
                            states_of(final(self).rows.row_contents@)
                                == cascade_states(lang, r1, c1, y + 1, seed_at(c1, y + 1))
                        }),
                        None => states_of(final(self).rows.row_contents@) == mid,
                    })
                }
            }),
            final(self).cursor.cursor_x == 0,
            final(self).cursor.cursor_y == old(self).cursor.cursor_y + 1,
            final(self).cursor.render_x == old(self).cursor.render_x,
            final(self).cursor.row_offset == old(self).cursor.row_offset,
            final(self).cursor.column_offset == old(self).cursor.column_offset,
            final(self).cursor.screen_columns == old(self).cursor.screen_columns,
            final(self).cursor.screen_rows == old(self).cursor.screen_rows,
            final(self).search_index == old(self).search_index,
            final(self).dirty == bumped(old(self).dirty),
            final(self).rows.filename == old(self).rows.filename,
            final(self).win_size == old(self).win_size,
            final(self).content == old(self).content,
            final(self).status_message == old(self).status_message,
            final(self).syntax_highlight == old(self).syntax_highlight,
    {
        let ghost rows_old = old(self).rows.row_contents@;
        let ghost yg = old(self).cursor.cursor_y as int;
        let ghost xg = old(self).cursor.cursor_x as int;
        let y = self.cursor.cursor_y;
        if self.cursor.cursor_x == 0 {
            self.rows.insert_row(y, Vec::new());
            let ghost rows_ins = self.rows.row_contents@;
            proof {
                lemma_raws_renders(rows_old);
                lemma_raws_renders(rows_ins);
                assert(raws_of(rows_ins)
                    =~= raws_of(rows_old).insert(yg, Seq::empty()));
                assert(states_of(rows_ins)
                    =~= states_of(rows_old).insert(yg,
                        (Seq::<HighlightType>::empty(), false)));
                assert forall|i: int| 0 <= i < rows_ins.len()
                    implies (#[trigger] rows_ins[i]).rendered() by {}
            }
            if let Some(lang) = self.syntax_highlight {
                lang.update_syntax(y, &mut self.rows);
                proof {
                    lemma_raws_renders(self.rows.row_contents@);
                    assert forall|i: int| 0 <= i < self.rows.row_contents@.len()
                        implies (#[trigger] self.rows.row_contents@[i]).rendered() by {
                        assert(self.rows.row_contents@[i].row_content@
                            == raws_of(self.rows.row_contents@)[i]);
                        assert(raws_of(self.rows.row_contents@)[i] == raws_of(rows_ins)[i]);
                        assert(renders_of(self.rows.row_contents@)[i]
                            == renders_of(rows_ins)[i]);
                        assert(rows_ins[i].rendered());
                    }
                }
            }
        } else {
            let n = self.rows.number_of_rows();
            proof {
                assert(yg < rows_old.len()) by {
                    if yg >= rows_old.len() {
                        assert(row_len(rows_old, yg) == 0);
                    }
                }
                assert(y < n);
            }
            let x = self.cursor.cursor_x;
            let mut tail: Vec<char> = Vec::new();
            {
                let row = self.rows.get_editor_row(y);
                let m = row.row_content.len();
                let mut j: usize = x;
                while j < m
                    invariant
                        0 <= yg < old(self).rows.row_contents@.len(),
                        xg <= j <= m,
                        m == row.row_content@.len(),
                        row == old(self).rows.row_contents@[yg],
                        xg == x,
                        tail@ == row.row_content@.subrange(xg, j as int),
                    decreases m - j,
                {
                    tail.push(row.row_content[j]);
                    proof {
                        assert(row.row_content@.subrange(xg, j as int).push(
                            row.row_content@[j as int])
                            =~= row.row_content@.subrange(xg, j as int + 1));
                    }
                    j += 1;
                }
                proof {
                    assert(tail@ == row.row_content@.skip(xg));
                }
            }
            {
                let r = self.rows.get_editor_row_mut(y);
                r.row_content.truncate(x);
                Rows::render_row(r);
            }
            self.rows.insert_row(y + 1, tail);
            proof {
                lemma_raws_renders(rows_old);
                lemma_raws_renders(self.rows.row_contents@);
                assert(raws_of(self.rows.row_contents@)
                    =~= raws_of(rows_old).update(yg, raws_of(rows_old)[yg].take(xg))
                        .insert(yg + 1, raws_of(rows_old)[yg].skip(xg)));
                assert(states_of(self.rows.row_contents@)
                    =~= states_of(rows_old).insert(yg + 1,
                        (Seq::<HighlightType>::empty(), false)));
                assert forall|i: int| 0 <= i < self.rows.row_contents@.len()
                    implies (#[trigger] self.rows.row_contents@[i]).rendered() by {}
            }
            let ghost rows_edit = self.rows.row_contents@;
            if let Some(lang) = self.syntax_highlight {
                lang.update_syntax(y, &mut self.rows);
                lang.update_syntax(y + 1, &mut self.rows);
                proof {
                    lemma_raws_renders(self.rows.row_contents@);
                    assert forall|i: int| 0 <= i < self.rows.row_contents@.len()
                        implies (#[trigger] self.rows.row_contents@[i]).rendered() by {
                        assert(self.rows.row_contents@[i].row_content@
                            == raws_of(self.rows.row_contents@)[i]);
                        assert(raws_of(self.rows.row_contents@)[i] == raws_of(rows_edit)[i]);
                        assert(renders_of(self.rows.row_contents@)[i]
                            == renders_of(rows_edit)[i]);
                        assert(rows_edit[i].rendered());
                    }
                }
            }
        }
        let nn = self.rows.number_of_rows();
        proof {
            assert(self.cursor.cursor_y < nn);
        }
        self.cursor.cursor_x = 0;
        self.cursor.cursor_y += 1;
        self.dirty = bump(self.dirty);
    }

    /// Applies one movement key to the cursor against the current buffer.
    pub fn move_cursor(&mut self, key: EditorKey)
        requires
            old(self).wf(),
        ensures
            final(self).wf(),
            (final(self).cursor.cursor_x as int, final(self).cursor.cursor_y as int)
                == crate::cursor::moved(
                    old(self).rows.row_contents@,
                    old(self).cursor.cursor_x as int,
                    old(self).cursor.cursor_y as int,
                    key,
                    old(self).cursor.screen_rows as int,
                ),
            final(self).rows == old(self).rows,
            final(self).cursor.render_x == old(self).cursor.render_x,
            final(self).cursor.row_offset == old(self).cursor.row_offset,
            final(self).cursor.column_offset == old(self).cursor.column_offset,
            final(self).cursor.screen_columns == old(self).cursor.screen_columns,
            final(self).cursor.screen_rows == old(self).cursor.screen_rows,
            final(self).search_index == old(self).search_index,
            final(self).dirty == old(self).dirty,
            final(self).content == old(self).content,
            final(self).status_message == old(self).status_message,
            final(self).syntax_highlight == old(self).syntax_highlight,
            final(self).win_size == old(self).win_size,
    {
        let rows = &self.rows;
        self.cursor.move_cursor(key, rows);
    }
}

/// The vertical intent one search keystroke sets.
pub open spec fn ydir_of(key: EditorKey) -> Option<SearchDirection> {
    match key {
        EditorKey::Down => Some(SearchDirection::Forward),
        EditorKey::Up => Some(SearchDirection::Backward),
        _ => None,
    }
}

/// The horizontal intent one search keystroke sets.
pub open spec fn xdir_of(key: EditorKey) -> Option<SearchDirection> {
    match key {
        EditorKey::Right => Some(SearchDirection::Forward),
        EditorKey::Left => Some(SearchDirection::Backward),
        _ => None,
    }
}

/// An arrow key keeps the scan anchored at the previous match; any other
/// key restarts the positional scan from the cursor line.
pub open spec fn is_arrow(key: EditorKey) -> bool {
    key is Down || key is Up || key is Left || key is Right
}

/// The classification states after the previously overlaid match highlight,
/// if one is recorded, has been restored to its snapshot.
pub open spec fn restored_states(
    states: Seq<(Seq<HighlightType>, bool)>,
    prev: Option<(usize, Vec<HighlightType>)>,
) -> Seq<(Seq<HighlightType>, bool)> {
    match prev {
        None => states,
        Some(p) => {
            if (p.0 as int) < states.len() {
                states.update(p.0 as int, (p.1@, states[p.0 as int].1))
            } else {
                states
            }
        },
    }
}

impl Output {
    /// One keystroke of an active search, driven by the interactive prompt:
    /// first the previous match overlay (if any) is restored; Enter and
    /// Escape then reset the search; an arrow key sets the direction intent
    /// and any other key restarts the positional scan at the cursor line;
    /// finally one match step runs, as `search_target` says, overlaying and
    /// jumping to the match it finds, or changing nothing when none exists
    /// within bounds.
    pub fn find_callback(&mut self, keyword: &Vec<char>, key: EditorKey)
        requires
            old(self).wf(),
        ensures
            final(self).wf(),
            raws_of(final(self).rows.row_contents@)
                == raws_of(old(self).rows.row_contents@),
            renders_of(final(self).rows.row_contents@)
                == renders_of(old(self).rows.row_contents@),
            final(self).rows.filename == old(self).rows.filename,
            final(self).content == old(self).content,
            final(self).status_message == old(self).status_message,
            final(self).dirty == old(self).dirty,
            final(self).win_size == old(self).win_size,
            final(self).syntax_highlight == old(self).syntax_highlight,
            ({
                let states_r = restored_states(
                    states_of(old(self).rows.row_contents@),
                    old(self).search_index.previous_highlight,
                );
                let renders0 = renders_of(old(self).rows.row_contents@);
                let raws0 = raws_of(old(self).rows.row_contents@);
                if key is Escape || key is Enter {
                    &&& states_of(final(self).rows.row_contents@) == states_r
                    &&& final(self).search_index.previous_highlight.is_none()
                    &&& final(self).search_index.y_direction.is_none()
                    &&& final(self).search_index.x_direction.is_none()
                    &&& final(self).search_index.y_index == 0
                    &&& final(self).search_index.x_index == 0
                    &&& final(self).cursor == old(self).cursor
                } else {
                    let y0: int = if is_arrow(key) {
                        old(self).search_index.y_index as int
                    } else {
                        old(self).cursor.cursor_y as int
                    };
                    let x0 = old(self).search_index.x_index as int;
                    &&& final(self).search_index.y_direction == ydir_of(key)
                    &&& final(self).search_index.x_direction == xdir_of(key)
                    &&& (match search_target(renders0, keyword@, y0, x0,
                            ydir_of(key), xdir_of(key)) {
                        Some(p) => {
                            let l = p.0;
                            let c = p.1;
                            &&& states_of(final(self).rows.row_contents@)
                                == states_r.update(l,
                                    (overlay(states_r[l].0, c, keyword@.len() as int),
                                        states_r[l].1))
                            &&& final(self).search_index.y_index == l
                            &&& final(self).search_index.x_index == c
                            &&& (match final(self).search_index.previous_highlight {
                                Some(q) => q.0 == l && q.1@ == states_r[l].0,
                                None => false,
                            })
                            &&& final(self).cursor.cursor_y == l
                            &&& final(self).cursor.cursor_x == rx_to_cx(raws0[l], c)
                            &&& final(self).cursor.row_offset == raws0.len()
                            &&& final(self).cursor.render_x == old(self).cursor.render_x
                            &&& final(self).cursor.column_offset
                                == old(self).cursor.column_offset
                            &&& final(self).cursor.screen_columns
                                == old(self).cursor.screen_columns
                            &&& final(self).cursor.screen_rows
                                == old(self).cursor.screen_rows
                        },
                        None => {
                            &&& states_of(final(self).rows.row_contents@) == states_r
                            &&& final(self).search_index.previous_highlight.is_none()
                            &&& final(self).search_index.y_index == y0
                            &&& final(self).search_index.x_index == x0
                            &&& final(self).cursor == old(self).cursor
                        },
                    })
                }
            }),
    {
        let ghost rows_old = self.rows.row_contents@;
        let ghost states0 = states_of(rows_old);
        let ghost renders0 = renders_of(rows_old);
        let ghost raws0 = raws_of(rows_old);
        let n = self.rows.number_of_rows();
        let prev = self.search_index.previous_highlight.take();
        if let Some(p) = prev {
            let (idx, hl) = p;
            if idx < n {
                let keep = self.rows.get_editor_row(idx).is_comment;
                self.rows.set_highlight(idx, hl, keep);
            }
        }
        let ghost states_r = restored_states(states0, old(self).search_index.previous_highlight);
        proof {
            lemma_raws_renders(rows_old);
            lemma_raws_renders(self.rows.row_contents@);
            assert(states_of(self.rows.row_contents@) =~= states_r);
            assert(raws_of(self.rows.row_contents@) =~= raws0);
            assert(renders_of(self.rows.row_contents@) =~= renders0);
            assert forall|i: int| 0 <= i < self.rows.row_contents@.len()
                implies (#[trigger] self.rows.row_contents@[i]).rendered() by {
                assert(rows_old[i].rendered());
            }
        }
        match key {
            EditorKey::Escape | EditorKey::Enter => {
                self.search_index.reset();
                return;
            },
            _ => {},
        }
        self.search_index.y_direction = None;
        self.search_index.x_direction = None;
        match key {
            EditorKey::Down => {
                self.search_index.y_direction = Some(SearchDirection::Forward);
            },
            EditorKey::Up => {
                self.search_index.y_direction = Some(SearchDirection::Backward);
            },
            EditorKey::Right => {
                self.search_index.x_direction = Some(SearchDirection::Forward);
            },
            EditorKey::Left => {
                self.search_index.x_direction = Some(SearchDirection::Backward);
            },
            _ => {
                self.search_index.y_index = self.cursor.cursor_y;
            },
        }
        let ghost y0 = self.search_index.y_index as int;
        let ghost x0 = self.search_index.x_index as int;
        let target: Option<(usize, usize)> = match (
            &self.search_index.y_direction,
            &self.search_index.x_direction,
        ) {
            (Some(SearchDirection::Forward), _) => {
                if self.search_index.y_index < usize::MAX {
                    crate::search::scan_rows_fwd(&self.rows.row_contents, keyword,
                        self.search_index.y_index + 1)
                } else {
                    proof {
                        assert(y0 + 1 > renders0.len());
                    }
                    None
                }
            },
            (Some(SearchDirection::Backward), _) => {
                if self.search_index.y_index == 0 || self.search_index.y_index > n {
                    None
                } else {
                    crate::search::scan_rows_back(&self.rows.row_contents, keyword,
                        self.search_index.y_index - 1)
                }
            },
            (None, Some(SearchDirection::Forward)) => {
                if self.search_index.y_index < n {
                    let y = self.search_index.y_index;
                    let rl = self.rows.row_contents[y].render.len();
                    if self.search_index.x_index < rl {
                        match crate::text::find_from(&self.rows.row_contents[y].render,
                            keyword, self.search_index.x_index + 1) {
                            Some(c) => Some((y, c)),
                            None => None,
                        }
                    } else {
                        proof {
                            assert(renders0[y0].len() == rl);
                            assert(crate::text::find_at_or_after(
                                renders0[y0], keyword@, x0 + 1).is_none());
                        }
                        None
                    }
                } else {
                    None
                }
            },
            (None, Some(SearchDirection::Backward)) => {
                if self.search_index.y_index < n {
                    let y = self.search_index.y_index;
                    match crate::text::rfind_below(&self.rows.row_contents[y].render,
                        keyword, self.search_index.x_index) {
                        Some(c) => Some((y, c)),
                        None => None,
                    }
                } else {
                    None
                }
            },
            (None, None) => {
                crate::search::scan_rows_fwd(&self.rows.row_contents, keyword,
                    self.search_index.y_index)
            },
        };
        proof {
            assert(match target {
                Some(p) => search_target(renders0, keyword@, y0, x0,
                    ydir_of(key), xdir_of(key)) == Some((p.0 as int, p.1 as int)),
                None => search_target(renders0, keyword@, y0, x0,
                    ydir_of(key), xdir_of(key)).is_none(),
            });
        }
        if let Some(t) = target {
            let (l, c) = t;
            proof {
                lemma_target_in_bounds(renders0, keyword@, y0, x0, ydir_of(key),
                    xdir_of(key), l as int, c as int);
            }
            let keep = self.rows.get_editor_row(l).is_comment;
            let snap = copy_tags(&self.rows.get_editor_row(l).highlight);
            let mut ov: Vec<HighlightType> = Vec::new();
            let m = snap.len();
            let mut j: usize = 0;
            while j < m
                invariant
                    0 <= j <= m,
                    m == snap@.len(),
                    c <= usize::MAX,
                    ov@ == overlay(snap@, c as int, keyword@.len() as int).take(j as int),
                decreases m - j,
            {
                if j >= c && j - c < keyword.len() {
                    ov.push(HighlightType::SearchMatch);
                } else {
                    ov.push(snap[j]);
                }
                proof {
                    assert(ov@ =~= overlay(snap@, c as int,
                        keyword@.len() as int).take(j as int + 1));
                }
                j += 1;
            }
            proof {
                assert(ov@ =~= overlay(snap@, c as int, keyword@.len() as int));
            }
            let ghost rows_r = self.rows.row_contents@;
            self.rows.set_highlight(l, ov, keep);
            proof {
                lemma_raws_renders(self.rows.row_contents@);
                assert(states_of(self.rows.row_contents@)
                    =~= states_r.update(l as int,
                        (overlay(states_r[l as int].0, c as int, keyword@.len() as int),
                            states_r[l as int].1)));
                assert(raws_of(self.rows.row_contents@) =~= raws0);
                assert(renders_of(self.rows.row_contents@) =~= renders0);
                assert forall|i: int| 0 <= i < self.rows.row_contents@.len()
                    implies (#[trigger] self.rows.row_contents@[i]).rendered() by {
                    assert(rows_r[i].rendered());
                }
            }
            self.search_index.previous_highlight = Some((l, snap));
            self.cursor.cursor_y = l;
            self.search_index.y_index = l;
            self.search_index.x_index = c;
            self.cursor.cursor_x = self.rows.get_editor_row(l).get_row_content_x(c);
            proof {
                Row::lemma_rx_to_cx_bound(raws0[l as int], c as int, 0);
                assert(self.rows.row_contents@[l as int].row_content@ == raws0[l as int]);
            }
            self.cursor.row_offset = n;
        }
    }
}

/// A search target lies within the buffer: on a real line, at a real render
/// column.
proof fn lemma_target_in_bounds(
    renders: Seq<Seq<char>>,
    kw: Seq<char>,
    y0: int,
    x0: int,
    ydir: Option<SearchDirection>,
    xdir: Option<SearchDirection>,
    l: int,
    c: int,
)
    requires
        y0 >= 0,
        x0 >= 0,
        search_target(renders, kw, y0, x0, ydir, xdir) == Some((l, c)),
    ensures
        0 <= l < renders.len(),
        0 <= c <= renders[l].len(),
{
    match ydir {
        Some(SearchDirection::Forward) => {
            lemma_scan_fwd_bounds(renders, kw, y0 + 1);
        },
        Some(SearchDirection::Backward) => {
            lemma_scan_back_bounds(renders, kw, y0 - 1);
        },
        None => match xdir {
            Some(SearchDirection::Forward) => {
                crate::text::lemma_find_sound(renders[y0], kw, x0 + 1);
            },
            Some(SearchDirection::Backward) => {
                crate::text::lemma_rfind_sound(renders[y0], kw, x0);
            },
            None => {
                lemma_scan_fwd_bounds(renders, kw, y0);
            },
        },
    }
}

/// A forward scan's result lies within the buffer.
proof fn lemma_scan_fwd_bounds(renders: Seq<Seq<char>>, kw: Seq<char>, y: int)
    requires
        y >= 0,
        crate::search::scan_fwd(renders, kw, y).is_some(),
    ensures
        ({
            let p = crate::search::scan_fwd(renders, kw, y)->0;
            0 <= p.0 < renders.len() && 0 <= p.1 <= renders[p.0].len()
        }),
    decreases renders.len() - y,
{
    if 0 <= y < renders.len() {
        match crate::text::find_at_or_after(renders[y], kw, 0) {
            Some(c) => {
                crate::text::lemma_find_sound(renders[y], kw, 0);
            },
            None => {
                lemma_scan_fwd_bounds(renders, kw, y + 1);
            },
        }
    }
}

/// A backward scan's result lies within the buffer.
proof fn lemma_scan_back_bounds(renders: Seq<Seq<char>>, kw: Seq<char>, y: int)
    requires
        crate::search::scan_back(renders, kw, y).is_some(),
    ensures
        ({
            let p = crate::search::scan_back(renders, kw, y)->0;
            0 <= p.0 < renders.len() && 0 <= p.1 <= renders[p.0].len()
        }),
    decreases y + 1,
{
    if 0 <= y < renders.len() {
        match crate::text::find_at_or_after(renders[y], kw, 0) {
            Some(c) => {
                crate::text::lemma_find_sound(renders[y], kw, 0);
            },
            None => {
                lemma_scan_back_bounds(renders, kw, y - 1);
            },
        }
    }
}

/// `k` space characters (none for a nonpositive count).
pub open spec fn spaces(k: int) -> Seq<char> {
    Seq::new(if k >= 0 { k as nat } else { 0 }, |i: int| ' ')
}

/// `s` clipped to at most `w` characters.
pub open spec fn clip(s: Seq<char>, w: int) -> Seq<char> {
    if s.len() <= w { s } else { s.take(w) }
}

/// The marker shown beside the file name while unsaved changes exist.
pub open spec fn modified_marker(dirty: u64) -> Seq<char> {
    if dirty > 0 {
        seq!['(', 'm', 'o', 'd', 'i', 'f', 'i', 'e', 'd', ')']
    } else {
        Seq::empty()
    }
}

/// The file name shown in the status bar, or a placeholder.
pub open spec fn display_name(f: Option<Vec<char>>) -> Seq<char> {
    match f {
        Some(v) => v@,
        None => seq!['[', 'u', 'n', 'n', 'a', 'm', 'e', 'd', ']'],
    }
}

/// The left-justified status text: file name, modified marker, line count.
pub open spec fn status_info(f: Option<Vec<char>>, dirty: u64, n: nat) -> Seq<char> {
    display_name(f) + seq![' '] + modified_marker(dirty) + seq![' ', '-', '-', ' ']
        + crate::text::dec_chars(n) + seq![' ', 'l', 'i', 'n', 'e', 's']
}

/// The right-aligned status text: language tag and cursor line over total.
pub open spec fn line_indicator(s: Option<Syntax>, y: nat, n: nat) -> Seq<char> {
    (match s {
        Some(l) => l.file_type_spec(),
        None => Seq::empty(),
    }) + seq![' ', '|', ' '] + crate::text::dec_chars((y + 1) as nat) + seq!['/']
        + crate::text::dec_chars(n) + seq![' ', ' ']
}

/// The visible status-bar text: the left text clipped to the width, padded
/// with spaces, with the right text placed flush right when it fits.
pub open spec fn status_visible(info: Seq<char>, li: Seq<char>, w: int) -> Seq<char> {
    let ic = clip(info, w);
    if ic.len() + li.len() <= w {
        ic + spaces(w - ic.len() - li.len()) + li
    } else {
        ic + spaces(w - ic.len())
    }
}

/// The status bar's visible text always fills the viewport width exactly,
/// and so never exceeds it, whatever the file name, dirty state, language
/// tag or line-count magnitude.
pub proof fn lemma_status_bar_width(info: Seq<char>, li: Seq<char>, w: int)
    requires
        w >= 0,
    ensures
        status_visible(info, li, w).len() == w,
{
}

/// The message bar's text never exceeds the viewport width, whatever the
/// message length.
pub proof fn lemma_message_bar_width(m: Seq<char>, w: int)
    requires
        w >= 0,
    ensures
        clip(m, w).len() <= w,
{
}

impl Output {
    /// Appends to `out` the characters of `s` clipped to `w`.
    fn push_clipped(out: &mut Vec<char>, s: &Vec<char>, w: usize)
        ensures
            final(out)@ == old(out)@ + clip(s@, w as int),
    {
        let m = if s.len() < w { s.len() } else { w };
        let mut j: usize = 0;
        while j < m
            invariant
                0 <= j <= m,
                m == (if s@.len() < w { s@.len() as int } else { w as int }),
                out@ == old(out)@ + s@.take(j as int),
            decreases m - j,
        {
            out.push(s[j]);
            proof {
                assert(s@.take(j as int).push(s@[j as int]) =~= s@.take(j as int + 1));
                assert((old(out)@ + s@.take(j as int)).push(s@[j as int])
                    =~= old(out)@ + s@.take(j as int + 1));
            }
            j += 1;
        }
        proof {
            assert(s@.take(m as int) =~= clip(s@, w as int));
        }
    }

    /// Draws the status bar into the frame buffer: reverse video, the
    /// visible status text filling the width exactly, attribute reset,
    /// and a line break.
    pub fn draw_status_bar(&mut self)
        requires
            old(self).wf(),
            old(self).cursor.cursor_y < usize::MAX,
        ensures
            final(self).wf(),
            final(self).content.content@ == old(self).content.content@
                + crate::term::reverse_video_seq()
                + status_visible(
                    status_info(old(self).rows.filename, old(self).dirty,
                        old(self).rows.row_contents@.len()),
                    line_indicator(old(self).syntax_highlight,
                        old(self).cursor.cursor_y as nat,
                        old(self).rows.row_contents@.len()),
                    old(self).win_size.0 as int)
                + crate::term::reset_attr_seq() + seq!['\r', '\n'],
            final(self).rows == old(self).rows,
            final(self).cursor == old(self).cursor,
            final(self).dirty == old(self).dirty,
            final(self).search_index == old(self).search_index,
            final(self).status_message == old(self).status_message,
            final(self).syntax_highlight == old(self).syntax_highlight,
            final(self).win_size == old(self).win_size,
    {
        let n = self.rows.number_of_rows();
        let info = Output::build_status_info(&self.rows.filename, self.dirty, n);
        let li = Output::build_line_indicator(self.syntax_highlight,
            self.cursor.cursor_y, n);
        let vis = Output::build_status_visible(&info, &li, self.win_size.0);
        let rv = crate::term::term_reverse_video();
        self.content.push_str(&rv);
        self.content.push_str(&vis);
        let ra = crate::term::term_reset_attr();
        self.content.push_str(&ra);
        self.content.push('\r');
        self.content.push('\n');
    }

    /// Builds the left-justified status text.
    fn build_status_info(filename: &Option<Vec<char>>, dirty: u64, n: usize)
        -> (v: Vec<char>)
        ensures
            v@ == status_info(*filename, dirty, n as nat),
    {
        let mut info: Vec<char> = Vec::new();
        match filename {
            Some(f) => {
                push_chars(&mut info, f);
            },
            None => {
                let unnamed: Vec<char> = vec!['[', 'u', 'n', 'n', 'a', 'm', 'e', 'd', ']'];
                proof {
                    assert(unnamed@ =~= seq!['[', 'u', 'n', 'n', 'a', 'm', 'e', 'd', ']']);
                }
                push_chars(&mut info, &unnamed);
            },
        }
        info.push(' ');
        if dirty > 0 {
            let m: Vec<char> = vec!['(', 'm', 'o', 'd', 'i', 'f', 'i', 'e', 'd', ')'];
            proof {
                assert(m@ =~= modified_marker(dirty));
            }
            push_chars(&mut info, &m);
        }
        let dashes: Vec<char> = vec![' ', '-', '-', ' '];
        proof {
            assert(dashes@ =~= seq![' ', '-', '-', ' ']);
        }
        push_chars(&mut info, &dashes);
        crate::text::push_decimal(&mut info, n as u64);
        let lines_w: Vec<char> = vec![' ', 'l', 'i', 'n', 'e', 's'];
        proof {
            assert(lines_w@ =~= seq![' ', 'l', 'i', 'n', 'e', 's']);
        }
        push_chars(&mut info, &lines_w);
        proof {
            assert(info@ =~= status_info(*filename, dirty, n as nat));
        }
        info
    }

    /// Builds the right-aligned status text.
    fn build_line_indicator(syntax: Option<Syntax>, y: usize, n: usize) -> (v: Vec<char>)
        requires
            y < usize::MAX,
        ensures
            v@ == line_indicator(syntax, y as nat, n as nat),
    {
        let mut li: Vec<char> = Vec::new();
        if let Some(l) = &syntax {
            let ft = l.file_type();
            push_chars(&mut li, &ft);
        }
        let sep: Vec<char> = vec![' ', '|', ' '];
        proof {
            assert(sep@ =~= seq![' ', '|', ' ']);
        }
        push_chars(&mut li, &sep);
        crate::text::push_decimal(&mut li, (y as u64) + 1);
        li.push('/');
        crate::text::push_decimal(&mut li, n as u64);
        li.push(' ');
        li.push(' ');
        proof {
            assert(li@ =~= line_indicator(syntax, y as nat, n as nat));
        }
        li
    }

    /// Lays the two status texts out across the viewport width.
    fn build_status_visible(info: &Vec<char>, li: &Vec<char>, w: usize) -> (v: Vec<char>)
        ensures
            v@ == status_visible(info@, li@, w as int),
    {
        let mut vis: Vec<char> = Vec::new();
        Output::push_clipped(&mut vis, info, w);
        let ghost icl = vis@;
        if li.len() <= w && vis.len() <= w - li.len() {
            let pad = w - vis.len() - li.len();
            let mut p: usize = 0;
            while p < pad
                invariant
                    0 <= p <= pad,
                    vis@ == icl + spaces(p as int),
                decreases pad - p,
            {
                vis.push(' ');
                proof {
                    assert(icl + spaces(p as int + 1)
                        =~= (icl + spaces(p as int)).push(' '));
                }
                p += 1;
            }
            push_chars(&mut vis, li);
            proof {
                assert(vis@ =~= status_visible(info@, li@, w as int));
            }
        } else {
            while vis.len() < w
                invariant
                    icl == clip(info@, w as int),
                    icl.len() <= w,
                    vis@ == icl + spaces(vis@.len() - icl.len()),
                    icl.len() <= vis@.len() <= w,
                decreases w - vis@.len(),
            {
                vis.push(' ');
                proof {
                    assert(icl + spaces(vis@.len() - icl.len())
                        =~= (icl + spaces(vis@.len() - 1 - icl.len())).push(' '));
                }
            }
            proof {
                assert(vis@ =~= status_visible(info@, li@, w as int));
            }
        }
        vis
    }

    /// Draws the message bar into the frame buffer: clear the line, then
    /// the current non-expired status message clipped to the width.
    pub fn draw_message_bar(&mut self, now: u64)
        requires
            old(self).wf(),
        ensures
            final(self).wf(),
            ({
                let shown: Seq<char> = match old(self).status_message.set_time {
                    None => Seq::empty(),
                    Some(t) => if expired(t, now) {
                        Seq::empty()
                    } else {
                        old(self).status_message.message->0@
                    },
                };
                final(self).content.content@ == old(self).content.content@
                    + crate::term::clear_line_seq()
                    + clip(shown, old(self).win_size.0 as int)
            }),
            final(self).rows == old(self).rows,
            final(self).cursor == old(self).cursor,
            final(self).dirty == old(self).dirty,
            final(self).search_index == old(self).search_index,
            final(self).syntax_highlight == old(self).syntax_highlight,
            final(self).win_size == old(self).win_size,
    {
        let clr = crate::term::term_clear_line();
        self.content.push_str(&clr);
        let msg = self.status_message.message(now);
        if let Some(m) = msg {
            let mut clipped: Vec<char> = Vec::new();
            Output::push_clipped(&mut clipped, &m, self.win_size.0);
            self.content.push_str(&clipped);
            proof {
                assert(Seq::<char>::empty() + clipped@ =~= clipped@);
            }
        } else {
            proof {
                assert(self.content.content@
                    + clip(Seq::<char>::empty(), self.win_size.0 as int)
                    =~= self.content.content@);
            }
        }
    }
}

/// The SGR foreground-color sequence for one display category.
pub open spec fn color_code(t: HighlightType) -> Seq<char> {
    match t {
        HighlightType::Normal => seq!['\u{1b}', '[', '3', '9', 'm'],
        HighlightType::Number => seq!['\u{1b}', '[', '3', '1', 'm'],
        HighlightType::Str => seq!['\u{1b}', '[', '3', '5', 'm'],
        HighlightType::Comment => seq!['\u{1b}', '[', '3', '6', 'm'],
        HighlightType::Keyword => seq!['\u{1b}', '[', '3', '3', 'm'],
        HighlightType::SearchMatch => seq!['\u{1b}', '[', '3', '4', 'm'],
    }
}

/// Clipped text with each character preceded by its category's color code.
pub open spec fn colorize(text: Seq<char>, tags: Seq<HighlightType>) -> Seq<char>
    decreases text.len()
        when text.len() == tags.len()
{
    if text.len() == 0 {
        Seq::empty()
    } else {
        color_code(tags[0]) + seq![text[0]] + colorize(text.skip(1), tags.skip(1))
    }
}

/// The centered one-line banner an empty buffer shows.
pub open spec fn welcome_line(w: int) -> Seq<char> {
    let msg = seq!['Z', 'A', 'Z', ' ', '-', ' ', '0', '.', '1', '.', '0'];
    let t = clip(msg, w);
    let pad = (w - t.len()) / 2;
    if pad > 0 {
        seq!['~'] + spaces(pad - 1) + t
    } else {
        t
    }
}

/// One buffer line as drawn: the rendering clipped to the viewport window,
/// colorized per character under active language rules (when the
/// classification is in step with the rendering), with the colors reset at
/// the end of the line.
pub open spec fn text_row_line(
    render: Seq<char>,
    tags: Seq<HighlightType>,
    syntax: Option<Syntax>,
    coloff: int,
    w: int,
) -> Seq<char> {
    let len = if render.len() >= coloff {
        if render.len() - coloff <= w { render.len() - coloff } else { w }
    } else {
        0
    };
    let start: int = if len == 0 { 0 } else { coloff };
    let visible = render.subrange(start, start + len);
    if syntax is Some && tags.len() == render.len() {
        colorize(visible, tags.subrange(start, start + len))
            + color_code(HighlightType::Normal)
    } else {
        visible
    }
}

/// Screen row `i` of the content area.
pub open spec fn row_line(
    rows: Seq<Row>,
    syntax: Option<Syntax>,
    roff: int,
    coloff: int,
    w: int,
    h: int,
    i: int,
) -> Seq<char> {
    let fr = i + roff;
    if fr >= rows.len() {
        if rows.len() == 0 && i == h / 3 {
            welcome_line(w)
        } else {
            seq!['~']
        }
    } else {
        text_row_line(rows[fr].render@, rows[fr].highlight@, syntax, coloff, w)
    }
}

/// The whole content area from screen row `i` down: each row's text, a
/// clear-to-line-end, and a line break.
pub open spec fn frame_rows(
    rows: Seq<Row>,
    syntax: Option<Syntax>,
    roff: int,
    coloff: int,
    w: int,
    h: int,
    i: int,
) -> Seq<char>
    decreases h - i,
{
    if i >= h {
        Seq::empty()
    } else {
        row_line(rows, syntax, roff, coloff, w, h, i) + crate::term::clear_line_seq()
            + seq!['\r', '\n'] + frame_rows(rows, syntax, roff, coloff, w, h, i + 1)
    }
}

/// The SGR foreground-color sequence for one display category.
fn color_code_exec(t: HighlightType) -> (v: Vec<char>)
    ensures
        v@ == color_code(t),
{
    let v: Vec<char> = match t {
        HighlightType::Normal => vec!['\u{1b}', '[', '3', '9', 'm'],
        HighlightType::Number => vec!['\u{1b}', '[', '3', '1', 'm'],
        HighlightType::Str => vec!['\u{1b}', '[', '3', '5', 'm'],
        HighlightType::Comment => vec!['\u{1b}', '[', '3', '6', 'm'],
        HighlightType::Keyword => vec!['\u{1b}', '[', '3', '3', 'm'],
        HighlightType::SearchMatch => vec!['\u{1b}', '[', '3', '4', 'm'],
    };
    proof {
        assert(v@ =~= color_code(t));
    }
    v
}

/// Colorizes clipped text, one color code before each character.
fn colorize_exec(text: &Vec<char>, tags: &Vec<HighlightType>) -> (v: Vec<char>)
    requires
        text@.len() == tags@.len(),
    ensures
        v@ == colorize(text@, tags@),
{
    let mut v: Vec<char> = Vec::new();
    let n = text.len();
    let mut j: usize = 0;
    proof {
        assert(text@.skip(0) =~= text@);
        assert(tags@.skip(0) =~= tags@);
    }
    while j < n
        invariant
            0 <= j <= n,
            n == text@.len(),
            n == tags@.len(),
            colorize(text@, tags@)
                == v@ + colorize(text@.skip(j as int), tags@.skip(j as int)),
        decreases n - j,
    {
        let code = color_code_exec(tags[j]);
        push_chars(&mut v, &code);
        v.push(text[j]);
        proof {
            assert(text@.skip(j as int).skip(1) =~= text@.skip(j as int + 1));
            assert(tags@.skip(j as int).skip(1) =~= tags@.skip(j as int + 1));
            assert(text@.skip(j as int)[0] == text@[j as int]);
            assert(tags@.skip(j as int)[0] == tags@[j as int]);
            assert(colorize(text@, tags@)
                =~= v@ + colorize(text@.skip(j as int + 1), tags@.skip(j as int + 1)));
        }
        j += 1;
    }
    proof {
        assert(colorize(text@, tags@) =~= v@);
    }
    v
}

/// Builds the centered banner line an empty buffer shows.
fn build_welcome(w: usize) -> (v: Vec<char>)
    ensures
        v@ == welcome_line(w as int),
{
    let msg: Vec<char> = vec!['Z', 'A', 'Z', ' ', '-', ' ', '0', '.', '1', '.', '0'];
    proof {
        assert(msg@ =~= seq!['Z', 'A', 'Z', ' ', '-', ' ', '0', '.', '1', '.', '0']);
    }
    let mut t: Vec<char> = Vec::new();
    Output::push_clipped(&mut t, &msg, w);
    let pad = (w - t.len()) / 2;
    let mut v: Vec<char> = Vec::new();
    if pad > 0 {
        v.push('~');
        let mut p: usize = 1;
        while p < pad
            invariant
                1 <= p <= pad,
                v@ == seq!['~'] + spaces(p as int - 1),
            decreases pad - p,
        {
            v.push(' ');
            proof {
                assert(seq!['~'] + spaces(p as int)
                    =~= (seq!['~'] + spaces(p as int - 1)).push(' '));
            }
            p += 1;
        }
        push_chars(&mut v, &t);
        proof {
            assert(v@ =~= welcome_line(w as int));
        }
    } else {
        push_chars(&mut v, &t);
        proof {
            assert(v@ =~= welcome_line(w as int));
        }
    }
    v
}

impl Output {
    /// Builds screen row `i` of the content area.
    fn build_row_line(&self, i: usize) -> (v: Vec<char>)
        requires
            self.wf(),
            i < self.win_size.1,
        ensures
            v@ == row_line(self.rows.row_contents@, self.syntax_highlight,
                self.cursor.row_offset as int, self.cursor.column_offset as int,
                self.win_size.0 as int, self.win_size.1 as int, i as int),
    {
        let n = self.rows.number_of_rows();
        let roff = self.cursor.row_offset;
        let coloff = self.cursor.column_offset;
        let w = self.win_size.0;
        let h = self.win_size.1;
        if roff <= n && i < n - roff {
            let fr = roff + i;
            let row = self.rows.get_editor_row(fr);
            let rl = row.render.len();
            let lenv = if rl >= coloff {
                if rl - coloff <= w { rl - coloff } else { w }
            } else {
                0
            };
            let start = if lenv == 0 { 0 } else { coloff };
            let mut visible: Vec<char> = Vec::new();
            let mut k: usize = 0;
            while k < lenv
                invariant
                    0 <= k <= lenv,
                    rl == row.render@.len(),
                    start + lenv <= row.render@.len(),
                    visible@ == row.render@.subrange(start as int, start as int + k),
                decreases lenv - k,
            {
                visible.push(row.render[start + k]);
                proof {
                    assert(row.render@.subrange(start as int, start as int + k).push(
                        row.render@[start as int + k])
                        =~= row.render@.subrange(start as int, start as int + k + 1));
                }
                k += 1;
            }
            let colored = self.syntax_highlight.is_some() && row.highlight.len() == rl;
            if colored {
                let mut tagv: Vec<HighlightType> = Vec::new();
                let mut k2: usize = 0;
                while k2 < lenv
                    invariant
                        0 <= k2 <= lenv,
                        rl == row.render@.len(),
                        row.highlight@.len() == rl,
                        start + lenv <= row.highlight@.len(),
                        tagv@ == row.highlight@.subrange(start as int, start as int + k2),
                    decreases lenv - k2,
                {
                    tagv.push(row.highlight[start + k2]);
                    proof {
                        assert(row.highlight@.subrange(start as int, start as int + k2).push(
                            row.highlight@[start as int + k2])
                            =~= row.highlight@.subrange(start as int, start as int + k2 + 1));
                    }
                    k2 += 1;
                }
                let mut v = colorize_exec(&visible, &tagv);
                let reset = color_code_exec(HighlightType::Normal);
                push_chars(&mut v, &reset);
                proof {
                    assert(v@ =~= row_line(self.rows.row_contents@, self.syntax_highlight,
                        roff as int, coloff as int, w as int, h as int, i as int));
                }
                v
            } else {
                proof {
                    assert(visible@ =~= row_line(self.rows.row_contents@,
                        self.syntax_highlight, roff as int, coloff as int,
                        w as int, h as int, i as int));
                }
                visible
            }
        } else {
            if n == 0 && i == h / 3 {
                build_welcome(w)
            } else {
                let mut v: Vec<char> = Vec::new();
                v.push('~');
                proof {
                    assert(v@ =~= seq!['~']);
                }
                v
            }
        }
    }

    /// Draws the content area into the frame buffer: for each viewport row
    /// its buffer line clipped and colorized, a clear-to-line-end, and a
    /// line break; rows past the buffer show a placeholder, and an empty
    /// buffer centers a banner a third of the way down.
    pub fn draw_rows(&mut self)
        requires
            old(self).wf(),
        ensures
            final(self).wf(),
            final(self).content.content@ == old(self).content.content@
                + frame_rows(old(self).rows.row_contents@, old(self).syntax_highlight,
                    old(self).cursor.row_offset as int,
                    old(self).cursor.column_offset as int,
                    old(self).win_size.0 as int, old(self).win_size.1 as int, 0),
            final(self).rows == old(self).rows,
            final(self).cursor == old(self).cursor,
            final(self).dirty == old(self).dirty,
            final(self).search_index == old(self).search_index,
            final(self).status_message == old(self).status_message,
            final(self).syntax_highlight == old(self).syntax_highlight,
            final(self).win_size == old(self).win_size,
    {
        let h = self.win_size.1;
        let ghost args_rows = self.rows.row_contents@;
        let ghost args_syn = self.syntax_highlight;
        let ghost roff = self.cursor.row_offset as int;
        let ghost coloff = self.cursor.column_offset as int;
        let ghost w = self.win_size.0 as int;
        let mut i: usize = 0;
        while i < h
            invariant
                0 <= i <= h,
                self.wf(),
                self.rows == old(self).rows,
                self.cursor == old(self).cursor,
                self.dirty == old(self).dirty,
                self.search_index == old(self).search_index,
                self.status_message == old(self).status_message,
                self.syntax_highlight == old(self).syntax_highlight,
                self.win_size == old(self).win_size,
                args_rows == self.rows.row_contents@,
                args_syn == self.syntax_highlight,
                roff == self.cursor.row_offset as int,
                coloff == self.cursor.column_offset as int,
                w == self.win_size.0 as int,
                h == self.win_size.1,
                old(self).content.content@
                    + frame_rows(args_rows, args_syn, roff, coloff, w, h as int, 0)
                    == self.content.content@
                        + frame_rows(args_rows, args_syn, roff, coloff, w, h as int, i as int),
            decreases h - i,
        {
            let line = self.build_row_line(i);
            self.content.push_str(&line);
            let clr = crate::term::term_clear_line();
            self.content.push_str(&clr);
            self.content.push('\r');
            self.content.push('\n');
            proof {
                let ghost pre = frame_rows(args_rows, args_syn, roff, coloff, w,
                    h as int, i as int);
                let ghost post = frame_rows(args_rows, args_syn, roff, coloff, w,
                    h as int, i as int + 1);
                assert(pre =~= line@ + crate::term::clear_line_seq()
                    + seq!['\r', '\n'] + post);
                assert(old(self).content.content@
                    + frame_rows(args_rows, args_syn, roff, coloff, w, h as int, 0)
                    =~= self.content.content@ + post);
            }
            i += 1;
        }
        proof {
            assert(frame_rows(args_rows, args_syn, roff, coloff, w, h as int, h as int)
                =~= Seq::<char>::empty());
            assert(self.content.content@ =~= old(self).content.content@
                + frame_rows(args_rows, args_syn, roff, coloff, w, h as int, 0));
        }
    }

    /// One refresh cycle: scroll the viewport to the cursor, then compose
    /// the whole frame into the buffer: hide the cursor, home, the content
    /// rows, the status and message bars, the cursor repositioned into the
    /// viewport, show the cursor. The caller emits the buffer in one write.
    #[verifier::rlimit(100)]
    pub fn refresh_screen(&mut self, now: u64)
        requires
            old(self).wf(),
            old(self).cursor.cursor_y < usize::MAX,
        ensures
            final(self).wf(),
            final(self).rows == old(self).rows,
            final(self).dirty == old(self).dirty,
            final(self).search_index == old(self).search_index,
            final(self).syntax_highlight == old(self).syntax_highlight,
            final(self).win_size == old(self).win_size,
            final(self).cursor.cursor_x == old(self).cursor.cursor_x,
            final(self).cursor.cursor_y == old(self).cursor.cursor_y,
            final(self).cursor.render_x as int == crate::cursor::cursor_render_col(
                old(self).rows.row_contents@, old(self).cursor.cursor_y as int,
                old(self).cursor.cursor_x as int),
            final(self).cursor.row_offset == crate::cursor::scrolled(
                old(self).cursor.row_offset as int, old(self).cursor.cursor_y as int,
                old(self).win_size.1 as int),
            final(self).cursor.column_offset == crate::cursor::scrolled(
                old(self).cursor.column_offset as int,
                final(self).cursor.render_x as int, old(self).win_size.0 as int),
            final(self).content.content@ == old(self).content.content@
                + crate::term::hide_cursor_seq() + crate::term::move_to_seq(0, 0)
                + frame_rows(old(self).rows.row_contents@, old(self).syntax_highlight,
                    final(self).cursor.row_offset as int,
                    final(self).cursor.column_offset as int,
                    old(self).win_size.0 as int, old(self).win_size.1 as int, 0)
                + crate::term::reverse_video_seq()
                + status_visible(
                    status_info(old(self).rows.filename, old(self).dirty,
                        old(self).rows.row_contents@.len()),
                    line_indicator(old(self).syntax_highlight,
                        old(self).cursor.cursor_y as nat,
                        old(self).rows.row_contents@.len()),
                    old(self).win_size.0 as int)
                + crate::term::reset_attr_seq() + seq!['\r', '\n']
                + crate::term::clear_line_seq()
                + clip(
                    match old(self).status_message.set_time {
                        None => Seq::empty(),
                        Some(t) => if expired(t, now) {
                            Seq::empty()
                        } else {
                            old(self).status_message.message->0@
                        },
                    },
                    old(self).win_size.0 as int)
                + crate::term::move_to_seq(
                    final(self).cursor.render_x - final(self).cursor.column_offset,
                    final(self).cursor.cursor_y - final(self).cursor.row_offset)
                + crate::term::show_cursor_seq(),
    {
        let rows_ref = &self.rows;
        self.cursor.scroll(rows_ref);
        let hide = crate::term::term_hide_cursor();
        self.content.push_str(&hide);
        let home = crate::term::term_move_to(0, 0);
        self.content.push_str(&home);
        self.draw_rows();
        self.draw_status_bar();
        self.draw_message_bar(now);
        let cx = self.cursor.render_x - self.cursor.column_offset;
        let cy = self.cursor.cursor_y - self.cursor.row_offset;
        let mv = crate::term::term_move_to(cx as u16, cy as u16);
        self.content.push_str(&mv);
        let show = crate::term::term_show_cursor();
        self.content.push_str(&show);
    }
}

/// The classification states after a structural edit touched line `y`: rows
/// keep their recorded states, with a fresh closed state appended when the
/// edit grew the buffer by one row at its end.
pub open spec fn states_of_after_edit(rows0: Seq<Row>, y: int)
    -> Seq<(Seq<HighlightType>, bool)> {
    if y == rows0.len() {
        states_of(rows0).push((Seq::empty(), false))
    } else {
        states_of(rows0)
    }
}

/// Bumps the dirty counter without wrapping.
fn bump(d: u64) -> (r: u64)
    ensures
        r == bumped(d),
{
    if d < u64::MAX { d + 1 } else { d }
}

/// Mapping raw and rendered text commutes with indexing.
proof fn lemma_raws_renders(rows: Seq<Row>)
    ensures
        raws_of(rows).len() == rows.len(),
        renders_of(rows).len() == rows.len(),
        forall|i: int| 0 <= i < rows.len()
            ==> #[trigger] raws_of(rows)[i] == rows[i].row_content@,
        forall|i: int| 0 <= i < rows.len()
            ==> #[trigger] renders_of(rows)[i] == rows[i].render@,
{
}

} // verus!
