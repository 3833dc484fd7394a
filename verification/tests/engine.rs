use zaz::cursor::EditorKey;
use zaz::highlight::{HighlightType, Syntax};
use zaz::output::Output;
use zaz::rows::{Row, Rows, TAB_STOP};
use zaz::EditorError;

fn chars(s: &str) -> Vec<char> {
    s.chars().collect()
}

fn string_of(v: &[char]) -> String {
    v.iter().collect()
}

fn session(lines: &[&str], syntax: Option<Syntax>) -> Output {
    let mut out = Output::new((40, 8), chars("help"), 0);
    out.rows = Rows::from_lines(
        lines.iter().map(|l| chars(l)).collect(),
        Some(chars("test.rs")),
    );
    out.syntax_highlight = syntax;
    if let Some(lang) = syntax {
        lang.rehighlight_all(&mut out.rows);
    }
    out
}

#[test]
fn tab_expansion_to_next_stop() {
    let mut row = Row::new(chars("a\tb"), Vec::new());
    Rows::render_row(&mut row);
    assert_eq!(string_of(&row.render), "a       b");
    assert_eq!(row.render.len(), 9);
}

#[test]
fn tab_at_line_start_expands_to_full_stop() {
    let mut row = Row::new(chars("\tx"), Vec::new());
    Rows::render_row(&mut row);
    assert_eq!(string_of(&row.render), "        x");
    assert_eq!(row.render.len(), TAB_STOP + 1);
}

#[test]
fn render_length_never_shrinks_and_tabs_align() {
    for raw in ["\t", "a\tb\tc", "\t\t", "xy\tz", "no tabs here"] {
        let mut row = Row::new(chars(raw), Vec::new());
        Rows::render_row(&mut row);
        assert!(row.render.len() >= row.row_content.len());
        // every tab's projected render column is a multiple of the tab stop
        let mut col = 0usize;
        for &c in row.row_content.iter() {
            if c == '\t' {
                col += TAB_STOP - col % TAB_STOP;
                assert_eq!(col % TAB_STOP, 0);
            } else {
                col += 1;
            }
        }
        assert_eq!(col, row.render.len());
    }
}

#[test]
fn insert_then_delete_restores_row() {
    let mut row = Row::new(chars("hello"), Vec::new());
    Rows::render_row(&mut row);
    let before = row.row_content.clone();
    let rendered_before = row.render.clone();
    row.insert_char(2, 'X');
    assert_eq!(string_of(&row.row_content), "heXllo");
    row.delete_char(2);
    assert_eq!(row.row_content, before);
    assert_eq!(row.render, rendered_before);
}

#[test]
fn insert_then_delete_restores_classification_fixed_point() {
    let mut out = session(&["/* a", "b */ fn x", "let y = 1;"], Some(Syntax::Rust));
    let before: Vec<(Vec<HighlightType>, bool)> = out
        .rows
        .row_contents
        .iter()
        .map(|r| (r.highlight.clone(), r.is_comment))
        .collect();
    out.cursor.cursor_y = 1;
    out.cursor.cursor_x = 1;
    out.insert_char('Q');
    out.delete_char();
    let after: Vec<(Vec<HighlightType>, bool)> = out
        .rows
        .row_contents
        .iter()
        .map(|r| (r.highlight.clone(), r.is_comment))
        .collect();
    assert_eq!(before, after);
}

#[test]
fn join_then_split_restores_lines() {
    let mut out = session(&["abc", "defg"], None);
    let boundary = out.rows.get_row(0).len();
    // join line 1 onto line 0
    out.cursor.cursor_y = 1;
    out.cursor.cursor_x = 0;
    out.delete_char();
    assert_eq!(out.rows.number_of_rows(), 1);
    assert_eq!(string_of(out.rows.get_row(0)), "abcdefg");
    assert_eq!(out.cursor.cursor_x, boundary);
    // re-split at the original boundary column
    out.insert_newline();
    assert_eq!(out.rows.number_of_rows(), 2);
    assert_eq!(string_of(out.rows.get_row(0)), "abc");
    assert_eq!(string_of(out.rows.get_row(1)), "defg");
}

#[test]
fn full_pass_twice_is_identical() {
    let mut out = session(&["/* start", "middle", "end */ code"], Some(Syntax::Rust));
    let first: Vec<(Vec<HighlightType>, bool)> = out
        .rows
        .row_contents
        .iter()
        .map(|r| (r.highlight.clone(), r.is_comment))
        .collect();
    Syntax::Rust.rehighlight_all(&mut out.rows);
    let second: Vec<(Vec<HighlightType>, bool)> = out
        .rows
        .row_contents
        .iter()
        .map(|r| (r.highlight.clone(), r.is_comment))
        .collect();
    assert_eq!(first, second);
}

#[test]
fn rust_scenario_keywords_and_numbers() {
    let out = session(
        &["fn main() {", "    let x = 1;", "}"],
        Some(Syntax::Rust),
    );
    let l0 = &out.rows.get_editor_row(0).highlight;
    assert_eq!(l0[0], HighlightType::Keyword); // f
    assert_eq!(l0[1], HighlightType::Keyword); // n
    assert_eq!(l0[2], HighlightType::Normal); // space
    assert_eq!(l0[3], HighlightType::Normal); // m
    let l1 = &out.rows.get_editor_row(1).highlight;
    assert_eq!(l1[4], HighlightType::Keyword); // l
    assert_eq!(l1[5], HighlightType::Keyword); // e
    assert_eq!(l1[6], HighlightType::Keyword); // t
    assert_eq!(l1[7], HighlightType::Normal); // space
    assert_eq!(l1[12], HighlightType::Number); // 1
    // no continuation state is open at end of buffer
    for r in out.rows.row_contents.iter() {
        assert!(!r.is_comment);
    }
}

#[test]
fn multiline_comment_scenario() {
    let out = session(&["/* start", "middle", "end */ code"], Some(Syntax::Rust));
    assert!(out.rows.get_editor_row(0).is_comment);
    assert!(out.rows.get_editor_row(1).is_comment);
    assert!(!out.rows.get_editor_row(2).is_comment);
    // line 1 is entirely comment-tagged
    for t in out.rows.get_editor_row(1).highlight.iter() {
        assert_eq!(*t, HighlightType::Comment);
    }
    // line 2: comment tag stops at the closing delimiter
    let l2 = &out.rows.get_editor_row(2).highlight;
    // "end */ code"
    for j in 0..6 {
        assert_eq!(l2[j], HighlightType::Comment);
    }
    for j in 6..l2.len() {
        assert_eq!(l2[j], HighlightType::Normal);
    }
}

#[test]
fn incremental_edit_matches_full_repass() {
    let mut out = session(&["aa", "bb", "cc */ dd", "ee"], Some(Syntax::Rust));
    // type a comment opener on the first line; the cascade must reach the
    // same fixed point as a full pass over the new buffer
    out.cursor.cursor_y = 0;
    out.cursor.cursor_x = 0;
    out.insert_char('/');
    out.insert_char('*');
    let incremental: Vec<(Vec<HighlightType>, bool)> = out
        .rows
        .row_contents
        .iter()
        .map(|r| (r.highlight.clone(), r.is_comment))
        .collect();
    Syntax::Rust.rehighlight_all(&mut out.rows);
    let full: Vec<(Vec<HighlightType>, bool)> = out
        .rows
        .row_contents
        .iter()
        .map(|r| (r.highlight.clone(), r.is_comment))
        .collect();
    assert_eq!(incremental, full);
    assert!(out.rows.get_editor_row(0).is_comment);
    assert!(out.rows.get_editor_row(1).is_comment);
    assert!(!out.rows.get_editor_row(2).is_comment);
}

#[test]
fn forward_search_then_backward_stays_on_unique_match() {
    let mut out = session(&["alpha", "needle here", "omega"], Some(Syntax::Markdown));
    let kw = chars("needle");
    // a non-arrow key starts a positional scan from the cursor line
    out.find_callback(&kw, EditorKey::Char('e'));
    assert_eq!(out.cursor.cursor_y, 1);
    assert_eq!(out.cursor.cursor_x, 0);
    assert_eq!(out.search_index.y_index, 1);
    // the match span carries the search overlay
    let hl = &out.rows.get_editor_row(1).highlight;
    for j in 0..kw.len() {
        assert_eq!(hl[j], HighlightType::SearchMatch);
    }
    // backward search: no line above holds the needle, so the cursor stays
    out.find_callback(&kw, EditorKey::Up);
    assert_eq!(out.cursor.cursor_y, 1);
    assert_eq!(out.cursor.cursor_x, 0);
    // the overlay of the previous match was restored and none re-applied
    let hl = &out.rows.get_editor_row(1).highlight;
    assert!(hl.iter().all(|t| *t != HighlightType::SearchMatch));
}

#[test]
fn search_cancel_restores_highlight() {
    let mut out = session(&["fn needle() {}"], Some(Syntax::Rust));
    let snapshot = out.rows.get_editor_row(0).highlight.clone();
    let kw = chars("needle");
    out.find_callback(&kw, EditorKey::Char('e'));
    assert!(out
        .rows
        .get_editor_row(0)
        .highlight
        .iter()
        .any(|t| *t == HighlightType::SearchMatch));
    out.find_callback(&kw, EditorKey::Escape);
    assert_eq!(out.rows.get_editor_row(0).highlight, snapshot);
    assert!(out.search_index.previous_highlight.is_none());
    assert!(out.search_index.y_direction.is_none());
    assert!(out.search_index.x_direction.is_none());
}

#[test]
fn forward_search_skips_current_match_line() {
    let mut out = session(&["one fish", "two fish"], None);
    let kw = chars("fish");
    out.find_callback(&kw, EditorKey::Char('h'));
    assert_eq!(out.cursor.cursor_y, 0);
    assert_eq!(out.cursor.cursor_x, 4);
    out.find_callback(&kw, EditorKey::Down);
    assert_eq!(out.cursor.cursor_y, 1);
    assert_eq!(out.cursor.cursor_x, 4);
}

#[test]
fn status_bar_never_exceeds_width() {
    for (name, w) in [
        ("a_very_long_file_name_that_overflows.rs", 10usize),
        ("short.rs", 38),
        ("x", 1),
    ] {
        let mut out = Output::new((w, 4), chars(""), 0);
        out.rows = Rows::from_lines(vec![chars("one")], Some(chars(name)));
        out.draw_status_bar();
        let text = string_of(&out.content.content);
        // strip the reverse-video prefix, attribute reset and line break
        let body = text
            .strip_prefix("\u{1b}[7m")
            .unwrap()
            .strip_suffix("\u{1b}[0m\r\n")
            .unwrap();
        assert_eq!(body.chars().count(), w);
    }
}

#[test]
fn message_bar_clipped_and_expires() {
    let mut out = Output::new((10, 4), chars("0123456789abcdef"), 1000);
    out.draw_message_bar(2000);
    let text = string_of(&out.content.content);
    assert_eq!(text, "\u{1b}[K0123456789");
    out.content.content.clear();
    // expired five seconds after it was set
    out.draw_message_bar(6001);
    let text = string_of(&out.content.content);
    assert_eq!(text, "\u{1b}[K");
    assert!(out.status_message.message.is_none());
}

#[test]
fn save_without_filename_is_rejected() {
    let rows = Rows::new();
    match rows.save_contents() {
        Err(EditorError::NoFileName) => {}
        _ => panic!("save without a file name must be rejected"),
    }
}

#[test]
fn save_payload_joins_lines_without_trailing_newline() {
    let rows = Rows::from_lines(
        vec![chars("ab"), chars(""), chars("cd")],
        Some(chars("f.txt")),
    );
    let payload = rows.save_contents().unwrap();
    assert_eq!(string_of(&payload), "ab\n\ncd");
}

#[test]
fn syntax_selected_by_extension() {
    assert_eq!(Output::select_syntax(&chars("rs")), Some(Syntax::Rust));
    assert_eq!(Output::select_syntax(&chars("md")), Some(Syntax::Markdown));
    assert_eq!(Output::select_syntax(&chars("txt")), None);
    assert_eq!(string_of(&Syntax::Rust.file_type()), "rust");
    assert_eq!(string_of(&Syntax::Markdown.file_type()), "markdown");
}

#[test]
fn cursor_movement_across_lines() {
    let mut out = session(&["ab", "cdef"], None);
    // Left at column 0 of line 1 moves to the end of line 0
    out.cursor.cursor_y = 1;
    out.cursor.cursor_x = 0;
    out.move_cursor(EditorKey::Left);
    assert_eq!((out.cursor.cursor_x, out.cursor.cursor_y), (2, 0));
    // Right at end of line 0 moves to the start of line 1
    out.move_cursor(EditorKey::Right);
    assert_eq!((out.cursor.cursor_x, out.cursor.cursor_y), (0, 1));
    // End, then Down clamps the column on the virtual line
    out.move_cursor(EditorKey::End);
    assert_eq!(out.cursor.cursor_x, 4);
    out.move_cursor(EditorKey::Down);
    assert_eq!((out.cursor.cursor_x, out.cursor.cursor_y), (0, 2));
    // Home
    out.cursor.cursor_y = 1;
    out.cursor.cursor_x = 3;
    out.move_cursor(EditorKey::Home);
    assert_eq!((out.cursor.cursor_x, out.cursor.cursor_y), (0, 1));
}

#[test]
fn render_column_mapping_round_trip() {
    let mut row = Row::new(chars("a\tbc"), Vec::new());
    Rows::render_row(&mut row);
    // 'a' at render 0, tab spans 1..8, 'b' at 8, 'c' at 9
    assert_eq!(row.get_row_content_x(0), 0);
    assert_eq!(row.get_row_content_x(3), 1);
    assert_eq!(row.get_row_content_x(8), 2);
    assert_eq!(row.get_row_content_x(9), 3);
    // a column past the whole line maps to 0
    assert_eq!(row.get_row_content_x(99), 0);
}

#[test]
fn typing_into_empty_buffer_creates_row() {
    let mut out = Output::new((20, 5), chars(""), 0);
    out.insert_char('h');
    out.insert_char('i');
    assert_eq!(out.rows.number_of_rows(), 1);
    assert_eq!(string_of(out.rows.get_row(0)), "hi");
    assert_eq!(out.cursor.cursor_x, 2);
    assert!(out.dirty > 0);
}

#[test]
fn refresh_frame_is_batched_with_cursor_hidden_and_shown() {
    let mut out = session(&["hello"], None);
    out.refresh_screen(0);
    let text = string_of(&out.content.content);
    // one frame: hide cursor, home, rows, bars, reposition, show cursor
    assert!(text.starts_with("\u{1b}[?25l\u{1b}[1;1H"));
    assert!(text.ends_with("\u{1b}[?25h"));
    assert!(text.contains("hello"));
    assert!(text.contains("test.rs"));
    assert!(text.contains("-- 1 lines"));
    // reposition lands at the viewport origin for a cursor at (0, 0)
    assert!(text.contains("\u{1b}[1;1H\u{1b}[?25h"));
}

#[test]
fn empty_buffer_shows_centered_banner() {
    let mut out = Output::new((40, 9), chars(""), 0);
    out.refresh_screen(0);
    let text = string_of(&out.content.content);
    assert!(text.contains("ZAZ - 0.1.0"));
    assert!(text.contains('~'));
}

#[test]
fn colored_frame_carries_highlight_codes() {
    let mut out = session(&["let x = 1;"], Some(Syntax::Rust));
    out.refresh_screen(0);
    let text = string_of(&out.content.content);
    // keyword yellow and number red both appear in the emitted frame
    assert!(text.contains("\u{1b}[33ml"));
    assert!(text.contains("\u{1b}[31m1"));
}

#[test]
fn scroll_keeps_cursor_visible() {
    let mut out = session(&["a", "b", "c", "d", "e", "f", "g", "h", "i", "j"], None);
    out.cursor.cursor_y = 9;
    out.refresh_screen(0);
    // viewport height is 8: line 9 visible means row_offset pulled to 2
    assert_eq!(out.cursor.row_offset, 2);
    // the cursor is repositioned to viewport row 8 (one-based), column 1
    let text: String = out.content.content.iter().collect();
    assert!(text.contains("\u{1b}[8;1H\u{1b}[?25h"));
    out.cursor.cursor_y = 0;
    out.refresh_screen(0);
    assert_eq!(out.cursor.row_offset, 0);
}

#[test]
fn string_literal_and_line_comment_tags() {
    let out = session(&["a \"s\" // rest 1"], Some(Syntax::Rust));
    let hl = &out.rows.get_editor_row(0).highlight;
    // a "s" // rest 1
    assert_eq!(hl[0], HighlightType::Normal);
    assert_eq!(hl[2], HighlightType::Str);
    assert_eq!(hl[3], HighlightType::Str);
    assert_eq!(hl[4], HighlightType::Str);
    for j in 6..hl.len() {
        assert_eq!(hl[j], HighlightType::Comment);
    }
}

#[test]
fn newline_inside_open_comment_keeps_continuation() {
    let mut out = session(&["/* a", "b */ x"], Some(Syntax::Rust));
    // break the line at the start of the closing line: the inserted empty
    // line sits inside the open comment, so its continuation state is open
    out.cursor.cursor_y = 1;
    out.cursor.cursor_x = 0;
    out.insert_newline();
    assert_eq!(out.rows.number_of_rows(), 3);
    assert!(out.rows.get_editor_row(0).is_comment);
    assert!(out.rows.get_editor_row(1).is_comment);
    assert!(!out.rows.get_editor_row(2).is_comment);
    // the classification equals a fresh full pass over the same lines
    let incremental: Vec<(Vec<HighlightType>, bool)> = out
        .rows
        .row_contents
        .iter()
        .map(|r| (r.highlight.clone(), r.is_comment))
        .collect();
    Syntax::Rust.rehighlight_all(&mut out.rows);
    let full: Vec<(Vec<HighlightType>, bool)> = out
        .rows
        .row_contents
        .iter()
        .map(|r| (r.highlight.clone(), r.is_comment))
        .collect();
    assert_eq!(incremental, full);
}
