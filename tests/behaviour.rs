use editor::{
    char_width, info, lines, AppState, Context, Document, Location, Log, Position, Range,
};

fn text_of(line: &[editor::Character]) -> String {
    line.iter().map(|c| c.char).collect()
}

#[test]
fn widths_of_control_and_ascii() {
    assert_eq!(char_width('\n'), 0);
    assert_eq!(char_width('\r'), 0);
    assert_eq!(char_width('\u{e}'), 0);
    assert_eq!(char_width('\u{f}'), 0);
    assert_eq!(char_width('a'), 1);
    assert_eq!(char_width('~'), 1);
    assert_eq!(char_width('\t'), 1);
    assert_eq!(char_width('\u{0}'), 1);
}

#[test]
fn widths_from_table() {
    assert_eq!(char_width('\u{7f}'), 0);
    assert_eq!(char_width('\u{9f}'), 0);
    assert_eq!(char_width('é'), 1);
    assert_eq!(char_width('汉'), 2);
    assert_eq!(char_width('，'), 2);
    assert_eq!(char_width('\u{1100}'), 2);
    assert_eq!(char_width('\u{10fffd}'), 1);
    assert_eq!(char_width('\u{10ffff}'), 1);
}

#[test]
fn location_order_is_total() {
    let a = Location { ln: 1, col: 9 };
    let b = Location { ln: 2, col: 0 };
    let c = Location { ln: 2, col: 3 };
    assert!(a < b && b < c && a < c);
    assert!(!(b < a) && b != a);
    assert!(a <= a && a >= a && !(a < a));
}

#[test]
fn records_carry_location_and_position() {
    let doc = Document::from("a汉\nb");
    let han = doc.get_character(Location { ln: 0, col: 1 }).unwrap();
    assert_eq!(han.index, 1);
    assert_eq!(han.width, 2);
    assert_eq!(han.position, Position { x: 1, y: 0 });
    let nl = doc.get_character(Location { ln: 0, col: 2 }).unwrap();
    assert_eq!(nl.char, '\n');
    assert_eq!(nl.width, 0);
    assert_eq!(nl.position, Position { x: 0, y: 1 });
    let b = doc.get_character(Location { ln: 1, col: 0 }).unwrap();
    assert_eq!(b.char, 'b');
    assert_eq!(b.position, Position { x: 0, y: 1 });
    assert!(doc.get_character(Location { ln: 0, col: 3 }).is_none());
    assert!(doc.get_character(Location { ln: 1, col: 1 }).is_none());
    assert_eq!(doc.len(), 4);
}

#[test]
fn get_is_absent_on_empty_document() {
    let doc = Document::new();
    assert!(doc.get_character(Location { ln: 0, col: 0 }).is_none());
    assert!(doc.last_character().is_none());
    assert!(doc.before(Location { ln: 0, col: 0 }).is_none());
    assert!(doc.is_out_of_document(Location { ln: 0, col: 0 }));
}

#[test]
fn before_falls_back_and_after_does_not() {
    let doc = Document::from("ab");
    let out = Location { ln: 4, col: 4 };
    assert_eq!(doc.before(out).unwrap().char, 'b');
    assert!(doc.after(out).is_none());
    assert!(doc.before(Location { ln: 0, col: 0 }).is_none());
    assert!(doc.after(Location { ln: 0, col: 1 }).is_none());
    assert_eq!(doc.after(Location { ln: 0, col: 0 }).unwrap().char, 'b');
}

#[test]
fn out_of_document() {
    let doc = Document::from("ab\nc");
    assert!(!doc.is_out_of_document(Location { ln: 1, col: 0 }));
    assert!(doc.is_out_of_document(Location { ln: 1, col: 1 }));
    assert!(!doc.is_out_of_document(Location { ln: 0, col: 9 }));
}

#[test]
fn insert_returns_new_records() {
    let mut doc = Document::from("ac");
    let added = doc.insert(Location { ln: 0, col: 1 }, "b");
    assert_eq!(added.len(), 1);
    assert_eq!(added[0].char, 'b');
    assert_eq!(added[0].location, Location { ln: 0, col: 1 });
    assert_eq!(doc.to_text(), "abc");
    let none = doc.insert(Location { ln: 0, col: 0 }, "");
    assert!(none.is_empty());
    assert_eq!(doc.to_text(), "abc");
}

#[test]
fn append_then_remove_restores_text() {
    let mut doc = Document::from("ab\ncd");
    let added = doc.insert(Location { ln: 7, col: 0 }, "xy\nz");
    assert_eq!(doc.to_text(), "ab\ncdxy\nz");
    let first = added[0].location;
    let last = added[added.len() - 1].location;
    doc.remove(Range::new(first, Location { ln: last.ln, col: last.col + 1 }));
    assert_eq!(doc.to_text(), "ab\ncd");
}

#[test]
fn remove_empty_or_outside_range_is_noop() {
    let mut doc = Document::from("abc");
    let l = Location { ln: 0, col: 1 };
    doc.remove(Range::new(l, l));
    doc.remove(Range::new(Location { ln: 3, col: 0 }, Location { ln: 5, col: 0 }));
    doc.remove(Range::new(Location { ln: 0, col: 2 }, Location { ln: 0, col: 1 }));
    assert_eq!(doc.to_text(), "abc");
}

#[test]
fn remove_across_lines() {
    let mut doc = Document::from("ab\ncd");
    doc.remove(Range::new(Location { ln: 0, col: 1 }, Location { ln: 1, col: 1 }));
    assert_eq!(doc.to_text(), "ad");
}

#[test]
fn lines_drop_zero_width_and_trailing_empty_line() {
    let doc = Document::from("a\rb\n铁\n");
    let ls = doc.lines();
    assert_eq!(ls.len(), 2);
    assert_eq!(text_of(&ls[0]), "ab");
    assert_eq!(text_of(&ls[1]), "铁");
    assert!(ls.iter().all(|l| l.iter().all(|c| c.width > 0)));
    let doc = Document::from("a\n\nb");
    let ls = doc.lines();
    assert_eq!(ls.len(), 3);
    assert_eq!(text_of(&ls[1]), "");
    assert!(Document::new().lines().is_empty());
}

#[test]
fn lines_concatenate_to_visible_content() {
    let doc = Document::from("x汉\r\ny\n\nz");
    let joined: String = doc.lines().iter().map(|l| text_of(l)).collect();
    assert_eq!(joined, "x汉yz");
}

#[test]
fn input_moves_cursor_past_insertion() {
    let mut ctx = Context::with_size(20, 5);
    ctx.input("ab\ncd");
    assert_eq!(ctx.cursor_location(), Location { ln: 1, col: 2 });
    assert_eq!(ctx.cursor_position(), Position { x: 2, y: 1 });
    ctx.input("");
    assert_eq!(ctx.cursor_location(), Location { ln: 1, col: 2 });
    assert_eq!(ctx.document().to_text(), "ab\ncd");
}

#[test]
fn backspace_removes_previous_character() {
    let mut ctx = Context::with_size(20, 5);
    ctx.input("ab\nc");
    ctx.backspace();
    assert_eq!(ctx.document().to_text(), "ab\n");
    assert_eq!(ctx.cursor_location(), Location { ln: 1, col: 0 });
    ctx.backspace();
    assert_eq!(ctx.document().to_text(), "ab");
    assert_eq!(ctx.cursor_location(), Location { ln: 0, col: 2 });
    ctx.backspace();
    ctx.backspace();
    assert_eq!(ctx.document().to_text(), "");
    assert_eq!(ctx.cursor_location(), Location { ln: 0, col: 0 });
    ctx.backspace();
    assert_eq!(ctx.document().to_text(), "");
    assert_eq!(ctx.cursor_position(), Position { x: 0, y: 0 });
}

#[test]
fn insertion_past_right_edge_jumps_half_width() {
    let mut ctx = Context::with_size(4, 3);
    ctx.input("abcde");
    assert_eq!(ctx.offset_left(), 2);
    assert_eq!(ctx.cursor_position(), Position { x: 3, y: 0 });
    let mut ctx = Context::with_size(7, 3);
    ctx.input("abcdefghi");
    assert_eq!(ctx.offset_left(), 3);
}

#[test]
fn new_line_below_view_scrolls_one_row() {
    let mut ctx = Context::with_size(10, 2);
    ctx.input("a\nb");
    assert_eq!(ctx.offset_top(), 0);
    ctx.input("\nc");
    assert_eq!(ctx.offset_top(), 1);
    assert_eq!(ctx.visual_area(), vec!["b".to_string(), "c".to_string()]);
}

#[test]
fn scrolling_saturates_at_zero() {
    let mut ctx = Context::with_size(10, 10);
    ctx.scroll_down();
    ctx.scroll_right();
    assert_eq!(ctx.offset_top(), 0);
    assert_eq!(ctx.offset_left(), 0);
    ctx.scroll_up();
    ctx.scroll_left();
    ctx.scroll_left();
    assert_eq!(ctx.offset_top(), 1);
    assert_eq!(ctx.offset_left(), 2);
    ctx.scroll_right();
    assert_eq!(ctx.offset_left(), 1);
}

#[test]
fn right_edge_filler() {
    let mut ctx = Context::with_size(2, 5);
    ctx.input("a汉\nb");
    assert_eq!(ctx.offset_left(), 0);
    assert_eq!(ctx.visual_area(), vec!["a>".to_string(), "b".to_string()]);
}

#[test]
fn resize_recenters() {
    let mut ctx = Context::with_size(20, 5);
    ctx.input("abcdefgh");
    assert_eq!(ctx.offset_left(), 0);
    ctx.set_size(6, 5);
    assert_eq!(ctx.viewport_width(), 6);
    assert_eq!(ctx.viewport_height(), 5);
    assert_eq!(ctx.offset_left(), 3);
    assert_eq!(ctx.cursor_position(), Position { x: 5, y: 0 });
}

#[test]
fn position_steps() {
    let p = Position::new(0, 0);
    assert_eq!(p.top(), Position { x: 0, y: 0 });
    assert_eq!(p.left(), Position { x: 0, y: 0 });
    assert_eq!(p.right(), Position { x: 1, y: 0 });
    assert_eq!(p.bottom(), Position { x: 0, y: 1 });
    let m = Position::new(u32::MAX, u32::MAX);
    assert_eq!(m.right(), m);
    assert_eq!(m.bottom(), m);
    assert_eq!(m.top(), Position { x: u32::MAX, y: u32::MAX - 1 });
}

#[test]
fn log_splits_on_line_feeds() {
    let mut log = Log::new();
    info(&mut log, "a\nb");
    info(&mut log, "c");
    info(&mut log, "d\n");
    assert_eq!(lines(&log), vec!["a", "b", "c", "d", ""]);
}

#[test]
fn app_state_default() {
    let state = AppState::default();
    assert!(state.show_log);
    assert_eq!(state.editor.viewport_width(), 50);
    assert_eq!(state.editor.viewport_height(), 50);
    assert!(state.editor.visual_area().is_empty());
}

#[test]
fn typing_past_last_row_scrolls_one_row() {
    let mut editor = Context::with_size(9, 9);
    for ln in 0..9 {
        for col in 0..9 {
            if ln == col {
                editor.input("汉");
            } else {
                editor.input(&format!("{}", ln));
            }
        }
        editor.input("\n");
    }
    assert_eq!(editor.offset_top(), 1);
    assert_eq!(editor.offset_left(), 0);
    assert_eq!(editor.cursor_location(), Location { ln: 8, col: 10 });
    assert_eq!(editor.cursor_position(), Position { x: 0, y: 8 });
    for _ in 0..3 {
        editor.scroll_up();
    }
    for _ in 0..4 {
        editor.scroll_left();
    }
    assert_eq!(editor.visual_area()[0], "汉4444");
}
