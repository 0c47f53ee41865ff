use editor_core::buffer::Cursor;
use editor_core::text::TextBuffer;

fn chars(s: &str) -> Vec<char> {
    s.chars().collect()
}

#[test]
fn new_splits_lines() {
    let buf = TextBuffer::new("ab\ncd");
    assert_eq!(buf.get_text(), vec![chars("ab"), chars("cd")]);
    let pos = buf.get_cursor_pos();
    assert_eq!((pos.x, pos.y), (0, 0));
}

#[test]
fn new_strips_carriage_returns() {
    let buf = TextBuffer::new("a\r\nb");
    assert_eq!(buf.get_text(), vec![chars("a"), chars("b")]);
}

#[test]
fn new_empty_input_keeps_one_line() {
    let buf = TextBuffer::new("");
    assert_eq!(buf.get_text(), vec![Vec::<char>::new()]);
}

#[test]
fn new_drops_trailing_newline_piece() {
    let buf = TextBuffer::new("ab\n");
    assert_eq!(buf.get_text(), vec![chars("ab")]);
}

#[test]
fn new_keeps_interior_empty_lines() {
    let buf = TextBuffer::new("a\n\nb");
    assert_eq!(buf.get_text(), vec![chars("a"), Vec::<char>::new(), chars("b")]);
    let only_newline = TextBuffer::new("\n");
    assert_eq!(only_newline.get_text(), vec![Vec::<char>::new()]);
}

#[test]
fn plain_move_closes_selection() {
    let mut buf = TextBuffer::new("abc");
    buf.right(true);
    buf.right(true);
    assert!(buf.is_selecting());
    buf.left(false);
    assert!(!buf.is_selecting());
    let pos = buf.get_cursor_pos();
    assert_eq!((pos.x, pos.y), (1, 0));
}

#[test]
fn input_inserts_and_advances() {
    let mut buf = TextBuffer::default();
    buf.input('h');
    buf.input('i');
    assert_eq!(buf.get_text(), vec![chars("hi")]);
    let pos = buf.get_cursor_pos();
    assert_eq!((pos.x, pos.y), (2, 0));
}

#[test]
fn insert_backspace_round_trip() {
    let mut buf = TextBuffer::new("hello");
    buf.right(false);
    buf.right(false);
    buf.input('X');
    buf.back();
    assert_eq!(buf.get_text(), vec![chars("hello")]);
    let pos = buf.get_cursor_pos();
    assert_eq!((pos.x, pos.y), (2, 0));
}

#[test]
fn newline_backspace_round_trip() {
    let mut buf = TextBuffer::new("abc");
    buf.right(false);
    buf.right(false);
    buf.enter();
    assert_eq!(buf.get_text(), vec![chars("ab"), chars("c")]);
    buf.back();
    assert_eq!(buf.get_text(), vec![chars("abc")]);
    let pos = buf.get_cursor_pos();
    assert_eq!((pos.x, pos.y), (2, 0));
}

#[test]
fn backspace_merges_lines() {
    // backspace at the start of the second line of ["ab", "cd"]
    let mut buf = TextBuffer::new("ab\ncd");
    buf.down(false);
    let pos = buf.get_cursor_pos();
    assert_eq!((pos.x, pos.y), (0, 1));
    buf.back();
    assert_eq!(buf.get_text(), vec![chars("abcd")]);
    let pos = buf.get_cursor_pos();
    assert_eq!((pos.x, pos.y), (2, 0));
}

#[test]
fn backspace_at_origin_is_noop() {
    let mut buf = TextBuffer::new("ab");
    buf.back();
    assert_eq!(buf.get_text(), vec![chars("ab")]);
    let pos = buf.get_cursor_pos();
    assert_eq!((pos.x, pos.y), (0, 0));
}

#[test]
fn forward_delete_removes_and_merges() {
    let mut buf = TextBuffer::new("ab\ncd");
    buf.delete();
    assert_eq!(buf.get_text(), vec![chars("b"), chars("cd")]);
    buf.right(false);
    buf.delete();
    assert_eq!(buf.get_text(), vec![chars("bcd")]);
    // at the very end the operation degrades to a no-op
    let mut end = TextBuffer::new("x");
    end.right(false);
    end.delete();
    assert_eq!(end.get_text(), vec![chars("x")]);
}

#[test]
fn horizontal_moves_wrap_across_lines() {
    let mut buf = TextBuffer::new("ab\ncd");
    buf.right(false);
    buf.right(false);
    buf.right(false);
    let pos = buf.get_cursor_pos();
    assert_eq!((pos.x, pos.y), (0, 1));
    buf.left(false);
    let pos = buf.get_cursor_pos();
    assert_eq!((pos.x, pos.y), (2, 0));
}

#[test]
fn vertical_moves_clamp_at_edges() {
    let mut buf = TextBuffer::new("ab\nc");
    buf.right(false);
    buf.right(false);
    // up at the first line resets the column
    buf.up(false);
    let pos = buf.get_cursor_pos();
    assert_eq!((pos.x, pos.y), (0, 0));
    buf.right(false);
    buf.right(false);
    buf.down(false);
    // the stored column exceeds the shorter line; reads see it clamped
    let pos = buf.get_cursor_pos();
    assert_eq!((pos.x, pos.y), (1, 1));
    // down at the last line moves to the line end
    buf.down(false);
    let pos = buf.get_cursor_pos();
    assert_eq!((pos.x, pos.y), (1, 1));
}

#[test]
fn column_restored_on_longer_line() {
    let mut buf = TextBuffer::new("abcd\nx\nefgh");
    for _ in 0..3 {
        buf.right(false);
    }
    buf.down(false);
    let pos = buf.get_cursor_pos();
    assert_eq!((pos.x, pos.y), (1, 1));
    buf.down(false);
    let pos = buf.get_cursor_pos();
    assert_eq!((pos.x, pos.y), (3, 2));
}

#[test]
fn select_all_spans_document() {
    let mut buf = TextBuffer::new("hi\nthere");
    buf.select_all();
    assert!(buf.is_selecting());
    let pos = buf.get_cursor_pos();
    assert_eq!((pos.x, pos.y), (5, 1));
}

#[test]
fn delete_selection_after_select_all() {
    let mut buf = TextBuffer::new("hi\nthere");
    buf.select_all();
    let removed = buf.delete_range_text();
    assert_eq!(removed, vec![chars("hi"), chars("there")]);
    assert_eq!(buf.get_text(), vec![Vec::<char>::new()]);
    let pos = buf.get_cursor_pos();
    assert_eq!((pos.x, pos.y), (0, 0));
    assert!(!buf.is_selecting());
}

#[test]
fn selection_symmetry() {
    // select from (x=1, y=0) to (x=1, y=1), in both directions
    let mut fwd = TextBuffer::new("abc\ndef");
    fwd.right(false);
    fwd.down(true);
    let mut bwd = TextBuffer::new("abc\ndef");
    bwd.down(false);
    bwd.right(false);
    bwd.up(true);

    assert_eq!(fwd.get_range_text(), bwd.get_range_text());
    let removed_fwd = fwd.delete_range_text();
    let removed_bwd = bwd.delete_range_text();
    assert_eq!(removed_fwd, removed_bwd);
    assert_eq!(fwd.get_text(), bwd.get_text());
    assert_eq!(fwd.get_text(), vec![chars("aef")]);
    let pf = fwd.get_cursor_pos();
    let pb = bwd.get_cursor_pos();
    assert_eq!((pf.x, pf.y), (1, 0));
    assert_eq!((pb.x, pb.y), (1, 0));
}

#[test]
fn range_text_single_line() {
    let mut buf = TextBuffer::new("abcdef");
    buf.right(false);
    buf.right(true);
    buf.right(true);
    assert_eq!(buf.get_range_text(), vec![chars("bc")]);
    // reading the selection does not change the buffer
    assert_eq!(buf.get_text(), vec![chars("abcdef")]);
}

#[test]
fn input_replaces_selection() {
    let mut buf = TextBuffer::new("abc\ndef");
    buf.right(false);
    buf.down(true);
    buf.input('Z');
    assert_eq!(buf.get_text(), vec![chars("aZef")]);
    let pos = buf.get_cursor_pos();
    assert_eq!((pos.x, pos.y), (2, 0));
    assert!(!buf.is_selecting());
}

#[test]
fn get_cursor_pos_reads_cursor() {
    let buf = TextBuffer::new("ab");
    let c: Cursor = buf.get_cursor_pos();
    assert_eq!(c.x, 0);
    assert_eq!(c.y, 0);
}
