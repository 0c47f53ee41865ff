use editor_core::buffer::{Command, Cursor};
use editor_core::editor::EditorBuffer;

fn chars(s: &str) -> Vec<char> {
    s.chars().collect()
}

#[test]
fn split_line_by_width() {
    let view_width = 10;
    let target = vec![
        'a', 'b', 'c', 'd', 'あ', 'u', 'う', 'え', 'e', 'f', 'g', 'h', 'お', 'か', 'き', 'く',
        'i', 'j', 'k', 'l', 'あ',
    ];
    let text: String = target.iter().collect();
    let mut editor = EditorBuffer::new(&text);
    editor.set_view_info(view_width, 40, false);
    let splited_lines = editor.split_line_by_width(0);
    println!("{:?}", splited_lines);
    assert_eq!(
        splited_lines,
        vec![
            vec!['a', 'b', 'c', 'd', 'あ', 'u', 'う'],
            vec!['え', 'e', 'f', 'g', 'h', 'お', 'か'],
            vec!['き', 'く', 'i', 'j', 'k', 'l', 'あ'],
            vec![],
        ]
    );
}

#[test]
fn wrap_example_with_trailing_empty_sub_line() {
    // ten one-cell scalars at width five: two full sub-lines, and the exact
    // landing on the boundary yields one trailing empty sub-line
    let mut editor = EditorBuffer::new("abcdefghij\nklmno");
    editor.set_view_info(5, 10, true);
    let wrapped = editor.split_line_by_width(0);
    assert_eq!(wrapped, vec![chars("abcde"), chars("fghij"), chars("")]);
    let count = editor.get_wrap_count(&Cursor { x: 10, y: 0 });
    assert_eq!(count, 2);
}

#[test]
fn wrap_concat_restores_line() {
    let mut editor = EditorBuffer::new("abcdefghij");
    editor.set_view_info(5, 10, false);
    let wrapped = editor.split_line_by_width(0);
    let joined: Vec<char> = wrapped.into_iter().flatten().collect();
    assert_eq!(joined, chars("abcdefghij"));

    let mut wide = EditorBuffer::new("aあbいc");
    wide.set_view_info(3, 10, false);
    let wrapped = wide.split_line_by_width(0);
    let joined: Vec<char> = wrapped.into_iter().flatten().collect();
    assert_eq!(joined, chars("aあbいc"));
}

#[test]
fn wrap_threshold_consistency() {
    // a line of exactly width/2 scalars takes the general path; one shorter
    // takes the short-circuit; both give a single sub-line
    let mut at_threshold = EditorBuffer::new("abcde");
    at_threshold.set_view_info(10, 10, false);
    assert_eq!(at_threshold.split_line_by_width(0), vec![chars("abcde")]);

    let mut below = EditorBuffer::new("abcd");
    below.set_view_info(10, 10, false);
    assert_eq!(below.split_line_by_width(0), vec![chars("abcd")]);
}

#[test]
fn wide_glyphs_take_two_cells() {
    // two two-cell scalars land exactly on a width of four: the boundary
    // produces a trailing empty sub-line; one-cell widths would not
    let mut editor = EditorBuffer::new("ああ");
    editor.set_view_info(4, 10, false);
    assert_eq!(editor.split_line_by_width(0), vec![chars("ああ"), chars("")]);

    let mut narrow = EditorBuffer::new("ああ");
    narrow.set_view_info(3, 10, false);
    assert_eq!(narrow.split_line_by_width(0), vec![chars("あ"), chars("あ")]);
}

#[test]
fn update_view_renders_from_anchor() {
    let mut editor = EditorBuffer::new("abcdefghij\nklmno");
    editor.set_view_info(5, 10, true);
    editor.update_view(Command::Refresh);
    assert_eq!(editor.top, 0);
    assert_eq!(editor.top_wrap, 0);
    // both lines land exactly on the width, so each ends in an empty sub-line
    assert_eq!(
        editor.get_view(),
        vec![
            "abcde".to_string(),
            "fghij".to_string(),
            "".to_string(),
            "klmno".to_string(),
            "".to_string(),
        ]
    );
    assert_eq!(editor.get_cursor_pos(), (0, 0));
}

#[test]
fn scroll_down_is_monotone_and_tracks_cursor() {
    let mut editor = EditorBuffer::new("a\nb\nc\nd\ne\nf");
    editor.set_view_info(10, 2, true);
    let mut last_top = 0;
    for _ in 0..5 {
        editor.update_view(Command::Down(false));
        assert!(editor.top >= last_top);
        last_top = editor.top;
    }
    // the cursor line sits on the last of the two rows
    assert_eq!(editor.top, 4);
    assert_eq!(editor.get_view(), vec!["e".to_string(), "f".to_string()]);
    assert_eq!(editor.get_cursor_pos(), (0, 1));
}

#[test]
fn scroll_up_snaps_top_to_cursor() {
    let mut editor = EditorBuffer::new("a\nb\nc\nd\ne\nf");
    editor.set_view_info(10, 2, true);
    for _ in 0..5 {
        editor.update_view(Command::Down(false));
    }
    assert_eq!(editor.top, 4);
    // moving above the viewport resets the top to the cursor's line
    for _ in 0..2 {
        editor.update_view(Command::Up(false));
    }
    assert_eq!(editor.top, 3);
    editor.update_view(Command::Up(false));
    assert_eq!(editor.top, 2);
    assert_eq!(editor.get_view(), vec!["c".to_string(), "d".to_string()]);
    assert_eq!(editor.get_cursor_pos(), (0, 0));
}

#[test]
fn unfocused_view_ignores_edits_but_renders() {
    let mut editor = EditorBuffer::new("ab");
    editor.set_view_info(10, 5, false);
    editor.update_view(Command::Insert('x'));
    assert_eq!(editor.text.get_text(), vec![chars("ab")]);
    assert_eq!(editor.get_view(), vec!["ab".to_string()]);
}

#[test]
fn focused_view_applies_commands() {
    let mut editor = EditorBuffer::new("");
    editor.set_view_info(20, 5, true);
    editor.update_view(Command::Insert('h'));
    editor.update_view(Command::Insert('i'));
    editor.update_view(Command::Newline);
    editor.update_view(Command::Insert('!'));
    assert_eq!(editor.text.get_text(), vec![chars("hi"), chars("!")]);
    assert_eq!(editor.get_view(), vec!["hi".to_string(), "!".to_string()]);
    assert_eq!(editor.get_cursor_pos(), (0, 1));
}

#[test]
fn tab_inserts_four_spaces() {
    let mut editor = EditorBuffer::new("");
    editor.set_view_info(20, 5, true);
    editor.update_view(Command::Tab);
    assert_eq!(editor.text.get_text(), vec![chars("    ")]);
}

#[test]
fn backspace_command_merges_lines() {
    let mut editor = EditorBuffer::new("ab\ncd");
    editor.set_view_info(20, 5, true);
    editor.update_view(Command::Down(false));
    editor.update_view(Command::Backspace);
    assert_eq!(editor.text.get_text(), vec![chars("abcd")]);
    let pos = editor.text.get_cursor_pos();
    assert_eq!((pos.x, pos.y), (2, 0));
}

#[test]
fn select_all_then_delete_leaves_empty_view() {
    let mut editor = EditorBuffer::new("hi\nthere");
    editor.set_view_info(20, 5, true);
    editor.update_view(Command::SelectAll);
    assert!(editor.text.is_selecting());
    editor.update_view(Command::ForwardDelete);
    assert_eq!(editor.text.get_text(), vec![Vec::<char>::new()]);
    assert_eq!(editor.get_view(), vec!["".to_string()]);
    assert_eq!(editor.get_cursor_pos(), (0, 0));
}

#[test]
fn viewport_truncates_to_height() {
    let mut editor = EditorBuffer::new("a\nb\nc\nd");
    editor.set_view_info(10, 3, true);
    editor.update_view(Command::Refresh);
    assert_eq!(
        editor.get_view(),
        vec!["a".to_string(), "b".to_string(), "c".to_string()]
    );
}

#[test]
fn anchor_repair_after_shrink() {
    let mut editor = EditorBuffer::new("a\nb\nc\nd\ne\nf");
    editor.set_view_info(10, 2, true);
    for _ in 0..5 {
        editor.update_view(Command::Down(false));
    }
    assert_eq!(editor.top, 4);
    editor.update_view(Command::SelectAll);
    editor.update_view(Command::Backspace);
    // the document shrank to one line; the anchor is repaired
    assert_eq!(editor.top, 0);
    assert_eq!(editor.top_wrap, 0);
    assert_eq!(editor.text.get_text(), vec![Vec::<char>::new()]);
}
