use ropetext::action::Action as SimpleAction;
use ropetext::rope::Rope;
use ropetext::textrope::TextRope;
use ropetext::vector::Vector2D;

fn buffer_string(tr: &TextRope) -> String {
    let mut it = tr.chars();
    let mut s = String::new();
    while let Some(c) = it.next() {
        s.push(c);
    }
    s
}

fn at(x: u32) -> Vector2D {
    Vector2D::new(x, 0)
}

/// Types `text` one character at a time at the end of the buffer, the
/// way a user would, with contiguous cursor positions and no tampering.
fn type_text(mut tr: TextRope, start: usize, text: &str) -> TextRope {
    let mut index = start;
    for c in text.chars() {
        let s = c.to_string();
        tr = tr.insert(index, s.as_str(), at(index as u32), at(index as u32 + 1), false);
        index += 1;
    }
    tr
}

#[test]
fn buffer_insert_and_len_test() {
    let tr = TextRope::new();
    let tr = tr.insert(0, "Hello", at(0), at(5), false);
    let tr = tr.insert(5, ", world!", at(5), at(13), false);
    assert_eq!(buffer_string(&tr), "Hello, world!");
    assert_eq!(tr.len(), 13);
    assert_eq!(tr.line_count(), 1);
}

#[test]
fn editing_scenario_test() {
    let tr = TextRope::new();
    let tr = tr.insert(0, "Hello", at(0), at(5), false);
    let tr = tr.insert(5, ", world!", at(5), at(13), false);
    assert_eq!(buffer_string(&tr), "Hello, world!");
    assert_eq!(tr.len(), 13);

    let tr = tr.remove(5, 8, at(13), at(5), true);
    assert_eq!(buffer_string(&tr), "Hello");

    let (tr, pos) = tr.undo();
    assert_eq!(buffer_string(&tr), "Hello, world!");
    // Undo moves the cursor back to where it stood before the removal.
    assert_eq!(pos, Some(at(13)));

    let tr = tr.insert(5, "\n", at(5), at(6), true);
    assert_eq!(buffer_string(&tr), "Hello\n, world!");
    assert_eq!(tr.line_count(), 2);
    assert_eq!(tr.get_line_index(1), 6);
}

#[test]
fn coalescing_word_undo_test() {
    let tr = type_text(TextRope::new(), 0, "hello");
    assert_eq!(buffer_string(&tr), "hello");
    let (tr, _) = tr.undo();
    assert_eq!(buffer_string(&tr), "");
}

#[test]
fn coalescing_space_groups_test() {
    let tr = type_text(TextRope::new(), 0, "hello world");
    assert_eq!(buffer_string(&tr), "hello world");
    let (tr, _) = tr.undo();
    assert_eq!(buffer_string(&tr), "hello ");
    let (tr, _) = tr.undo();
    assert_eq!(buffer_string(&tr), "hello");
    let (tr, _) = tr.undo();
    assert_eq!(buffer_string(&tr), "");
    let (tr, pos) = tr.undo();
    assert_eq!(buffer_string(&tr), "");
    assert!(pos.is_none());
}

#[test]
fn undo_redo_round_trip_test() {
    let tr = TextRope::new();
    let tr = tr.insert(0, "alpha\n", at(0), at(6), true);
    let tr = tr.insert(6, "beta\n", at(6), at(11), true);
    let tr = tr.remove(0, 6, at(6), at(0), true);
    assert_eq!(buffer_string(&tr), "beta\n");

    let (tr, _) = tr.undo();
    assert_eq!(buffer_string(&tr), "alpha\nbeta\n");
    let (tr, _) = tr.undo();
    assert_eq!(buffer_string(&tr), "alpha\n");
    let (tr, _) = tr.undo();
    assert_eq!(buffer_string(&tr), "");
    assert_eq!(tr.len(), 0);

    let (tr, _) = tr.redo();
    assert_eq!(buffer_string(&tr), "alpha\n");
    let (tr, _) = tr.redo();
    assert_eq!(buffer_string(&tr), "alpha\nbeta\n");
    let (tr, _) = tr.redo();
    assert_eq!(buffer_string(&tr), "beta\n");
    let (tr, pos) = tr.redo();
    assert_eq!(buffer_string(&tr), "beta\n");
    assert!(pos.is_none());
}

#[test]
fn backspace_coalescing_test() {
    let tr = type_text(TextRope::new(), 0, "abc");
    let (tr, _) = tr.undo();
    assert_eq!(buffer_string(&tr), "");
    let (tr, _) = tr.redo();
    assert_eq!(buffer_string(&tr), "abc");

    // A run of backspaces coalesces into one undo unit as well.
    let tr = tr.remove(2, 1, at(3), at(2), false);
    let tr = tr.remove(1, 1, at(2), at(1), false);
    let tr = tr.remove(0, 1, at(1), at(0), false);
    assert_eq!(buffer_string(&tr), "");
    let (tr, _) = tr.undo();
    assert_eq!(buffer_string(&tr), "abc");
}

#[test]
fn delete_forward_coalescing_test() {
    let tr = TextRope::new();
    let tr = tr.insert(0, "abcdef", at(0), at(6), true);
    let tr = tr.delete(1, 1, at(1), true);
    let tr = tr.delete(1, 1, at(1), false);
    let tr = tr.delete(1, 1, at(1), false);
    assert_eq!(buffer_string(&tr), "aef");
    let (tr, _) = tr.undo();
    assert_eq!(buffer_string(&tr), "abcdef");
}

#[test]
fn replace_and_undo_test() {
    let tr = TextRope::new();
    let tr = tr.insert(0, "good morning", at(0), at(12), true);
    let tr = tr.replace(5, 7, "night", at(5), at(10), true);
    assert_eq!(buffer_string(&tr), "good night");
    let (tr, _) = tr.undo();
    assert_eq!(buffer_string(&tr), "good morning");
    let (tr, _) = tr.redo();
    assert_eq!(buffer_string(&tr), "good night");
}

#[test]
fn push_and_insert_is_own_unit_test() {
    let tr = type_text(TextRope::new(), 0, "ab");
    let tr = tr.push_and_insert(2, "PASTE", at(2), at(7));
    assert_eq!(buffer_string(&tr), "abPASTE");
    let (tr, _) = tr.undo();
    assert_eq!(buffer_string(&tr), "ab");
    let (tr, _) = tr.undo();
    assert_eq!(buffer_string(&tr), "");
}

#[test]
fn pop_test() {
    let tr = TextRope::new();
    let tr = tr.insert(0, "stack!", at(0), at(6), true);
    let tr = tr.pop(1, at(6), at(5), true);
    assert_eq!(buffer_string(&tr), "stack");
    let tr = tr.pop(0, at(5), at(5), true);
    assert_eq!(buffer_string(&tr), "stack");
}

#[test]
fn new_edit_clears_redo_test() {
    let tr = TextRope::new();
    let tr = tr.insert(0, "one", at(0), at(3), true);
    let tr = tr.insert(3, "two", at(3), at(6), true);
    let (tr, _) = tr.undo();
    assert_eq!(buffer_string(&tr), "one");
    let tr = tr.insert(3, "2", at(3), at(4), true);
    assert_eq!(buffer_string(&tr), "one2");
    let (tr, pos) = tr.redo();
    assert_eq!(buffer_string(&tr), "one2");
    assert!(pos.is_none());
}

#[test]
fn buffer_get_and_zero_len_edits_test() {
    let tr = TextRope::new();
    let tr = tr.insert(0, "xyz", at(0), at(3), true);
    assert_eq!(tr.get(1), Some('y'));
    assert_eq!(tr.get(9), None);
    let tr = tr.insert(1, "", at(1), at(1), true);
    assert_eq!(buffer_string(&tr), "xyz");
    let tr = tr.remove(1, 0, at(1), at(1), true);
    assert_eq!(buffer_string(&tr), "xyz");
    // A zero-length edit logs nothing, so one undo clears the insertion.
    let (tr, _) = tr.undo();
    assert_eq!(buffer_string(&tr), "");
}

#[test]
fn buffer_lines_test() {
    let tr = TextRope::new();
    let tr = tr.insert(0, "a\nbb\nccc", at(0), at(8), true);
    let mut it = tr.lines();
    assert_eq!(it.next(), Some(String::from("a")));
    assert_eq!(it.next(), Some(String::from("bb")));
    assert_eq!(it.next(), Some(String::from("ccc")));
    assert_eq!(it.next(), None);
    assert_eq!(tr.line_count(), 3);
}

#[test]
fn simple_action_execute_test() {
    let rope = Rope::new().insert(0, "hello world");
    let action = SimpleAction::new_insert(5, String::from(" there"));
    let (inverse, rope, len, lines) = action.execute(rope, 11, 0);
    let mut it = rope.chars();
    let mut s = String::new();
    while let Some(c) = it.next() {
        s.push(c);
    }
    assert_eq!(s, "hello there world");
    assert_eq!(len, 17);
    assert_eq!(lines, 0);

    let (inverse2, rope, len, lines) = inverse.execute(rope, len, lines);
    let mut it = rope.chars();
    let mut s = String::new();
    while let Some(c) = it.next() {
        s.push(c);
    }
    assert_eq!(s, "hello world");
    assert_eq!(len, 11);
    assert_eq!(lines, 0);
    match inverse2 {
        SimpleAction::Insert { index, insert_text } => {
            assert_eq!(index, 5);
            assert_eq!(insert_text, " there");
        }
        _ => assert!(false),
    }
}

#[test]
fn simple_action_remove_test() {
    let rope = Rope::new().insert(0, "a\nb\nc");
    let action = SimpleAction::new_remove(1, 2);
    let (inverse, rope, len, lines) = action.execute(rope, 5, 2);
    let mut it = rope.chars();
    let mut s = String::new();
    while let Some(c) = it.next() {
        s.push(c);
    }
    assert_eq!(s, "a\nc");
    assert_eq!(len, 3);
    assert_eq!(lines, 1);
    match inverse {
        SimpleAction::Insert { index, ref insert_text } => {
            assert_eq!(index, 1);
            assert_eq!(insert_text, "\nb");
        }
        _ => assert!(false),
    }
}
