use ropetext::rope::Rope;

fn collect_chars(rope: &Rope) -> String {
    let mut it = rope.chars();
    let mut s = String::new();
    while let Some(c) = it.next() {
        s.push(c);
    }
    s
}

fn leaf(text: &str) -> Rope {
    Rope::Leaf(text.chars().collect())
}

#[test]
fn rope_new_test() {
    let new_rope: String = collect_chars(&Rope::new());
    assert_eq!(new_rope, "");
}

#[test]
fn rope_empty_insert_test() {
    let new_rope: String = collect_chars(&Rope::new().insert(0, "Hello, world!"));
    assert_eq!(new_rope, "Hello, world!");
}

#[test]
fn rope_multi_insert_test() {
    let new_rope: String = collect_chars(&Rope::new().insert(0, "Helloworld!").insert(5, ", "));
    assert_eq!(new_rope, "Hello, world!");
}

#[test]
fn rope_multi_insert_height_test() {
    let new_rope = Rope::new()
        .insert(0, "Helloworld!")
        .insert(5, ", ")
        .insert(0, "0")
        .insert(7, "0")
        .insert(2, "0")
        .insert(9, "0");
    assert_eq!(collect_chars(&new_rope), "0H0ello,00 world!");
    assert_eq!(new_rope.height(), 0)
}

#[test]
fn rope_rotate_right_test() {
    let rope = Rope::Branch {
        height: 2,
        weight: 7,
        line: 3,
        left: Box::new(Rope::Branch {
            height: 1,
            weight: 4,
            line: 1,
            left: Box::new(leaf("TES\n")),
            right: Box::new(leaf("t\n\n")),
        }),
        right: Box::new(leaf("xin\n")),
    };
    let rope = rope.rotate_right();
    assert_eq!(rope.height(), 2);
    assert_eq!(rope.len(), 11);
    assert_eq!(rope._line_count(), 4);
    assert_eq!(rope.weight(), 4);
    assert_eq!(collect_chars(&rope), String::from("TES\nt\n\nxin\n"));

    match &rope {
        Rope::Branch { left, right, .. } => {
            assert_eq!(left.height(), 0);
            assert_eq!(left.len(), 4);
            assert_eq!(left._line_count(), 1);
            assert_eq!(left.weight(), 4);
            assert_eq!(collect_chars(left), String::from("TES\n"));

            assert_eq!(right.height(), 1);
            assert_eq!(right.len(), 7);
            assert_eq!(right._line_count(), 3);
            assert_eq!(right.weight(), 3);
            assert_eq!(collect_chars(right), String::from("t\n\nxin\n"));
        }
        _ => assert!(false),
    }
}

#[test]
fn rope_rotate_left_test() {
    let rope = Rope::Branch {
        height: 2,
        weight: 4,
        line: 1,
        right: Box::new(Rope::Branch {
            height: 1,
            weight: 3,
            line: 1,
            left: Box::new(leaf("ts\n")),
            right: Box::new(leaf("xin\n")),
        }),
        left: Box::new(leaf("TES\n")),
    };

    let rope = rope.rotate_left();
    assert_eq!(rope.height(), 2);
    assert_eq!(rope.len(), 11);
    assert_eq!(rope._line_count(), 3);
    assert_eq!(rope.weight(), 7);
    assert_eq!(collect_chars(&rope), String::from("TES\nts\nxin\n"));

    match &rope {
        Rope::Branch { left, right, .. } => {
            assert_eq!(right.height(), 0);
            assert_eq!(right.len(), 4);
            assert_eq!(right._line_count(), 1);
            assert_eq!(right.weight(), 4);
            assert_eq!(collect_chars(right), String::from("xin\n"));

            assert_eq!(collect_chars(left), String::from("TES\nts\n"));
            assert_eq!(left.height(), 1);
            assert_eq!(left._line_count(), 2);
            assert_eq!(left.weight(), 4);
            assert_eq!(left.len(), 7);
        }
        _ => assert!(false),
    }
}

#[test]
fn rope_rotate_right_left_test() {
    let rope = Rope::Branch {
        height: 2,
        weight: 7,
        line: 1,
        left: Box::new(Rope::Branch {
            height: 1,
            weight: 3,
            line: 1,
            left: Box::new(leaf("ts\n")),
            right: Box::new(leaf("xing")),
        }),
        right: Box::new(leaf("TE\n\n")),
    };
    let expected_height = rope.height();
    let expected_len = rope.len();
    let expected_weight = rope.weight();
    let expected_lines = rope._line_count();
    let expected_str: String = collect_chars(&rope);
    let rope = rope.rotate_right().rotate_left();

    assert_eq!(collect_chars(&rope), expected_str);
    assert_eq!(rope.height(), expected_height);
    assert_eq!(rope.weight(), expected_weight);
    assert_eq!(rope.len(), expected_len);
    assert_eq!(rope._line_count(), expected_lines);
}

#[test]
fn rope_rotate_left_right_test() {
    let rope = Rope::Branch {
        height: 2,
        weight: 4,
        line: 0,
        left: Box::new(leaf("TEST")),
        right: Box::new(Rope::Branch {
            height: 1,
            weight: 3,
            line: 0,
            left: Box::new(leaf("tst")),
            right: Box::new(leaf("xing")),
        }),
    };
    let expected_height = rope.height();
    let expected_len = rope.len();
    let expected_weight = rope.weight();
    let expected_str: String = collect_chars(&rope);
    let expected_lines = rope._line_count();
    let rope = rope.rotate_left().rotate_right();

    assert_eq!(collect_chars(&rope), expected_str);
    assert_eq!(rope.height(), expected_height);
    assert_eq!(rope.weight(), expected_weight);
    assert_eq!(rope.len(), expected_len);
    assert_eq!(rope._line_count(), expected_lines);
}

#[test]
fn rope_non_ascii_insert_test() {
    let rope = Rope::new();
    let rope = rope.insert(0, "爆発しませんように");
    let rope = rope.insert(4, "何をしていますか？");

    assert_eq!(collect_chars(&rope), "爆発しま何をしていますか？せんように");
}

#[test]
fn rope_non_ascii_and_ascii_insert_test() {
    let rope = Rope::new();
    let rope = rope.insert(0, "爆発しませんように");
    let rope = rope.insert(4, "何をしていますか？");
    let rope = rope.insert(7, "hElLo!");

    assert_eq!(collect_chars(&rope), "爆発しま何をしhElLo!ていますか？せんように");
}

#[test]
fn rope_remove_test() {
    let mut rope = Rope::new();
    rope = rope.insert(0, "This is not cool!");
    rope = rope.remove(8, 4);
    assert_eq!(collect_chars(&rope), "This is cool!");
}

#[test]
fn rope_lines_iter_test() {
    let rope = Rope::new().insert(0, "Hello!\n\rHow are you?\nI hope you are\r good!\n");
    assert_eq!(
        collect_chars(&rope),
        "Hello!\n\rHow are you?\nI hope you are\r good!\n"
    );
    let mut rope_lines_iter = rope.lines();
    assert_eq!(rope_lines_iter.next(), Some(String::from("Hello!")));
    assert_eq!(rope_lines_iter.next(), Some(String::from("How are you?")));
    assert_eq!(rope_lines_iter.next(), Some(String::from("I hope you are\r good!")));
    assert_eq!(rope_lines_iter.next(), Some(String::from("")));
    assert_eq!(rope_lines_iter.next(), None);
}
