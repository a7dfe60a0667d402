use ropetext::rope::Rope;

fn collect_chars(rope: &Rope) -> String {
    let mut it = rope.chars();
    let mut s = String::new();
    while let Some(c) = it.next() {
        s.push(c);
    }
    s
}

fn leaf(text: &str) -> Rope {
    Rope::Leaf(text.chars().collect())
}

#[test]
fn new_test() {
    let new_rope: String = collect_chars(&Rope::new());
    assert_eq!(new_rope, "");
}

#[test]
fn empty_insert_test() {
    let new_rope: String = collect_chars(&Rope::new().insert(0, "Hello, world!"));
    assert_eq!(new_rope, "Hello, world!");
}

#[test]
fn multi_insert_test() {
    let new_rope: String = collect_chars(&Rope::new().insert(0, "Helloworld!").insert(5, ", "));
    assert_eq!(new_rope, "Hello, world!");
}

#[test]
fn multi_insert_height_test() {
    let new_rope = Rope::new()
        .insert(0, "Helloworld!")
        .insert(5, ", ")
        .insert(0, "0")
        .insert(7, "0")
        .insert(2, "0")
        .insert(9, "0");
    assert_eq!(collect_chars(&new_rope), "0H0ello,00 world!");
    assert_eq!(new_rope.height(), 0)
}

#[test]
fn rotate_right_test() {
    let rope = Rope::Branch {
        height: 2,
        weight: 7,
        line: 3,
        left: Box::new(Rope::Branch {
            height: 1,
            weight: 4,
            line: 1,
            left: Box::new(leaf("TES\n")),
            right: Box::new(leaf("t\n\n")),
        }),
        right: Box::new(leaf("xin\n")),
    };
    let rope = rope.rotate_right();
    assert_eq!(rope.height(), 2);
    assert_eq!(rope.len(), 11);
    assert_eq!(rope.line_count(), 5);
    assert_eq!(rope.weight(), 4);
    assert_eq!(collect_chars(&rope), String::from("TES\nt\n\nxin\n"));

    match &rope {
        Rope::Branch { left, right, .. } => {
            assert_eq!(left.height(), 0);
            assert_eq!(left.len(), 4);
            assert_eq!(left._line_count(), 1);
            assert_eq!(left.weight(), 4);
            assert_eq!(collect_chars(left), String::from("TES\n"));

            assert_eq!(right.height(), 1);
            assert_eq!(right.len(), 7);
            assert_eq!(right._line_count(), 3);
            assert_eq!(right.weight(), 3);
            assert_eq!(collect_chars(right), String::from("t\n\nxin\n"));
        }
        _ => assert!(false),
    }
}

#[test]
fn rotate_left_test() {
    let rope = Rope::Branch {
        height: 2,
        weight: 4,
        line: 1,
        right: Box::new(Rope::Branch {
            height: 1,
            weight: 3,
            line: 1,
            left: Box::new(leaf("ts\n")),
            right: Box::new(leaf("xin\n")),
        }),
        left: Box::new(leaf("TES\n")),
    };

    let rope = rope.rotate_left();
    assert_eq!(rope.height(), 2);
    assert_eq!(rope.len(), 11);
    assert_eq!(rope.line_count(), 4);
    assert_eq!(rope.weight(), 7);
    assert_eq!(collect_chars(&rope), String::from("TES\nts\nxin\n"));

    match &rope {
        Rope::Branch { left, right, .. } => {
            assert_eq!(right.height(), 0);
            assert_eq!(right.len(), 4);
            assert_eq!(right._line_count(), 1);
            assert_eq!(right.weight(), 4);
            assert_eq!(collect_chars(right), String::from("xin\n"));

            assert_eq!(collect_chars(left), String::from("TES\nts\n"));
            assert_eq!(left.height(), 1);
            assert_eq!(left._line_count(), 2);
            assert_eq!(left.weight(), 4);
            assert_eq!(left.len(), 7);
        }
        _ => assert!(false),
    }
}

#[test]
fn rotate_right_left_test() {
    let rope = Rope::Branch {
        height: 2,
        weight: 7,
        line: 1,
        left: Box::new(Rope::Branch {
            height: 1,
            weight: 3,
            line: 1,
            left: Box::new(leaf("ts\n")),
            right: Box::new(leaf("xing")),
        }),
        right: Box::new(leaf("TE\n\n")),
    };
    let expected_height = rope.height();
    let expected_len = rope.len();
    let expected_weight = rope.weight();
    let expected_lines = rope.line_count();
    let expected_str: String = collect_chars(&rope);
    let rope = rope.rotate_right().rotate_left();

    assert_eq!(collect_chars(&rope), expected_str);
    assert_eq!(rope.height(), expected_height);
    assert_eq!(rope.weight(), expected_weight);
    assert_eq!(rope.len(), expected_len);
    assert_eq!(rope.line_count(), expected_lines);
}

#[test]
fn rotate_left_right_test() {
    let rope = Rope::Branch {
        height: 2,
        weight: 4,
        line: 0,
        left: Box::new(leaf("TEST")),
        right: Box::new(Rope::Branch {
            height: 1,
            weight: 3,
            line: 0,
            left: Box::new(leaf("tst")),
            right: Box::new(leaf("xing")),
        }),
    };
    let expected_height = rope.height();
    let expected_len = rope.len();
    let expected_weight = rope.weight();
    let expected_str: String = collect_chars(&rope);
    let expected_lines = rope.line_count();
    let rope = rope.rotate_left().rotate_right();

    assert_eq!(collect_chars(&rope), expected_str);
    assert_eq!(rope.height(), expected_height);
    assert_eq!(rope.weight(), expected_weight);
    assert_eq!(rope.len(), expected_len);
    assert_eq!(rope.line_count(), expected_lines);
}

#[test]
fn non_ascii_insert_test() {
    let rope = Rope::new();
    let rope = rope.insert(0, "爆発しませんように");
    let rope = rope.insert(4, "何をしていますか？");

    assert_eq!(collect_chars(&rope), "爆発しま何をしていますか？せんように");
}

#[test]
fn non_ascii_and_ascii_insert_test() {
    let rope = Rope::new();
    let rope = rope.insert(0, "爆発しませんように");
    let rope = rope.insert(4, "何をしていますか？");
    let rope = rope.insert(7, "hElLo!");

    assert_eq!(collect_chars(&rope), "爆発しま何をしhElLo!ていますか？せんように");
}

#[test]
fn remove_test() {
    let mut rope = Rope::new();
    rope = rope.insert(0, "This is not cool!");
    rope = rope.remove(8, 4);
    assert_eq!(collect_chars(&rope), "This is cool!");
}

#[test]
fn lines_iter_test() {
    let rope = Rope::new().insert(0, "Hello!\nHow are you?\nI hope you are good!\n");
    assert_eq!(collect_chars(&rope), "Hello!\nHow are you?\nI hope you are good!\n");
    let mut rope_lines_iter = rope.lines();
    assert_eq!(rope_lines_iter.next(), Some(String::from("Hello!")));
    assert_eq!(rope_lines_iter.next(), Some(String::from("How are you?")));
    assert_eq!(rope_lines_iter.next(), Some(String::from("I hope you are good!")));
    assert_eq!(rope_lines_iter.next(), Some(String::from("")));
    assert_eq!(rope_lines_iter.next(), None);
}

#[test]
fn lines_iter_skip_test() {
    let mut rope = Rope::new();

    for i in 0..30_000 {
        let rope_len = rope.len();
        rope = rope.insert(rope_len, format!("What is this: {}\n", i).as_str());
    }
    assert_eq!(rope.lines().nth(29_999), Some(String::from("What is this: 29999")));
    assert_eq!(rope.lines().nth(29_998), Some(String::from("What is this: 29998")));

    let mut line_iter = rope.lines();
    let large_skip = line_iter.nth(23_000);
    let skip_after_skip = vec![
        line_iter.nth(5000).unwrap(),
        line_iter.next().unwrap(),
        line_iter.next().unwrap(),
    ];
    let step_by_after_skip = vec![
        line_iter.nth(600).unwrap(),
        line_iter.nth(4).unwrap(),
        line_iter.nth(4).unwrap(),
    ];
    assert_eq!(large_skip, Some(String::from("What is this: 23000")));
    assert_eq!(skip_after_skip[2], String::from("What is this: 28003"));
    assert_eq!(step_by_after_skip[0], String::from("What is this: 28604"));
    assert_eq!(step_by_after_skip[2], String::from("What is this: 28614"));
}

#[test]
fn insert_remove_inverse_test() {
    let rope = Rope::new().insert(0, "The quick brown fox");
    let before = collect_chars(&rope);
    let rope = rope.insert(4, "very ");
    let rope = rope.remove(4, 5);
    assert_eq!(collect_chars(&rope), before);
}

#[test]
fn line_start_index_test() {
    let rope = Rope::new().insert(0, "one\ntwo\nthree\n");
    assert_eq!(rope.line_start_index(0), 0);
    assert_eq!(rope.line_start_index(1), 4);
    assert_eq!(rope.line_start_index(2), 8);
    assert_eq!(rope.line_start_index(3), 14);
    assert_eq!(rope.line_count(), 4);
}

#[test]
fn rope_get_test() {
    let rope = Rope::new().insert(0, "abc");
    assert_eq!(rope.get(0), Some('a'));
    assert_eq!(rope.get(2), Some('c'));
    assert_eq!(rope.get(3), None);
    assert_eq!(Rope::get_line_count("a\nb\n\n"), 3);
}

#[test]
fn crlf_line_terminator_test() {
    let rope = Rope::new().insert(0, "Hello!\n\rHow are you?\nI hope you are\r good!\n");
    let mut it = rope.lines();
    assert_eq!(it.next(), Some(String::from("Hello!")));
    assert_eq!(it.next(), Some(String::from("How are you?")));
    assert_eq!(it.next(), Some(String::from("I hope you are\r good!")));
    assert_eq!(it.next(), Some(String::from("")));
    assert_eq!(it.next(), None);
}

#[test]
fn large_insert_splits_leaf_test() {
    let big: String = std::iter::repeat('x').take(5000).collect();
    let rope = Rope::new().insert(0, big.as_str());
    assert_eq!(rope.len(), 5000);
    let mut out = collect_chars(&rope);
    assert_eq!(out.len(), 5000);
    assert!(out.chars().all(|c| c == 'x'));
    let rope = rope.insert(2500, "y");
    out = collect_chars(&rope);
    assert_eq!(rope.len(), 5001);
    assert_eq!(out.chars().nth(2500), Some('y'));
}

fn height_of(rope: &Rope) -> usize {
    match rope {
        Rope::Branch { left, right, .. } => 1 + height_of(left).max(height_of(right)),
        Rope::Leaf(_) => 0,
    }
}

fn char_count(rope: &Rope) -> usize {
    match rope {
        Rope::Branch { left, right, .. } => char_count(left) + char_count(right),
        Rope::Leaf(t) => t.len(),
    }
}

fn newline_count(rope: &Rope) -> usize {
    match rope {
        Rope::Branch { left, right, .. } => newline_count(left) + newline_count(right),
        Rope::Leaf(t) => t.iter().filter(|&&c| c == '\n').count(),
    }
}

fn check_balanced(rope: &Rope) {
    if let Rope::Branch { left, right, .. } = rope {
        let hl = height_of(left) as isize;
        let hr = height_of(right) as isize;
        assert!((hl - hr).abs() <= 1, "unbalanced branch: {} vs {}", hl, hr);
        check_balanced(left);
        check_balanced(right);
    }
}

fn check_counters(rope: &Rope) {
    if let Rope::Branch { height, weight, line, left, right } = rope {
        assert_eq!(*weight, char_count(left));
        assert_eq!(*line, newline_count(left));
        assert_eq!(*height, height_of(rope));
        check_counters(left);
        check_counters(right);
    }
}

#[test]
fn balance_invariant_after_inserts_test() {
    let mut rope = Rope::new();
    for i in 0..2000 {
        let len = rope.len();
        let index = (i * 37) % (len + 1);
        rope = rope.insert(index, "chunk of text no. \n");
        check_balanced(&rope);
        check_counters(&rope);
    }
    assert_eq!(rope.len(), 2000 * 19);
}

#[test]
fn counter_invariant_after_removes_test() {
    let mut rope = Rope::new();
    for _ in 0..400 {
        let len = rope.len();
        rope = rope.insert(len, "words\nto remove ");
    }
    let mut reference: String = collect_chars(&rope);
    for i in 0..300 {
        let len = rope.len();
        let index = (i * 53) % (len - 7);
        rope = rope.remove(index, 7);
        let mut chars: Vec<char> = reference.chars().collect();
        chars.drain(index..index + 7);
        reference = chars.into_iter().collect();
        check_counters(&rope);
        check_balanced(&rope);
        assert_eq!(collect_chars(&rope), reference);
    }
}

#[test]
fn round_trip_against_string_model_test() {
    // The rope's text always matches plain string splicing.
    let mut rope = Rope::new();
    let mut model = String::new();
    let pieces = ["alpha", "\n", "beta gamma", "δ", "1234567890", ""];
    for i in 0..120 {
        let piece = pieces[i % pieces.len()];
        let len = rope.len();
        let index = (i * 97) % (len + 1);
        rope = rope.insert(index, piece);
        let mut chars: Vec<char> = model.chars().collect();
        let tail: Vec<char> = chars.split_off(index);
        let mut next: String = chars.into_iter().collect();
        next.push_str(piece);
        next.extend(tail);
        model = next;
        assert_eq!(collect_chars(&rope), model);
    }
}

fn check_leaf_cap(rope: &Rope) {
    match rope {
        Rope::Branch { left, right, .. } => {
            check_leaf_cap(left);
            check_leaf_cap(right);
        }
        Rope::Leaf(t) => assert!(t.len() <= 4096),
    }
}

#[test]
fn remove_rebalances_test() {
    // Removing "cd" empties the left branch's right leaf; the removal
    // path rejoins the survivors so the tree stays within the balance
    // bound even though one side lost a whole level.
    let rope = Rope::Branch {
        height: 3,
        weight: 4,
        line: 0,
        left: Box::new(Rope::Branch {
            height: 1,
            weight: 2,
            line: 0,
            left: Box::new(leaf("ab")),
            right: Box::new(leaf("cd")),
        }),
        right: Box::new(Rope::Branch {
            height: 2,
            weight: 2,
            line: 0,
            left: Box::new(Rope::Branch {
                height: 1,
                weight: 1,
                line: 0,
                left: Box::new(leaf("e")),
                right: Box::new(leaf("f")),
            }),
            right: Box::new(leaf("g")),
        }),
    };
    check_balanced(&rope);
    check_counters(&rope);
    let rope = rope.remove(2, 2);
    assert_eq!(collect_chars(&rope), "abefg");
    check_counters(&rope);
    check_balanced(&rope);
}

#[test]
fn balance_invariant_after_range_removes_test() {
    // Wide removals can swallow whole subtrees; the tree must come back
    // balanced with exact counters every time.
    let mut rope = Rope::new();
    for i in 0..600 {
        let len = rope.len();
        let index = (i * 41) % (len + 1);
        rope = rope.insert(index, "0123456789abcdef\n");
    }
    let mut expected = rope.len();
    let mut span = 1;
    while rope.len() > 2000 {
        let len = rope.len();
        let index = (len / 3) % (len - span);
        rope = rope.remove(index, span);
        expected -= span;
        assert_eq!(rope.len(), expected);
        check_balanced(&rope);
        check_counters(&rope);
        check_leaf_cap(&rope);
        span = (span * 2) % 1500 + 1;
    }
}

#[test]
fn leaf_cap_after_large_inserts_test() {
    let big: String = std::iter::repeat('y').take(4096).collect();
    let mut rope = Rope::new();
    for _ in 0..6 {
        let len = rope.len();
        rope = rope.insert(len / 2, big.as_str());
        check_balanced(&rope);
        check_counters(&rope);
        check_leaf_cap(&rope);
    }
    assert_eq!(rope.len(), 6 * 4096);
}
