use ropetext::command::{Command, CommandState};
use ropetext::cursor::{calculate_index_from_pos, find_end_of_chunk, find_start_of_chunk,
    is_identifier, is_symbol};
use ropetext::inputstate::{InputState, Keyboard, Mouse};
use ropetext::parse::{parse, parse_editor_cmd};
use ropetext::textrope::TextRope;
use ropetext::vector::Vector2D;

#[test]
fn parse_quit_test() {
    assert!(matches!(parse(String::from(":q")), Command::QUIT));
    assert!(matches!(parse(String::from("q")), Command::ERROR));
    assert!(matches!(parse(String::from("")), Command::ERROR));
    assert!(matches!(parse(String::from(":x")), Command::ERROR));
}

#[test]
fn parse_jump_test() {
    assert!(matches!(parse(String::from(":j 5")), Command::JUMP(0, 4)));
    assert!(matches!(parse(String::from(":j 5 3")), Command::JUMP(2, 4)));
    assert!(matches!(parse(String::from(":j +12")), Command::JUMP(0, 11)));
    assert!(matches!(parse(String::from(":j 0")), Command::ERROR));
    assert!(matches!(parse(String::from(":j 5 0")), Command::ERROR));
    assert!(matches!(parse(String::from(":j")), Command::ERROR));
    assert!(matches!(parse(String::from(":j five")), Command::ERROR));
    assert!(matches!(parse(String::from(":j 5 3 1")), Command::ERROR));
    assert!(matches!(parse(String::from(":j 99999999999999999999")), Command::ERROR));
}

#[test]
fn parse_write_open_test() {
    match parse_editor_cmd("w notes.txt") {
        Command::WRITE(p) => assert_eq!(p, "notes.txt"),
        _ => panic!("expected a write command"),
    }
    assert!(matches!(parse_editor_cmd("w"), Command::ERROR));
    assert!(matches!(parse_editor_cmd("w a b"), Command::ERROR));
    match parse_editor_cmd("o src/lib.rs") {
        Command::OPEN(p) => assert_eq!(p, "src/lib.rs"),
        _ => panic!("expected an open command"),
    }
    assert!(matches!(parse_editor_cmd("o"), Command::ERROR));
}

#[test]
fn parse_run_test() {
    match parse_editor_cmd("r cargo build --release") {
        Command::RUN(prog, args) => {
            assert_eq!(prog, "cargo");
            assert_eq!(args, vec![String::from("build"), String::from("--release")]);
        }
        _ => panic!("expected a run command"),
    }
    match parse_editor_cmd("r ls") {
        Command::RUN(prog, args) => {
            assert_eq!(prog, "ls");
            assert!(args.is_empty());
        }
        _ => panic!("expected a run command"),
    }
    assert!(matches!(parse_editor_cmd("r"), Command::ERROR));
}

#[test]
fn command_new_and_state_test() {
    assert!(matches!(Command::new(String::from(":q")), Command::QUIT));
    let mut state = CommandState::new();
    state.set_prev(Command::QUIT);
    state.set_prev(Command::PREVIOUS);
    // The repeat command never replaces the remembered one; nothing
    // observable panics here, and the state still accepts commands.
    state.set_prev(Command::JUMP(1, 2));
}

#[test]
fn chunk_scan_test() {
    let tr = TextRope::new();
    let tr = tr.insert(
        0,
        "let word = a+b;",
        Vector2D::new(0, 0),
        Vector2D::new(15, 0),
        true,
    );
    // The identifier run "word" spans columns 4 to 7.
    assert_eq!(find_start_of_chunk(0, 8, &tr), Ok(4));
    assert_eq!(find_end_of_chunk(0, 4, &tr), Ok(8));
    // The symbol run "+" after "a".
    assert_eq!(find_end_of_chunk(0, 12, &tr), Ok(13));
    // At the start of the line there is nothing to the left.
    assert_eq!(find_start_of_chunk(0, 0, &tr), Err(0));
    // Past the end of the line there is nothing under the cursor.
    assert_eq!(find_end_of_chunk(0, 40, &tr), Err(40));
    // On a space, the chunk is the run after the spaces.
    assert_eq!(find_end_of_chunk(0, 3, &tr), Ok(8));
}

#[test]
fn identifier_classes_test() {
    assert!(is_identifier('a'));
    assert!(is_identifier('Z'));
    assert!(is_identifier('7'));
    assert!(is_identifier('_'));
    assert!(!is_identifier('+'));
    assert!(!is_identifier(' '));
    assert!(is_symbol('+'));
    assert!(is_symbol(';'));
    assert!(!is_symbol(' '));
    assert!(!is_symbol('x'));
}

#[test]
fn calculate_index_test() {
    let tr = TextRope::new();
    let tr = tr.insert(
        0,
        "ab\ncdef\ng",
        Vector2D::new(0, 0),
        Vector2D::new(9, 0),
        true,
    );
    assert_eq!(calculate_index_from_pos(&tr, Vector2D::new(0, 0)), 0);
    assert_eq!(calculate_index_from_pos(&tr, Vector2D::new(1, 1)), 4);
    assert_eq!(calculate_index_from_pos(&tr, Vector2D::new(0, 2)), 8);
}

#[test]
fn input_state_test() {
    let mut input = InputState::default();
    assert!(!input.mouse.left_down());
    assert!(!input.mouse.right_down());
    assert!(!input.mouse.middle_down());
    input.mouse.press_left();
    assert!(input.mouse.left_down());
    input.mouse.release_left();
    assert!(!input.mouse.left_down());
    input.mouse.press_right();
    assert!(input.mouse.right_down());
    input.mouse.release_right();
    input.mouse.press_middle();
    assert!(input.mouse.middle_down());
    input.mouse.release_middle();
    assert!(!input.mouse.middle_down());

    let mut kb = Keyboard::default();
    assert!(!kb.ctrl_down());
    assert!(!kb.shift_down());
    kb.press_ctrl();
    assert!(kb.ctrl_down());
    kb.release_ctrl();
    assert!(!kb.ctrl_down());
    kb.press_shift();
    assert!(kb.shift_down());
    kb.release_shift();
    assert!(!kb.shift_down());

    let m = Mouse::default();
    assert!(!m.left_down());
}

#[test]
fn vector_test() {
    let v = Vector2D::new(3, 9);
    assert_eq!(v.x, 3);
    assert_eq!(v.y, 9);
    let w = v;
    assert_eq!(w, v);
}
