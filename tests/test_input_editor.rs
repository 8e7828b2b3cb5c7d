use rustic_calc::editor_model::{EditorCommand, InputEditMode, Key, Motion};
use rustic_calc::input_editor::InputEditor;

fn keys(ed: &mut InputEditor, ks: &[Key]) {
    for k in ks {
        ed.handle_key_event(*k);
    }
}

#[test]
fn basic_insert_and_backspace() {
    let mut ed = InputEditor::new();
    ed.handle_key_event(Key::Char('1'));
    ed.handle_key_event(Key::Char('+'));
    ed.handle_key_event(Key::Char('2'));
    assert_eq!(ed.input(), "1+2");
    assert_eq!(ed.cursor(), 3);

    ed.handle_key_event(Key::Backspace);
    assert_eq!(ed.input(), "1+");
    assert_eq!(ed.cursor(), 2);
}

#[test]
fn normal_motions_are_reusable_for_navigation() {
    let mut ed = InputEditor::with_input("abc + def".to_string());
    ed.handle_key_event(Key::Esc); // -> Normal

    ed.apply_motion(Motion::LineStart);
    assert_eq!(ed.cursor(), 0);

    ed.apply_motion(Motion::WordForward);
    assert_eq!(ed.cursor(), 6);

    ed.apply_motion(Motion::WordBackward);
    assert_eq!(ed.cursor(), 0);

    ed.apply_motion(Motion::LineEnd);
    assert_eq!(ed.cursor(), 8);
}

#[test]
fn normal_mode_y_and_yy_do_not_copy_in_input_editor() {
    let mut ed = InputEditor::with_input("hello world".to_string());
    ed.handle_key_event(Key::Esc); // Normal
    ed.apply_motion(Motion::LineStart);

    ed.handle_key_event(Key::Char('y'));
    ed.handle_key_event(Key::Char('w'));
    assert_eq!(ed.register(), "");

    ed.apply_motion(Motion::LineEnd);
    ed.handle_key_event(Key::Char('p'));
    assert_eq!(ed.input(), "hello world");

    ed.handle_key_event(Key::Char('y'));
    ed.handle_key_event(Key::Char('y'));
    assert_eq!(ed.register(), "");

    ed.handle_key_event(Key::Char('P'));
    assert_eq!(ed.input(), "hello world");
}

#[test]
fn visual_mode_yank_and_paste_work_in_input_editor() {
    let mut ed = InputEditor::with_input("sum=1+2".to_string());
    ed.handle_key_event(Key::Esc); // Normal
    ed.handle_key_event(Key::Char('0')); // at 's'
    ed.handle_key_event(Key::Char('v')); // visual start
    ed.handle_key_event(Key::Char('l')); // select "su"
    ed.handle_key_event(Key::Char('y')); // yank visual selection

    assert_eq!(ed.register(), "su");

    ed.apply_motion(Motion::LineEnd);
    ed.handle_key_event(Key::Char('p'));

    assert_eq!(ed.input(), "sum=1+2su");
}

#[test]
fn normal_mode_v_enters_visual_mode_and_esc_exits_to_normal() {
    let mut ed = InputEditor::with_input("abcd".to_string());

    ed.handle_key_event(Key::Esc); // Insert -> Normal
    assert_eq!(ed.mode(), InputEditMode::Normal);

    ed.handle_key_event(Key::Char('v')); // Normal -> Visual
    assert_eq!(ed.mode(), InputEditMode::Visual);

    let cmd = ed.handle_key_event(Key::Esc); // Visual -> Normal
    assert_eq!(ed.mode(), InputEditMode::Normal);
    assert_eq!(cmd, EditorCommand::NoOp);
}

#[test]
fn visual_mode_yank_and_paste_work() {
    let mut ed = InputEditor::with_input("abcde".to_string());
    keys(&mut ed, &[Key::Esc, Key::Char('0'), Key::Char('v'), Key::Char('l')]);
    let cmd = ed.handle_key_event(Key::Char('y'));
    assert_eq!(cmd, EditorCommand::Yanked { start: 0, end: 1 });
    assert_eq!(ed.mode(), InputEditMode::Normal);

    keys(&mut ed, &[Key::Char('$'), Key::Char('p')]);
    assert_eq!(ed.input(), "abcdeab");
}

#[test]
fn test_input_editor_visual_mode_delete_selection_works() {
    let mut ed = InputEditor::with_input("abcde".to_string());
    keys(
        &mut ed,
        &[Key::Esc, Key::Char('0'), Key::Char('l'), Key::Char('v'), Key::Char('l'), Key::Char('d')],
    );
    assert_eq!(ed.mode(), InputEditMode::Normal);
    assert_eq!(ed.input(), "ade");
    assert_eq!(ed.cursor(), 1);
}

#[test]
fn normal_mode_navigation_and_delete_under_cursor_work() {
    let mut ed = InputEditor::with_input("12+34".to_string());
    assert_eq!(ed.cursor(), 5);

    ed.handle_key_event(Key::Esc); // Insert -> Normal

    ed.handle_key_event(Key::Char('0'));
    assert_eq!(ed.cursor(), 0);

    ed.handle_key_event(Key::Char('$'));
    assert_eq!(ed.cursor(), 4);

    ed.handle_key_event(Key::Char('h'));
    assert_eq!(ed.cursor(), 3);

    ed.handle_key_event(Key::Char('x'));
    assert_eq!(ed.input(), "12+4");
    assert_eq!(ed.cursor(), 3);
}

#[test]
fn normal_mode_word_motions_work() {
    let mut ed = InputEditor::with_input("abc + def_1".to_string());
    for _ in 0..11 {
        ed.handle_key_event(Key::Left);
    }
    assert_eq!(ed.cursor(), 0);

    ed.handle_key_event(Key::Esc); // Insert -> Normal
    ed.handle_key_event(Key::Char('w'));
    assert_eq!(ed.cursor(), 6);

    ed.handle_key_event(Key::Char('b'));
    assert_eq!(ed.cursor(), 0);
}

#[test]
fn editor_visual_yank_then_paste_at_end() {
    let mut ed = InputEditor::with_input("hello world".to_string());
    keys(&mut ed, &[Key::Esc, Key::Char('0')]);
    assert_eq!(ed.cursor(), 0);
    ed.handle_key_event(Key::Char('v'));
    assert_eq!(ed.visual_selection_range(), Some((0, 0)));
    ed.handle_key_event(Key::Char('l'));
    assert_eq!(ed.cursor(), 1);
    ed.handle_key_event(Key::Char('y'));
    assert_eq!(ed.register(), "he");
    assert_eq!(ed.mode(), InputEditMode::Normal);
    keys(&mut ed, &[Key::Char('$'), Key::Char('p')]);
    assert_eq!(ed.input(), "hello worldhe");
    assert_eq!(ed.cursor(), 12);
}

#[test]
fn escape_from_insert_steps_back_one() {
    let mut ed = InputEditor::with_input("abc".to_string());
    ed.handle_key_event(Key::Esc);
    assert_eq!(ed.mode(), InputEditMode::Normal);
    assert_eq!(ed.cursor(), 2);
    let mut empty = InputEditor::new();
    empty.handle_key_event(Key::Esc);
    assert_eq!(empty.cursor(), 0);
}

#[test]
fn normal_mode_commands() {
    let mut ed = InputEditor::with_input("abc".to_string());
    ed.handle_key_event(Key::Esc);
    assert_eq!(ed.handle_key_event(Key::Esc), EditorCommand::ExitInputMode);
    assert_eq!(ed.handle_key_event(Key::Enter), EditorCommand::Submit);
    assert_eq!(ed.handle_key_event(Key::Tab), EditorCommand::IncrementFocus);
    assert_eq!(ed.handle_key_event(Key::BackTab), EditorCommand::DecrementFocus);
    assert_eq!(ed.handle_key_event(Key::Char('z')), EditorCommand::NoOp);
    assert_eq!(ed.input(), "abc");
}

#[test]
fn entering_insert_mode_from_normal() {
    let mut ed = InputEditor::with_input("abc".to_string());
    keys(&mut ed, &[Key::Esc, Key::Char('0'), Key::Char('a')]);
    assert_eq!(ed.mode(), InputEditMode::Insert);
    assert_eq!(ed.cursor(), 1);
    keys(&mut ed, &[Key::Esc, Key::Char('A')]);
    assert_eq!(ed.cursor(), 3);
    keys(&mut ed, &[Key::Esc, Key::Char('I')]);
    assert_eq!(ed.cursor(), 0);
    keys(&mut ed, &[Key::Esc, Key::Char('$'), Key::Char('i')]);
    assert_eq!(ed.cursor(), 2);
    ed.handle_key_event(Key::Char('X'));
    assert_eq!(ed.input(), "abXc");
}

#[test]
fn paste_before_and_cursor_lands_on_last_pasted() {
    let mut ed = InputEditor::with_input("abc".to_string());
    keys(&mut ed, &[Key::Esc, Key::Char('0'), Key::Char('v'), Key::Char('l'), Key::Char('y')]);
    keys(&mut ed, &[Key::Char('$'), Key::Char('P')]);
    assert_eq!(ed.input(), "ababc");
    assert_eq!(ed.cursor(), 3);
}

#[test]
fn yank_with_motion_copies_without_moving() {
    let mut ed = InputEditor::with_input("abc + def".to_string());
    ed.handle_key_event(Key::Esc);
    ed.apply_motion(Motion::LineStart);
    ed.yank_with_motion(Motion::WordForward);
    assert_eq!(ed.register(), "abc");
    assert_eq!(ed.cursor(), 0);
    ed.apply_motion(Motion::Right);
    ed.apply_motion(Motion::Right);
    ed.apply_motion(Motion::Right);
    ed.yank_with_motion(Motion::WordForward);
    assert_eq!(ed.register(), " + def");
    ed.apply_motion(Motion::LineEnd);
    ed.yank_with_motion(Motion::WordBackward);
    assert_eq!(ed.register(), "def");
    ed.apply_motion(Motion::LineStart);
    ed.yank_with_motion(Motion::LineEnd);
    assert_eq!(ed.register(), "abc + def");
    ed.yank_line();
    assert_eq!(ed.register(), "abc + def");
}

#[test]
fn word_motions_count_unicode_letters_and_positions() {
    let mut ed = InputEditor::with_input("héllo wörld".to_string());
    assert_eq!(ed.cursor(), 11);
    keys(&mut ed, &[Key::Esc, Key::Char('0'), Key::Char('w')]);
    assert_eq!(ed.cursor(), 6);
    ed.handle_key_event(Key::Char('x'));
    assert_eq!(ed.input(), "héllo örld");
}

#[test]
fn empty_buffer_edge_cases() {
    let mut ed = InputEditor::new();
    keys(&mut ed, &[Key::Backspace, Key::Left, Key::Right, Key::Esc]);
    assert_eq!(ed.cursor(), 0);
    keys(&mut ed, &[Key::Char('x'), Key::Char('p'), Key::Char('w'), Key::Char('b'), Key::Char('$')]);
    assert_eq!(ed.input(), "");
    assert_eq!(ed.cursor(), 0);
    ed.handle_key_event(Key::Char('v'));
    assert_eq!(ed.mode(), InputEditMode::Visual);
    assert_eq!(ed.visual_selection_range(), None);
    assert_eq!(ed.handle_key_event(Key::Char('y')), EditorCommand::NoOp);
    assert_eq!(ed.mode(), InputEditMode::Normal);
}

#[test]
fn set_input_and_clear_keep_the_register() {
    let mut ed = InputEditor::with_input("ab".to_string());
    keys(&mut ed, &[Key::Esc, Key::Char('v'), Key::Char('y')]);
    assert_eq!(ed.register(), "b");
    ed.set_input("xyz".to_string());
    assert_eq!(ed.mode(), InputEditMode::Insert);
    assert_eq!(ed.cursor(), 3);
    ed.clear();
    assert_eq!(ed.input(), "");
    assert_eq!(ed.cursor(), 0);
    assert_eq!(ed.register(), "b");
}
