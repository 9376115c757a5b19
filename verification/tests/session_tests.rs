use tasklist::keys::{Key, KeyMap};
use tasklist::session::{KeyInput, Mode, Selection, Session};
use tasklist::tasks::{TaskItem, TaskList};

fn press(s: &mut Session, c: char) -> bool {
    s.handle_key(KeyInput::Char(c))
}

#[test]
fn selection_stays_in_bounds_over_moves() {
    let mut sel = Selection::new();
    assert_eq!(sel.index, 0);
    let count = 3;
    sel.move_down(count);
    assert_eq!(sel.index, 1);
    sel.move_down(count);
    assert_eq!(sel.index, 2);
    sel.move_down(count);
    assert_eq!(sel.index, 2);
    sel.move_up();
    assert_eq!(sel.index, 1);
    sel.move_up();
    assert_eq!(sel.index, 0);
    sel.move_up();
    assert_eq!(sel.index, 0);
    for step in [true, true, false, true, true, true, false, false, false, false] {
        if step {
            sel.move_down(count);
        } else {
            sel.move_up();
        }
        assert!(sel.index < count);
    }
}

#[test]
fn selection_pinned_to_zero_when_empty() {
    let mut sel = Selection::new();
    sel.move_down(0);
    assert_eq!(sel.index, 0);
    sel.move_up();
    assert_eq!(sel.index, 0);
    sel.clamp(0);
    assert_eq!(sel.index, 0);
}

#[test]
fn selection_clamp_after_shrink() {
    let mut sel = Selection::new();
    sel.move_down(5);
    sel.move_down(5);
    sel.move_down(5);
    assert_eq!(sel.index, 3);
    sel.clamp(2);
    assert_eq!(sel.index, 1);
    sel.clamp(2);
    assert_eq!(sel.index, 1);
}

#[test]
fn commits_append_in_order() {
    let mut s = Session::new(Vec::new());
    for name in ["a", "bc", "def"] {
        press(&mut s, 'i');
        for c in name.chars() {
            s.handle_key(KeyInput::Char(c));
        }
        s.handle_key(KeyInput::Enter);
    }
    assert_eq!(s.tasks.len(), 3);
    assert_eq!(s.tasks[0].name, "a");
    assert_eq!(s.tasks[1].name, "bc");
    assert_eq!(s.tasks[2].name, "def");
    assert!(s.tasks.iter().all(|t| !t.closed));
}

#[test]
fn close_out_of_bounds_is_a_no_op() {
    let mut tasks: Vec<TaskItem> = Vec::new();
    tasks.add("one");
    tasks.add("two");
    tasks.close(5);
    assert_eq!(tasks.len(), 2);
    assert_eq!(tasks[0].name, "one");
    assert!(!tasks[0].closed);
    assert_eq!(tasks[1].name, "two");
    assert!(!tasks[1].closed);
}

#[test]
fn close_in_bounds_touches_only_that_record() {
    let mut tasks: Vec<TaskItem> = Vec::new();
    tasks.add("one");
    tasks.add("two");
    tasks.add("three");
    tasks.close(1);
    assert_eq!(tasks.len(), 3);
    assert_eq!(tasks[0].name, "one");
    assert!(!tasks[0].closed);
    assert_eq!(tasks[1].name, "two");
    assert!(tasks[1].closed);
    assert_eq!(tasks[2].name, "three");
    assert!(!tasks[2].closed);
    tasks.close(1);
    assert!(tasks[1].closed);
}

#[test]
fn clear_then_add_leaves_one_task() {
    let mut tasks: Vec<TaskItem> = Vec::new();
    tasks.add("old");
    tasks.add("older");
    tasks.close(0);
    tasks.clear();
    tasks.add("x");
    assert_eq!(tasks.len(), 1);
    assert_eq!(tasks[0].name, "x");
    assert!(!tasks[0].closed);
}

#[test]
fn clear_key_empties_the_session_store() {
    let mut s = Session::new(Vec::new());
    press(&mut s, 'i');
    press(&mut s, 'a');
    s.handle_key(KeyInput::Enter);
    press(&mut s, '0');
    assert_eq!(s.tasks.len(), 0);
    assert_eq!(s.selection.index, 0);
}

#[test]
fn insert_buy_scenario() {
    let mut s = Session::new(Vec::new());
    press(&mut s, 'i');
    press(&mut s, 'b');
    press(&mut s, 'u');
    press(&mut s, 'y');
    let quit = s.handle_key(KeyInput::Enter);
    assert!(!quit);
    assert_eq!(s.tasks.len(), 1);
    assert_eq!(s.tasks[0].name, "buy");
    assert!(!s.tasks[0].closed);
    assert!(matches!(s.mode, Mode::Browse));
}

#[test]
fn move_then_close_scenario() {
    let mut tasks: Vec<TaskItem> = Vec::new();
    tasks.add("first");
    tasks.add("second");
    let mut s = Session::new(tasks);
    assert_eq!(s.selection.index, 0);
    press(&mut s, 'j');
    assert_eq!(s.selection.index, 1);
    press(&mut s, 'c');
    assert!(s.tasks[1].closed);
    assert_eq!(s.tasks[1].name, "second");
    assert!(!s.tasks[0].closed);
    assert_eq!(s.tasks[0].name, "first");
}

#[test]
fn quit_key_only_quits_while_browsing() {
    let mut s = Session::new(Vec::new());
    assert!(press(&mut s, 'q'));
    let mut s2 = Session::new(Vec::new());
    press(&mut s2, 'i');
    assert!(!press(&mut s2, 'q'));
    let quit = s2.handle_key(KeyInput::Enter);
    assert!(!quit);
    assert_eq!(s2.tasks.len(), 1);
    assert_eq!(s2.tasks[0].name, "q");
}

#[test]
fn backspace_erases_and_saturates() {
    let mut s = Session::new(Vec::new());
    press(&mut s, 'i');
    press(&mut s, 'a');
    press(&mut s, 'b');
    s.handle_key(KeyInput::Backspace);
    s.handle_key(KeyInput::Enter);
    assert_eq!(s.tasks[0].name, "a");

    let mut s2 = Session::new(Vec::new());
    press(&mut s2, 'i');
    s2.handle_key(KeyInput::Backspace);
    s2.handle_key(KeyInput::Enter);
    assert_eq!(s2.tasks.len(), 1);
    assert_eq!(s2.tasks[0].name, "");
}

#[test]
fn move_down_on_empty_list_is_safe() {
    let mut s = Session::new(Vec::new());
    let quit = press(&mut s, 'j');
    assert!(!quit);
    assert_eq!(s.selection.index, 0);
    let quit = press(&mut s, 'c');
    assert!(!quit);
    assert_eq!(s.tasks.len(), 0);
}

#[test]
fn unknown_keys_change_nothing() {
    let mut tasks: Vec<TaskItem> = Vec::new();
    tasks.add("one");
    let mut s = Session::new(tasks);
    press(&mut s, 'z');
    s.handle_key(KeyInput::Other);
    s.handle_key(KeyInput::Backspace);
    assert_eq!(s.tasks.len(), 1);
    assert_eq!(s.selection.index, 0);
    assert!(matches!(s.mode, Mode::Browse));
}

#[test]
fn insert_mode_treats_command_chars_as_text() {
    let mut s = Session::new(Vec::new());
    press(&mut s, 'i');
    press(&mut s, 'j');
    press(&mut s, '0');
    press(&mut s, 'c');
    s.handle_key(KeyInput::Enter);
    assert_eq!(s.tasks.len(), 1);
    assert_eq!(s.tasks[0].name, "j0c");
    assert_eq!(s.selection.index, 0);
}

#[test]
fn browse_key_map_advertises_insert() {
    let m = Mode::Browse;
    let keys = m.get_key_map();
    assert_eq!(keys.len(), 1);
    assert_eq!(keys[0].code, "i");
    assert_eq!(keys[0].short, "insert new task mode");
    let m2 = Mode::Insert(Vec::new());
    assert_eq!(m2.get_key_map().len(), 0);
}

#[test]
fn key_map_keeps_registration_order() {
    let mut km: Vec<Key<String>> = Vec::new();
    km.register(Key::new("q".to_string(), "quit".to_string()));
    km.register(Key::new("c".to_string(), "close selected".to_string()));
    let listed = km.make_iter();
    assert_eq!(listed.len(), 2);
    assert_eq!(listed[0].code, "q");
    assert_eq!(listed[0].short, "quit");
    assert_eq!(listed[1].code, "c");
}
