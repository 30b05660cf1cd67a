use todo_list::store::encode;
use todo_list::{Key, Mode, Session, Task};

fn type_text(s: &mut Session, text: &str) {
    for c in text.chars() {
        s.handle_key(Key::Char(c));
    }
}

fn sample(titles: &[&str]) -> Vec<Task> {
    let mut v = Vec::new();
    for t in titles {
        v.push(Task::new(t.to_string()));
    }
    v
}

#[test]
fn empty_store_starts_unselected() {
    let s = Session::new(Vec::new());
    assert_eq!(s.selection, None);
    assert_eq!(s.mode, Mode::Normal);
    assert_eq!(s.tasks.len(), 0);
}

#[test]
fn loaded_store_selects_first() {
    let s = Session::new(sample(&["a", "b"]));
    assert_eq!(s.selection, Some(0));
}

#[test]
fn create_buy_milk() {
    let mut s = Session::new(Vec::new());
    let r = s.handle_key(Key::Char('e'));
    assert!(!r.save && !r.quit);
    assert_eq!(s.mode, Mode::Creating);
    type_text(&mut s, "Buy milk");
    let r = s.handle_key(Key::Enter);
    assert!(r.save && !r.quit);
    assert_eq!(s.mode, Mode::Normal);
    assert_eq!(s.tasks.len(), 1);
    assert_eq!(s.tasks[0].title, "Buy milk");
    assert!(!s.tasks[0].completed);
    assert_eq!(s.selection, Some(0));
    assert_eq!(encode(&s.tasks), "[{\"title\":\"Buy milk\",\"completed\":false}]");
}

#[test]
fn toggle_twice_returns_to_original() {
    let mut s = Session::new(Vec::new());
    s.handle_key(Key::Char('e'));
    type_text(&mut s, "Buy milk");
    s.handle_key(Key::Enter);
    let r = s.handle_key(Key::Char(' '));
    assert!(r.save);
    assert!(s.tasks[0].completed);
    assert_eq!(encode(&s.tasks), "[{\"title\":\"Buy milk\",\"completed\":true}]");
    let r = s.handle_key(Key::Char(' '));
    assert!(r.save);
    assert!(!s.tasks[0].completed);
    assert_eq!(encode(&s.tasks), "[{\"title\":\"Buy milk\",\"completed\":false}]");
}

#[test]
fn delete_last_of_three_moves_selection_up() {
    let mut s = Session::new(sample(&["a", "b", "c"]));
    s.handle_key(Key::Down);
    s.handle_key(Key::Down);
    assert_eq!(s.selection, Some(2));
    let r = s.handle_key(Key::Delete);
    assert!(r.save);
    assert_eq!(s.tasks.len(), 2);
    assert_eq!(s.selection, Some(1));
}

#[test]
fn delete_middle_keeps_index_on_successor() {
    let mut s = Session::new(sample(&["a", "b", "c"]));
    s.handle_key(Key::Char('j'));
    assert_eq!(s.selection, Some(1));
    let r = s.handle_key(Key::Backspace);
    assert!(r.save);
    assert_eq!(s.tasks.len(), 2);
    assert_eq!(s.selection, Some(1));
    assert_eq!(s.tasks[1].title, "c");
}

#[test]
fn delete_only_item_clears_selection() {
    let mut s = Session::new(sample(&["a"]));
    let r = s.handle_key(Key::Delete);
    assert!(r.save);
    assert_eq!(s.tasks.len(), 0);
    assert_eq!(s.selection, None);
}

#[test]
fn navigation_clamps_at_both_ends() {
    let mut s = Session::new(sample(&["a", "b"]));
    let r = s.handle_key(Key::Char('k'));
    assert!(!r.save);
    assert_eq!(s.selection, Some(0));
    s.handle_key(Key::Char('j'));
    s.handle_key(Key::Char('j'));
    assert_eq!(s.selection, Some(1));
    s.handle_key(Key::Up);
    assert_eq!(s.selection, Some(0));
}

#[test]
fn navigation_on_empty_list_keeps_no_selection() {
    let mut s = Session::new(Vec::new());
    s.handle_key(Key::Char('j'));
    assert_eq!(s.selection, None);
    s.handle_key(Key::Down);
    assert_eq!(s.selection, None);
    s.handle_key(Key::Char('k'));
    assert_eq!(s.selection, None);
}

#[test]
fn create_with_empty_buffer_adds_nothing() {
    let mut s = Session::new(sample(&["a"]));
    s.handle_key(Key::Char('e'));
    let r = s.handle_key(Key::Enter);
    assert!(!r.save);
    assert_eq!(s.mode, Mode::Normal);
    assert_eq!(s.tasks.len(), 1);
}

#[test]
fn creating_backspace_edits_buffer() {
    let mut s = Session::new(Vec::new());
    s.handle_key(Key::Char('e'));
    type_text(&mut s, "abc");
    s.handle_key(Key::Backspace);
    s.handle_key(Key::Enter);
    assert_eq!(s.tasks[0].title, "ab");
}

#[test]
fn creating_esc_discards_buffer() {
    let mut s = Session::new(Vec::new());
    s.handle_key(Key::Char('e'));
    type_text(&mut s, "abc");
    let r = s.handle_key(Key::Esc);
    assert!(!r.save);
    assert_eq!(s.mode, Mode::Normal);
    assert_eq!(s.tasks.len(), 0);
    assert_eq!(s.buffer, "");
}

#[test]
fn rename_selected_task() {
    let mut s = Session::new(sample(&["old name", "other"]));
    let r = s.handle_key(Key::Enter);
    assert!(!r.save);
    assert_eq!(s.mode, Mode::TaskEditing);
    assert_eq!(s.buffer, "old name");
    assert_eq!(s.editing, Some(0));
    for _ in 0.."old name".len() {
        s.handle_key(Key::Backspace);
    }
    type_text(&mut s, "new name");
    let r = s.handle_key(Key::Enter);
    assert!(r.save);
    assert_eq!(s.mode, Mode::Normal);
    assert_eq!(s.editing, None);
    assert_eq!(s.tasks[0].title, "new name");
    assert_eq!(s.tasks[1].title, "other");
}

#[test]
fn rename_esc_keeps_title() {
    let mut s = Session::new(sample(&["keep me"]));
    s.handle_key(Key::Enter);
    type_text(&mut s, " scribbles");
    let r = s.handle_key(Key::Esc);
    assert!(!r.save);
    assert_eq!(s.mode, Mode::Normal);
    assert_eq!(s.editing, None);
    assert_eq!(s.buffer, "");
    assert_eq!(s.tasks[0].title, "keep me");
}

#[test]
fn rename_with_empty_buffer_keeps_title() {
    let mut s = Session::new(sample(&["keep me"]));
    s.handle_key(Key::Enter);
    for _ in 0.."keep me".len() {
        s.handle_key(Key::Backspace);
    }
    let r = s.handle_key(Key::Enter);
    assert!(!r.save);
    assert_eq!(s.mode, Mode::Normal);
    assert_eq!(s.tasks[0].title, "keep me");
}

#[test]
fn quit_key_only_quits() {
    let mut s = Session::new(sample(&["a"]));
    let r = s.handle_key(Key::Char('q'));
    assert!(r.quit && !r.save);
    assert_eq!(s.tasks.len(), 1);
}

#[test]
fn other_keys_are_ignored() {
    let mut s = Session::new(sample(&["a"]));
    let r = s.handle_key(Key::Char('x'));
    assert!(!r.save && !r.quit);
    assert_eq!(s.mode, Mode::Normal);
    assert_eq!(s.selection, Some(0));
    let r = s.handle_key(Key::Esc);
    assert!(!r.save && !r.quit);
}
