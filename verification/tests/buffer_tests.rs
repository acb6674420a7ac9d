use eta_buffer::buffer::Buffer;
use eta_buffer::{EditId, Location};

#[test]
fn seed_record_only() {
    let b = Buffer::new("hello");
    assert_eq!(b.current_id(), EditId(0));
    assert_eq!(b.current_text(), "hello");
}

#[test]
fn empty_buffer_has_empty_text() {
    let b = Buffer::empty();
    assert_eq!(b.current_text(), "");
    assert_eq!(b.current_id(), EditId(0));
}

#[test]
fn insert_splices_text() {
    let mut b = Buffer::new("hello");
    b.insert(Location(0, 5), " world");
    assert_eq!(b.current_text(), "hello world");
    assert_eq!(b.current_id(), EditId(1));
}

#[test]
fn insert_at_start_of_later_line() {
    let mut b = Buffer::new("a\nb\nc");
    b.insert(Location(1, 0), "x");
    assert_eq!(b.current_text(), "a\nxb\nc");
}

#[test]
fn insert_mid_line_with_newline() {
    let mut b = Buffer::new("ab\ncd");
    b.insert(Location(1, 1), "Z\nQ");
    assert_eq!(b.current_text(), "ab\ncZ\nQd");
}

#[test]
fn delete_removes_range() {
    let mut b = Buffer::new("hello world");
    b.delete(Location(0, 0), Location(0, 6));
    assert_eq!(b.current_text(), "world");
    assert_eq!(b.current_id(), EditId(1));
}

#[test]
fn delete_across_lines() {
    let mut b = Buffer::new("ab\ncd\nef");
    b.delete(Location(0, 1), Location(2, 1));
    assert_eq!(b.current_text(), "af");
}

#[test]
fn noop_insert_increments_id_keeps_text() {
    let mut b = Buffer::new("abc");
    let before = b.current_text();
    let id_before = b.current_id();
    b.insert(Location(0, 1), "");
    assert_eq!(b.current_id(), EditId(id_before.0 + 1));
    assert_eq!(b.current_text(), before);
}

#[test]
fn undo_redo_round_trip() {
    let mut b = Buffer::new("base");
    b.insert(Location(0, 4), "!");
    let text_before = b.current_text();
    let id_before = b.current_id();
    assert!(b.undo());
    assert_eq!(b.current_text(), "base");
    assert!(b.redo());
    assert_eq!(b.current_text(), text_before);
    assert_eq!(b.current_id(), id_before);
}

#[test]
fn undo_on_seed_is_refused() {
    let mut b = Buffer::new("only");
    let id = b.current_id();
    assert!(!b.undo());
    assert_eq!(b.current_text(), "only");
    assert_eq!(b.current_id(), id);
}

#[test]
fn redo_on_empty_stack_is_refused() {
    let mut b = Buffer::new("only");
    assert!(!b.redo());
    assert_eq!(b.current_text(), "only");
    let mut c = Buffer::new("x");
    c.insert(Location(0, 0), "y");
    assert!(!c.redo());
    assert_eq!(c.current_text(), "yx");
}

#[test]
fn new_edit_clears_redo() {
    let mut b = Buffer::new("a");
    b.insert(Location(0, 1), "b");
    assert!(b.undo());
    b.insert(Location(0, 1), "c");
    assert!(!b.redo());
    assert_eq!(b.current_text(), "ac");
}

#[test]
fn several_undos_then_redos() {
    let mut b = Buffer::new("1");
    b.insert(Location(0, 1), "2");
    b.insert(Location(0, 2), "3");
    assert!(b.undo());
    assert!(b.undo());
    assert_eq!(b.current_text(), "1");
    assert!(b.redo());
    assert_eq!(b.current_text(), "12");
    assert!(b.redo());
    assert_eq!(b.current_text(), "123");
    assert!(!b.redo());
}

#[test]
fn location_order() {
    assert!(Location(0, 5).lt(&Location(1, 0)));
    assert!(Location(1, 2).lt(&Location(1, 3)));
    assert!(!Location(1, 3).lt(&Location(1, 3)));
    assert!(Location(1, 3).le(&Location(1, 3)));
    assert!(!Location(2, 0).le(&Location(1, 9)));
}
