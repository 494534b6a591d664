use wbwime::context::{ContextManager, ContextSnapshot};
use wbwime::types::InputMode;

#[test]
fn test_context_push_char() {
    let mut ctx = ContextManager::new(1);
    ctx.push_char('a');
    ctx.push_char('b');
    assert_eq!(ctx.buffer(), "ab");
}

#[test]
fn test_context_pop_char() {
    let mut ctx = ContextManager::new(1);
    ctx.push_char('a');
    ctx.push_char('b');
    ctx.pop_char();
    assert_eq!(ctx.buffer(), "a");
}

#[test]
fn test_context_clear_buffer() {
    let mut ctx = ContextManager::new(1);
    ctx.push_char('a');
    ctx.clear_buffer();
    assert!(ctx.is_buffer_empty());
}

#[test]
fn test_context_undo() {
    let mut ctx = ContextManager::new(1);
    ctx.push_char('a');
    ctx.push_char('b');
    assert!(ctx.undo());
    assert_eq!(ctx.buffer(), "a");
}

#[test]
fn test_context_snapshot() {
    let mut ctx = ContextManager::new(1);
    ctx.push_char('a');
    let snapshot = ContextSnapshot::from(ctx.current());
    assert_eq!(snapshot.buffer, "a");
    let restored = snapshot.to_input_context(1);
    assert_eq!(restored.buffer, "a");
}

#[test]
fn context_multibyte_cursor_moves_by_bytes() {
    let mut ctx = ContextManager::new(7);
    ctx.push_char('中');
    assert_eq!(ctx.cursor(), 3);
    ctx.push_char('a');
    assert_eq!(ctx.cursor(), 4);
    assert_eq!(ctx.buffer_len(), 4);
    assert_eq!(ctx.pop_char(), Some('a'));
    assert_eq!(ctx.buffer(), "中");
    assert_eq!(ctx.cursor(), 3);
}

#[test]
fn context_pop_on_empty_is_none() {
    let mut ctx = ContextManager::new(1);
    assert_eq!(ctx.pop_char(), None);
    assert!(!ctx.undo());
    assert!(ctx.history().is_empty());
}

#[test]
fn context_undo_reverts_each_edit() {
    let mut ctx = ContextManager::new(1);
    ctx.push_char('x');
    ctx.push_char('y');
    ctx.push_char('z');
    assert!(ctx.undo());
    assert_eq!(ctx.buffer(), "xy");
    assert!(ctx.undo());
    assert_eq!(ctx.buffer(), "x");
    assert!(ctx.undo());
    assert_eq!(ctx.buffer(), "");
    assert!(!ctx.undo());
}

#[test]
fn context_selected_words() {
    let mut ctx = ContextManager::new(1);
    ctx.add_selected("我".to_string());
    ctx.add_selected("们".to_string());
    assert_eq!(ctx.selected().len(), 2);
    assert_eq!(ctx.selected()[1], "们");
    ctx.clear_selected();
    assert!(ctx.selected().is_empty());
    ctx.clear_history();
    assert!(ctx.history().is_empty());
}

#[test]
fn context_pop_char_returns_removed() {
    let mut ctx = ContextManager::new(1);
    ctx.push_char('a');
    ctx.push_char('b');
    assert_eq!(ctx.pop_char(), Some('b'));
    assert_eq!(ctx.buffer(), "a");
    assert_eq!(ctx.cursor(), 1);
    assert_eq!(ctx.pop_char(), Some('a'));
    assert_eq!(ctx.pop_char(), None);
}

#[test]
fn context_history_keeps_at_most_100() {
    let mut ctx = ContextManager::new(1);
    for _ in 0..105 {
        ctx.push_char('a');
    }
    assert_eq!(ctx.history().len(), 100);
    assert_eq!(ctx.history()[0].buffer, "aaaaa");
    assert!(ctx.undo());
    assert_eq!(ctx.buffer().len(), 104);
}
