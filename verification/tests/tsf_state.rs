use wbwime::ipc::{ToDll, ToGui};
use wbwime::tsf_state::{caret_anchor, GuiReplyEffect, TsfState};

fn cands(n: usize) -> Vec<String> {
    (0..n).map(|i| format!("词{}", i)).collect()
}

#[test]
fn tsf_letters_compose_and_digit_commits() {
    let mut st = TsfState::new();
    assert_eq!(st.process_key(0x57), Some("w".to_string()));
    st.set_matches(cands(3));
    assert_eq!(st.process_key(0x4F), Some("wo".to_string()));
    st.set_matches(cands(12));
    assert_eq!(st.candidates.len(), 10);
    assert_eq!(st.composing_text, "wo");
    assert!(st.composing);
    assert_eq!(st.total_pages(), 2);
    assert_eq!(st.process_key(0x22), None);
    assert_eq!(st.page, 1);
    assert_eq!(st.candidates, vec!["词10".to_string(), "词11".to_string()]);
    assert_eq!(st.process_key(0x32), None);
    assert_eq!(st.commit_text, Some("词11".to_string()));
    assert!(st.buffer.is_empty());
    assert!(!st.composing);
}

#[test]
fn tsf_backspace_escape_enter_space() {
    let mut st = TsfState::new();
    st.process_key(0x41);
    st.set_matches(cands(2));
    st.process_key(0x42);
    st.set_matches(cands(2));
    assert_eq!(st.process_key(0x08), Some("a".to_string()));
    assert!(st.composing);
    assert_eq!(st.process_key(0x08), None);
    assert!(st.candidates.is_empty());
    assert!(!st.composing);
    st.process_key(0x41);
    st.set_matches(cands(3));
    st.process_key(0x0D);
    assert_eq!(st.commit_text, Some("词0".to_string()));
    st.process_key(0x41);
    st.set_matches(cands(3));
    st.process_key(0x20);
    assert_eq!(st.commit_text, Some("词0".to_string()));
    st.process_key(0x41);
    st.set_matches(cands(3));
    st.process_key(0x1B);
    assert!(st.buffer.is_empty());
    assert_eq!(st.commit_text, None);
}

#[test]
fn tsf_english_mode_passes_letters() {
    let mut st = TsfState::new();
    st.toggle_chinese();
    assert!(!st.chinese_mode);
    assert_eq!(st.process_key(0x41), None);
    assert!(st.buffer.is_empty());
    st.select_commit(0);
    assert_eq!(st.commit_text, None);
    st.reset_composing_ext();
    assert_eq!(st.total_pages(), 1);
}

#[test]
fn tsf_buffer_limit_and_tenth() {
    let mut st = TsfState::new();
    for _ in 0..40 {
        st.process_key(0x41);
    }
    assert_eq!(st.buffer.len(), 32);
    st.set_matches(cands(10));
    st.process_key(0x30);
    assert_eq!(st.commit_text, Some("词9".to_string()));
}

#[test]
fn tsf_gui_message_shows_or_hides() {
    let mut st = TsfState::new();
    assert_eq!(st.gui_message(5, 6), ToGui::Hide);
    st.process_key(0x57);
    st.set_matches(cands(12));
    match st.gui_message(120, 45) {
        ToGui::Show { buffer, candidates, selected, page, total_pages, x, y } => {
            assert_eq!(buffer, "w");
            assert_eq!(candidates.len(), 10);
            assert_eq!(candidates[0], "词0");
            assert_eq!(selected, 0);
            assert_eq!(page, 0);
            assert_eq!(total_pages, 2);
            assert_eq!((x, y), (120, 45));
        }
        ToGui::Hide => panic!("expected a shown window"),
    }
}

#[test]
fn tsf_gui_reply_select_and_pages() {
    let mut st = TsfState::new();
    st.process_key(0x57);
    st.set_matches(cands(25));
    assert_eq!(st.on_gui_reply(ToDll::PageUp), GuiReplyEffect::Nothing);
    assert_eq!(st.on_gui_reply(ToDll::PageDown), GuiReplyEffect::Refresh);
    assert_eq!(st.page, 1);
    assert_eq!(st.on_gui_reply(ToDll::PageDown), GuiReplyEffect::Refresh);
    assert_eq!(st.page, 2);
    assert_eq!(st.on_gui_reply(ToDll::PageDown), GuiReplyEffect::Nothing);
    assert_eq!(st.on_gui_reply(ToDll::PageUp), GuiReplyEffect::Refresh);
    assert_eq!(st.page, 1);
    // Back on the first page the window is not refreshed.
    assert_eq!(st.on_gui_reply(ToDll::PageUp), GuiReplyEffect::Nothing);
    assert_eq!(st.page, 0);
    assert_eq!(st.on_gui_reply(ToDll::Select(11)), GuiReplyEffect::Nothing);
    assert_eq!(
        st.on_gui_reply(ToDll::Select(1)),
        GuiReplyEffect::Paste("词1".to_string())
    );
    assert!(st.buffer.is_empty());
    assert_eq!(st.commit_text, None);
}

#[test]
fn tsf_caret_anchor_falls_back_to_bottom_right() {
    assert_eq!(caret_anchor(10, 20, 30, 40), (10, 20));
    assert_eq!(caret_anchor(0, 0, 30, 40), (30, 40));
    assert_eq!(caret_anchor(0, 5, 30, 40), (0, 5));
}
