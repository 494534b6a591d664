use wbwime::key_hook::{is_chinese_layout, translate, HookDecision, HookState};

#[test]
fn translate_keys() {
    assert_eq!(translate(0x08), Some((8, None)));
    assert_eq!(translate(0x0D), Some((13, None)));
    assert_eq!(translate(0x22), Some((34, None)));
    assert_eq!(translate(0x41), Some((0x41, Some('a'))));
    assert_eq!(translate(0x5A), Some((0x5A, Some('z'))));
    assert_eq!(translate(0x35), Some((0x35, Some('5'))));
    assert_eq!(translate(0x63), Some((0x33, Some('3'))));
    assert_eq!(translate(0x10), Some((0x10, None)));
    assert_eq!(translate(0x70), None);
    assert_eq!(translate(0x5B), None);
}

#[test]
fn chinese_layouts() {
    assert!(is_chinese_layout(0x0804_0804));
    assert!(is_chinese_layout(0x0404_0404));
    assert!(is_chinese_layout(0x0000_041C));
    assert!(!is_chinese_layout(0x0409_0409));
    assert!(!is_chinese_layout(0x0411_0411));
}

#[test]
fn hook_passes_keys_in_english_layout() {
    let mut h = HookState::new();
    assert_eq!(h.key_down(0x41, false, false, false), HookDecision::PassThrough);
    assert_eq!(
        h.key_down(0x41, true, false, false),
        HookDecision::Engine { code: 0x41, ch: Some('a') }
    );
    assert_eq!(h.key_down(0x41, true, true, false), HookDecision::PassThrough);
    assert_eq!(h.key_down(0x11, true, false, false), HookDecision::PassThrough);
    assert_eq!(h.key_down(0x70, true, false, false), HookDecision::PassThrough);
}

#[test]
fn hook_shift_toggles_unless_eating() {
    let mut h = HookState::new();
    assert_eq!(h.key_down(0x10, false, false, false), HookDecision::PassThrough);
    assert!(h.chinese_mode());
    assert_eq!(
        h.key_down(0x57, false, false, false),
        HookDecision::Engine { code: 0x57, ch: Some('w') }
    );
    assert!(h.engine_done(0x57, true));
    assert!(h.is_eating());
    h.key_down(0x10, false, false, false);
    assert!(h.chinese_mode());
    assert!(!h.should_exit_idle());
    assert!(h.key_up(0x57));
    assert!(!h.is_eating());
    assert!(!h.key_up(0x57));
    h.key_down(0x10, false, false, false);
    assert!(!h.chinese_mode());
    assert!(h.should_exit_idle());
}

#[test]
fn hook_keeps_eating_while_a_key_is_down() {
    let mut h = HookState::new();
    h.key_down(0x10, false, false, false);
    h.engine_done(0x41, true);
    h.engine_done(0x41, true);
    h.key_down(0x10, false, false, false);
    // Chinese stays forced: Shift does not switch while a key is held.
    assert!(h.chinese_mode());
    assert!(!h.engine_done(0x42, false));
    assert!(!h.key_up(0x42));
    assert!(h.key_up(0x41));
    assert!(!h.key_up(0x41));
}
