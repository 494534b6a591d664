use wbwime::fbterm::{decode_header, msg_type_code, FbtermState, HeaderError, MsgType};

#[test]
fn fbterm_keys() {
    let mut st = FbtermState::new();
    assert_eq!(st.process_key(&[]), (None, None));
    assert_eq!(st.process_key(b"W"), (None, Some("w".to_string())));
    st.set_candidates(vec!["我".to_string(), "喔".to_string()]);
    assert_eq!(st.process_key(b"2"), (Some("喔".to_string()), None));
    assert_eq!(st.buffer(), "");
    st.process_key(b"n");
    st.set_candidates(vec!["你".to_string()]);
    assert_eq!(st.process_key(&[0x7f]), (None, None));
    assert!(st.candidates().is_empty());
    st.process_key(b"n");
    st.set_candidates(vec!["你".to_string()]);
    assert_eq!(st.process_key(b"\r"), (Some("你".to_string()), None));
    st.process_key(b"a");
    st.set_candidates(vec!["啊".to_string()]);
    assert_eq!(st.process_key(b"0"), (None, None));
    assert_eq!(st.process_key(b" "), (Some("啊".to_string()), None));
    st.process_key(b"a");
    assert_eq!(st.process_key(&[0x1b]), (None, None));
    assert_eq!(st.buffer(), "");
    assert_eq!(st.process_key(b"!"), (None, None));
}

#[test]
fn fbterm_state_flags() {
    let mut st = FbtermState::new();
    assert!(!st.is_active());
    st.activate();
    assert!(st.is_active());
    st.process_key(b"x");
    st.deactivate();
    assert!(!st.is_active());
    assert_eq!(st.buffer(), "");
    st.set_cursor(3, 4);
    assert_eq!(st.cursor(), (3, 4));
}

#[test]
fn fbterm_headers() {
    assert_eq!(decode_header(5, 3), Ok((MsgType::SendKey, 3)));
    assert_eq!(decode_header(0, 3), Err(HeaderError::UnknownType));
    assert_eq!(decode_header(14, 3), Err(HeaderError::UnknownType));
    assert_eq!(decode_header(6, 2_000_000), Err(HeaderError::PayloadTooLarge(2_000_000)));
    assert_eq!(decode_header(13, 1_048_576), Ok((MsgType::AckHideUI, 1_048_576)));
    assert_eq!(msg_type_code(MsgType::HideUI), 11);
}

#[test]
fn fbterm_message_steps() {
    let mut st = FbtermState::new();
    // Keys are ignored while input is off.
    let r = st.on_message(MsgType::SendKey, b"w", None);
    assert!(!r.stop && !r.set_wins && r.commit.is_none() && r.query.is_none());
    assert_eq!(st.buffer(), "");
    let r = st.on_message(MsgType::Active, &[], None);
    assert!(st.is_active() && !r.set_wins);
    let r = st.on_message(MsgType::SendKey, b"w", None);
    assert!(r.set_wins);
    assert_eq!(r.query, Some("w".to_string()));
    st.set_candidates(vec!["我".to_string()]);
    let r = st.on_message(MsgType::SendKey, b" ", None);
    assert_eq!(r.commit, Some("我".to_string()));
    // A cursor position needs eight bytes.
    st.on_message(MsgType::CursorPosition, &[0; 4], Some((7, 8)));
    assert_eq!(st.cursor(), (0, 0));
    st.on_message(MsgType::CursorPosition, &[0; 8], Some((7, 8)));
    assert_eq!(st.cursor(), (7, 8));
    let r = st.on_message(MsgType::HideUI, &[], None);
    assert!(r.set_wins && r.ack_hide && !r.stop);
    st.on_message(MsgType::SendKey, b"n", None);
    let r = st.on_message(MsgType::Deactive, &[], None);
    assert!(r.set_wins && !st.is_active());
    assert_eq!(st.buffer(), "");
    let r = st.on_message(MsgType::FbTermInfo, &[0; 12], None);
    assert!(!r.stop && !r.set_wins && !r.ack_hide);
    assert!(st.on_message(MsgType::Disconnect, &[], None).stop);
}
