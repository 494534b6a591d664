use wbwime::ipc::{encode_frame, frame_len, FrameError, ToDll, ToGui, MAX_FRAME_LEN, PORT, TIMEOUT_MS};

#[test]
fn frame_layout_is_length_then_payload() {
    let f = encode_frame(b"{\"PageUp\":null}");
    assert_eq!(&f[..4], &[15, 0, 0, 0]);
    assert_eq!(&f[4..], b"{\"PageUp\":null}");
    let empty = encode_frame(b"");
    assert_eq!(empty, vec![0, 0, 0, 0]);
}

#[test]
fn frame_header_roundtrip() {
    let payload = vec![7u8; 300];
    let f = encode_frame(&payload);
    assert_eq!(&f[..4], &[44, 1, 0, 0]);
    let header = [f[0], f[1], f[2], f[3]];
    assert_eq!(frame_len(header), Ok(300));
    assert_eq!(&f[4..], &payload[..]);
}

#[test]
fn frame_len_limits() {
    assert_eq!(frame_len([0, 0, 0, 4]), Ok(67108864));
    assert_eq!(frame_len([1, 0, 0, 4]), Err(FrameError::TooLarge(67108865)));
    assert_eq!(frame_len([255, 255, 255, 255]), Err(FrameError::TooLarge(u32::MAX)));
    assert_eq!(
        FrameError::TooLarge(67108865).message(),
        "frame too large: 67108865"
    );
    assert_eq!(MAX_FRAME_LEN, 64 * 1024 * 1024);
}

#[test]
fn protocol_constants_and_messages() {
    assert_eq!(PORT, 45123);
    assert_eq!(TIMEOUT_MS, 3000);
    let show = ToGui::Show {
        buffer: "wo".into(),
        candidates: vec!["我".into(), "喔".into()],
        selected: 0,
        page: 0,
        total_pages: 1,
        x: 120,
        y: 45,
    };
    assert_eq!(show.clone(), show);
    assert_ne!(show, ToGui::Hide);
    assert_ne!(ToDll::Select(2), ToDll::PageUp);
}
