use wbwime::candidate_window::{CandidateWindow, WindowPosition};
use wbwime::ime_host::{ImeConfig, ImeFactory, ImeHost, ImeHostError, ImeResponseType, ImeState};
use wbwime::key_mapper::KeyEvent;
use wbwime::types::InputMode;

fn make_host() -> ImeHost<()> {
    ImeHost::new(ImeConfig::with_style(()))
}

#[test]
fn test_initialize() {
    let mut host = make_host();
    host.initialize().unwrap();
    assert_eq!(host.state(), &ImeState::Idle);
}

#[test]
fn test_input_char() {
    let mut host = make_host();
    let resp = host.input_char('n').unwrap();
    assert_eq!(resp.response_type, ImeResponseType::InputChar);
    assert_eq!(host.buffer(), "n");
    assert_eq!(host.cursor(), 1);
    assert_eq!(host.state(), &ImeState::Inputting);
}

#[test]
fn test_input_char_rejects_non_alnum() {
    let mut host = make_host();
    let resp = host.input_char(' ').unwrap();
    assert_eq!(resp.response_type, ImeResponseType::Nothing);
    assert!(host.buffer().is_empty());
}

#[test]
fn test_input_char_confirm_flow() {
    let mut host = make_host();
    host.input_char('h').unwrap();
    host.input_char('i').unwrap();
    assert_eq!(host.buffer(), "hi");
    let resp = host.confirm().unwrap();
    assert_eq!(resp.response_type, ImeResponseType::Confirm);
    assert_eq!(resp.text.as_deref(), Some("hi"));
    assert!(resp.need_hide);
    assert!(host.buffer().is_empty());
    assert_eq!(host.state(), &ImeState::Idle);
    assert_eq!(host.confirmed_text(), "hi");
}

#[test]
fn test_delete_char() {
    let mut host = make_host();
    host.input_char('h').unwrap();
    host.input_char('i').unwrap();
    let resp = host.delete_char().unwrap();
    assert_eq!(resp.response_type, ImeResponseType::DeleteChar);
    assert_eq!(host.buffer(), "h");
}

#[test]
fn test_cancel() {
    let mut host = make_host();
    host.input_char('h').unwrap();
    let resp = host.cancel().unwrap();
    assert_eq!(resp.response_type, ImeResponseType::Cancel);
    assert!(host.buffer().is_empty());
    assert_eq!(host.state(), &ImeState::Idle);
}

#[test]
fn test_process_key_enter_confirms() {
    let mut host = make_host();
    host.input_char('a').unwrap();
    let enter = KeyEvent::new(13, None);
    let resp = host.process_key(enter).unwrap();
    assert_eq!(resp.response_type, ImeResponseType::Confirm);
}

#[test]
fn test_select_candidate() {
    let mut host = make_host();
    let window = CandidateWindow::new(WindowPosition::new(0, 0, 300, 200), ());
    let idx = host.add_window(window);
    host.set_active_window(idx);
    host.set_candidates(vec!["你好".to_string()]);
    let resp = host.select_candidate(0).unwrap();
    assert_eq!(resp.response_type, ImeResponseType::Confirm);
    assert_eq!(resp.text.as_deref(), Some("你好"));
}

#[test]
fn host_paging_and_selection_by_keys() {
    let mut host = make_host();
    let idx = host.add_window(CandidateWindow::new(WindowPosition::new(0, 0, 1, 1), ()));
    assert!(host.set_active_window(idx));
    let cands: Vec<String> = (0..12).map(|i| format!("c{}", i)).collect();
    assert!(host.set_candidates(cands));
    host.input_char('x').unwrap();
    let down = host.process_key(KeyEvent::new(34, None)).unwrap();
    assert_eq!(down.response_type, ImeResponseType::ShowCandidates);
    assert_eq!(down.candidates, vec!["c10".to_string(), "c11".to_string()]);
    let sel = host.process_key(KeyEvent::new(40, None)).unwrap();
    assert_eq!(sel.candidates.len(), 2);
    let conf = host.process_key(KeyEvent::new(13, None)).unwrap();
    assert_eq!(conf.text.as_deref(), Some("c11"));
    assert_eq!(host.confirmed_text(), "c11");
    let up = host.process_key(KeyEvent::new(33, None)).unwrap();
    assert_eq!(up.candidates.len(), 10);
    let none = host.process_key(KeyEvent::new(65, None)).unwrap();
    assert_eq!(none.response_type, ImeResponseType::Nothing);
}

#[test]
fn host_factory_and_mode() {
    let mut w = ImeFactory::create_wubi(());
    assert_eq!(w.config().input_mode, InputMode::Wubi);
    w.switch_mode(InputMode::Pinyin).unwrap();
    assert_eq!(w.mode(), InputMode::Pinyin);
    assert_eq!(w.config().input_mode, InputMode::Pinyin);
    let d = ImeFactory::create_default(7u8);
    assert_eq!(d.config().window_style, 7u8);
    assert_eq!(ImeHostError::StateError("s".to_string()).message(), "状态错误: s");
    let mut h = ImeFactory::create_pinyin(());
    assert!(h.cancel().unwrap().need_hide == false);
    h.input_char('a').unwrap();
    assert!(h.cancel().unwrap().need_hide);
    assert!(h.delete_char().unwrap().response_type == ImeResponseType::Nothing);
    h.input_char('b').unwrap();
    h.reset();
    assert!(!h.is_inputting());
}

#[test]
fn test_ime_host_flow() {
    let mut host: ImeHost<()> = ImeHost::new(ImeConfig::with_style(()));
    host.initialize().unwrap();
    host.input_char('w').unwrap();
    host.input_char('o').unwrap();
    assert_eq!(host.buffer(), "wo");
    assert!(host.is_inputting());
    host.confirm().unwrap();
}
