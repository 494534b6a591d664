use wbwime::entry::{DictEntry, DictSource};
use wbwime::fst_dict::FstDict;
use wbwime::gui_config::GuiConfig;
use wbwime::gui_engine::{GuiState, WbwIme};

fn dict() -> FstDict {
    let e = |code: &str, word: &str, freq: u32| DictEntry {
        code: code.to_string(),
        word: word.to_string(),
        freq,
        source: DictSource::Base,
    };
    FstDict::from_entries(
        vec![e("wo", "我", 100), e("wo", "喔", 50), e("w", "为", 80), e("ni", "你", 90)],
        DictSource::Base,
    )
}

struct Ui {
    ime: WbwIme<()>,
    dict: FstDict,
}

impl Ui {
    fn new() -> Ui {
        Ui { ime: WbwIme::new(&GuiConfig::default(), 10, (), ()), dict: dict() }
    }

    fn press(&mut self, code: u32, ch: Option<char>) -> GuiState {
        if let Some(q) = self.ime.process_key(code, ch) {
            let words: Vec<String> = self.dict.prefix_lookup(&q).into_iter().map(|e| e.word).collect();
            self.ime.show_candidates(words);
        }
        self.ime.snapshot(true)
    }
}

#[test]
fn test_input_letter_generates_candidates() {
    let mut ui = Ui::new();
    let state = ui.press('w' as u32, Some('w'));
    assert_eq!(state.buffer, "w");
    let state = ui.press('o' as u32, Some('o'));
    assert_eq!(state.buffer, "wo");
    assert!(!state.candidates.is_empty(), "wo has candidates");
    assert_eq!(state.candidates[0], "我");
    assert!(state.visible);
    assert_eq!(state.mode, "中");
}

#[test]
fn test_select_candidate_commits() {
    let mut ui = Ui::new();
    ui.press('w' as u32, Some('w'));
    let state = ui.press('o' as u32, Some('o'));
    assert!(!state.candidates.is_empty());
    let state = ui.press('1' as u32, Some('1'));
    assert!(!state.visible);
    assert!(state.buffer.is_empty());
    assert_eq!(state.committed, Some("我".to_string()));
    assert!(state.takes_key());
    // The committed text is reported once.
    let again = ui.ime.snapshot(false);
    assert_eq!(again.committed, None);
    assert_eq!(again.mode, "英");
}

#[test]
fn test_backspace_deletes() {
    let mut ui = Ui::new();
    ui.press('w' as u32, Some('w'));
    ui.press('o' as u32, Some('o'));
    let state = ui.press(8, None);
    assert_eq!(state.buffer, "w");
    assert!(state.candidates.contains(&"为".to_string()));
}

#[test]
fn test_enter_confirms_buffer() {
    let mut ui = Ui::new();
    ui.press('w' as u32, Some('w'));
    let state = ui.press(13, None);
    assert!(state.buffer.is_empty());
    assert!(!state.visible);
}

#[test]
fn test_esc_cancels() {
    let mut ui = Ui::new();
    ui.press('w' as u32, Some('w'));
    let state = ui.press(27, None);
    assert!(state.buffer.is_empty());
    assert!(!state.visible);
}

#[test]
fn test_non_ascii_ignored() {
    let mut ui = Ui::new();
    let state = ui.press('中' as u32, Some('中'));
    assert!(state.buffer.is_empty());
    assert!(!state.takes_key());
}

#[test]
fn space_confirms_selected_candidate() {
    let mut ui = Ui::new();
    ui.press('n' as u32, Some('n'));
    ui.press('i' as u32, Some('i'));
    let state = ui.press(32, Some(' '));
    assert_eq!(state.committed, Some("你".to_string()));
    assert!(state.buffer.is_empty());
}

#[test]
fn backspace_to_empty_hides_window() {
    let mut ui = Ui::new();
    ui.press('w' as u32, Some('w'));
    let state = ui.press(8, None);
    assert!(state.buffer.is_empty());
    assert!(!state.visible);
    assert!(state.candidates.is_empty());
}

#[test]
fn page_size_is_clamped() {
    let ime: WbwIme<()> = WbwIme::new(&GuiConfig::default(), 0, (), ());
    assert_eq!(ime.page_size(), 1);
    let ime: WbwIme<()> = WbwIme::new(&GuiConfig::default(), 25, (), ());
    assert_eq!(ime.page_size(), 10);
    assert!(!ime.is_inputting());
}

#[test]
fn digits_type_when_not_selecting() {
    let mut config = GuiConfig::default();
    config.behavior.digit_selects = false;
    let mut ime: WbwIme<()> = WbwIme::new(&config, 10, (), ());
    ime.process_key('w' as u32, Some('w'));
    ime.process_key('2' as u32, Some('2'));
    assert_eq!(ime.buffer(), "w2");
    ime.reset();
    assert_eq!(ime.buffer(), "");
}
