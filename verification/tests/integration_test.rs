use wbwime::builder::DictBuilder;
use wbwime::cin_parser::CinParser;
use wbwime::context::ContextManager;
use wbwime::entry::{DictEntry, DictSource};
use wbwime::error::{CoreError, ErrorRecovery, RecoveryStrategy};
use wbwime::fst_dict::FstDict;
use wbwime::fuzzy::FuzzyMatcher;
use wbwime::gui_config::GuiConfig;
use wbwime::gui_engine::WbwIme;
use wbwime::key_mapper::{KeyAction, KeyEvent, KeyMapper};
use wbwime::l0_learn::L0Learner;
use wbwime::ngram_table::NgramTableBuilder;
use wbwime::session::SessionManager;
use wbwime::types::{InputMode, L0Config};

fn entry(code: &str, word: &str, freq: u32) -> DictEntry {
    DictEntry { code: code.to_string(), word: word.to_string(), freq, source: DictSource::Base }
}

fn dict() -> FstDict {
    FstDict::from_entries(
        vec![
            entry("wo", "我", 100),
            entry("wo", "喔", 50),
            entry("women", "我们", 80),
            entry("zhong", "中", 90),
            entry("zong", "总", 70),
            entry("ni", "你", 95),
        ],
        DictSource::Base,
    )
}

#[test]
fn integration_test_test_pinyin_match() {
    let d = dict();
    let words: Vec<String> = d.lookup("wo").into_iter().map(|e| e.word).collect();
    assert_eq!(words, vec!["我".to_string(), "喔".to_string()]);
    let prefix: Vec<String> = d.prefix_lookup("wo").into_iter().map(|e| e.word).collect();
    assert!(prefix.contains(&"我们".to_string()));
    assert!(d.lookup("xyz").is_empty());
}

#[test]
fn integration_test_test_fuzzy_match() {
    let m = FuzzyMatcher::pinyin_default();
    let variants = m.generate_variants("zong");
    assert!(variants.contains(&"zong".to_string()));
    assert!(variants.contains(&"zhong".to_string()));
    let d = dict();
    let near: Vec<(String, usize)> =
        d.fuzzy_lookup("zhong", 1).into_iter().map(|(e, dist)| (e.word, dist)).collect();
    assert!(near.contains(&("中".to_string(), 0)));
    assert!(near.contains(&("总".to_string(), 1)));
}

#[test]
fn integration_test_test_candidate_ranking() {
    // Learned choices are suggested most chosen first.
    let mut l = L0Learner::new(L0Config::default());
    for _ in 0..3 {
        l.record_selection("wo", "我");
    }
    for _ in 0..4 {
        l.record_selection("wo", "喔");
    }
    l.record_selection("wo", "窝");
    let top = l.get_top_suggestions(3);
    assert_eq!(top.len(), 2);
    assert_eq!(top[0], ("wo".to_string(), "喔".to_string(), 4));
    assert_eq!(top[1], ("wo".to_string(), "我".to_string(), 3));
}

#[test]
fn integration_test_test_full_input_flow() {
    let d = dict();
    let mut ime: WbwIme<()> = WbwIme::new(&GuiConfig::default(), 10, (), ());
    for c in ['n', 'i'] {
        if let Some(q) = ime.process_key(c as u32, Some(c)) {
            let words: Vec<String> = d.prefix_lookup(&q).into_iter().map(|e| e.word).collect();
            ime.show_candidates(words);
        }
    }
    let state = ime.snapshot(true);
    assert_eq!(state.buffer, "ni");
    assert_eq!(state.candidates, vec!["你".to_string()]);
    assert!(state.visible);
    ime.process_key('1' as u32, Some('1'));
    let state = ime.snapshot(true);
    assert_eq!(state.committed, Some("你".to_string()));
    assert!(state.buffer.is_empty());
    assert!(!state.visible);
}

#[test]
fn integration_test_test_config_loading() {
    let mut km = KeyMapper::new();
    let config = "# keys\n8=DeleteChar\n13=Confirm\n27=Cancel\n";
    assert!(km.load_config(config).is_ok());
    assert_eq!(km.mappings().len(), 3);
    let saved = km.save_config().unwrap();
    assert_eq!(saved, "8=DeleteChar\n13=Confirm\n27=Cancel");
    let mut again = KeyMapper::new();
    assert!(again.load_config(&saved).is_ok());
    assert_eq!(again.mappings().len(), 3);
    assert!(matches!(again.mappings()[0].to, KeyAction::DeleteChar));
    let gui = GuiConfig::default();
    assert_eq!(gui.page_size, 10);
}

#[test]
fn test_performance_benchmark() {
    let mut entries = Vec::new();
    for i in 0..2000u32 {
        entries.push(entry(&format!("c{:04}", i), &format!("词{}", i), i));
    }
    let d = FstDict::from_entries(entries, DictSource::Base);
    assert_eq!(d.entry_count(), 2000);
    let mut found = 0;
    for i in 0..2000u32 {
        found += d.lookup(&format!("c{:04}", i)).len();
    }
    assert_eq!(found, 2000);
    assert_eq!(d.prefix_lookup("c19").len(), 100);
}

#[test]
fn integration_test_test_cin_parsing() {
    let test_cin = "wo 我\nwo 喔\nni 你\nhao 好\nshi 是\nzhongguo 中国\nzhonguo 终于\nni 你好\n";
    let parser = CinParser::new("_");
    let entries = parser.parse_str(test_cin).ok().unwrap();
    assert!(!entries.is_empty());
    let wo = entries.iter().find(|e| e.code == "wo").expect("wo 编码存在");
    assert_eq!(wo.words.len(), 2);
}

#[test]
fn integration_test_test_input_context() {
    let mut ctx = ContextManager::new(1);
    ctx.push_char('w');
    ctx.push_char('o');
    assert_eq!(ctx.buffer(), "wo");
    assert!(ctx.pop_char().is_some());
    assert_eq!(ctx.buffer(), "w");
    ctx.set_mode(InputMode::Pinyin);
    assert_eq!(ctx.mode(), InputMode::Pinyin);
}

#[test]
fn integration_test_test_key_mapping() {
    let mapper = KeyMapper::new();
    let action = mapper.process_key(&KeyEvent::new(13, None));
    assert!(matches!(action, Some(KeyAction::Confirm)));
    let backspace = mapper.process_key(&KeyEvent::new(8, None));
    assert!(matches!(backspace, Some(KeyAction::DeleteChar)));
}

#[test]
fn integration_test_test_error_handling() {
    let err = CoreError::ConfigError("测试错误".to_string());
    let abort: Result<i32, _> = ErrorRecovery::try_recover(&err, RecoveryStrategy::Abort, || Ok(0));
    assert!(abort.is_err());
    let fallback: Result<i32, _> =
        ErrorRecovery::try_recover(&err, RecoveryStrategy::Fallback, || Ok(42));
    assert_eq!(fallback.unwrap(), 42);
}

#[test]
fn integration_test_test_l0_learning() {
    let config = L0Config::default();
    let mut learner = L0Learner::new(config);
    learner.record_selection("wo", "我");
    learner.record_selection("wo", "我");
    assert!(!learner.should_learn("wo", "我"));
    learner.record_selection("wo", "我");
    assert!(learner.should_learn("wo", "我"));
    assert_eq!(learner.data_count(), 3);
}

#[test]
fn integration_test_test_ngram_scoring() {
    let mut builder = NgramTableBuilder::new(2);
    builder.from_sentences(&[
        vec!["我".to_string(), "是".to_string(), "中国".to_string()],
        vec!["我".to_string(), "爱".to_string(), "你".to_string()],
    ]);
    let table = builder.build();
    assert_eq!(table.context_count(&["我"]), 2);
    assert_eq!(table.count(&["我"], "是"), 1);
}

#[test]
fn integration_test_test_dict_load() {
    let test_cin = "wo 我\nwo 喔\nni 你\nhao 好\nshi 是\nzhongguo 中国\nzhonguo 终于\nni 你好\n";
    let parser = CinParser::new("_");
    let cin = parser.parse_str(test_cin).ok().unwrap();
    let mut builder = DictBuilder::new();
    for c in &cin {
        for w in &c.words {
            builder.add_entry(entry(&c.code, &w.word, w.freq));
        }
    }
    builder.deduplicate();
    builder.sort();
    let dict = builder.build_fst().unwrap();
    assert!(dict.entry_count() > 0);
    assert_eq!(dict.lookup("wo").len(), 2);
    assert_eq!(dict.lookup("ni").len(), 2);
}

#[test]
fn integration_test_test_session_management() {
    let mut manager = SessionManager::new();
    let id = manager.create_session();
    assert!(manager.get_session(id).is_some());
    assert_eq!(manager.active_count(), 1);
    assert!(manager.close_session(id));
    assert_eq!(manager.active_count(), 0);
}
