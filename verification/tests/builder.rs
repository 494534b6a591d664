use wbwime::builder::{BuilderError, DictBuilder, DictValidator};
use wbwime::entry::{DictBuilderConfig, DictEntry, DictSource};

fn make_entry(code: &str, word: &str, freq: u32) -> DictEntry {
    DictEntry { code: code.to_string(), word: word.to_string(), freq, source: DictSource::Base }
}

#[test]
fn builder_dedup_sort() {
    let mut b = DictBuilder::new();
    b.add_entries(vec![
        make_entry("wo", "喔", 10),
        make_entry("ai", "爱", 5),
        make_entry("wo", "我", 100),
        make_entry("wo", "喔", 99),
        make_entry("ai", "哎", 5),
    ]);
    assert_eq!(b.entry_count(), 5);
    b.deduplicate();
    assert_eq!(b.entry_count(), 4);
    b.sort();
    let got: Vec<(String, String, u32)> =
        b.entries().iter().map(|e| (e.code.clone(), e.word.clone(), e.freq)).collect();
    assert_eq!(
        got,
        vec![
            ("ai".to_string(), "爱".to_string(), 5),
            ("ai".to_string(), "哎".to_string(), 5),
            ("wo".to_string(), "我".to_string(), 100),
            ("wo".to_string(), "喔".to_string(), 10),
        ]
    );
    b.clear();
    assert_eq!(b.entry_count(), 0);
}

#[test]
fn builder_min_freq_and_no_dedup() {
    let cfg = DictBuilderConfig { sort_entries: false, deduplicate: false, min_freq: 10, max_word_len: 32 };
    let mut b = DictBuilder::with_config(cfg);
    b.add_entry(make_entry("a", "x", 9));
    b.add_entry(make_entry("a", "y", 10));
    b.add_entry(make_entry("a", "y", 10));
    b.deduplicate();
    b.sort();
    assert_eq!(b.entry_count(), 2);
    assert_eq!(b.config().min_freq, 10);
}

#[test]
fn validator_messages() {
    assert!(DictValidator::validate_entry(&make_entry("a", "b", 1)));
    assert!(!DictValidator::validate_entry(&make_entry("", "b", 1)));
    let errs = DictValidator::validate_entries(&[make_entry("a", "b", 1), make_entry("c", "", 1)]);
    assert_eq!(errs, vec![(1, "无效词条: code=c, word=".to_string())]);
    assert_eq!(BuilderError::BuildError("x".to_string()).message(), "构建失败: x");
}

#[test]
fn builder_dedup_twice_and_sort_keeps_all() {
    let mut b = DictBuilder::new();
    b.add_entries(vec![
        make_entry("b", "x", 1),
        make_entry("a", "y", 2),
        make_entry("b", "x", 3),
        make_entry("a", "z", 2),
    ]);
    b.deduplicate();
    let once: Vec<(String, String, u32)> =
        b.entries().iter().map(|e| (e.code.clone(), e.word.clone(), e.freq)).collect();
    b.deduplicate();
    let twice: Vec<(String, String, u32)> =
        b.entries().iter().map(|e| (e.code.clone(), e.word.clone(), e.freq)).collect();
    assert_eq!(once, twice);
    assert_eq!(once.len(), 3);
    b.sort();
    let mut sorted: Vec<(String, String, u32)> =
        b.entries().iter().map(|e| (e.code.clone(), e.word.clone(), e.freq)).collect();
    assert_eq!(sorted[0].0, "a");
    let mut before = once.clone();
    before.sort();
    sorted.sort();
    assert_eq!(before, sorted);
}

#[test]
fn validator_finds_nothing_iff_all_valid() {
    let good = [make_entry("a", "b", 1), make_entry("c", "d", 0)];
    assert!(DictValidator::validate_entries(&good).is_empty());
    assert!(good.iter().all(DictValidator::validate_entry));
    let bad = [make_entry("a", "b", 1), make_entry("", "", 0)];
    assert!(!DictValidator::validate_entries(&bad).is_empty());
    assert!(!bad.iter().all(DictValidator::validate_entry));
}
