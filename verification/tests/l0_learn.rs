use wbwime::l0_learn::{L0Error, L0Learner, SuggestionType};
use wbwime::types::L0Config;

#[test]
fn l0_top_suggestions_sorted_and_split() {
    let mut learner = L0Learner::new(L0Config::default());
    for _ in 0..3 {
        learner.record_selection("ni", "你");
    }
    for _ in 0..5 {
        learner.record_selection("wo", "我");
    }
    learner.record_selection("ta", "他");
    let top = learner.get_top_suggestions(10);
    assert_eq!(
        top,
        vec![
            ("wo".to_string(), "我".to_string(), 5),
            ("ni".to_string(), "你".to_string(), 3)
        ]
    );
    let one = learner.get_top_suggestions(1);
    assert_eq!(one, vec![("wo".to_string(), "我".to_string(), 5)]);
    assert_eq!(learner.get_top_suggestions(0), vec![]);
}

#[test]
fn l0_colon_in_code_splits_at_first_colon() {
    let mut learner = L0Learner::new(L0Config { threshold: 1, snapshot_path: "x".to_string() });
    learner.record_selection("a:b", "c");
    let top = learner.get_top_suggestions(5);
    assert_eq!(top, vec![("a".to_string(), "b".to_string(), 1)]);
    // "a:b" + "c" and "a" + "b:c" share one key.
    learner.record_selection("a", "b:c");
    assert_eq!(learner.counts().len(), 1);
    assert_eq!(learner.counts()[0].1, 2);
}

#[test]
fn l0_clear_and_config() {
    let mut learner = L0Learner::new(L0Config::default());
    learner.record_selection("wo", "我");
    learner.clear();
    assert_eq!(learner.data_count(), 0);
    assert!(learner.counts().is_empty());
    assert_eq!(learner.config().threshold, 3);
    assert_eq!(L0Error::ConfigError("x".to_string()).message(), "配置错误: x");
}

#[test]
fn l0_suggestions_by_threshold() {
    let mut learner = L0Learner::new(L0Config::default());
    for _ in 0..6 {
        learner.record_selection("wo", "我");
    }
    for _ in 0..3 {
        learner.record_selection("ni", "你");
    }
    learner.record_selection("ta", "他");
    let s = learner.get_suggestions();
    assert_eq!(s.len(), 2);
    assert_eq!((s[0].code.as_str(), s[0].word.as_str(), s[0].selection_count), ("wo", "我", 6));
    assert_eq!(s[0].suggestion_type, SuggestionType::FreqBoost);
    assert_eq!((s[1].code.as_str(), s[1].word.as_str(), s[1].selection_count), ("ni", "你", 3));
    assert_eq!(s[1].suggestion_type, SuggestionType::Reorder);
}
