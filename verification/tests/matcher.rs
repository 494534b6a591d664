use wbwime::entry::{DictEntry, DictSource};
use wbwime::fst_dict::{FstDict, FstDictBuilder};
use wbwime::matcher::{Matcher, MatcherBuilder, MatcherConfig};
use wbwime::types::{InputContext, InputMode};

fn entry(code: &str, word: &str, freq: u32) -> DictEntry {
    DictEntry { code: code.into(), word: word.into(), freq, source: DictSource::Base }
}

fn build_test_dict() -> FstDict {
    let mut builder = FstDictBuilder::new();
    let entries = vec![
        entry("wo", "我", 100),
        entry("wo", "喔", 50),
        entry("ai", "爱", 200),
        entry("ni", "你", 150),
        entry("zhongguo", "中国", 300),
        entry("zhongyu", "中雨", 80),
    ];
    builder.add_entries(entries);
    builder.build(DictSource::Base)
}

fn context(buffer: &str) -> InputContext {
    InputContext {
        buffer: buffer.to_string(),
        cursor: 0,
        mode: InputMode::Pinyin,
        selected: Vec::new(),
        session_id: 0,
    }
}

#[test]
fn test_exact_lookup() {
    let dict = build_test_dict();
    let matcher = Matcher::with_dict(MatcherConfig::default(), dict);
    let results = matcher.exact_lookup("wo");
    assert_eq!(results.len(), 2);
    assert_eq!(results[0].text, "我");
}

#[test]
fn test_exact_lookup_miss() {
    let dict = build_test_dict();
    let matcher = Matcher::with_dict(MatcherConfig::default(), dict);
    let results = matcher.exact_lookup("xyz");
    assert!(results.is_empty());
}

#[test]
fn matcher_test_prefix_lookup() {
    let dict = build_test_dict();
    let matcher = Matcher::with_dict(MatcherConfig::default(), dict);
    let results = matcher.prefix_lookup("zhong");
    assert!(!results.is_empty());
    let codes: Vec<&str> = results.iter().map(|c| c.code.as_str()).collect();
    assert!(codes.contains(&"zhongguo"));
    assert!(codes.contains(&"zhongyu"));
}

#[test]
fn matcher_test_fuzzy_lookup() {
    let dict = build_test_dict();
    let matcher = Matcher::with_dict(MatcherConfig::default(), dict);
    assert!(matcher.can_match("zongguo"));
    let results = matcher.fuzzy_lookup("zongguo");
    assert!(!results.is_empty());
}

#[test]
fn test_fuzzy_lookup_edit_distance() {
    let mut builder = FstDictBuilder::new();
    builder.add_entries(vec![entry("zdliu", "最大流", 100)]);
    let dict = builder.build(DictSource::Base);
    let matcher = Matcher::with_dict(MatcherConfig::default(), dict);
    let results = matcher.fuzzy_lookup("zdlu");
    assert!(!results.is_empty(), "缺字符编码应通过编辑距离模糊匹配到");
    assert_eq!(results[0].text, "最大流");
    assert_eq!(results[0].code, "zdliu");
}

#[test]
fn test_fuzzy_lookup_transposition_rule() {
    let mut builder = FstDictBuilder::new();
    builder.add_entries(vec![entry("qie", "切", 100)]);
    let dict = builder.build(DictSource::Base);
    let matcher = Matcher::with_dict(MatcherConfig::default(), dict);
    let results = matcher.fuzzy_lookup("qei");
    assert!(!results.is_empty(), "对调规则 ei→ie 应通过规则引擎命中");
    assert_eq!(results[0].text, "切");
}

#[test]
fn test_fuzzy_lookup_too_far_ignored() {
    let mut builder = FstDictBuilder::new();
    builder.add_entries(vec![entry("wo", "我", 100)]);
    let dict = builder.build(DictSource::Base);
    let matcher = Matcher::with_dict(MatcherConfig::default(), dict);
    let results = matcher.fuzzy_lookup("zhongguo");
    assert!(results.is_empty());
}

#[test]
fn test_do_match_dedup_by_text() {
    let mut builder = FstDictBuilder::new();
    builder.add_entries(vec![entry("zdl", "最大流", 100), entry("zdliu", "最大流", 50)]);
    let dict = builder.build(DictSource::Base);
    let mut matcher = Matcher::with_dict(MatcherConfig::default(), dict);
    let results = matcher.match_input(&context("zdl"));
    assert_eq!(results.len(), 1);
    assert_eq!(results[0].text, "最大流");
}

#[test]
fn test_match_input() {
    let dict = build_test_dict();
    let mut matcher = Matcher::with_dict(MatcherConfig::default(), dict);
    let results = matcher.match_input(&context("wo"));
    assert!(!results.is_empty());
    assert_eq!(results[0].text, "我");
}

#[test]
fn test_match_input_empty() {
    let dict = build_test_dict();
    let mut matcher = Matcher::with_dict(MatcherConfig::default(), dict);
    let results = matcher.match_input(&context(""));
    assert!(results.is_empty());
}

#[test]
fn test_cache() {
    let dict = build_test_dict();
    let mut matcher = Matcher::with_dict(MatcherConfig::default(), dict);
    let _ = matcher.match_input(&context("wo"));
    assert_eq!(matcher.cache_len(), 1);
    let _ = matcher.match_input(&context("wo"));
    assert_eq!(matcher.cache_len(), 1);
}

#[test]
fn matcher_test_builder() {
    let dict = build_test_dict();
    let matcher = MatcherBuilder::new()
        .with_dict(dict)
        .with_max_candidates(5)
        .with_cache(true, 100)
        .build();
    assert_eq!(matcher.config().max_candidates, 5);
}

#[test]
fn matcher_scores_by_kind() {
    let dict = build_test_dict();
    let matcher = Matcher::with_dict(MatcherConfig::default(), dict);
    let exact = matcher.exact_lookup("wo");
    assert_eq!(exact[0].score, 200);
    assert_eq!(exact[1].score, 150);
    assert_eq!(exact[1].text, "喔");
    let prefix = matcher.prefix_lookup("zhong");
    // zhongguo is 3 bytes longer, zhongyu 2; the higher frequency comes first.
    assert_eq!(prefix[0].code, "zhongguo");
    assert_eq!(prefix[0].score, 55);
    assert_eq!(prefix[1].score, 60);
    let same = matcher.prefix_lookup("wo");
    assert_eq!(same[0].score, 90);
    let near = matcher.fuzzy_lookup("zhongyv");
    assert_eq!(near[0].text, "中雨");
    assert_eq!(near[0].score, 40);
}

#[test]
fn matcher_answers_sorted_and_limited() {
    let dict = build_test_dict();
    let config = MatcherConfig { max_candidates: 1, ..MatcherConfig::default() };
    let mut matcher = Matcher::with_dict(config, dict);
    let results = matcher.match_input(&context("wo"));
    assert_eq!(results.len(), 1);
    assert_eq!(results[0].text, "我");
    assert_eq!(results[0].score, 200);
}

#[test]
fn matcher_cache_off_and_cleared() {
    let dict = build_test_dict();
    let mut off = MatcherBuilder::new().with_dict(dict).with_cache(false, 0).build();
    let a = off.match_input(&context("ni"));
    assert_eq!(off.cache_len(), 0);
    assert_eq!(a[0].text, "你");
    let mut on = Matcher::with_dict(MatcherConfig::default(), build_test_dict());
    let first = on.match_input(&context("ai"));
    let again = on.match_input(&context("ai"));
    assert_eq!(first, again);
    on.match_input(&context("ni"));
    assert_eq!(on.cache_len(), 2);
    on.clear_cache();
    assert_eq!(on.cache_len(), 0);
    on.load_dict(build_test_dict());
    assert_eq!(on.cache_len(), 0);
}

#[test]
fn matcher_without_dict_or_fuzzy() {
    let mut empty = Matcher::new(MatcherConfig::default());
    assert!(empty.match_input(&context("wo")).is_empty());
    assert!(empty.exact_lookup("wo").is_empty());
    let matcher = MatcherBuilder::new().with_dict(build_test_dict()).with_fuzzy(false).build();
    assert!(matcher.fuzzy_lookup("zongguo").is_empty());
    let with_rules = Matcher::with_dict(MatcherConfig::default(), build_test_dict());
    let by_rule = with_rules.fuzzy_lookup("zongguo");
    assert_eq!(by_rule.len(), 1);
    assert_eq!(by_rule[0].score, 80);
    let rules_off = MatcherBuilder::new().with_dict(build_test_dict()).with_fuzzy_rules(Vec::new()).build();
    let by_edit = rules_off.fuzzy_lookup("zongguo");
    assert_eq!(by_edit.len(), 1);
    assert_eq!(by_edit[0].text, "中国");
    assert_eq!(by_edit[0].score, 40);
}

#[test]
fn matcher_can_match_only_where_variants_can_be_made() {
    // A source that starts with a two-byte character cannot be searched for
    // one byte at a time, where it occurs.
    let rule = || vec![wbwime::fuzzy::FuzzyRule::new("ü-v".into(), "ü".into(), "v".into())];
    let matcher = MatcherBuilder::new().with_dict(build_test_dict()).with_fuzzy_rules(rule()).build();
    assert!(!matcher.can_match("lü"));
    assert!(matcher.can_match("lu"));
    let no_dict = MatcherBuilder::new().with_fuzzy_rules(rule()).build();
    assert!(no_dict.can_match("lü"));
    let fuzzy_off = MatcherBuilder::new().with_dict(build_test_dict()).with_fuzzy(false).with_fuzzy_rules(rule()).build();
    assert!(fuzzy_off.can_match("lü"));
}
