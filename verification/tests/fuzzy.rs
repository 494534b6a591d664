use wbwime::fuzzy::{FuzzyConfig, FuzzyMatcher, FuzzyRule, FuzzyRulePresets};

#[test]
fn fuzzy_test_edit_distance() {
    assert_eq!(FuzzyMatcher::edit_distance("", ""), 0);
    assert_eq!(FuzzyMatcher::edit_distance("abc", "abc"), 0);
    assert_eq!(FuzzyMatcher::edit_distance("abc", "ab"), 1);
    assert_eq!(FuzzyMatcher::edit_distance("abc", "def"), 3);
    assert_eq!(FuzzyMatcher::edit_distance("kitten", "sitting"), 3);
}

#[test]
fn test_generate_variants_simple() {
    let matcher = FuzzyMatcher::pinyin_default();
    let variants = matcher.generate_variants("zongguo");
    assert!(variants.contains(&"zhongguo".to_string()));
}

#[test]
fn test_generate_variants_disabled() {
    let config = FuzzyConfig {
        enabled: false,
        ..Default::default()
    };
    let matcher = FuzzyMatcher::new(config);
    let variants = matcher.generate_variants("zongguo");
    assert_eq!(variants, vec!["zongguo".to_string()]);
}

#[test]
fn test_is_match_exact() {
    let matcher = FuzzyMatcher::pinyin_default();
    assert!(matcher.is_match("wo", "wo"));
}

#[test]
fn test_is_match_fuzzy() {
    let matcher = FuzzyMatcher::pinyin_default();
    assert!(matcher.is_match("zongguo", "zhongguo"));
}

#[test]
fn test_is_match_edit_distance() {
    let config = FuzzyConfig {
        max_edit_distance: 1,
        ..Default::default()
    };
    let matcher = FuzzyMatcher::new(config);
    assert!(matcher.is_match("wo", "wwo"));
    assert!(!matcher.is_match("wo", "www"));
}

#[test]
fn test_pinyin_rules_count() {
    let rules = FuzzyRulePresets::all_rules();
    assert!(rules.len() >= 9);
}

#[test]
fn fuzzy_variants_exact_list() {
    let matcher = FuzzyMatcher::pinyin_default();
    // Every combination of z -> zh at the start and n -> l after "zo".
    let variants = matcher.generate_variants("zongguo");
    let expected: Vec<String> = vec!["zholgguo", "zhongguo", "zolgguo", "zongguo"]
        .into_iter()
        .map(|s| s.to_string())
        .collect();
    assert_eq!(variants, expected);
}

#[test]
fn fuzzy_variants_sorted_unique_with_two_targets() {
    let rules = vec![
        FuzzyRule::new("a1".into(), "a".into(), "b".into()),
        FuzzyRule::new("a2".into(), "a".into(), "c".into()),
        FuzzyRule::new("off".into(), "x".into(), "y".into()),
    ];
    let mut rules = rules;
    rules[2].enabled = false;
    let matcher = FuzzyMatcher::from_rules(rules);
    assert_eq!(matcher.rule_count(), 3);
    let variants = matcher.generate_variants("xa");
    assert_eq!(variants, vec!["xa".to_string(), "xb".to_string(), "xc".to_string()]);
    let none = matcher.generate_variants("qq");
    assert_eq!(none, vec!["qq".to_string()]);
}

#[test]
fn fuzzy_overlapping_sources_first_wins() {
    // "an" at 0 overlaps "n" at 1: only the first is used.
    let rules = vec![
        FuzzyRule::new("an".into(), "an".into(), "ang".into()),
        FuzzyRule::new("n".into(), "n".into(), "l".into()),
    ];
    let matcher = FuzzyMatcher::from_rules(rules);
    assert_eq!(matcher.generate_variants("an"), vec!["an".to_string(), "ang".to_string()]);
}

#[test]
fn fuzzy_rule_text_and_priority() {
    let r = FuzzyRule::new("z-zh".into(), "z".into(), "zh".into()).with_priority(5);
    assert_eq!(r.priority, 5);
    assert!(r.enabled);
    assert_eq!(r.text(), "z-zh: z -> zh");
    let typo = FuzzyRulePresets::typo_rules();
    assert_eq!(typo.len(), 3);
    assert_eq!(typo[2].to, "ün");
    assert_eq!(FuzzyRulePresets::pinyin_rules().len(), 9);
    assert_eq!(FuzzyRulePresets::all_rules().len(), 12);
}

#[test]
fn fuzzy_disabled_is_match_is_equality() {
    let config = FuzzyConfig {
        enabled: false,
        ..Default::default()
    };
    let matcher = FuzzyMatcher::new(config);
    assert!(matcher.is_match("wo", "wo"));
    assert!(!matcher.is_match("wo", "wwo"));
    assert!(!matcher.config().enabled);
}

fn rule(from: &str, to: &str) -> FuzzyRule {
    FuzzyRule::new(format!("{}-{}", from, to), from.to_string(), to.to_string())
}

#[test]
fn checked_variants_match_generation() {
    let matcher = FuzzyMatcher::pinyin_default();
    let checked = matcher.checked_variants("zongguo").expect("plain pinyin can be varied");
    assert_eq!(checked, matcher.generate_variants("zongguo"));
    let off = FuzzyMatcher::new(FuzzyConfig { enabled: false, ..Default::default() });
    assert_eq!(off.checked_variants("lü"), Some(vec!["lü".to_string()]));
}

#[test]
fn checked_variants_refuse_cut_characters() {
    // A source that starts with a two-byte character cannot be searched for
    // one byte at a time.
    let wide_source = FuzzyMatcher::from_rules(vec![rule("ü", "v")]);
    assert_eq!(wide_source.checked_variants("lü"), None);
    assert_eq!(wide_source.checked_variants("lu"), Some(vec!["lu".to_string()]));
    // Places are replaced from the right, so a longer target on the left
    // never moves a place still to be replaced.
    let shifting = FuzzyMatcher::from_rules(vec![rule("z", "ž"), rule("an", "ang")]);
    assert_eq!(
        shifting.checked_variants("zan"),
        Some(vec!["zan".to_string(), "zang".to_string(), "žan".to_string(), "žang".to_string()])
    );
    let fine = FuzzyMatcher::from_rules(vec![rule("z", "zh"), rule("an", "ang")]);
    let vs = fine.checked_variants("zan").expect("ASCII targets never cut");
    assert!(vs.contains(&"zhan".to_string()));
    assert!(vs.contains(&"zang".to_string()));
}

#[test]
fn generate_variants_no_source_gives_input() {
    let matcher = FuzzyMatcher::pinyin_default();
    assert_eq!(matcher.generate_variants("wo"), vec!["wo".to_string()]);
}
