use wbwime::pinyin::{PinyinError, PinyinString, PinyinSyllable, PinyinValidator};

#[test]
fn pinyin_syllable_full_and_plain_string() {
    let s = PinyinSyllable::new(Some("zh".to_string()), "ong".to_string(), 1);
    assert_eq!(s.without_tone(), "zhong");
    assert_eq!(s.text(), "zhong");
    let a = PinyinSyllable::new(None, "an".to_string(), 4);
    assert_eq!(a.full, "an");
    let mut p = PinyinString::new("zhongan".to_string());
    assert_eq!(p.syllable_count(), 0);
    assert!(p.first_syllable().is_none());
    assert!(p.is_valid());
    p.syllables.push(s);
    p.syllables.push(a);
    assert_eq!(p.to_plain_string(), "zhongan");
    assert_eq!(p.first_syllable().unwrap().full, "zhong");
    assert_eq!(p.last_syllable().unwrap().full, "an");
}

#[test]
fn pinyin_tables() {
    assert!(PinyinValidator::is_valid_initial("zh"));
    assert!(PinyinValidator::is_valid_initial("w"));
    assert!(!PinyinValidator::is_valid_initial("v"));
    assert!(PinyinValidator::is_valid_final("ün"));
    assert!(PinyinValidator::is_valid_final("iong"));
    assert!(!PinyinValidator::is_valid_final("iu"));
    assert_eq!(PinyinError::InvalidPinyin("x".to_string()).message(), "无效拼音: x");
}
