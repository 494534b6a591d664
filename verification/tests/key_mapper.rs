use wbwime::key_mapper::{parse_key_code, KeyAction, KeyEvent, KeyMapper, KeyMapping, KeyPresets};

#[test]
fn test_default_mappings_contains_confirm() {
    let mapper = KeyMapper::new();
    let mappings = mapper.default_mappings_ref();
    assert!(mappings.iter().any(|m| matches!(m.to, KeyAction::Confirm)));
    assert!(mappings.iter().any(|m| matches!(m.to, KeyAction::DeleteChar)));
    assert!(mappings.iter().any(|m| matches!(m.to, KeyAction::Cancel)));
}

#[test]
fn test_process_key_maps_enter() {
    let mapper = KeyMapper::new();
    let enter = KeyEvent::new(13, None);
    match mapper.process_key(&enter) {
        Some(KeyAction::Confirm) => {}
        _ => panic!("回车应映射为 Confirm"),
    }
}

#[test]
fn test_load_and_save_config() {
    let mut mapper = KeyMapper::new();
    mapper.load_config("13=Confirm\n8=DeleteChar\na=A\n").unwrap();
    let saved = mapper.save_config().unwrap();
    assert!(saved.contains("13=Confirm"));
    assert!(saved.contains("8=DeleteChar"));
}

#[test]
fn test_load_config_invalid_line() {
    let mut mapper = KeyMapper::new();
    assert!(mapper.load_config("not-a-valid-line").is_err());
}

#[test]
fn test_pinyin_preset() {
    let preset = KeyPresets::pinyin_preset();
    assert_eq!(preset.len(), 26);
    assert!(preset[0].from.code == 'a' as u32);
    assert!(matches!(preset[0].to, KeyAction::InputChar('a')));
}

#[test]
fn key_config_saves_exact_lines() {
    let mut mapper = KeyMapper::new();
    mapper.load_config("# comment\n\n13=Confirm\r\na = A\nPageUp=SelectUp\n").unwrap();
    assert_eq!(mapper.mappings().len(), 3);
    let saved = mapper.save_config().unwrap();
    assert_eq!(saved, "13=Confirm\n97=A\n33=SelectUp");
}

#[test]
fn key_config_roundtrip() {
    let mut mapper = KeyMapper::new();
    mapper.load_config("13=Confirm\n8=DeleteChar\nx=y\n").unwrap();
    let saved = mapper.save_config().unwrap();
    let mut other = KeyMapper::new();
    other.load_config(&saved).unwrap();
    assert_eq!(other.save_config().unwrap(), saved);
}

#[test]
fn key_config_errors_keep_earlier_lines() {
    let mut mapper = KeyMapper::new();
    let err = mapper.load_config("13=Confirm\nFoo=Cancel\n8=DeleteChar\n").unwrap_err();
    assert_eq!(err.message(), "配置错误: 无法识别的按键: Foo");
    assert_eq!(mapper.mappings().len(), 1);
    let err2 = mapper.load_config("no equals here").unwrap_err();
    assert_eq!(err2.message(), "配置错误: 无效的按键配置行: no equals here");
}

#[test]
fn key_user_mapping_overrides_default() {
    let mut mapper = KeyMapper::new();
    mapper.load_config("13=Cancel").unwrap();
    let enter = KeyEvent::new(13, None);
    assert!(matches!(mapper.process_key(&enter), Some(KeyAction::Cancel)));
    assert!(mapper.remove_mapping(&enter));
    assert!(!mapper.remove_mapping(&enter));
    assert!(matches!(mapper.process_key(&enter), Some(KeyAction::Confirm)));
    assert!(mapper.process_key(&KeyEvent::new(65, None)).is_none());
    mapper.load_config("65=TriggerFuzzy").unwrap();
    mapper.clear_mappings();
    assert!(mapper.mappings().is_empty());
}

#[test]
fn key_parse_names() {
    assert_eq!(parse_key_code("Enter").unwrap(), 13);
    assert_eq!(parse_key_code("ESCAPE").unwrap(), 27);
    assert_eq!(parse_key_code("PageDown").unwrap(), 34);
    assert_eq!(parse_key_code("z").unwrap(), 'z' as u32);
    assert_eq!(parse_key_code("120").unwrap(), 120);
    assert!(parse_key_code("F13").is_err());
}

#[test]
fn key_event_text_and_modifiers() {
    let e = KeyEvent::new(65, Some('a')).with_modifiers(true, true, false, false);
    assert_eq!(e.text(), "Ctrl+Shift+a");
    assert_eq!(e.modifiers(), (true, true, false, false));
    let k = KeyEvent::new(112, None).with_modifiers(false, false, true, true);
    assert_eq!(k.text(), "Alt+Meta+Key(112)");
    assert!(KeyEvent::new(16, None).is_modifier_only());
    assert!(!KeyEvent::new(65, None).is_modifier_only());
}

#[test]
fn key_presets_contents() {
    let wubi = KeyPresets::wubi_preset();
    assert_eq!(wubi.len(), 26);
    assert_eq!(wubi[25].description, "五笔字母 z");
    let en = KeyPresets::english_preset();
    assert_eq!(en.len(), 27);
    assert!(matches!(en[26].to, KeyAction::InputChar(' ')));
    assert_eq!(en[26].from.code, 32);
}

#[test]
fn key_presets_carry_letter_keys() {
    let p = KeyPresets::pinyin_preset();
    assert_eq!(p.len(), 26);
    for (i, m) in p.iter().enumerate() {
        let c = (b'a' + i as u8) as char;
        assert_eq!(m.from.code, c as u32);
        assert_eq!(m.from.char, Some(c));
        assert!(matches!(m.to, KeyAction::InputChar(x) if x == c));
        assert!(m.enabled);
    }
    let e = KeyPresets::english_preset();
    assert_eq!(e[26].from.char, Some(' '));
}

#[test]
fn key_find_mapping_takes_first_enabled_user_mapping() {
    let mut mapper = KeyMapper::new();
    let mut off = KeyPresets::pinyin_preset().remove(0);
    off.enabled = false;
    off.description = "off".to_string();
    mapper.add_mapping(off);
    let mut first = KeyPresets::pinyin_preset().remove(0);
    first.description = "first".to_string();
    mapper.add_mapping(first);
    let mut second = KeyPresets::pinyin_preset().remove(0);
    second.description = "second".to_string();
    mapper.add_mapping(second);
    let found = mapper.find_mapping(&KeyEvent::new(97, Some('a'))).expect("mapped");
    assert_eq!(found.description, "first");
    let enter = mapper.find_mapping(&KeyEvent::new(13, None)).expect("built in");
    assert!(matches!(enter.to, KeyAction::Confirm));
}

#[test]
fn key_remove_mapping_keeps_others_as_they_were() {
    let mut mapper = KeyMapper::new();
    let mut shifted = KeyEvent::new(65, Some('A'));
    shifted.shift = true;
    shifted.timestamp = 42;
    mapper.add_mapping(KeyMapping {
        from: KeyEvent::new(13, None),
        to: KeyAction::Cancel,
        enabled: false,
        description: "off".to_string(),
    });
    mapper.add_mapping(KeyMapping {
        from: shifted,
        to: KeyAction::TriggerFuzzy,
        enabled: true,
        description: "fuzzy".to_string(),
    });
    mapper.add_mapping(KeyMapping {
        from: KeyEvent::new(13, Some('x')),
        to: KeyAction::Confirm,
        enabled: true,
        description: "on".to_string(),
    });
    assert!(mapper.remove_mapping(&KeyEvent::new(13, None)));
    let kept = mapper.mappings();
    assert_eq!(kept.len(), 1);
    assert_eq!(kept[0].from.code, 65);
    assert_eq!(kept[0].from.char, Some('A'));
    assert!(kept[0].from.shift);
    assert_eq!(kept[0].from.timestamp, 42);
    assert_eq!(kept[0].description, "fuzzy");
    assert_eq!(mapper.default_mappings_ref().len(), 7);
    assert!(!mapper.remove_mapping(&KeyEvent::new(13, None)));
}
