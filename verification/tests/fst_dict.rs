use wbwime::builder::DictBuilder;
use wbwime::cin_parser::CinParser;
use wbwime::entry::{DictEntry, DictSource};
use wbwime::fst_dict::{edit_distance, header_words_fit, merge_dicts, FstDict, FstDictBuilder, FstDictError};
use wbwime::types::ImeError;

fn make_entry(code: &str, word: &str, freq: u32) -> DictEntry {
    DictEntry { code: code.to_string(), word: word.to_string(), freq, source: DictSource::Base }
}

#[test]
fn fst_dict_test_lookup() {
    let entries = vec![make_entry("wo", "我", 100), make_entry("wo", "喔", 50), make_entry("ai", "爱", 200)];
    let dict = FstDict::from_entries(entries, DictSource::Base);
    let results = dict.lookup("wo");
    assert_eq!(results.len(), 2);
    assert_eq!(results[0].word, "我");
    assert_eq!(results[1].word, "喔");
    let results = dict.lookup("ai");
    assert_eq!(results.len(), 1);
    assert_eq!(results[0].word, "爱");
    let results = dict.lookup("xyz");
    assert!(results.is_empty());
}

#[test]
fn fst_dict_test_prefix_lookup() {
    let entries = vec![
        make_entry("shi", "是", 100),
        make_entry("shi", "时", 80),
        make_entry("shijie", "世界", 200),
        make_entry("shi", "十", 90),
    ];
    let dict = FstDict::from_entries(entries, DictSource::Base);
    let results = dict.prefix_lookup("shi");
    assert_eq!(results.len(), 4);
    assert_eq!(results[0].word, "世界");
}

#[test]
fn fst_dict_test_fuzzy_lookup() {
    let entries = vec![make_entry("zhongguo", "中国", 1000), make_entry("zhongguo", "忠国", 10)];
    let dict = FstDict::from_entries(entries, DictSource::Base);
    let results = dict.fuzzy_lookup("zongguo", 1);
    assert_eq!(results.len(), 2);
    assert_eq!(results[0].1, 1);
    assert_eq!(results[0].0.word, "中国");
}

#[test]
fn fst_dict_test_edit_distance() {
    assert_eq!(edit_distance("", ""), 0);
    assert_eq!(edit_distance("abc", "abc"), 0);
    assert_eq!(edit_distance("abc", "ab"), 1);
    assert_eq!(edit_distance("abc", "ac"), 1);
    assert_eq!(edit_distance("abc", "def"), 3);
    assert_eq!(edit_distance("kitten", "sitting"), 3);
}

#[test]
fn test_merge() {
    let entries1 = vec![make_entry("wo", "我", 100)];
    let entries2 = vec![make_entry("wo", "我", 100), make_entry("wo", "喔", 50)];
    let mut dict1 = FstDict::from_entries(entries1, DictSource::Base);
    let dict2 = FstDict::from_entries(entries2, DictSource::User);
    dict1.merge(&dict2);
    assert_eq!(dict1.entry_count(), 2);
    assert_eq!(dict1.source(), DictSource::Base);
}

#[test]
fn fst_dict_test_builder() {
    let mut builder = FstDictBuilder::new();
    builder.add_entry(make_entry("wo", "我", 100));
    builder.add_entry(make_entry("ai", "爱", 200));
    let dict = builder.build(DictSource::Base);
    assert_eq!(dict.entry_count(), 2);
}

#[test]
fn test_roundtrip_bytes() {
    let entries = vec![make_entry("wo", "我", 100), make_entry("ai", "爱", 200), make_entry("shijie", "世界", 300)];
    let dict = FstDict::from_entries(entries, DictSource::Base);
    let bytes = dict.to_bytes();
    assert!(!bytes.is_empty());
    let dict2 = FstDict::from_bytes(bytes).unwrap();
    assert_eq!(dict2.entry_count(), 3);
    assert_eq!(dict2.code_count(), 3);
    let r1 = dict.lookup("wo");
    let r2 = dict2.lookup("wo");
    assert_eq!(r1.len(), r2.len());
    assert_eq!(r1[0].word, r2[0].word);
}

#[test]
fn fst_dict_bad_bytes_are_refused() {
    assert!(FstDict::from_bytes(vec![1, 2, 3]).is_err());
    match FstDict::from_bytes(vec![1, 2, 3]) {
        Err(ImeError::ParseError(m)) => assert!(m.starts_with("FST 加载失败: ") && m.len() > "FST 加载失败: ".len()),
        _ => panic!("expected a parse error"),
    }
    assert!(header_words_fit(&[1, 2, 3]));
    let built = FstDict::from_entries(vec![make_entry("wo", "我", 100)], DictSource::Base).to_bytes();
    assert!(header_words_fit(&built));
    assert_eq!(FstDictError::LoadError("x".to_string()).message(), "词典加载失败: x");
}

#[test]
fn fst_dict_counts_and_entries() {
    let dict = FstDict::from_entries(
        vec![make_entry("wo", "我", 100), make_entry("wo", "喔", 50), make_entry("ai", "爱", 200)],
        DictSource::User,
    );
    assert_eq!(dict.entry_count(), 3);
    assert_eq!(dict.code_count(), 2);
    assert!(!dict.is_empty());
    let all = dict.entries();
    let pairs: Vec<(String, String)> = all.iter().map(|e| (e.code.clone(), e.word.clone())).collect();
    assert_eq!(
        pairs,
        vec![
            ("ai".to_string(), "爱".to_string()),
            ("wo".to_string(), "喔".to_string()),
            ("wo".to_string(), "我".to_string())
        ]
    );
    let merged = merge_dicts(&dict, &FstDict::from_entries(vec![make_entry("ni", "你", 1)], DictSource::Base));
    assert_eq!(merged.entry_count(), 4);
    assert_eq!(merged.source(), DictSource::User);
}


#[test]
fn fst_dict_top_words() {
    let mut entries = Vec::new();
    for i in 0..12u32 {
        entries.push(make_entry(&format!("c{:02}", i), &format!("词{}", i), 100 + i % 4));
    }
    let dict = FstDict::from_entries(entries, DictSource::Base);
    let top = dict.top_words();
    assert_eq!(top.len(), 10);
    assert_eq!(top[0], ("词3".to_string(), 103));
    assert_eq!(top[1], ("词7".to_string(), 103));
    assert_eq!(top[2], ("词11".to_string(), 103));
    assert_eq!(top[3], ("词2".to_string(), 102));
    assert_eq!(top[9], ("词0".to_string(), 100));
    let small = FstDict::from_entries(vec![make_entry("a", "啊", 1)], DictSource::Base);
    assert_eq!(small.top_words(), vec![("啊".to_string(), 1)]);
}

#[test]
fn test_cs_oi_cin_fst_consistency() {
    let content = "%chardef begin\nzdl 最短路\nzdl 最大流\nmn 模拟\nkspx 快速排序\nbfs 广度优先搜索\n%chardef end\n";
    let parser = CinParser::new("resources/dicts/cs-oi.cin");
    let entries = parser.parse_str(content).ok().unwrap();
    let dict_entries: Vec<DictEntry> = entries
        .iter()
        .flat_map(|cin_entry| {
            cin_entry.words.iter().map(move |w| DictEntry {
                code: cin_entry.code.clone(),
                word: w.word.clone(),
                freq: w.freq,
                source: DictSource::Base,
            })
        })
        .collect();
    let dict = FstDict::from_entries(dict_entries, DictSource::Base);
    let bytes = dict.to_bytes();
    let dict2 = FstDict::from_bytes(bytes).ok().unwrap();
    assert_eq!(dict.entry_count(), dict2.entry_count());
    assert_eq!(dict.code_count(), dict2.code_count());
    let r1 = dict.lookup("zdl");
    let r2 = dict2.lookup("zdl");
    assert_eq!(r1.len(), r2.len());
    assert_eq!(r1.len(), 2);
}

#[test]
fn fst_dict_try_from_entries_refuses_repeated_keys() {
    let e = |code: &str, word: &str, freq: u32| DictEntry {
        code: code.into(),
        word: word.into(),
        freq,
        source: DictSource::Base,
    };
    assert!(FstDict::try_from_entries(vec![e("wo", "我", 1), e("wo", "我", 2)], DictSource::Base).is_none());
    // "a" + separator + "b\u{1}c" and "a\u{1}b" + separator + "c" make one key.
    assert!(FstDict::try_from_entries(vec![e("a", "b\u{1}c", 1), e("a\u{1}b", "c", 1)], DictSource::Base)
        .is_none());
    let d = FstDict::try_from_entries(vec![e("wo", "我", 1), e("ai", "爱", 2)], DictSource::User)
        .expect("distinct keys build");
    assert_eq!(d.entry_count(), 2);
    assert_eq!(d.code_count(), 2);
    assert_eq!(d.lookup("ai")[0].word, "爱");
}

#[test]
fn fst_dict_reload_keeps_entries() {
    let dict = FstDict::from_entries(
        vec![make_entry("wo", "我", 100), make_entry("wo", "喔", 50), make_entry("ai", "爱", 200)],
        DictSource::User,
    );
    let again = dict.reload();
    assert_eq!(again.entry_count(), 3);
    assert_eq!(again.code_count(), 2);
    assert_eq!(again.source(), DictSource::Base);
    assert_eq!(again.lookup("wo")[0].word, "我");
    assert_eq!(again.to_bytes(), dict.to_bytes());
    assert!(FstDict::from_bytes(Vec::new()).is_err());
}

#[test]
fn fst_dict_try_merge() {
    let mut dict = FstDict::from_entries(vec![make_entry("wo", "我", 100)], DictSource::Base);
    let other = FstDict::from_entries(vec![make_entry("ai", "爱", 200), make_entry("wo", "我", 1)], DictSource::Base);
    assert!(dict.try_merge(&other));
    assert_eq!(dict.entry_count(), 2);
    assert_eq!(dict.lookup("wo")[0].freq, 100);
    // Both read back as code "a" and word "b\u{1}c": merging keeps one.
    let odd = FstDict::from_entries(vec![make_entry("a\u{1}b", "c", 1)], DictSource::Base);
    let mut base = FstDict::from_entries(vec![make_entry("a", "b\u{1}c", 1)], DictSource::Base);
    assert!(base.try_merge(&odd));
    assert_eq!(base.entry_count(), 1);
    // Without removing repeats, the same entry twice has one key twice.
    assert!(wbwime::fst_dict::try_merge_dicts(&dict, &dict).is_none());
    let both = wbwime::fst_dict::try_merge_dicts(&dict, &base).expect("distinct keys");
    assert_eq!(both.entry_count(), 3);
}

#[test]
fn fst_edit_distance_laws_on_examples() {
    assert_eq!(edit_distance("中国", "中"), 1);
    assert_eq!(edit_distance("abc", "abc"), 0);
    let (a, b, c) = ("kitten", "sitten", "sitting");
    assert!(edit_distance(a, c) <= edit_distance(a, b) + edit_distance(b, c));
    assert!(edit_distance("abcd", "a") >= 3);
}
