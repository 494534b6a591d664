use wbwime::cin_parser::{merge_entries, CinParser};

#[test]
fn test_parse_basic() {
    let content = "% 注释行\nwo 我\nai 爱\nni 你\n";
    let parser = CinParser::new("_");
    let entries = parser.parse_str(content).ok().unwrap();
    assert_eq!(entries.len(), 3);
    assert_eq!(entries[0].code, "ai");
    assert_eq!(entries[0].words[0].word, "爱");
}

#[test]
fn test_parse_with_freq() {
    let content = "wo 我 1000\nai 爱 800\n";
    let parser = CinParser::new("_");
    let entries = parser.parse_str(content).ok().unwrap();
    assert_eq!(entries.len(), 2);
    assert_eq!(entries[0].words[0].freq, 800);
}

#[test]
fn test_merge_entries() {
    let content1 = "wo 我\nwo 喔\n";
    let content2 = "wo 涡\nai 爱\n";
    let parser = CinParser::new("_");
    let mut entries = parser.parse_str(content1).ok().unwrap();
    entries.extend(parser.parse_str(content2).ok().unwrap());
    let merged = merge_entries(entries);
    assert_eq!(merged.len(), 2);
    let wo_entry = merged.iter().find(|e| e.code == "wo").unwrap();
    assert_eq!(wo_entry.words.len(), 3);
}

#[test]
fn test_skip_comments() {
    let content = "% 注释\nwo 我\n";
    let parser = CinParser::new("_");
    let entries = parser.parse_str(content).ok().unwrap();
    assert_eq!(entries.len(), 1);
}

#[test]
fn test_invalid_line() {
    let content = "wo\n";
    let parser = CinParser::new("_");
    let result = parser.parse_str(content);
    assert!(result.is_err());
}

#[test]
fn test_parse_cin_with_keyname_section() {
    let content = "%gen_inp\n%ename Test\n%keyname begin\na a\nb b\n%keyname end\n%chardef begin\nmn 模拟\nmh 枚举\nbl 暴力\n%chardef end\n";
    let parser = CinParser::new("_");
    let entries = parser.parse_str(content).ok().unwrap();
    assert_eq!(entries.len(), 3);
    assert_eq!(entries[0].code, "bl");
    assert_eq!(entries[0].words[0].word, "暴力");
    assert_eq!(entries[1].code, "mh");
    assert_eq!(entries[1].words[0].word, "枚举");
    assert_eq!(entries[2].code, "mn");
    assert_eq!(entries[2].words[0].word, "模拟");
}

#[test]
fn test_parse_cin_multi_word_entries() {
    let content = "bcj 并查集\nbcj Disjoint Set Union\nbcj DSU\n";
    let parser = CinParser::new("_");
    let entries = parser.parse_str(content).ok().unwrap();
    assert_eq!(entries.len(), 1);
    assert_eq!(entries[0].code, "bcj");
    assert_eq!(entries[0].words.len(), 3);
}

#[test]
fn test_parse_word_with_spaces() {
    let content = "zdl Floyd 算法\nzdl Dijkstra 算法\nzdl SPFA\n";
    let parser = CinParser::new("_");
    let entries = parser.parse_str(content).ok().unwrap();
    assert_eq!(entries.len(), 1);
    assert_eq!(entries[0].code, "zdl");
    assert_eq!(entries[0].words.len(), 3);
    let floyd = entries[0].words.iter().find(|w| w.word == "Floyd 算法");
    assert!(floyd.is_some(), "应保留完整词 'Floyd 算法'");
    let spfa = entries[0].words.iter().find(|w| w.word == "SPFA");
    assert!(spfa.is_some(), "应保留单词 'SPFA'");
}

#[test]
fn test_parse_word_with_spaces_and_freq() {
    let content = "zdl Floyd 算法 5\nwo 我 1000\n";
    let parser = CinParser::new("_");
    let entries = parser.parse_str(content).ok().unwrap();
    let zdl = entries.iter().find(|e| e.code == "zdl").unwrap();
    assert_eq!(zdl.words[0].word, "Floyd 算法");
    assert_eq!(zdl.words[0].freq, 5);
    let wo = entries.iter().find(|e| e.code == "wo").unwrap();
    assert_eq!(wo.words[0].word, "我");
    assert_eq!(wo.words[0].freq, 1000);
}

#[test]
fn test_parse_freq_placeholder_rules() {
    let content = "co top 10\nco top 10 _\nco top 10 _ _\n";
    let parser = CinParser::new("_");
    let entries = parser.parse_str(content).ok().unwrap();
    assert_eq!(entries.len(), 1);
    let e = &entries[0];
    assert_eq!(e.code, "co");
    assert_eq!(e.words.len(), 3);
    assert_eq!(e.words[0].word, "top");
    assert_eq!(e.words[0].freq, 10);
    assert_eq!(e.words[1].word, "top 10");
    assert_eq!(e.words[1].freq, 0);
    assert_eq!(e.words[2].word, "top 10 _");
    assert_eq!(e.words[2].freq, 0);
}

#[test]
fn test_parse_cin_abbreviation_codes() {
    let content = "kspx 快速排序\nmbpx 冒泡排序\ncrpx 插入排序\n";
    let parser = CinParser::new("_");
    let entries = parser.parse_str(content).ok().unwrap();
    assert_eq!(entries.len(), 3);
    let codes: Vec<&str> = entries.iter().map(|e| e.code.as_str()).collect();
    assert!(codes.contains(&"kspx"));
    assert!(codes.contains(&"mbpx"));
}

#[test]
fn test_parse_fuzzy_section() {
    let content = "%fuzzy begin\nz-zh z zh\nc-ch c ch\ns-sh s sh\nn-l n l\n%fuzzy end\nwo 我\n";
    let parser = CinParser::new("_");
    let result = parser.parse_str_full(content).ok().unwrap();
    assert_eq!(result.entries.len(), 1);
    assert_eq!(result.fuzzy_rules.len(), 4);
    assert_eq!(result.fuzzy_rules[0].name, "z-zh");
    assert_eq!(result.fuzzy_rules[0].from, "z");
    assert_eq!(result.fuzzy_rules[0].to, "zh");
}

#[test]
fn test_parse_fuzzy_section_with_comments() {
    let content = "%fuzzy begin\n% 这是注释\nz-zh z zh\n% 另一行注释\n%fuzzy end\n";
    let parser = CinParser::new("_");
    let result = parser.parse_str_full(content).ok().unwrap();
    assert_eq!(result.entries.len(), 0);
    assert_eq!(result.fuzzy_rules.len(), 1);
}

#[test]
fn test_parse_empty_fuzzy_section() {
    let content = "%fuzzy begin\n%fuzzy end\nwo 我\n";
    let parser = CinParser::new("_");
    let result = parser.parse_str_full(content).ok().unwrap();
    assert_eq!(result.entries.len(), 1);
    assert_eq!(result.fuzzy_rules.len(), 0);
}

#[test]
fn test_parse_error_messages() {
    let parser = CinParser::new("_");
    match parser.parse_str("wo 我\nwo\n") {
        Err(e) => assert_eq!(e.message(), "码表解析错误: 第2行格式错误: 需要至少'编码 汉字'两个字段"),
        Ok(_) => panic!("expected an error"),
    }
    let short = CinParser::new("_").with_max_code_len(2);
    match short.parse_str("abc 词\n") {
        Err(e) => assert_eq!(e.message(), "码表解析错误: 第1行编码超长: 'abc' 长度3超过限制2"),
        Ok(_) => panic!("expected an error"),
    }
}

#[test]
fn test_parse_crlf_and_unicode_spaces() {
    let parser = CinParser::new("_");
    let entries = parser.parse_str("wo\u{3000}我 +7\r\nni 你\r\n").ok().unwrap();
    assert_eq!(entries.len(), 2);
    assert_eq!(entries[0].code, "ni");
    assert_eq!(entries[1].words[0].word, "我");
    assert_eq!(entries[1].words[0].freq, 7);
}

#[test]
fn test_parse_cs_oi_cin_file() {
    // A code table of the same shape as the competition-terms table:
    // abbreviations of two to four letters, one word each.
    let mut content = String::from("%gen_inp\n%ename cs-oi\n%chardef begin\n");
    let letters = ["a", "b", "c", "d", "e", "f", "g", "h", "j", "k", "l", "m"];
    for x in letters.iter() {
        for y in letters.iter() {
            content.push_str(&format!("{}{}z 术语{}{}\n", x, y, x, y));
        }
    }
    content.push_str("mn 模拟\nkspx 快速排序\n%chardef end\n");
    let parser = CinParser::new("resources/dicts/cs-oi.cin");
    let entries = parser.parse_str(&content).ok().unwrap();
    assert!(entries.len() > 100, "the table holds many entries");
    let mn_entry = entries.iter().find(|e| e.code == "mn");
    assert!(mn_entry.is_some(), "it holds 'mn 模拟'");
    assert_eq!(mn_entry.unwrap().words[0].word, "模拟");
}

#[test]
fn cin_validate_str_reports_first_bad_line() {
    let parser = CinParser::new("t.cin");
    assert!(parser.validate_str("% comment\n\nwo 我\nai 爱 5\n").is_ok());
    match parser.validate_str("wo 我\n%x\nni\nta\n") {
        Err(e) => assert_eq!(e.message(), "码表解析错误: 第3行格式错误: 需要至少'编码 汉字'两个字段"),
        Ok(_) => panic!("line 3 has one field"),
    }
}

#[test]
fn cin_code_length_counts_characters() {
    let parser = CinParser::new("t.cin");
    // Eleven characters, 33 bytes: within the default limit of 32 characters.
    let code = "中".repeat(11);
    let entries = parser.parse_str(&format!("{} 词\n", code)).expect("eleven characters fit");
    assert_eq!(entries[0].code, code);
    let short = CinParser::new("_").with_max_code_len(2);
    match short.parse_str("中文字 词\n") {
        Err(e) => assert_eq!(e.message(), "码表解析错误: 第1行编码超长: '中文字' 长度3超过限制2"),
        Ok(_) => panic!("three characters exceed two"),
    }
}

#[test]
fn cin_merge_twice_changes_nothing() {
    let parser = CinParser::new("t.cin");
    let entries = parser.parse_str("wo 我\nai 爱\nwo 喔\n").unwrap();
    let once = merge_entries(entries);
    let codes: Vec<String> = once.iter().map(|e| e.code.clone()).collect();
    let twice = merge_entries(once);
    let codes2: Vec<String> = twice.iter().map(|e| e.code.clone()).collect();
    assert_eq!(codes, codes2);
    assert_eq!(twice[1].words.len(), 2);
    assert_eq!(twice[1].words[1].word, "喔");
}
