use wbwime::cli::{
    code_table_stats, default_dict_path, make_context, parse_args, parse_two_args, ChoiceAction,
    CliCommand, CliError, InteractiveSession, LineAction,
};
use wbwime::entry::CinEntry;
use wbwime::types::WordEntry;
use wbwime::types::InputMode;

fn args(v: &[&str]) -> Vec<String> {
    v.iter().map(|s| s.to_string()).collect()
}

#[test]
fn parse_commands() {
    assert_eq!(parse_args(&args(&["wbwime"])), Ok(CliCommand::Help));
    assert_eq!(parse_args(&args(&["wbwime", "i"])), Ok(CliCommand::Interactive));
    assert_eq!(
        parse_args(&args(&["wbwime", "query", "wo"])),
        Ok(CliCommand::Query { code: "wo".into() })
    );
    assert_eq!(
        parse_args(&args(&["wbwime", "t", "wo", "d.cin"])),
        Ok(CliCommand::TestMatch { code: "wo".into(), dict_path: "d.cin".into() })
    );
    assert_eq!(
        parse_args(&args(&["wbwime", "b", "d.cin", "d.fst"])),
        Ok(CliCommand::BuildDict { dict_path: "d.cin".into(), out_path: "d.fst".into() })
    );
    assert_eq!(
        parse_args(&args(&["wbwime", "validate", "d.cin"])),
        Ok(CliCommand::Validate { dict_path: "d.cin".into() })
    );
    assert_eq!(parse_args(&args(&["wbwime", "s"])), Ok(CliCommand::Stats { dict_path: None }));
    assert_eq!(
        parse_args(&args(&["wbwime", "stats", "x.cin"])),
        Ok(CliCommand::Stats { dict_path: Some("x.cin".into()) })
    );
    assert_eq!(parse_args(&args(&["wbwime", "v"])), Ok(CliCommand::Version));
    assert_eq!(parse_args(&args(&["wbwime", "--help"])), Ok(CliCommand::Help));
}

#[test]
fn parse_errors() {
    assert_eq!(
        parse_args(&args(&["wbwime", "query"])),
        Err(CliError::InputError("请提供查询编码: wbwime query <code>".into()))
    );
    assert_eq!(
        parse_args(&args(&["wbwime", "test-match", "wo"])),
        Err(CliError::InputError("用法: wbwime test-match <code> <dict-path>".into()))
    );
    assert_eq!(
        parse_args(&args(&["wbwime", "build-dict", "a"])),
        Err(CliError::InputError("用法: wbwime build-dict <dict-path> <out-path>".into()))
    );
    assert_eq!(
        parse_args(&args(&["wbwime", "validate"])),
        Err(CliError::InputError("请提供词典路径: wbwime validate <dict-path>".into()))
    );
    let e = parse_args(&args(&["wbwime", "frobnicate"])).unwrap_err();
    assert_eq!(e, CliError::InputError("未知命令: frobnicate".into()));
    assert_eq!(e.message(), "输入错误: 未知命令: frobnicate");
    assert_eq!(CliError::DictError("x".into()).message(), "词典错误: x");
    assert_eq!(CliError::IoError("y".into()).message(), "IO 错误: y");
    assert_eq!(CliError::ConfigError("z".into()).message(), "配置错误: z");
    assert_eq!(CliError::RankError("w".into()).message(), "排序错误: w");
}

#[test]
fn two_args_and_defaults() {
    assert_eq!(
        parse_two_args(&args(&["p", "c", "a", "b"]), "u"),
        Ok(("a".to_string(), "b".to_string()))
    );
    assert_eq!(
        parse_two_args(&args(&["p", "c", "a"]), "u <x>"),
        Err(CliError::InputError("用法: wbwime u <x>".into()))
    );
    assert_eq!(default_dict_path(), "resources/dicts/cs-oi.cin");
    let ctx = make_context("ni好");
    assert_eq!(ctx.buffer, "ni好");
    assert_eq!(ctx.cursor, 5);
    assert_eq!(ctx.mode, InputMode::Pinyin);
    assert!(ctx.selected.is_empty());
    assert_eq!(ctx.session_id, 1);
}

#[test]
fn interactive_lines() {
    let mut s = InteractiveSession::new();
    assert_eq!(s.prompt(), "> ");
    assert_eq!(s.on_line("  \n"), LineAction::Skip);
    assert_eq!(s.on_line(" ni \n"), LineAction::Match("ni".into()));
    assert_eq!(s.prompt(), "ni > ");
    assert_eq!(s.on_line("hao"), LineAction::Match("nihao".into()));
    assert_eq!(s.on_line(""), LineAction::Match("nihao".into()));
    assert_eq!(s.on_line("clear"), LineAction::Skip);
    assert_eq!(s.buffer(), "");
    assert_eq!(s.on_line("exit"), LineAction::Quit);
}

#[test]
fn interactive_choices() {
    let mut s = InteractiveSession::new();
    s.on_line("wo");
    assert_eq!(s.on_choice("b", 3), ChoiceAction::Continue);
    assert_eq!(s.buffer(), "w");
    assert_eq!(s.on_choice("x", 3), ChoiceAction::InvalidInput);
    assert_eq!(s.on_choice("4", 3), ChoiceAction::InvalidIndex);
    assert_eq!(s.on_choice("0", 3), ChoiceAction::InvalidIndex);
    assert_eq!(s.buffer(), "w");
    assert_eq!(s.on_choice(" 2\n", 3), ChoiceAction::Select(1));
    assert_eq!(s.buffer(), "");
    s.on_line("a");
    assert_eq!(s.on_choice("q", 1), ChoiceAction::Continue);
    assert_eq!(s.on_choice("q", 1), ChoiceAction::Quit);
    s.on_line("a");
    assert_eq!(s.on_choice("", 1), ChoiceAction::Continue);
    assert_eq!(s.buffer(), "");
    assert_eq!(s.on_choice("b", 1), ChoiceAction::Continue);
    assert_eq!(s.on_choice("+1", 1), ChoiceAction::Select(0));
}

#[test]
fn stats_of_code_table() {
    let w = |t: &str| WordEntry { word: t.to_string(), freq: 1, pos: None };
    let entries = vec![
        CinEntry { code: "wo".into(), words: vec![w("我"), w("喔")] },
        CinEntry { code: "a".into(), words: vec![w("啊")] },
        CinEntry { code: "zhuang".into(), words: vec![w("装")] },
    ];
    let st = code_table_stats(&entries);
    assert_eq!(st.code_count, 3);
    assert_eq!(st.word_count, 4);
    assert_eq!(st.min_code_len, 1);
    assert_eq!(st.max_code_len, 6);
    let empty = code_table_stats(&[]);
    assert_eq!((empty.code_count, empty.word_count, empty.min_code_len, empty.max_code_len), (0, 0, 0, 0));
}
