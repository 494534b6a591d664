use wbwime::entry::DictSource;
use wbwime::error::ErrorContext;
use wbwime::fuzzy::FuzzyRule;
use wbwime::ime_host::{ImeResponseType, ImeState};
use wbwime::key_mapper::{KeyEvent, KeyMapperError};
use wbwime::native::{c_cursor, input_text_response, response_type_code, WbwImeState};
use wbwime::rank::{ConfigError, MatchOptions, MatchStrategy, RankStrategy, WeightError};
use wbwime::smooth::{SmoothError, SmoothMethod};

#[test]
fn error_messages() {
    assert_eq!(KeyMapperError::InvalidMapping("x".into()).message(), "按键映射无效: x");
    assert_eq!(KeyMapperError::ConfigError("y".into()).message(), "按键配置错误: y");
    assert_eq!(KeyMapperError::ProcessingError("z".into()).message(), "按键处理失败: z");
    assert_eq!(SmoothError::InvalidParameter("k".into()).message(), "平滑参数无效: k");
    assert_eq!(SmoothError::InsufficientData("n".into()).message(), "数据不足: n");
    assert_eq!(ConfigError::ParseError("p".into()).message(), "配置解析失败: p");
    assert_eq!(ConfigError::SaveError("s".into()).message(), "配置保存失败: s");
    assert_eq!(WeightError::ConfigError("c".into()).message(), "配置错误: c");
    assert_eq!(WeightError::CalculationError("w".into()).message(), "权重计算失败: w");
}

#[test]
fn method_names_and_options() {
    assert_eq!(SmoothMethod::Laplace.name(), "拉普拉斯平滑");
    assert_eq!(SmoothMethod::KneserNey.name(), "Kneser-Ney平滑");
    assert_eq!(SmoothMethod::Backoff.name(), "回退平滑");
    let o = MatchOptions::default();
    assert_eq!(o.strategy, MatchStrategy::Prefix);
    assert_eq!(o.max_results, 10);
    assert_ne!(RankStrategy::Hybrid, RankStrategy::Weighted);
}

#[test]
fn native_codes() {
    assert_eq!(WbwImeState::from_state(ImeState::Inputting), WbwImeState::Inputting);
    assert_eq!(WbwImeState::from_state(ImeState::Error).code(), 4);
    assert_eq!(WbwImeState::Idle.code(), 0);
    assert_eq!(response_type_code(ImeResponseType::Nothing), 0);
    assert_eq!(response_type_code(ImeResponseType::Confirm), 3);
    assert_eq!(response_type_code(ImeResponseType::HideCandidates), 7);
    assert_eq!(response_type_code(ImeResponseType::Error), 8);
    assert_eq!(c_cursor(5, "wo"), 2);
    assert_eq!(c_cursor(1, "我们"), 1);
    assert_eq!(c_cursor(9, "我们"), 6);
}

#[test]
fn native_text_input() {
    let r = input_text_response("ni hao, 世界!3");
    assert_eq!(r.buffer, "nihao3");
    assert_eq!(r.cursor, 6);
    assert_eq!(r.response_type, ImeResponseType::InputChar);
    assert!(r.need_refresh && !r.need_hide);
    assert!(r.candidates.is_empty());
    assert!(r.text.is_none());
}

#[test]
fn display_texts() {
    let mut e = KeyEvent::new(13, None);
    assert_eq!(e.describe(), "Key(13)");
    e.ctrl = true;
    e.shift = true;
    e.char = Some('a');
    assert_eq!(e.describe(), "Ctrl+Shift+a");
    e.alt = true;
    e.meta = true;
    assert_eq!(e.describe(), "Ctrl+Alt+Shift+Meta+a");
    assert_eq!(DictSource::Base.name(), "基础");
    assert_eq!(DictSource::User.name(), "用户");
    assert_eq!(DictSource::Dynamic.name(), "动态");
    let r = FuzzyRule::new("z-zh".to_string(), "z".to_string(), "zh".to_string());
    assert_eq!(r.describe(), "z-zh: z -> zh");
    let c = ErrorContext::new("读取失败".to_string(), "dict".to_string());
    assert_eq!(c.describe(), "[dict] 读取失败");
    let c = c.with_code(42).with_suggestion("重试".to_string());
    assert_eq!(c.describe(), "[dict] 读取失败 (代码: 42) 建议: 重试");
}
