use wbwime::error::{CoreError, ErrorContext, ErrorRecovery, RecoveryStrategy};
use wbwime::types::ImeError;

#[test]
fn error_retry_gives_back_error_on_failure() {
    let err = CoreError::DictError("x".to_string());
    let r: Result<i32, CoreError> = ErrorRecovery::try_recover(&err, RecoveryStrategy::Retry, || {
        Err(CoreError::Unknown)
    });
    assert!(matches!(r, Err(CoreError::DictError(ref m)) if m == "x"));
    let ok: Result<i32, CoreError> = ErrorRecovery::try_recover(&err, RecoveryStrategy::Retry, || Ok(5));
    assert_eq!(ok.unwrap(), 5);
    let ign: Result<i32, CoreError> = ErrorRecovery::try_recover(&err, RecoveryStrategy::Ignore, || Ok(9));
    assert_eq!(ign.unwrap(), 9);
}

#[test]
fn error_from_ime_error() {
    let e: CoreError = CoreError::from(ImeError::ConfigError("bad".to_string()));
    assert!(matches!(e, CoreError::ConfigError(ref m) if m == "bad"));
    let d: CoreError = CoreError::from(ImeError::DictLoadError("d".to_string()));
    assert!(matches!(d, CoreError::DictError(ref m) if m == "d"));
}

#[test]
fn error_context_text() {
    let c = ErrorContext::new("失败".to_string(), "dict".to_string())
        .with_code(42)
        .with_suggestion("重试".to_string());
    assert_eq!(c.code, Some(42));
    let t = c.text();
    assert!(t.contains("失败"));
    assert!(t.contains("42"));
}

#[test]
fn ime_error_messages() {
    assert_eq!(ImeError::ConfigError("x".to_string()).message(), "配置错误: x");
    assert_eq!(ImeError::Unknown.message(), "未知错误");
}
