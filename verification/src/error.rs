//! Errors of the engine core and how they are recovered from.
use vstd::prelude::*;

use crate::text::{push_decimal, str_to_string, string_push_str};
use crate::types::ImeError;

verus! {

/// Errors of the engine core.
#[derive(Debug)]
pub enum CoreError {
    /// A session failed.
    SessionError(String),
    /// A candidate failed.
    CandidateError(String),
    /// An input context failed.
    ContextError(String),
    /// A dictionary failed.
    DictError(String),
    /// Matching failed.
    MatchError(String),
    /// Ranking failed.
    RankError(String),
    /// A configuration is invalid.
    ConfigError(String),
    /// Reading or writing failed.
    IoError(String),
    /// Anything else.
    Unknown,
}

impl CoreError {
    /// Which variant this is, and the text it carries.
    pub open spec fn kind_and_text(self) -> (int, Seq<char>) {
        match self {
            CoreError::SessionError(m) => (0, m@),
            CoreError::CandidateError(m) => (1, m@),
            CoreError::ContextError(m) => (2, m@),
            CoreError::DictError(m) => (3, m@),
            CoreError::MatchError(m) => (4, m@),
            CoreError::RankError(m) => (5, m@),
            CoreError::ConfigError(m) => (6, m@),
            CoreError::IoError(m) => (7, m@),
            CoreError::Unknown => (8, Seq::empty()),
        }
    }

    /// A copy of this error.
    pub fn duplicate(&self) -> (r: CoreError)
        ensures
            r.kind_and_text() == self.kind_and_text(),
    {
        match self {
            CoreError::SessionError(m) => CoreError::SessionError(m.clone()),
            CoreError::CandidateError(m) => CoreError::CandidateError(m.clone()),
            CoreError::ContextError(m) => CoreError::ContextError(m.clone()),
            CoreError::DictError(m) => CoreError::DictError(m.clone()),
            CoreError::MatchError(m) => CoreError::MatchError(m.clone()),
            CoreError::RankError(m) => CoreError::RankError(m.clone()),
            CoreError::ConfigError(m) => CoreError::ConfigError(m.clone()),
            CoreError::IoError(m) => CoreError::IoError(m.clone()),
            CoreError::Unknown => CoreError::Unknown,
        }
    }
}

/// The core error that an input-method error becomes.
pub open spec fn core_of_ime(err: ImeError) -> CoreError {
    match err {
        ImeError::DictLoadError(m) => CoreError::DictError(m),
        ImeError::ParseError(m) => CoreError::DictError(m),
        ImeError::MatchError(m) => CoreError::MatchError(m),
        ImeError::RankError(m) => CoreError::RankError(m),
        ImeError::ConfigError(m) => CoreError::ConfigError(m),
        ImeError::IoError(m) => CoreError::IoError(m),
        ImeError::NgramError(m) => CoreError::DictError(m),
        ImeError::Unknown => CoreError::Unknown,
    }
}

impl vstd::std_specs::convert::FromSpecImpl<ImeError> for CoreError {
    open spec fn obeys_from_spec() -> bool {
        true
    }

    open spec fn from_spec(v: ImeError) -> Self {
        core_of_ime(v)
    }
}

impl From<ImeError> for CoreError {
    fn from(err: ImeError) -> (r: Self) {
        match err {
            ImeError::DictLoadError(m) => CoreError::DictError(m),
            ImeError::ParseError(m) => CoreError::DictError(m),
            ImeError::MatchError(m) => CoreError::MatchError(m),
            ImeError::RankError(m) => CoreError::RankError(m),
            ImeError::ConfigError(m) => CoreError::ConfigError(m),
            ImeError::IoError(m) => CoreError::IoError(m),
            ImeError::NgramError(m) => CoreError::DictError(m),
            ImeError::Unknown => CoreError::Unknown,
        }
    }
}

/// Result type of the engine core.
pub type CoreResult<T> = Result<T, CoreError>;

/// Where an error happened and what to do about it.
pub struct ErrorContext {
    /// The message.
    pub message: String,
    /// Where it came from.
    pub source: String,
    /// An error code.
    pub code: Option<u32>,
    /// A suggested action.
    pub suggestion: Option<String>,
}

impl ErrorContext {
    /// The context as text (what its `Display` writes): `[source] message`,
    /// then ` (代码: code)` with a code and ` 建议: suggestion` with a
    /// suggestion.
    pub fn describe(&self) -> (r: String)
        ensures
            r@ == "["@ + self.source@ + "] "@ + self.message@ + match self.code {
                Some(c) => " (代码: "@ + crate::text::decimal(c as nat) + ")"@,
                None => Seq::<char>::empty(),
            } + match self.suggestion {
                Some(t) => " 建议: "@ + t@,
                None => Seq::<char>::empty(),
            },
    {
        let mut s = crate::text::str_to_string("[");
        crate::text::string_push_str(&mut s, self.source.as_str());
        crate::text::string_push_str(&mut s, "] ");
        crate::text::string_push_str(&mut s, self.message.as_str());
        let ghost s1 = s@;
        match self.code {
            Some(c) => {
                crate::text::string_push_str(&mut s, " (代码: ");
                crate::text::push_decimal(&mut s, c as usize);
                crate::text::string_push_str(&mut s, ")");
            },
            None => {
                assert(s@ == s1 + Seq::<char>::empty());
            },
        }
        let ghost s2 = s@;
        match &self.suggestion {
            Some(t) => {
                crate::text::string_push_str(&mut s, " 建议: ");
                crate::text::string_push_str(&mut s, t.as_str());
            },
            None => {
                assert(s@ == s2 + Seq::<char>::empty());
            },
        }
        s
    }

    /// A context with a message and a source, no code, no suggestion.
    pub fn new(message: String, source: String) -> (r: Self)
        ensures
            r.message == message,
            r.source == source,
            r.code is None,
            r.suggestion is None,
    {
        ErrorContext { message, source, code: None, suggestion: None }
    }

    /// Sets the error code.
    pub fn with_code(self, code: u32) -> (r: Self)
        ensures
            r == (ErrorContext { code: Some(code), ..self }),
    {
        ErrorContext { code: Some(code), ..self }
    }

    /// Sets the suggested action.
    pub fn with_suggestion(self, suggestion: String) -> (r: Self)
        ensures
            r == (ErrorContext { suggestion: Some(suggestion), ..self }),
    {
        ErrorContext { suggestion: Some(suggestion), ..self }
    }

    /// The text shown for this context (what its `Display` writes).
    pub open spec fn spec_text(&self) -> Seq<char> {
        "["@ + self.source@ + "] "@ + self.message@ + match self.code {
            Some(c) => " (代码: "@ + crate::text::decimal(c as nat) + ")"@,
            None => Seq::empty(),
        } + match self.suggestion {
            Some(s) => " 建议: "@ + s@,
            None => Seq::empty(),
        }
    }

    /// The text shown for this context.
    pub fn text(&self) -> (r: String)
        ensures
            r@ == self.spec_text(),
    {
        let mut r = str_to_string("[");
        string_push_str(&mut r, self.source.as_str());
        string_push_str(&mut r, "] ");
        string_push_str(&mut r, self.message.as_str());
        let ghost base = r@;
        match self.code {
            Some(c) => {
                string_push_str(&mut r, " (代码: ");
                push_decimal(&mut r, c as usize);
                string_push_str(&mut r, ")");
            },
            None => {},
        }
        let ghost mid = r@;
        match &self.suggestion {
            Some(s) => {
                string_push_str(&mut r, " 建议: ");
                string_push_str(&mut r, s.as_str());
            },
            None => {},
        }
        proof {
            match self.code {
                Some(c) => {},
                None => {
                    assert(mid == base + Seq::<char>::empty());
                },
            }
            match &self.suggestion {
                Some(s) => {},
                None => {
                    assert(r@ == mid + Seq::<char>::empty());
                },
            }
        }
        r
    }
}

/// What to do when an operation fails.
#[derive(PartialEq, Eq, Structural, Clone, Copy, Debug)]
pub enum RecoveryStrategy {
    /// Try once more.
    Retry,
    /// Use a fallback value.
    Fallback,
    /// Carry on.
    Ignore,
    /// Give up.
    Abort,
}

/// Recovery from errors.
pub struct ErrorRecovery;

impl ErrorRecovery {
    /// Recovers from `error` by `strategy`: `Abort` gives the error back;
    /// `Fallback` and `Ignore` give what `fallback` gives; `Retry` gives
    /// what `fallback` gives when that is `Ok`, and the error otherwise.
    pub fn try_recover<T, F>(error: &CoreError, strategy: RecoveryStrategy, fallback: F) -> (r:
        CoreResult<T>) where F: FnOnce() -> CoreResult<T>
        requires
            strategy != RecoveryStrategy::Abort ==> call_requires(fallback, ()),
        ensures
            strategy == RecoveryStrategy::Abort ==> (r matches Err(e) && e.kind_and_text()
                == error.kind_and_text()),
            strategy == RecoveryStrategy::Fallback || strategy == RecoveryStrategy::Ignore
                ==> call_ensures(fallback, (), r),
            strategy == RecoveryStrategy::Retry ==> exists|x: CoreResult<T>|
                call_ensures(fallback, (), x) && (x is Ok ==> r == x) && (x is Err ==> (r matches Err(
                    e,
                ) && e.kind_and_text() == error.kind_and_text())),
    {
        match strategy {
            RecoveryStrategy::Retry => {
                let x = fallback();
                match x {
                    Ok(v) => Ok(v),
                    Err(_) => Err(error.duplicate()),
                }
            },
            RecoveryStrategy::Fallback => fallback(),
            RecoveryStrategy::Ignore => fallback(),
            RecoveryStrategy::Abort => Err(error.duplicate()),
        }
    }
}

} // verus!
