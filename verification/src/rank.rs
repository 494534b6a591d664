//! Kinds of candidate ranking, and the errors of ranking settings and
//! weights. Weights and scores are fractions and are computed by the
//! caller.
use vstd::prelude::*;

use crate::text::{str_to_string, string_push_str};

verus! {

/// Ranking strategies.
#[derive(Debug, Clone, Copy, PartialEq, Eq, Structural)]
pub enum RankStrategy {
    Weighted,
    LearningBased,
    Hybrid,
}

/// Errors of ranking settings.
#[derive(Debug, Clone, PartialEq, Eq)]
pub enum ConfigError {
    /// The settings file could not be read.
    FileError(String),
    /// The settings could not be parsed.
    ParseError(String),
    /// The settings are not valid.
    ValidationError(String),
    /// The settings could not be saved.
    SaveError(String),
}

impl ConfigError {
    /// The message the error shows.
    pub open spec fn spec_message(self) -> Seq<char> {
        match self {
            ConfigError::FileError(m) => "配置文件读取失败: "@ + m@,
            ConfigError::ParseError(m) => "配置解析失败: "@ + m@,
            ConfigError::ValidationError(m) => "配置验证失败: "@ + m@,
            ConfigError::SaveError(m) => "配置保存失败: "@ + m@,
        }
    }

    /// The message the error shows (what its `Display` writes).
    pub fn message(&self) -> (r: String)
        ensures
            r@ == self.spec_message(),
    {
        let (p, m) = match self {
            ConfigError::FileError(m) => ("配置文件读取失败: ", m),
            ConfigError::ParseError(m) => ("配置解析失败: ", m),
            ConfigError::ValidationError(m) => ("配置验证失败: ", m),
            ConfigError::SaveError(m) => ("配置保存失败: ", m),
        };
        let mut r = str_to_string(p);
        string_push_str(&mut r, m.as_str());
        r
    }
}

/// Errors of weights.
#[derive(Debug, Clone, PartialEq, Eq)]
pub enum WeightError {
    /// A weight could not be computed.
    CalculationError(String),
    /// The weight settings are wrong.
    ConfigError(String),
    /// There is not enough data.
    InsufficientData(String),
}

impl WeightError {
    /// The message the error shows.
    pub open spec fn spec_message(self) -> Seq<char> {
        match self {
            WeightError::CalculationError(m) => "权重计算失败: "@ + m@,
            WeightError::ConfigError(m) => "配置错误: "@ + m@,
            WeightError::InsufficientData(m) => "数据不足: "@ + m@,
        }
    }

    /// The message the error shows (what its `Display` writes).
    pub fn message(&self) -> (r: String)
        ensures
            r@ == self.spec_message(),
    {
        let (p, m) = match self {
            WeightError::CalculationError(m) => ("权重计算失败: ", m),
            WeightError::ConfigError(m) => ("配置错误: ", m),
            WeightError::InsufficientData(m) => ("数据不足: ", m),
        };
        let mut r = str_to_string(p);
        string_push_str(&mut r, m.as_str());
        r
    }
}

/// How to match.
#[derive(Debug, Clone, Copy, PartialEq, Eq, Structural)]
pub enum MatchStrategy {
    Exact,
    Prefix,
    Fuzzy,
}

/// Options of a match.
#[derive(Debug, Clone, Copy, PartialEq, Eq, Structural)]
pub struct MatchOptions {
    /// How to match.
    pub strategy: MatchStrategy,
    /// The most results.
    pub max_results: usize,
}

impl Default for MatchOptions {
    /// Prefix matching, at most 10 results.
    fn default() -> (r: Self)
        ensures
            r == (MatchOptions { strategy: MatchStrategy::Prefix, max_results: 10 }),
    {
        MatchOptions { strategy: MatchStrategy::Prefix, max_results: 10 }
    }
}

} // verus!
