//! Kinds of n-gram smoothing, and their errors. The smoothing itself
//! computes probabilities as fractions and is done by the caller.
use vstd::prelude::*;

use crate::text::{str_to_string, string_push_str};

verus! {

/// Errors of smoothing.
#[derive(Debug, Clone, PartialEq, Eq)]
pub enum SmoothError {
    /// A parameter is not valid.
    InvalidParameter(String),
    /// The computation failed.
    ComputationError(String),
    /// There is not enough data.
    InsufficientData(String),
}

impl SmoothError {
    /// The message the error shows.
    pub open spec fn spec_message(self) -> Seq<char> {
        match self {
            SmoothError::InvalidParameter(m) => "平滑参数无效: "@ + m@,
            SmoothError::ComputationError(m) => "平滑计算失败: "@ + m@,
            SmoothError::InsufficientData(m) => "数据不足: "@ + m@,
        }
    }

    /// The message the error shows (what its `Display` writes).
    pub fn message(&self) -> (r: String)
        ensures
            r@ == self.spec_message(),
    {
        let (p, m) = match self {
            SmoothError::InvalidParameter(m) => ("平滑参数无效: ", m),
            SmoothError::ComputationError(m) => ("平滑计算失败: ", m),
            SmoothError::InsufficientData(m) => ("数据不足: ", m),
        };
        let mut r = str_to_string(p);
        string_push_str(&mut r, m.as_str());
        r
    }
}

/// Smoothing methods.
#[derive(Debug, Clone, Copy, PartialEq, Eq, Structural)]
pub enum SmoothMethod {
    /// Add-one (Laplace).
    Laplace,
    /// Add-k.
    AddK,
    /// Good-Turing.
    GoodTuring,
    /// Kneser-Ney.
    KneserNey,
    /// Interpolation.
    Interpolation,
    /// Back-off.
    Backoff,
}

impl SmoothMethod {
    /// The method's display name.
    pub open spec fn spec_name(self) -> Seq<char> {
        match self {
            SmoothMethod::Laplace => "拉普拉斯平滑"@,
            SmoothMethod::AddK => "加k平滑"@,
            SmoothMethod::GoodTuring => "Good-Turing平滑"@,
            SmoothMethod::KneserNey => "Kneser-Ney平滑"@,
            SmoothMethod::Interpolation => "插值平滑"@,
            SmoothMethod::Backoff => "回退平滑"@,
        }
    }

    /// The method's display name (what its `Display` writes).
    pub fn name(&self) -> (r: String)
        ensures
            r@ == self.spec_name(),
    {
        match self {
            SmoothMethod::Laplace => str_to_string("拉普拉斯平滑"),
            SmoothMethod::AddK => str_to_string("加k平滑"),
            SmoothMethod::GoodTuring => str_to_string("Good-Turing平滑"),
            SmoothMethod::KneserNey => str_to_string("Kneser-Ney平滑"),
            SmoothMethod::Interpolation => str_to_string("插值平滑"),
            SmoothMethod::Backoff => str_to_string("回退平滑"),
        }
    }
}

} // verus!
