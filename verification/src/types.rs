//! Types shared by every part of the engine.
use vstd::prelude::*;

use crate::text::{str_to_string, string_push_str};

verus! {

/// Errors of the input method.
#[derive(Debug)]
pub enum ImeError {
    /// A dictionary could not be loaded.
    DictLoadError(String),
    /// A code table could not be parsed.
    ParseError(String),
    /// Matching failed.
    MatchError(String),
    /// Ranking failed.
    RankError(String),
    /// A configuration is invalid.
    ConfigError(String),
    /// Reading or writing failed.
    IoError(String),
    /// The n-gram model failed.
    NgramError(String),
    /// Anything else.
    Unknown,
}

impl ImeError {
    /// Which variant this is, and the text it carries.
    pub open spec fn kind_and_text(self) -> (int, Seq<char>) {
        match self {
            ImeError::DictLoadError(m) => (0, m@),
            ImeError::ParseError(m) => (1, m@),
            ImeError::MatchError(m) => (2, m@),
            ImeError::RankError(m) => (3, m@),
            ImeError::ConfigError(m) => (4, m@),
            ImeError::IoError(m) => (5, m@),
            ImeError::NgramError(m) => (6, m@),
            ImeError::Unknown => (7, Seq::empty()),
        }
    }

    /// The message this error shows: its category and its text.
    pub open spec fn spec_message(self) -> Seq<char> {
        match self {
            ImeError::DictLoadError(m) => "词典加载失败: "@ + m@,
            ImeError::ParseError(m) => "码表解析错误: "@ + m@,
            ImeError::MatchError(m) => "匹配失败: "@ + m@,
            ImeError::RankError(m) => "排序失败: "@ + m@,
            ImeError::ConfigError(m) => "配置错误: "@ + m@,
            ImeError::IoError(m) => "IO 错误: "@ + m@,
            ImeError::NgramError(m) => "N-gram 模型错误: "@ + m@,
            ImeError::Unknown => "未知错误"@,
        }
    }

    /// The message this error shows (what its `Display` writes).
    pub fn message(&self) -> (r: String)
        ensures
            r@ == self.spec_message(),
    {
        let (prefix, text): (&str, Option<&String>) = match self {
            ImeError::DictLoadError(m) => ("词典加载失败: ", Some(m)),
            ImeError::ParseError(m) => ("码表解析错误: ", Some(m)),
            ImeError::MatchError(m) => ("匹配失败: ", Some(m)),
            ImeError::RankError(m) => ("排序失败: ", Some(m)),
            ImeError::ConfigError(m) => ("配置错误: ", Some(m)),
            ImeError::IoError(m) => ("IO 错误: ", Some(m)),
            ImeError::NgramError(m) => ("N-gram 模型错误: ", Some(m)),
            ImeError::Unknown => ("未知错误", None),
        };
        let mut r = str_to_string(prefix);
        match text {
            Some(m) => string_push_str(&mut r, m.as_str()),
            None => {},
        }
        r
    }

    /// A copy of this error.
    pub fn duplicate(&self) -> (r: ImeError)
        ensures
            r.kind_and_text() == self.kind_and_text(),
    {
        match self {
            ImeError::DictLoadError(m) => ImeError::DictLoadError(m.clone()),
            ImeError::ParseError(m) => ImeError::ParseError(m.clone()),
            ImeError::MatchError(m) => ImeError::MatchError(m.clone()),
            ImeError::RankError(m) => ImeError::RankError(m.clone()),
            ImeError::ConfigError(m) => ImeError::ConfigError(m.clone()),
            ImeError::IoError(m) => ImeError::IoError(m.clone()),
            ImeError::NgramError(m) => ImeError::NgramError(m.clone()),
            ImeError::Unknown => ImeError::Unknown,
        }
    }
}

/// Result type of the input method.
pub type ImeResult<T> = Result<T, ImeError>;

/// Where a candidate comes from.
#[derive(PartialEq, Eq, Structural, Clone, Copy, Debug, Hash)]
pub enum CandidateSource {
    /// The system dictionary.
    System,
    /// The user dictionary.
    User,
    /// Words learnt while typing.
    Dynamic,
    /// Phrases.
    Phrase,
}

impl CandidateSource {
    /// The label shown for this source (what its `Display` writes).
    pub fn label(&self) -> (r: &'static str)
        ensures
            r@ == match *self {
                CandidateSource::System => "系统"@,
                CandidateSource::User => "用户"@,
                CandidateSource::Dynamic => "动态"@,
                CandidateSource::Phrase => "短语"@,
            },
    {
        match self {
            CandidateSource::System => "系统",
            CandidateSource::User => "用户",
            CandidateSource::Dynamic => "动态",
            CandidateSource::Phrase => "短语",
        }
    }
}

/// A candidate word. Its scores are of the type `S` that its maker chooses:
/// the matcher gives whole numbers, a ranker may weigh them into others.
#[derive(Debug, Clone, PartialEq)]
pub struct Candidate<S> {
    /// The word.
    pub text: String,
    /// Its code (such as its pinyin).
    pub code: String,
    /// Its score.
    pub score: S,
    /// Where it comes from.
    pub source: CandidateSource,
    /// Its n-gram score, if any.
    pub ngram_score: Option<S>,
    /// Its user weight, if any.
    pub user_weight: Option<S>,
}

/// The value of a candidate.
pub struct CandidateView<S> {
    pub text: Seq<char>,
    pub code: Seq<char>,
    pub score: S,
    pub source: CandidateSource,
    pub ngram_score: Option<S>,
    pub user_weight: Option<S>,
}

impl<S> View for Candidate<S> {
    type V = CandidateView<S>;

    open spec fn view(&self) -> CandidateView<S> {
        CandidateView {
            text: self.text@,
            code: self.code@,
            score: self.score,
            source: self.source,
            ngram_score: self.ngram_score,
            user_weight: self.user_weight,
        }
    }
}

/// The values of candidates.
pub open spec fn candidate_views<S>(v: Seq<Candidate<S>>) -> Seq<CandidateView<S>> {
    v.map_values(|c: Candidate<S>| c@)
}

/// The values of borrowed candidates.
pub open spec fn candidate_ref_views<S>(v: Seq<&Candidate<S>>) -> Seq<CandidateView<S>> {
    v.map_values(|c: &Candidate<S>| c@)
}

/// Input mode.
#[derive(PartialEq, Eq, Structural, Clone, Copy, Debug, Hash)]
pub enum InputMode {
    /// Pinyin.
    Pinyin,
    /// Wubi.
    Wubi,
    /// English.
    English,
    /// Symbols.
    Symbol,
}

/// The state of the text being composed.
pub struct InputContext {
    /// The text typed so far.
    pub buffer: String,
    /// Byte offset of the cursor in `buffer`.
    pub cursor: usize,
    /// Input mode.
    pub mode: InputMode,
    /// Words chosen so far.
    pub selected: Vec<String>,
    /// Session that owns this context.
    pub session_id: u64,
}

/// The mathematical value of an [`InputContext`].
pub struct InputContextView {
    /// The text typed so far.
    pub buffer: Seq<char>,
    /// Byte offset of the cursor.
    pub cursor: usize,
    /// Input mode.
    pub mode: InputMode,
    /// Words chosen so far.
    pub selected: Seq<Seq<char>>,
    /// Session that owns this context.
    pub session_id: u64,
}

/// The texts of a sequence of strings.
pub open spec fn string_views(v: Seq<String>) -> Seq<Seq<char>> {
    v.map_values(|s: String| s@)
}

impl View for InputContext {
    type V = InputContextView;

    open spec fn view(&self) -> InputContextView {
        InputContextView {
            buffer: self.buffer@,
            cursor: self.cursor,
            mode: self.mode,
            selected: string_views(self.selected@),
            session_id: self.session_id,
        }
    }
}

/// A copy of a list of strings.
pub fn clone_strings(v: &Vec<String>) -> (r: Vec<String>)
    ensures
        string_views(r@) == string_views(v@),
{
    let mut r: Vec<String> = Vec::new();
    let mut i: usize = 0;
    while i < v.len()
        invariant
            i <= v@.len(),
            string_views(r@) == string_views(v@).take(i as int),
        decreases v@.len() - i,
    {
        let ghost old_r = r@;
        let x = v[i].clone();
        r.push(x);
        assert(r@ == old_r.push(x));
        assert(string_views(r@) =~= string_views(old_r).push(x@));
        assert(string_views(v@).take(i + 1) =~= string_views(v@).take(i as int).push(v@[i as int]@));
        assert(string_views(r@) =~= string_views(v@).take(i + 1));
        i = i + 1;
    }
    assert(string_views(v@).take(v@.len() as int) =~= string_views(v@));
    r
}

impl InputContext {
    /// A copy of this context.
    pub fn duplicate(&self) -> (r: InputContext)
        ensures
            r@ == self@,
    {
        InputContext {
            buffer: self.buffer.clone(),
            cursor: self.cursor,
            mode: self.mode,
            selected: clone_strings(&self.selected),
            session_id: self.session_id,
        }
    }
}

/// Per-session settings.
pub struct SessionConfig {
    /// Whether fuzzy matching is on.
    pub fuzzy_enabled: bool,
    /// Largest number of candidates.
    pub max_candidates: usize,
    /// Whether n-gram scoring is on.
    pub ngram_enabled: bool,
    /// Path of the user dictionary.
    pub user_dict_path: Option<String>,
}

impl SessionConfig {
    /// The two settings say the same.
    pub open spec fn same(self, other: SessionConfig) -> bool {
        &&& self.fuzzy_enabled == other.fuzzy_enabled
        &&& self.max_candidates == other.max_candidates
        &&& self.ngram_enabled == other.ngram_enabled
        &&& match (self.user_dict_path, other.user_dict_path) {
            (Some(a), Some(b)) => a@ == b@,
            (None, None) => true,
            _ => false,
        }
    }

    /// A copy of the settings.
    pub fn duplicate(&self) -> (r: Self)
        ensures
            r.same(*self),
    {
        SessionConfig {
            fuzzy_enabled: self.fuzzy_enabled,
            max_candidates: self.max_candidates,
            ngram_enabled: self.ngram_enabled,
            user_dict_path: match &self.user_dict_path {
                Some(p) => Some(p.clone()),
                None => None,
            },
        }
    }
}

impl Default for SessionConfig {
    fn default() -> (r: Self)
        ensures
            r.fuzzy_enabled,
            r.max_candidates == 10,
            r.ngram_enabled,
            r.user_dict_path is None,
    {
        SessionConfig {
            fuzzy_enabled: true,
            max_candidates: 10,
            ngram_enabled: true,
            user_dict_path: None,
        }
    }
}

/// A word of a code table.
pub struct WordEntry {
    /// The word.
    pub word: String,
    /// Its frequency.
    pub freq: u32,
    /// Its part of speech, if known.
    pub pos: Option<String>,
}

/// The mathematical value of a [`WordEntry`].
pub struct WordEntryView {
    /// The word.
    pub word: Seq<char>,
    /// Its frequency.
    pub freq: u32,
    /// Its part of speech, if known.
    pub pos: Option<Seq<char>>,
}

impl View for WordEntry {
    type V = WordEntryView;

    open spec fn view(&self) -> WordEntryView {
        WordEntryView {
            word: self.word@,
            freq: self.freq,
            pos: match self.pos {
                Some(p) => Some(p@),
                None => None,
            },
        }
    }
}

/// The values of a sequence of words.
pub open spec fn word_views(v: Seq<WordEntry>) -> Seq<WordEntryView> {
    v.map_values(|w: WordEntry| w@)
}

impl WordEntry {
    /// A copy of this word.
    pub fn duplicate(&self) -> (r: WordEntry)
        ensures
            r@ == self@,
    {
        WordEntry {
            word: self.word.clone(),
            freq: self.freq,
            pos: match &self.pos {
                Some(p) => Some(p.clone()),
                None => None,
            },
        }
    }
}

/// A copy of a list of words.
pub fn clone_words(v: &Vec<WordEntry>) -> (r: Vec<WordEntry>)
    ensures
        word_views(r@) == word_views(v@),
{
    let mut r: Vec<WordEntry> = Vec::new();
    let mut i: usize = 0;
    while i < v.len()
        invariant
            i <= v@.len(),
            word_views(r@) == word_views(v@).take(i as int),
        decreases v@.len() - i,
    {
        let ghost old_r = r@;
        let x = v[i].duplicate();
        r.push(x);
        assert(r@ == old_r.push(x));
        assert(word_views(r@) =~= word_views(old_r).push(x@));
        assert(word_views(v@).take(i + 1) =~= word_views(v@).take(i as int).push(v@[i as int]@));
        assert(word_views(r@) =~= word_views(v@).take(i + 1));
        i = i + 1;
    }
    assert(word_views(v@).take(v@.len() as int) =~= word_views(v@));
    r
}

/// A code with its words.
pub struct CodeEntry {
    /// The code.
    pub code: String,
    /// Its words.
    pub entries: Vec<WordEntry>,
}

/// Dictionary locations.
pub struct DictConfig {
    /// Path of the base dictionary.
    pub base_path: String,
    /// Path of the n-gram model.
    pub ngram_path: Option<String>,
    /// Path of the user dictionary.
    pub user_dict_path: Option<String>,
}

/// Matching settings of the global configuration.
pub struct MatcherConfig {
    /// Whether fuzzy matching is on.
    pub fuzzy: bool,
    /// Fuzzy rules, written `from->to`.
    pub fuzzy_rules: Vec<String>,
}

/// Settings of the learning of user choices.
pub struct L0Config {
    /// How many times a choice is seen before it is learnt.
    pub threshold: u32,
    /// Where the learnt data is kept.
    pub snapshot_path: String,
}

impl Default for L0Config {
    fn default() -> (r: Self)
        ensures
            r.threshold == 3,
            r.snapshot_path@ == "wbw_l0.json"@,
    {
        L0Config { threshold: 3, snapshot_path: str_to_string("wbw_l0.json") }
    }
}

impl L0Config {
    /// A copy of this configuration.
    pub fn duplicate(&self) -> (r: L0Config)
        ensures
            r.threshold == self.threshold,
            r.snapshot_path@ == self.snapshot_path@,
    {
        L0Config { threshold: self.threshold, snapshot_path: self.snapshot_path.clone() }
    }
}

} // verus!
