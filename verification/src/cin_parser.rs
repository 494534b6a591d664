//! Parser of `.cin` code tables.
//!
//! A table is read line by line. Each line is trimmed; blank lines are
//! skipped; `%keyname begin` … `%keyname end` encloses lines that are
//! ignored; `%fuzzy begin` … `%fuzzy end` encloses fuzzy rules
//! `name from to`; lines that start with the comment prefix are skipped;
//! every other line is `code word… [freq]`, where a last field `_` marks an
//! unset frequency and a last numeric field (from the third field on) is the
//! frequency. The words are grouped by code, codes sorted.
use vstd::prelude::*;

use crate::entry::{CinEntry, GroupItem, cin_view, cin_views, group_add, is_grouping, lemma_grouping_empty};
use crate::text::{
    chars_eq_str, chars_starts_with, chars_starts_with_str, decimal, fields, join, join_range,
    lines, parse_u32, parse_u32_chars, push_decimal, split_fields, split_lines, starts_with,
    str_chars, str_to_string, string_from_chars, string_push_chars, string_push_str, trim,
    trim_chars, views,
};
use crate::types::{ImeError, ImeResult, WordEntry, WordEntryView, word_views};

verus! {

broadcast use vstd::seq_lib::group_seq_properties;

/// Errors of the code-table parser.
#[derive(Debug)]
pub enum ParseError {
    /// The file could not be read.
    FileError(String),
    /// The text is not valid.
    EncodingError(String),
    /// A line is malformed.
    FormatError {
        /// Line number, from 1.
        line: usize,
        /// What is wrong.
        message: String,
    },
}

impl ParseError {
    /// The message of this error (what its `Display` writes).
    pub open spec fn spec_message(&self) -> Seq<char> {
        match self {
            ParseError::FileError(m) => "文件读取失败: "@ + m@,
            ParseError::EncodingError(m) => "编码格式错误: "@ + m@,
            ParseError::FormatError { line, message } => "码表格式错误: 第"@ + decimal(
                *line as nat,
            ) + "行: "@ + message@,
        }
    }

    /// The message of this error.
    pub fn message(&self) -> (r: String)
        ensures
            r@ == self.spec_message(),
    {
        match self {
            ParseError::FileError(m) => {
                let mut r = str_to_string("文件读取失败: ");
                string_push_str(&mut r, m.as_str());
                r
            },
            ParseError::EncodingError(m) => {
                let mut r = str_to_string("编码格式错误: ");
                string_push_str(&mut r, m.as_str());
                r
            },
            ParseError::FormatError { line, message } => {
                let mut r = str_to_string("码表格式错误: 第");
                push_decimal(&mut r, *line);
                string_push_str(&mut r, "行: ");
                string_push_str(&mut r, message.as_str());
                r
            },
        }
    }

    /// The input-method error that this error becomes.
    pub fn into_ime_error(&self) -> (r: ImeError)
        ensures
            r.kind_and_text() == (1int, self.spec_message()),
    {
        ImeError::ParseError(self.message())
    }
}

/// A fuzzy rule read from a table.
pub struct CinFuzzyRule {
    /// Name of the rule.
    pub name: String,
    /// The sound replaced.
    pub from: String,
    /// The sound put in its place.
    pub to: String,
}

/// The value of a fuzzy rule: name, from, to.
pub open spec fn rule_view(r: CinFuzzyRule) -> (Seq<char>, Seq<char>, Seq<char>) {
    (r.name@, r.from@, r.to@)
}

/// The values of a sequence of fuzzy rules.
pub open spec fn rule_views(v: Seq<CinFuzzyRule>) -> Seq<(Seq<char>, Seq<char>, Seq<char>)> {
    v.map_values(|r: CinFuzzyRule| rule_view(r))
}

/// What a table holds.
pub struct CinParseResult {
    /// The entries, one per code, sorted by code.
    pub entries: Vec<CinEntry>,
    /// The fuzzy rules, in order.
    pub fuzzy_rules: Vec<CinFuzzyRule>,
}

/// The settings of a parser.
pub struct CinConfig {
    /// Path of the table.
    pub path: Seq<char>,
    /// Whether comment lines are skipped.
    pub skip_comments: bool,
    /// Prefix of comment lines.
    pub comment_prefix: Seq<char>,
    /// Whether blank lines are skipped.
    pub skip_empty: bool,
    /// Longest code, in characters.
    pub max_code_len: usize,
}

/// Parser of `.cin` tables.
pub struct CinParser {
    path: String,
    skip_comments: bool,
    comment_prefix: String,
    skip_empty: bool,
    max_code_len: usize,
}

/// What one line of a table does.
pub enum LineAct {
    /// Nothing.
    Skip,
    /// Opens the key-name section.
    KeynameBegin,
    /// Closes the key-name section.
    KeynameEnd,
    /// Opens the fuzzy-rule section.
    FuzzyBegin,
    /// Closes the fuzzy-rule section.
    FuzzyEnd,
    /// A fuzzy rule: name, from, to.
    Rule(Seq<char>, Seq<char>, Seq<char>),
    /// A word: code, word, frequency.
    Entry(Seq<char>, Seq<char>, u32),
    /// A line with fewer than two fields.
    TooFew,
    /// A line whose code is too long.
    TooLong(Seq<char>),
}

/// The word and frequency that the fields `p` (code first) of an entry line give.
pub open spec fn word_and_freq(p: Seq<Seq<char>>) -> (Seq<char>, u32) {
    let n = p.len() as int;
    if n >= 3 && p[n - 1] == "_"@ {
        (join(p.subrange(1, n - 1), " "@), 0)
    } else if n >= 3 && parse_u32(p[n - 1]) is Some {
        (join(p.subrange(1, n - 1), " "@), parse_u32(p[n - 1])->0)
    } else {
        (join(p.subrange(1, n), " "@), 0)
    }
}

/// What `line` does, inside or outside the key-name (`kn`) and fuzzy (`fz`) sections.
pub open spec fn classify(cfg: CinConfig, kn: bool, fz: bool, line: Seq<char>) -> LineAct {
    let t = trim(line);
    if cfg.skip_empty && t.len() == 0 {
        LineAct::Skip
    } else if starts_with(t, "%keyname begin"@) {
        LineAct::KeynameBegin
    } else if starts_with(t, "%keyname end"@) {
        LineAct::KeynameEnd
    } else if starts_with(t, "%fuzzy begin"@) {
        LineAct::FuzzyBegin
    } else if starts_with(t, "%fuzzy end"@) {
        LineAct::FuzzyEnd
    } else if kn {
        LineAct::Skip
    } else if fz {
        if cfg.skip_comments && starts_with(t, cfg.comment_prefix) {
            LineAct::Skip
        } else {
            let p = fields(t);
            if p.len() == 3 {
                LineAct::Rule(p[0], p[1], p[2])
            } else {
                LineAct::Skip
            }
        }
    } else if cfg.skip_comments && starts_with(t, cfg.comment_prefix) {
        LineAct::Skip
    } else {
        let p = fields(t);
        if p.len() < 2 {
            LineAct::TooFew
        } else if p[0].len() > cfg.max_code_len {
            LineAct::TooLong(p[0])
        } else {
            LineAct::Entry(p[0], word_and_freq(p).0, word_and_freq(p).1)
        }
    }
}

/// The state of a parse after some lines.
pub struct RunState {
    /// Inside the key-name section.
    pub kn: bool,
    /// Inside the fuzzy-rule section.
    pub fz: bool,
    /// The words read, each as a code with one word.
    pub src: Seq<GroupItem>,
    /// The fuzzy rules read.
    pub rules: Seq<(Seq<char>, Seq<char>, Seq<char>)>,
    /// The first bad line: its number and what is wrong with it.
    pub error: Option<(nat, LineAct)>,
}

/// The state after line number `lineno` (from 1) acts in state `st`.
pub open spec fn step(cfg: CinConfig, st: RunState, line: Seq<char>, lineno: nat) -> RunState {
    match classify(cfg, st.kn, st.fz, line) {
        LineAct::Skip => st,
        LineAct::KeynameBegin => RunState { kn: true, ..st },
        LineAct::KeynameEnd => RunState { kn: false, ..st },
        LineAct::FuzzyBegin => RunState { fz: true, ..st },
        LineAct::FuzzyEnd => RunState { fz: false, ..st },
        LineAct::Rule(n, f, t) => RunState { rules: st.rules.push((n, f, t)), ..st },
        LineAct::Entry(c, w, f) => RunState {
            src: st.src.push((c, seq![WordEntryView { word: w, freq: f, pos: None }])),
            ..st
        },
        LineAct::TooFew => RunState { error: Some((lineno, LineAct::TooFew)), ..st },
        LineAct::TooLong(c) => RunState { error: Some((lineno, LineAct::TooLong(c))), ..st },
    }
}

/// The state after the lines `ls`, stopped at the first bad line.
pub open spec fn run(cfg: CinConfig, ls: Seq<Seq<char>>) -> RunState
    decreases ls.len(),
{
    if ls.len() == 0 {
        RunState { kn: false, fz: false, src: seq![], rules: seq![], error: None }
    } else {
        let prev = run(cfg, ls.drop_last());
        if prev.error is Some {
            prev
        } else {
            step(cfg, prev, ls.last(), ls.len())
        }
    }
}

/// Once a line is bad, the later lines change nothing.
pub proof fn lemma_run_error_stays(cfg: CinConfig, ls: Seq<Seq<char>>, k: int)
    requires
        0 <= k <= ls.len(),
        run(cfg, ls.take(k)).error is Some,
    ensures
        run(cfg, ls) == run(cfg, ls.take(k)),
    decreases ls.len() - k,
{
    if k < ls.len() {
        assert(ls.take(k + 1).drop_last() == ls.take(k));
        lemma_run_error_stays(cfg, ls, k + 1);
    } else {
        assert(ls.take(k) == ls);
    }
}

/// Whether a line's act refuses the table: too few fields or a code too long.
pub open spec fn is_bad_act(a: LineAct) -> bool {
    a is TooFew || a is TooLong
}

/// Whether line `k` of `ls` (from 0) is a bad data line: read in the
/// sections that the lines before it open, it has too few fields or a code
/// too long.
pub open spec fn bad_at(cfg: CinConfig, ls: Seq<Seq<char>>, k: int) -> bool {
    let st = run(cfg, ls.take(k));
    is_bad_act(classify(cfg, st.kn, st.fz, ls[k]))
}

/// Parsing fails exactly when some data line is bad, and then at the first
/// one: the error names that line's number (from 1) and what is wrong
/// with it.
pub proof fn law_parse_fails_iff_bad_line(cfg: CinConfig, ls: Seq<Seq<char>>)
    ensures
        run(cfg, ls).error is Some <==> exists|k: int| 0 <= k < ls.len() && #[trigger] bad_at(cfg, ls, k),
        run(cfg, ls).error matches Some((n, act)) ==> {
            &&& 1 <= n <= ls.len()
            &&& bad_at(cfg, ls, n - 1)
            &&& act == classify(
                cfg,
                run(cfg, ls.take(n - 1)).kn,
                run(cfg, ls.take(n - 1)).fz,
                ls[n - 1],
            )
            &&& forall|k: int| 0 <= k < n - 1 ==> !#[trigger] bad_at(cfg, ls, k)
        },
    decreases ls.len(),
{
    if ls.len() > 0 {
        let h = ls.drop_last();
        let l = ls.len() - 1;
        law_parse_fails_iff_bad_line(cfg, h);
        assert forall|k: int| 0 <= k < l implies #[trigger] bad_at(cfg, ls, k) == bad_at(cfg, h, k) by {
            assert(ls.take(k) =~= h.take(k));
            assert(ls[k] == h[k]);
        }
        assert(ls.take(l) =~= h);
        assert(ls[l] == ls.last());
        if run(cfg, h).error is Some {
            let k = choose|k: int| 0 <= k < h.len() && #[trigger] bad_at(cfg, h, k);
            assert(bad_at(cfg, ls, k));
            if let Some((n, act)) = run(cfg, h).error {
                assert(ls.take(n - 1) =~= h.take(n - 1));
                assert(ls[n - 1] == h[n - 1]);
                assert(bad_at(cfg, ls, n - 1));
            }
        } else {
            assert forall|k: int| 0 <= k < l implies !#[trigger] bad_at(cfg, ls, k) by {
                assert(bad_at(cfg, ls, k) == bad_at(cfg, h, k));
            }
            let st = run(cfg, h);
            assert(run(cfg, ls) == step(cfg, st, ls.last(), ls.len()));
            assert(bad_at(cfg, ls, l) == is_bad_act(classify(cfg, st.kn, st.fz, ls.last())));
            if exists|k: int| 0 <= k < ls.len() && #[trigger] bad_at(cfg, ls, k) {
                let k = choose|k: int| 0 <= k < ls.len() && #[trigger] bad_at(cfg, ls, k);
                assert(k == l);
            }
        }
    }
}

/// Whether validation refuses `line`: trimmed, it is neither skipped as
/// blank nor as a comment, and has fewer than two fields.
pub open spec fn line_invalid(cfg: CinConfig, line: Seq<char>) -> bool {
    let t = trim(line);
    &&& !(cfg.skip_empty && t.len() == 0)
    &&& !(cfg.skip_comments && starts_with(t, cfg.comment_prefix))
    &&& fields(t).len() < 2
}

/// The number (from 1) of the first line of `ls` from index `i` on that
/// validation refuses.
pub open spec fn first_invalid_from(cfg: CinConfig, ls: Seq<Seq<char>>, i: int) -> Option<nat>
    decreases ls.len() - i,
{
    if i < 0 || i >= ls.len() {
        None
    } else if line_invalid(cfg, ls[i]) {
        Some((i + 1) as nat)
    } else {
        first_invalid_from(cfg, ls, i + 1)
    }
}

/// The message of a parse error at line `lineno`.
pub open spec fn line_error_message(cfg: CinConfig, lineno: nat, act: LineAct) -> Seq<char> {
    match act {
        LineAct::TooLong(code) => "第"@ + decimal(lineno) + "行编码超长: '"@ + code + "' 长度"@
            + decimal(code.len()) + "超过限制"@ + decimal(
            cfg.max_code_len as nat,
        ),
        _ => "第"@ + decimal(lineno) + "行格式错误: 需要至少'编码 汉字'两个字段"@,
    }
}

/// What parsing `content` gives: the error of the first bad line, or the
/// entries grouped by code with the fuzzy rules.
pub open spec fn parse_outcome_ok(cfg: CinConfig, content: Seq<char>, res: CinParseResult) -> bool {
    let st = run(cfg, lines(content));
    &&& st.error is None
    &&& is_grouping(cin_views(res.entries@), st.src)
    &&& rule_views(res.fuzzy_rules@) == st.rules
}

/// The error that parsing `content` gives.
pub open spec fn parse_outcome_err(cfg: CinConfig, content: Seq<char>, e: ImeError) -> bool {
    let st = run(cfg, lines(content));
    &&& st.error matches Some((n, act))
    &&& e.kind_and_text() == (1int, line_error_message(cfg, n, act))
}

/// An executable form of [`LineAct`].
enum ExecAct {
    Skip,
    KeynameBegin,
    KeynameEnd,
    FuzzyBegin,
    FuzzyEnd,
    Rule(Vec<char>, Vec<char>, Vec<char>),
    Entry(Vec<char>, Vec<char>, u32),
    TooFew,
    TooLong(Vec<char>),
}

impl ExecAct {
    spec fn view(&self) -> LineAct {
        match self {
            ExecAct::Skip => LineAct::Skip,
            ExecAct::KeynameBegin => LineAct::KeynameBegin,
            ExecAct::KeynameEnd => LineAct::KeynameEnd,
            ExecAct::FuzzyBegin => LineAct::FuzzyBegin,
            ExecAct::FuzzyEnd => LineAct::FuzzyEnd,
            ExecAct::Rule(a, b, c) => LineAct::Rule(a@, b@, c@),
            ExecAct::Entry(a, b, f) => LineAct::Entry(a@, b@, *f),
            ExecAct::TooFew => LineAct::TooFew,
            ExecAct::TooLong(a) => LineAct::TooLong(a@),
        }
    }
}

/// The word and frequency of the fields `p` of an entry line.
fn exec_word_and_freq(p: &Vec<Vec<char>>) -> (r: (Vec<char>, u32))
    requires
        p@.len() >= 2,
    ensures
        (r.0@, r.1) == word_and_freq(views(p@)),
{
    let n = p.len();
    let sep = str_chars(" ");
    assert(views(p@).len() == n);
    if n >= 3 && chars_eq_str(p[n - 1].as_slice(), "_") {
        (join_range(p, 1, n - 1, sep.as_slice()), 0)
    } else if n >= 3 {
        match parse_u32_chars(p[n - 1].as_slice()) {
            Some(f) => (join_range(p, 1, n - 1, sep.as_slice()), f),
            None => (join_range(p, 1, n, sep.as_slice()), 0),
        }
    } else {
        (join_range(p, 1, n, sep.as_slice()), 0)
    }
}

impl CinParser {
    /// The settings of this parser.
    pub closed spec fn config(&self) -> CinConfig {
        CinConfig {
            path: self.path@,
            skip_comments: self.skip_comments,
            comment_prefix: self.comment_prefix@,
            skip_empty: self.skip_empty,
            max_code_len: self.max_code_len,
        }
    }

    /// A parser of the table at `path`: comments starting with `%` and
    /// blank lines skipped, codes of at most 32 characters.
    pub fn new(path: &str) -> (r: Self)
        ensures
            r.config() == (CinConfig {
                path: path@,
                skip_comments: true,
                comment_prefix: "%"@,
                skip_empty: true,
                max_code_len: 32,
            }),
    {
        CinParser {
            path: str_to_string(path),
            skip_comments: true,
            comment_prefix: str_to_string("%"),
            skip_empty: true,
            max_code_len: 32,
        }
    }

    /// Sets whether comment lines are skipped.
    pub fn with_skip_comments(self, skip: bool) -> (r: Self)
        ensures
            r.config() == (CinConfig { skip_comments: skip, ..self.config() }),
    {
        CinParser { skip_comments: skip, ..self }
    }

    /// Sets the prefix of comment lines.
    pub fn with_comment_prefix(self, prefix: &str) -> (r: Self)
        ensures
            r.config() == (CinConfig { comment_prefix: prefix@, ..self.config() }),
    {
        CinParser { comment_prefix: str_to_string(prefix), ..self }
    }

    /// Sets the longest code, in characters.
    pub fn with_max_code_len(self, max: usize) -> (r: Self)
        ensures
            r.config() == (CinConfig { max_code_len: max, ..self.config() }),
    {
        CinParser { max_code_len: max, ..self }
    }

    /// The path of the table.
    pub fn path(&self) -> (r: &str)
        ensures
            r@ == self.config().path,
    {
        self.path.as_str()
    }

    /// What `line` does.
    fn classify_line(&self, line: &[char], prefix: &[char], kn: bool, fz: bool) -> (r: ExecAct)
        requires
            prefix@ == self.config().comment_prefix,
        ensures
            r.view() == classify(self.config(), kn, fz, line@),
    {
        let t = trim_chars(line);
        let ghost cfg = self.config();
        if self.skip_empty && t.len() == 0 {
            ExecAct::Skip
        } else if chars_starts_with_str(t.as_slice(), "%keyname begin") {
            ExecAct::KeynameBegin
        } else if chars_starts_with_str(t.as_slice(), "%keyname end") {
            ExecAct::KeynameEnd
        } else if chars_starts_with_str(t.as_slice(), "%fuzzy begin") {
            ExecAct::FuzzyBegin
        } else if chars_starts_with_str(t.as_slice(), "%fuzzy end") {
            ExecAct::FuzzyEnd
        } else if kn {
            ExecAct::Skip
        } else if fz {
            if self.skip_comments && chars_starts_with(t.as_slice(), prefix) {
                ExecAct::Skip
            } else {
                let mut p = split_fields(t.as_slice());
                if p.len() == 3 {
                    let c = p.pop().unwrap();
                    let b = p.pop().unwrap();
                    let a = p.pop().unwrap();
                    ExecAct::Rule(a, b, c)
                } else {
                    ExecAct::Skip
                }
            }
        } else if self.skip_comments && chars_starts_with(t.as_slice(), prefix) {
            ExecAct::Skip
        } else {
            let p = split_fields(t.as_slice());
            if p.len() < 2 {
                ExecAct::TooFew
            } else {
                let code = &p[0];
                assert(views(p@)[0] == code@);
                let too_long = code.len() > self.max_code_len;
                if too_long {
                    ExecAct::TooLong(p[0].clone())
                } else {
                    let (w, f) = exec_word_and_freq(&p);
                    ExecAct::Entry(p[0].clone(), w, f)
                }
            }
        }
    }

    /// The error for a bad line.
    fn line_error(&self, lineno: usize, act: &ExecAct) -> (r: ImeError)
        requires
            act.view() is TooFew || act.view() is TooLong,
        ensures
            r.kind_and_text() == (1int, line_error_message(self.config(), lineno as nat, act.view())),
    {
        let mut m = str_to_string("第");
        push_decimal(&mut m, lineno);
        match act {
            ExecAct::TooLong(code) => {
                string_push_str(&mut m, "行编码超长: '");
                string_push_chars(&mut m, code.as_slice());
                string_push_str(&mut m, "' 长度");
                push_decimal(&mut m, code.len());
                string_push_str(&mut m, "超过限制");
                push_decimal(&mut m, self.max_code_len);
            },
            _ => {
                string_push_str(&mut m, "行格式错误: 需要至少'编码 汉字'两个字段");
            },
        }
        ImeError::ParseError(m)
    }

    /// Checks the format of a table held in `content` without parsing it:
    /// the first line that is not blank or a comment (as the settings skip
    /// them) and has fewer than two fields is a `ParseError` naming its
    /// number; otherwise `Ok`.
    pub fn validate_str(&self, content: &str) -> (r: ImeResult<()>)
        ensures
            match first_invalid_from(self.config(), lines(content@), 0) {
                None => r is Ok,
                Some(n) => r matches Err(e) && e.kind_and_text() == (1int, line_error_message(
                    self.config(),
                    n,
                    LineAct::TooFew,
                )),
            },
    {
        let ghost cfg = self.config();
        let chars = str_chars(content);
        let ls = split_lines(chars.as_slice());
        let ghost lsv = views(ls@);
        let prefix = str_chars(self.comment_prefix.as_str());
        let mut i: usize = 0;
        while i < ls.len()
            invariant
                i <= ls@.len(),
                lsv == views(ls@),
                lsv == lines(content@),
                cfg == self.config(),
                prefix@ == cfg.comment_prefix,
                first_invalid_from(cfg, lsv, 0) == first_invalid_from(cfg, lsv, i as int),
            decreases ls@.len() - i,
        {
            assert(lsv[i as int] == ls@[i as int]@);
            let t = trim_chars(ls[i].as_slice());
            let skipped = (self.skip_empty && t.len() == 0) || (self.skip_comments
                && chars_starts_with(t.as_slice(), prefix.as_slice()));
            if !skipped {
                let p = split_fields(t.as_slice());
                if p.len() < 2 {
                    assert(line_invalid(cfg, lsv[i as int]));
                    return Err(self.line_error(i + 1, &ExecAct::TooFew));
                }
            }
            i = i + 1;
        }
        Ok(())
    }

    /// Parses a table held in `content`; the fuzzy rules are dropped.
    pub fn parse_str(&self, content: &str) -> (r: ImeResult<Vec<CinEntry>>)
        ensures
            match r {
                Ok(entries) => run(self.config(), lines(content@)).error is None && is_grouping(
                    cin_views(entries@),
                    run(self.config(), lines(content@)).src,
                ),
                Err(e) => parse_outcome_err(self.config(), content@, e),
            },
    {
        match self.parse_str_full(content) {
            Ok(res) => Ok(res.entries),
            Err(e) => Err(e),
        }
    }

    /// Parses a table held in `content`.
    pub fn parse_str_full(&self, content: &str) -> (r: ImeResult<CinParseResult>)
        ensures
            match r {
                Ok(res) => parse_outcome_ok(self.config(), content@, res),
                Err(e) => parse_outcome_err(self.config(), content@, e),
            },
    {
        let ghost cfg = self.config();
        let chars = str_chars(content);
        let ls = split_lines(chars.as_slice());
        let ghost lsv = views(ls@);
        let prefix = str_chars(self.comment_prefix.as_str());
        let mut entries: Vec<CinEntry> = Vec::new();
        let mut keys: Vec<Vec<char>> = Vec::new();
        let mut rules: Vec<CinFuzzyRule> = Vec::new();
        let mut kn = false;
        let mut fz = false;
        let ghost mut src: Seq<GroupItem> = seq![];
        proof {
            lemma_grouping_empty();
            assert(cin_views(entries@) =~= Seq::<GroupItem>::empty());
            assert(rule_views(rules@) =~= Seq::<(Seq<char>, Seq<char>, Seq<char>)>::empty());
            assert(lsv.take(0) =~= Seq::<Seq<char>>::empty());
        }
        let mut i: usize = 0;
        while i < ls.len()
            invariant
                cfg == self.config(),
                prefix@ == cfg.comment_prefix,
                lsv == views(ls@),
                lsv == lines(content@),
                i <= ls@.len(),
                run(cfg, lsv.take(i as int)) == (RunState {
                    kn,
                    fz,
                    src,
                    rules: rule_views(rules@),
                    error: None,
                }),
                is_grouping(cin_views(entries@), src),
                keys@.len() == entries@.len(),
                forall|k: int| 0 <= k < keys@.len() ==> (#[trigger] keys@[k])@ == entries@[k].code@,
            decreases ls@.len() - i,
        {
            let act = self.classify_line(ls[i].as_slice(), prefix.as_slice(), kn, fz);
            let ghost prev = run(cfg, lsv.take(i as int));
            proof {
                assert(lsv.take(i + 1).drop_last() == lsv.take(i as int));
                assert(lsv.take(i + 1).last() == ls@[i as int]@);
                assert(lsv.take(i + 1).len() == i + 1);
            }
            match act {
                ExecAct::Skip => {},
                ExecAct::KeynameBegin => {
                    kn = true;
                },
                ExecAct::KeynameEnd => {
                    kn = false;
                },
                ExecAct::FuzzyBegin => {
                    fz = true;
                },
                ExecAct::FuzzyEnd => {
                    fz = false;
                },
                ExecAct::Rule(a, b, c) => {
                    let rule = CinFuzzyRule {
                        name: string_from_chars(a.as_slice()),
                        from: string_from_chars(b.as_slice()),
                        to: string_from_chars(c.as_slice()),
                    };
                    rules.push(rule);
                    assert(rule_views(rules@) =~= prev.rules.push((a@, b@, c@)));
                },
                ExecAct::Entry(code, w, f) => {
                    let word = WordEntry { word: string_from_chars(w.as_slice()), freq: f, pos: None };
                    let mut words: Vec<WordEntry> = Vec::new();
                    words.push(word);
                    let code_str = string_from_chars(code.as_slice());
                    let ghost item = (code@, word_views(words@));
                    assert(word_views(words@) =~= seq![WordEntryView { word: w@, freq: f, pos: None }]);
                    group_add(&mut entries, &mut keys, code, code_str, words, Ghost(src));
                    proof {
                        src = src.push(item);
                    }
                },
                ExecAct::TooFew => {
                    proof {
                        lemma_run_error_stays(cfg, lsv, i + 1);
                    }
                    return Err(self.line_error(i + 1, &act));
                },
                ExecAct::TooLong(_) => {
                    proof {
                        lemma_run_error_stays(cfg, lsv, i + 1);
                    }
                    return Err(self.line_error(i + 1, &act));
                },
            }
            i = i + 1;
        }
        proof {
            assert(lsv.take(ls@.len() as int) == lsv);
        }
        Ok(CinParseResult { entries, fuzzy_rules: rules })
    }
}

/// Merges entries of the same code: one entry per code, sorted by code,
/// holding the words of all entries with that code in their order.
pub fn merge_entries(entries: Vec<CinEntry>) -> (r: Vec<CinEntry>)
    ensures
        is_grouping(cin_views(r@), cin_views(entries@)),
{
    let mut out: Vec<CinEntry> = Vec::new();
    let mut keys: Vec<Vec<char>> = Vec::new();
    let ghost src = cin_views(entries@);
    proof {
        lemma_grouping_empty();
        assert(cin_views(out@) =~= Seq::<GroupItem>::empty());
        assert(src.take(0) =~= Seq::<GroupItem>::empty());
    }
    let mut i: usize = 0;
    let n = entries.len();
    while i < n
        invariant
            n == src.len(),
            src == cin_views(entries@),
            i <= n,
            is_grouping(cin_views(out@), src.take(i as int)),
            keys@.len() == out@.len(),
            forall|k: int| 0 <= k < keys@.len() ==> (#[trigger] keys@[k])@ == out@[k].code@,
        decreases n - i,
    {
        let e = entries[i].duplicate();
        assert(cin_view(e) == src[i as int]);
        let code_chars = str_chars(e.code.as_str());
        group_add(&mut out, &mut keys, code_chars, e.code, e.words, Ghost(src.take(i as int)));
        assert(src.take(i + 1) == src.take(i as int).push(src[i as int]));
        i = i + 1;
    }
    assert(src.take(n as int) == src);
    out
}

} // verus!
