//! The command line: which command the arguments ask for, and the
//! decisions of the interactive mode (what a typed line or a choice does).
//! Reading the terminal, the files and the configuration is the caller's.
use vstd::prelude::*;

use crate::entry::CinEntry;
use crate::text::{
    parse_usize, parse_usize_chars, str_byte_len, str_chars, str_eq, str_to_string,
    string_from_chars, string_push_str, trim, trim_chars, utf8_len,
};
use crate::types::{InputContext, InputMode};

verus! {

broadcast use vstd::seq_lib::group_seq_properties;

/// What went wrong.
#[derive(Debug, Clone, PartialEq, Eq)]
pub enum CliError {
    ConfigError(String),
    DictError(String),
    InputError(String),
    IoError(String),
    RankError(String),
}

/// What went wrong, as values.
pub enum CliErrorView {
    ConfigError(Seq<char>),
    DictError(Seq<char>),
    InputError(Seq<char>),
    IoError(Seq<char>),
    RankError(Seq<char>),
}

impl View for CliError {
    type V = CliErrorView;

    open spec fn view(&self) -> CliErrorView {
        match self {
            CliError::ConfigError(m) => CliErrorView::ConfigError(m@),
            CliError::DictError(m) => CliErrorView::DictError(m@),
            CliError::InputError(m) => CliErrorView::InputError(m@),
            CliError::IoError(m) => CliErrorView::IoError(m@),
            CliError::RankError(m) => CliErrorView::RankError(m@),
        }
    }
}

impl CliErrorView {
    /// The text shown for the error: its kind, a colon, and the detail.
    pub open spec fn text(self) -> Seq<char> {
        match self {
            CliErrorView::ConfigError(m) => "配置错误: "@ + m,
            CliErrorView::DictError(m) => "词典错误: "@ + m,
            CliErrorView::InputError(m) => "输入错误: "@ + m,
            CliErrorView::IoError(m) => "IO 错误: "@ + m,
            CliErrorView::RankError(m) => "排序错误: "@ + m,
        }
    }
}

impl CliError {
    /// The text shown for the error.
    pub fn message(&self) -> (r: String)
        ensures
            r@ == self@.text(),
    {
        let (head, m) = match self {
            CliError::ConfigError(m) => ("配置错误: ", m),
            CliError::DictError(m) => ("词典错误: ", m),
            CliError::InputError(m) => ("输入错误: ", m),
            CliError::IoError(m) => ("IO 错误: ", m),
            CliError::RankError(m) => ("排序错误: ", m),
        };
        let mut s = str_to_string(head);
        string_push_str(&mut s, m.as_str());
        s
    }
}

/// A command. Paths are kept as the text given.
#[derive(Debug, Clone, PartialEq, Eq)]
pub enum CliCommand {
    Interactive,
    Query { code: String },
    TestMatch { code: String, dict_path: String },
    BuildDict { dict_path: String, out_path: String },
    Validate { dict_path: String },
    Stats { dict_path: Option<String> },
    Version,
    Help,
}

/// A command, as values.
pub enum CliCommandView {
    Interactive,
    Query(Seq<char>),
    TestMatch(Seq<char>, Seq<char>),
    BuildDict(Seq<char>, Seq<char>),
    Validate(Seq<char>),
    Stats(Option<Seq<char>>),
    Version,
    Help,
}

impl View for CliCommand {
    type V = CliCommandView;

    open spec fn view(&self) -> CliCommandView {
        match self {
            CliCommand::Interactive => CliCommandView::Interactive,
            CliCommand::Query { code } => CliCommandView::Query(code@),
            CliCommand::TestMatch { code, dict_path } => CliCommandView::TestMatch(
                code@,
                dict_path@,
            ),
            CliCommand::BuildDict { dict_path, out_path } => CliCommandView::BuildDict(
                dict_path@,
                out_path@,
            ),
            CliCommand::Validate { dict_path } => CliCommandView::Validate(dict_path@),
            CliCommand::Stats { dict_path } => CliCommandView::Stats(
                match dict_path {
                    Some(p) => Some(p@),
                    None => None,
                },
            ),
            CliCommand::Version => CliCommandView::Version,
            CliCommand::Help => CliCommandView::Help,
        }
    }
}

/// The command that the arguments `a` ask for (`a[0]` is the program).
pub open spec fn command_of(a: Seq<Seq<char>>) -> Result<CliCommandView, CliErrorView> {
    if a.len() < 2 {
        Ok(CliCommandView::Help)
    } else {
        let c = a[1];
        if c == "interactive"@ || c == "i"@ {
            Ok(CliCommandView::Interactive)
        } else if c == "query"@ || c == "q"@ {
            if a.len() < 3 {
                Err(CliErrorView::InputError("请提供查询编码: wbwime query <code>"@))
            } else {
                Ok(CliCommandView::Query(a[2]))
            }
        } else if c == "test-match"@ || c == "t"@ {
            if a.len() < 4 {
                Err(CliErrorView::InputError("用法: wbwime "@ + "test-match <code> <dict-path>"@))
            } else {
                Ok(CliCommandView::TestMatch(a[2], a[3]))
            }
        } else if c == "build-dict"@ || c == "b"@ {
            if a.len() < 4 {
                Err(CliErrorView::InputError("用法: wbwime build-dict <dict-path> <out-path>"@))
            } else {
                Ok(CliCommandView::BuildDict(a[2], a[3]))
            }
        } else if c == "validate"@ {
            if a.len() < 3 {
                Err(CliErrorView::InputError("请提供词典路径: wbwime validate <dict-path>"@))
            } else {
                Ok(CliCommandView::Validate(a[2]))
            }
        } else if c == "stats"@ || c == "s"@ {
            Ok(
                CliCommandView::Stats(
                    if a.len() >= 3 {
                        Some(a[2])
                    } else {
                        None
                    },
                ),
            )
        } else if c == "version"@ || c == "v"@ {
            Ok(CliCommandView::Version)
        } else if c == "help"@ || c == "-h"@ || c == "--help"@ {
            Ok(CliCommandView::Help)
        } else {
            Err(CliErrorView::InputError("未知命令: "@ + c))
        }
    }
}

/// The texts of a list of strings.
pub open spec fn arg_views(a: Seq<String>) -> Seq<Seq<char>> {
    a.map_values(|s: String| s@)
}

/// The view of a parse result.
pub open spec fn result_view(r: Result<CliCommand, CliError>) -> Result<
    CliCommandView,
    CliErrorView,
> {
    match r {
        Ok(c) => Ok(c@),
        Err(e) => Err(e@),
    }
}

/// Reads the command from the arguments (the first is the program name):
/// none is help; an unknown command, or one without its arguments, is an
/// input error.
pub fn parse_args(args: &[String]) -> (r: Result<CliCommand, CliError>)
    ensures
        result_view(r) == command_of(arg_views(args@)),
{
    let ghost a = arg_views(args@);
    if args.len() < 2 {
        return Ok(CliCommand::Help);
    }
    assert(a[1] == args@[1]@);
    let c = args[1].as_str();
    if str_eq(c, "interactive") || str_eq(c, "i") {
        Ok(CliCommand::Interactive)
    } else if str_eq(c, "query") || str_eq(c, "q") {
        if args.len() < 3 {
            Err(CliError::InputError(str_to_string("请提供查询编码: wbwime query <code>")))
        } else {
            assert(a[2] == args@[2]@);
            Ok(CliCommand::Query { code: args[2].clone() })
        }
    } else if str_eq(c, "test-match") || str_eq(c, "t") {
        match parse_two_args(args, "test-match <code> <dict-path>") {
            Ok((code, dict_path)) => Ok(CliCommand::TestMatch { code, dict_path }),
            Err(e) => Err(e),
        }
    } else if str_eq(c, "build-dict") || str_eq(c, "b") {
        if args.len() < 4 {
            Err(CliError::InputError(str_to_string("用法: wbwime build-dict <dict-path> <out-path>")))
        } else {
            assert(a[2] == args@[2]@);
            assert(a[3] == args@[3]@);
            Ok(CliCommand::BuildDict { dict_path: args[2].clone(), out_path: args[3].clone() })
        }
    } else if str_eq(c, "validate") {
        if args.len() < 3 {
            Err(CliError::InputError(str_to_string("请提供词典路径: wbwime validate <dict-path>")))
        } else {
            assert(a[2] == args@[2]@);
            Ok(CliCommand::Validate { dict_path: args[2].clone() })
        }
    } else if str_eq(c, "stats") || str_eq(c, "s") {
        let path = if args.len() >= 3 {
            assert(a[2] == args@[2]@);
            Some(args[2].clone())
        } else {
            None
        };
        Ok(CliCommand::Stats { dict_path: path })
    } else if str_eq(c, "version") || str_eq(c, "v") {
        Ok(CliCommand::Version)
    } else if str_eq(c, "help") || str_eq(c, "-h") || str_eq(c, "--help") {
        Ok(CliCommand::Help)
    } else {
        let mut m = str_to_string("未知命令: ");
        string_push_str(&mut m, c);
        Err(CliError::InputError(m))
    }
}

/// The two arguments after the command, or an input error giving the usage.
pub fn parse_two_args(args: &[String], usage: &str) -> (r: Result<(String, String), CliError>)
    ensures
        args@.len() < 4 ==> (r matches Err(CliError::InputError(m)) && m@ == "用法: wbwime "@
            + usage@),
        args@.len() >= 4 ==> (r matches Ok((x, y)) && x@ == args@[2]@ && y@ == args@[3]@),
{
    if args.len() < 4 {
        let mut m = str_to_string("用法: wbwime ");
        string_push_str(&mut m, usage);
        Err(CliError::InputError(m))
    } else {
        Ok((args[2].clone(), args[3].clone()))
    }
}

/// The dictionary used when none is given.
pub fn default_dict_path() -> (r: String)
    ensures
        r@ == "resources/dicts/cs-oi.cin"@,
{
    str_to_string("resources/dicts/cs-oi.cin")
}

/// The input context for matching `buffer`: pinyin, cursor at the end,
/// nothing chosen, session 1.
pub fn make_context(buffer: &str) -> (r: InputContext)
    ensures
        r@.buffer == buffer@,
        r@.cursor == utf8_len(buffer@),
        r@.mode == InputMode::Pinyin,
        r@.selected.len() == 0,
        r@.session_id == 1,
{
    let cursor = str_byte_len(buffer);
    let r = InputContext {
        buffer: str_to_string(buffer),
        cursor,
        mode: InputMode::Pinyin,
        selected: Vec::new(),
        session_id: 1,
    };
    assert(crate::types::string_views(r.selected@) =~= Seq::<Seq<char>>::empty());
    r
}

/// What to do after a line was typed in the interactive mode.
#[derive(Debug, Clone, PartialEq, Eq)]
pub enum LineAction {
    /// Leave.
    Quit,
    /// Ask for the next line.
    Skip,
    /// Match this spelling, show its ranked candidates and ask for a choice.
    Match(String),
}

/// What to do after a choice was typed in the interactive mode.
#[derive(Debug, Clone, Copy, PartialEq, Eq)]
pub enum ChoiceAction {
    /// Go on with the next line.
    Continue,
    /// Leave.
    Quit,
    /// Output candidate `n` (from 0) and learn it.
    Select(usize),
    /// The number is not one of the candidates.
    InvalidIndex,
    /// Not a number.
    InvalidInput,
}

/// The interactive mode's spelling.
pub struct InteractiveSession {
    buffer: String,
}

impl View for InteractiveSession {
    type V = Seq<char>;

    closed spec fn view(&self) -> Seq<char> {
        self.buffer@
    }
}

/// The spelling `b` and action after the line `line`.
pub open spec fn line_step(b: Seq<char>, line: Seq<char>) -> (Seq<char>, LineActionView) {
    let t = trim(line);
    if t == "quit"@ || t == "exit"@ {
        (b, LineActionView::Quit)
    } else if t == "clear"@ || t == "c"@ {
        (seq![], LineActionView::Skip)
    } else if t.len() == 0 && b.len() == 0 {
        (b, LineActionView::Skip)
    } else {
        (b + t, LineActionView::Match(b + t))
    }
}

/// A line action, as values.
pub enum LineActionView {
    Quit,
    Skip,
    Match(Seq<char>),
}

/// The view of a line action.
pub open spec fn line_action_view(a: LineAction) -> LineActionView {
    match a {
        LineAction::Quit => LineActionView::Quit,
        LineAction::Skip => LineActionView::Skip,
        LineAction::Match(s) => LineActionView::Match(s@),
    }
}

/// The spelling and action after the choice `choice`, with `n` candidates
/// shown.
pub open spec fn choice_step(b: Seq<char>, choice: Seq<char>, n: usize) -> (Seq<char>, ChoiceAction) {
    let t = trim(choice);
    if t == "b"@ || t == "backspace"@ {
        (if b.len() > 0 {
            b.drop_last()
        } else {
            b
        }, ChoiceAction::Continue)
    } else if t == "q"@ || t == "quit"@ || t == "exit"@ {
        if b.len() > 0 {
            (seq![], ChoiceAction::Continue)
        } else {
            (b, ChoiceAction::Quit)
        }
    } else if t.len() == 0 {
        (seq![], ChoiceAction::Continue)
    } else {
        match parse_usize(t) {
            Some(i) => if 1 <= i && i <= n {
                (seq![], ChoiceAction::Select((i - 1) as usize))
            } else {
                (b, ChoiceAction::InvalidIndex)
            },
            None => (b, ChoiceAction::InvalidInput),
        }
    }
}

impl InteractiveSession {
    /// Nothing typed.
    pub fn new() -> (r: Self)
        ensures
            r@.len() == 0,
    {
        InteractiveSession { buffer: String::new() }
    }

    /// The spelling typed so far.
    pub fn buffer(&self) -> (r: &str)
        ensures
            r@ == self@,
    {
        self.buffer.as_str()
    }

    /// The prompt: `> `, after the spelling when there is one.
    pub fn prompt(&self) -> (r: String)
        ensures
            r@ == if self@.len() == 0 {
                "> "@
            } else {
                self@ + " > "@
            },
    {
        if str_chars(self.buffer.as_str()).len() == 0 {
            str_to_string("> ")
        } else {
            let mut s = self.buffer.clone();
            string_push_str(&mut s, " > ");
            s
        }
    }

    /// A line was typed: `quit`/`exit` leaves, `clear`/`c` empties the
    /// spelling, an empty line with nothing typed asks again; otherwise the
    /// trimmed line is added to the spelling, which is to be matched.
    pub fn on_line(&mut self, line: &str) -> (r: LineAction)
        ensures
            (final(self)@, line_action_view(r)) == line_step(old(self)@, line@),
    {
        let lc = str_chars(line);
        let t = trim_chars(lc.as_slice());
        let ts = string_from_chars(t.as_slice());
        let tstr = ts.as_str();
        if str_eq(tstr, "quit") || str_eq(tstr, "exit") {
            return LineAction::Quit;
        }
        if str_eq(tstr, "clear") || str_eq(tstr, "c") {
            self.buffer = String::new();
            return LineAction::Skip;
        }
        if t.len() == 0 && str_chars(self.buffer.as_str()).len() == 0 {
            return LineAction::Skip;
        }
        string_push_str(&mut self.buffer, tstr);
        LineAction::Match(self.buffer.clone())
    }

    /// A choice was typed after `n` candidates were shown: `b` takes back a
    /// character; `q` clears the spelling, or leaves when it is empty; an
    /// empty choice clears it; a number from 1 to `n` picks that candidate
    /// and clears it; another number or text is invalid.
    pub fn on_choice(&mut self, choice: &str, n: usize) -> (r: ChoiceAction)
        ensures
            (final(self)@, r) == choice_step(old(self)@, choice@, n),
    {
        let cc = str_chars(choice);
        let t = trim_chars(cc.as_slice());
        let ts = string_from_chars(t.as_slice());
        let tstr = ts.as_str();
        if str_eq(tstr, "b") || str_eq(tstr, "backspace") {
            let mut b = str_chars(self.buffer.as_str());
            if b.len() > 0 {
                b.pop();
                self.buffer = string_from_chars(b.as_slice());
            }
            return ChoiceAction::Continue;
        }
        if str_eq(tstr, "q") || str_eq(tstr, "quit") || str_eq(tstr, "exit") {
            if str_chars(self.buffer.as_str()).len() > 0 {
                self.buffer = String::new();
                return ChoiceAction::Continue;
            }
            return ChoiceAction::Quit;
        }
        if t.len() == 0 {
            self.buffer = String::new();
            return ChoiceAction::Continue;
        }
        match parse_usize_chars(t.as_slice()) {
            Some(i) => {
                if 1 <= i && i <= n {
                    self.buffer = String::new();
                    ChoiceAction::Select(i - 1)
                } else {
                    ChoiceAction::InvalidIndex
                }
            },
            None => ChoiceAction::InvalidInput,
        }
    }
}

/// Counts over a code table: codes, words, and the shortest and longest
/// code in bytes (0 for an empty table).
#[derive(Debug, Clone, Copy, PartialEq, Eq)]
pub struct CodeTableStats {
    pub code_count: usize,
    pub word_count: usize,
    pub min_code_len: usize,
    pub max_code_len: usize,
}

/// The number of words of the entries.
pub open spec fn total_words(es: Seq<CinEntry>) -> int
    decreases es.len(),
{
    if es.len() == 0 {
        0
    } else {
        total_words(es.drop_last()) + es.last().words@.len()
    }
}

/// The counts of a code table.
pub fn code_table_stats(entries: &[CinEntry]) -> (r: CodeTableStats)
    requires
        total_words(entries@) <= usize::MAX,
    ensures
        r.code_count == entries@.len(),
        r.word_count == total_words(entries@),
        entries@.len() == 0 ==> r.min_code_len == 0 && r.max_code_len == 0,
        forall|i: int|
            0 <= i < entries@.len() ==> r.min_code_len <= utf8_len(#[trigger] entries@[i].code@)
                <= r.max_code_len,
        entries@.len() > 0 ==> exists|i: int|
            0 <= i < entries@.len() && r.min_code_len == utf8_len(#[trigger] entries@[i].code@),
        entries@.len() > 0 ==> exists|j: int|
            0 <= j < entries@.len() && r.max_code_len == utf8_len(#[trigger] entries@[j].code@),
{
    let mut words: usize = 0;
    let mut min_len: usize = 0;
    let mut max_len: usize = 0;
    let mut i: usize = 0;
    while i < entries.len()
        invariant
            i <= entries@.len(),
            total_words(entries@) <= usize::MAX,
            words == total_words(entries@.take(i as int)),
            forall|k: int|
                0 <= k < i ==> min_len <= utf8_len(#[trigger] entries@[k].code@) <= max_len,
            i == 0 ==> min_len == 0 && max_len == 0,
            i > 0 ==> exists|k: int| 0 <= k < i && min_len == utf8_len(#[trigger] entries@[k].code@),
            i > 0 ==> exists|k: int| 0 <= k < i && max_len == utf8_len(#[trigger] entries@[k].code@),
        decreases entries@.len() - i,
    {
        let e = &entries[i];
        let len = str_byte_len(e.code.as_str());
        proof {
            assert(entries@.take(i + 1).drop_last() == entries@.take(i as int));
            lemma_total_words_prefix(entries@, i as int + 1);
        }
        words = words + e.words.len();
        if i == 0 {
            min_len = len;
            max_len = len;
        } else {
            if len < min_len {
                min_len = len;
            }
            if len > max_len {
                max_len = len;
            }
        }
        i = i + 1;
    }
    assert(entries@.take(entries@.len() as int) == entries@);
    CodeTableStats { code_count: entries.len(), word_count: words, min_code_len: min_len, max_code_len: max_len }
}

/// A prefix of the entries has no more words than all of them.
proof fn lemma_total_words_prefix(es: Seq<CinEntry>, k: int)
    requires
        0 <= k <= es.len(),
    ensures
        total_words(es.take(k)) <= total_words(es),
    decreases es.len() - k,
{
    if k < es.len() {
        lemma_total_words_prefix(es, k + 1);
        assert(es.take(k + 1).drop_last() == es.take(k));
    } else {
        assert(es.take(k) == es);
    }
}

} // verus!
