//! Mapping of key events to input-method actions.
use vstd::prelude::*;

use crate::text::{
    chars_eq_str, decimal, is_ascii_alnum, join, lines, parse_u32, parse_u32_chars, push_decimal,
    split_lines, str_chars, sub_chars, str_to_string, string_from_chars, string_push_chars, string_push_str,
    trim, trim_chars, utf8_len, views,
};
use crate::types::{ImeError, ImeResult};

verus! {

/// Errors of key mapping.
#[derive(Debug, Clone, PartialEq, Eq)]
pub enum KeyMapperError {
    /// A mapping is not valid.
    InvalidMapping(String),
    /// The key configuration is wrong.
    ConfigError(String),
    /// A key could not be handled.
    ProcessingError(String),
}

impl KeyMapperError {
    /// The message the error shows.
    pub open spec fn spec_message(self) -> Seq<char> {
        match self {
            KeyMapperError::InvalidMapping(m) => "按键映射无效: "@ + m@,
            KeyMapperError::ConfigError(m) => "按键配置错误: "@ + m@,
            KeyMapperError::ProcessingError(m) => "按键处理失败: "@ + m@,
        }
    }

    /// The message the error shows (what its `Display` writes).
    pub fn message(&self) -> (r: String)
        ensures
            r@ == self.spec_message(),
    {
        let (p, m) = match self {
            KeyMapperError::InvalidMapping(m) => ("按键映射无效: ", m),
            KeyMapperError::ConfigError(m) => ("按键配置错误: ", m),
            KeyMapperError::ProcessingError(m) => ("按键处理失败: ", m),
        };
        let mut r = crate::text::str_to_string(p);
        crate::text::string_push_str(&mut r, m.as_str());
        r
    }
}

broadcast use vstd::seq_lib::group_seq_properties;

/// Kinds of keys.
#[derive(PartialEq, Eq, Structural, Clone, Copy, Debug, Hash)]
pub enum KeyType {
    /// A character key.
    Char,
    /// A function key.
    Function,
    /// A control key.
    Control,
    /// A modifier key.
    Modifier,
    /// An arrow key.
    Direction,
    /// Any other key.
    Special,
}

/// A key press.
pub struct KeyEvent {
    /// Virtual key code.
    pub code: u32,
    /// The character typed, if any.
    pub char: Option<char>,
    /// Kind of key.
    pub key_type: KeyType,
    /// Shift held.
    pub shift: bool,
    /// Ctrl held.
    pub ctrl: bool,
    /// Alt held.
    pub alt: bool,
    /// Meta held.
    pub meta: bool,
    /// When the key was pressed, in milliseconds since the epoch.
    pub timestamp: u64,
}

/// The parts that name a key press: the held modifiers, then the
/// character, or `Key(<code>)` without one.
pub open spec fn key_event_parts(e: KeyEvent) -> Seq<Seq<char>> {
    (if e.ctrl {
        seq!["Ctrl"@]
    } else {
        seq![]
    }) + (if e.alt {
        seq!["Alt"@]
    } else {
        seq![]
    }) + (if e.shift {
        seq!["Shift"@]
    } else {
        seq![]
    }) + (if e.meta {
        seq!["Meta"@]
    } else {
        seq![]
    }) + seq![
        match e.char {
            Some(c) => seq![c],
            None => "Key("@ + crate::text::decimal(e.code as nat) + ")"@,
        },
    ]
}

impl KeyEvent {
    /// The key press as text: its parts joined by `+` (what its `Display`
    /// writes), such as `Ctrl+Shift+a` or `Key(13)`.
    pub fn describe(&self) -> (r: String)
        ensures
            r@ == crate::text::join(key_event_parts(*self), "+"@),
    {
        let mut parts: Vec<Vec<char>> = Vec::new();
        if self.ctrl {
            parts.push(crate::text::str_chars("Ctrl"));
        }
        if self.alt {
            parts.push(crate::text::str_chars("Alt"));
        }
        if self.shift {
            parts.push(crate::text::str_chars("Shift"));
        }
        if self.meta {
            parts.push(crate::text::str_chars("Meta"));
        }
        let last: Vec<char> = match self.char {
            Some(c) => {
                let mut v: Vec<char> = Vec::new();
                v.push(c);
                v
            },
            None => {
                let mut s = crate::text::str_to_string("Key(");
                crate::text::push_decimal(&mut s, self.code as usize);
                crate::text::string_push_str(&mut s, ")");
                crate::text::str_chars(s.as_str())
            },
        };
        parts.push(last);
        let sep = crate::text::str_chars("+");
        let n = parts.len();
        proof {
            assert(crate::text::views(parts@).subrange(0, n as int) =~= key_event_parts(*self));
        }
        let j = crate::text::join_range(&parts, 0, n, sep.as_slice());
        crate::text::string_from_chars(j.as_slice())
    }

    /// A plain character-key press, stamped with the current time.
    pub fn new(code: u32, char: Option<char>) -> (r: Self)
        ensures
            r.code == code,
            r.char == char,
            r.key_type == KeyType::Char,
            !r.shift && !r.ctrl && !r.alt && !r.meta,
    {
        KeyEvent {
            code,
            char,
            key_type: KeyType::Char,
            shift: false,
            ctrl: false,
            alt: false,
            meta: false,
            timestamp: crate::clock::now_millis(),
        }
    }

    /// Sets the modifiers.
    pub fn with_modifiers(self, shift: bool, ctrl: bool, alt: bool, meta: bool) -> (r: Self)
        ensures
            r == (KeyEvent { shift, ctrl, alt, meta, ..self }),
    {
        KeyEvent { shift, ctrl, alt, meta, ..self }
    }

    /// Whether the key is a modifier key alone (Shift, Ctrl, Alt or Win).
    pub fn is_modifier_only(&self) -> (r: bool)
        ensures
            r == (self.code == 16 || self.code == 17 || self.code == 18 || self.code == 91),
    {
        self.code == 16 || self.code == 17 || self.code == 18 || self.code == 91
    }

    /// The modifiers: shift, ctrl, alt, meta.
    pub fn modifiers(&self) -> (r: (bool, bool, bool, bool))
        ensures
            r == (self.shift, self.ctrl, self.alt, self.meta),
    {
        (self.shift, self.ctrl, self.alt, self.meta)
    }

    /// The text shown for this key, such as `Ctrl+Shift+a` (what its
    /// `Display` writes).
    pub open spec fn spec_text(&self) -> Seq<char> {
        (if self.ctrl {
            "Ctrl+"@
        } else {
            Seq::empty()
        }) + (if self.alt {
            "Alt+"@
        } else {
            Seq::empty()
        }) + (if self.shift {
            "Shift+"@
        } else {
            Seq::empty()
        }) + (if self.meta {
            "Meta+"@
        } else {
            Seq::empty()
        }) + match self.char {
            Some(c) => seq![c],
            None => "Key("@ + decimal(self.code as nat) + ")"@,
        }
    }

    /// The text shown for this key.
    #[verifier::spinoff_prover]
    #[verifier::rlimit(40)]
    pub fn text(&self) -> (r: String)
        ensures
            r@ == self.spec_text(),
    {
        let mut r = String::new();
        let ghost e = Seq::<char>::empty();
        let ghost s0 = r@;
        if self.ctrl {
            string_push_str(&mut r, "Ctrl+");
        }
        let ghost s1 = r@;
        if self.alt {
            string_push_str(&mut r, "Alt+");
        }
        let ghost s2 = r@;
        if self.shift {
            string_push_str(&mut r, "Shift+");
        }
        let ghost s3 = r@;
        if self.meta {
            string_push_str(&mut r, "Meta+");
        }
        let ghost s4 = r@;
        match self.char {
            Some(c) => crate::text::string_push(&mut r, c),
            None => {
                string_push_str(&mut r, "Key(");
                push_decimal(&mut r, self.code as usize);
                string_push_str(&mut r, ")");
            },
        }
        proof {
            assert(s0 == e);
            if !self.ctrl {
                assert(s1 == s0 + e);
            }
            if !self.alt {
                assert(s2 == s1 + e);
            }
            if !self.shift {
                assert(s3 == s2 + e);
            }
            if !self.meta {
                assert(s4 == s3 + e);
            }
        }
        r
    }

    /// A copy of this event.
    pub fn duplicate(&self) -> (r: KeyEvent)
        ensures
            r == *self,
    {
        KeyEvent {
            code: self.code,
            char: self.char,
            key_type: self.key_type,
            shift: self.shift,
            ctrl: self.ctrl,
            alt: self.alt,
            meta: self.meta,
            timestamp: self.timestamp,
        }
    }
}

/// Actions of the input method.
#[derive(Debug)]
pub enum KeyAction {
    /// Type a character.
    InputChar(char),
    /// Delete a character.
    DeleteChar,
    /// Confirm the input.
    Confirm,
    /// Cancel the input.
    Cancel,
    /// Previous page.
    PageUp,
    /// Next page.
    PageDown,
    /// Previous candidate.
    SelectUp,
    /// Next candidate.
    SelectDown,
    /// Switch the input mode.
    SwitchMode,
    /// Start fuzzy matching.
    TriggerFuzzy,
    /// Any other action, by name.
    Other(String),
}

/// The value of a [`KeyAction`].
pub enum ActionView {
    /// Type a character.
    InputChar(char),
    /// Delete a character.
    DeleteChar,
    /// Confirm the input.
    Confirm,
    /// Cancel the input.
    Cancel,
    /// Previous page.
    PageUp,
    /// Next page.
    PageDown,
    /// Previous candidate.
    SelectUp,
    /// Next candidate.
    SelectDown,
    /// Switch the input mode.
    SwitchMode,
    /// Start fuzzy matching.
    TriggerFuzzy,
    /// Any other action, by name.
    Other(Seq<char>),
}

impl View for KeyAction {
    type V = ActionView;

    open spec fn view(&self) -> ActionView {
        match self {
            KeyAction::InputChar(c) => ActionView::InputChar(*c),
            KeyAction::DeleteChar => ActionView::DeleteChar,
            KeyAction::Confirm => ActionView::Confirm,
            KeyAction::Cancel => ActionView::Cancel,
            KeyAction::PageUp => ActionView::PageUp,
            KeyAction::PageDown => ActionView::PageDown,
            KeyAction::SelectUp => ActionView::SelectUp,
            KeyAction::SelectDown => ActionView::SelectDown,
            KeyAction::SwitchMode => ActionView::SwitchMode,
            KeyAction::TriggerFuzzy => ActionView::TriggerFuzzy,
            KeyAction::Other(s) => ActionView::Other(s@),
        }
    }
}

impl KeyAction {
    /// A copy of this action.
    pub fn duplicate(&self) -> (r: KeyAction)
        ensures
            r@ == self@,
    {
        match self {
            KeyAction::InputChar(c) => KeyAction::InputChar(*c),
            KeyAction::DeleteChar => KeyAction::DeleteChar,
            KeyAction::Confirm => KeyAction::Confirm,
            KeyAction::Cancel => KeyAction::Cancel,
            KeyAction::PageUp => KeyAction::PageUp,
            KeyAction::PageDown => KeyAction::PageDown,
            KeyAction::SelectUp => KeyAction::SelectUp,
            KeyAction::SelectDown => KeyAction::SelectDown,
            KeyAction::SwitchMode => KeyAction::SwitchMode,
            KeyAction::TriggerFuzzy => KeyAction::TriggerFuzzy,
            KeyAction::Other(s) => KeyAction::Other(s.clone()),
        }
    }
}

/// A mapping from a key to an action.
pub struct KeyMapping {
    /// The key.
    pub from: KeyEvent,
    /// The action.
    pub to: KeyAction,
    /// Whether the mapping is used.
    pub enabled: bool,
    /// What the mapping is for.
    pub description: String,
}

impl KeyMapping {
    /// A copy of this mapping.
    pub fn duplicate(&self) -> (r: KeyMapping)
        ensures
            mapping_view(r) == mapping_view(*self),
            r.from == self.from,
    {
        KeyMapping {
            from: self.from.duplicate(),
            to: self.to.duplicate(),
            enabled: self.enabled,
            description: self.description.clone(),
        }
    }
}

/// The value of a mapping: key code, action, enabled, description.
pub open spec fn mapping_view(m: KeyMapping) -> (u32, ActionView, bool, Seq<char>) {
    (m.from.code, m.to@, m.enabled, m.description@)
}

/// The values of a sequence of mappings.
pub open spec fn mapping_views(v: Seq<KeyMapping>) -> Seq<(u32, ActionView, bool, Seq<char>)> {
    v.map_values(|m: KeyMapping| mapping_view(m))
}

/// The built-in mappings: Enter, Backspace, Esc, Up, Down, PageUp, PageDown.
pub open spec fn builtin_mappings() -> Seq<(u32, ActionView, bool, Seq<char>)> {
    seq![
        (13u32, ActionView::Confirm, true, "回车确认"@),
        (8u32, ActionView::DeleteChar, true, "退格删除"@),
        (27u32, ActionView::Cancel, true, "Esc 取消"@),
        (38u32, ActionView::SelectUp, true, "上方向键选择上一个"@),
        (40u32, ActionView::SelectDown, true, "下方向键选择下一个"@),
        (33u32, ActionView::PageUp, true, "PageUp 上一页"@),
        (34u32, ActionView::PageDown, true, "PageDown 下一页"@),
    ]
}

/// Whether a mapping is for a key other than `code`.
pub open spec fn other_key(code: u32) -> spec_fn((u32, ActionView, bool, Seq<char>)) -> bool {
    |m: (u32, ActionView, bool, Seq<char>)| m.0 != code
}

/// Whether a mapping is for a key other than `code`.
pub open spec fn not_of_key(code: u32) -> spec_fn(KeyMapping) -> bool {
    |m: KeyMapping| m.from.code != code
}

/// Filtering out an element leaves fewer.
proof fn lemma_filter_drops<A>(s: Seq<A>, p: spec_fn(A) -> bool, k: int)
    requires
        0 <= k < s.len(),
        !p(s[k]),
    ensures
        s.filter(p).len() < s.len(),
    decreases s.len(),
{
    let h = s.drop_last();
    assert(s =~= h.push(s.last()));
    h.lemma_filter_push(s.last(), p);
    h.lemma_filter_len(p);
    if k < s.len() - 1 {
        assert(h[k] == s[k]);
        lemma_filter_drops(h, p, k);
    }
}

/// Filtering keeps everything when every element passes.
proof fn lemma_filter_all<A>(s: Seq<A>, p: spec_fn(A) -> bool)
    requires
        forall|i: int| 0 <= i < s.len() ==> p(#[trigger] s[i]),
    ensures
        s.filter(p) == s,
    decreases s.len(),
{
    if s.len() > 0 {
        let h = s.drop_last();
        assert forall|i: int| 0 <= i < h.len() implies p(#[trigger] h[i]) by {
            assert(h[i] == s[i]);
        }
        lemma_filter_all(h, p);
        assert(s =~= h.push(s.last()));
        h.lemma_filter_push(s.last(), p);
        assert(p(s[s.len() - 1]));
    } else {
        assert(s.filter(p) =~= s);
    }
}

/// Index of the first enabled mapping of `ms` for key `code`.
pub open spec fn first_enabled(ms: Seq<(u32, ActionView, bool, Seq<char>)>, code: u32) -> Option<
    int,
>
    decreases ms.len(),
{
    if ms.len() == 0 {
        None
    } else {
        match first_enabled(ms.drop_last(), code) {
            Some(i) => Some(i),
            None => if ms.last().0 == code && ms.last().2 {
                Some(ms.len() - 1)
            } else {
                None
            },
        }
    }
}

/// Maps key events to actions: user mappings first, then the built-in ones.
pub struct KeyMapper {
    mappings: Vec<KeyMapping>,
    default_mappings: Vec<KeyMapping>,
}

/// The value of a [`KeyMapper`]: user mappings and built-in mappings.
pub struct KeyMapperView {
    /// The user mappings.
    pub mappings: Seq<(u32, ActionView, bool, Seq<char>)>,
    /// The built-in mappings.
    pub defaults: Seq<(u32, ActionView, bool, Seq<char>)>,
}

impl View for KeyMapper {
    type V = KeyMapperView;

    closed spec fn view(&self) -> KeyMapperView {
        KeyMapperView {
            mappings: mapping_views(self.mappings@),
            defaults: mapping_views(self.default_mappings@),
        }
    }
}

/// The action that `ms` then `ds` give key `code`.
pub open spec fn lookup_action(
    ms: Seq<(u32, ActionView, bool, Seq<char>)>,
    ds: Seq<(u32, ActionView, bool, Seq<char>)>,
    code: u32,
) -> Option<ActionView> {
    match first_enabled(ms, code) {
        Some(i) => Some(ms[i].1),
        None => match first_enabled(ds, code) {
            Some(i) => Some(ds[i].1),
            None => None,
        },
    }
}

/// A mapping for a key without character.
fn make_mapping(code: u32, to: KeyAction, description: &str) -> (r: KeyMapping)
    ensures
        mapping_view(r) == (code, to@, true, description@),
{
    KeyMapping { from: KeyEvent::new(code, None), to, enabled: true, description: str_to_string(description) }
}

/// Index of the first enabled mapping of `v` for key `code`.
fn find_first(v: &Vec<KeyMapping>, code: u32) -> (r: Option<usize>)
    ensures
        match r {
            Some(i) => first_enabled(mapping_views(v@), code) == Some(i as int) && i < v@.len()
                && v@[i as int].from.code == code && v@[i as int].enabled,
            None => first_enabled(mapping_views(v@), code) is None,
        },
{
    let ghost mv = mapping_views(v@);
    let mut i: usize = 0;
    while i < v.len()
        invariant
            i <= v@.len(),
            mv == mapping_views(v@),
            first_enabled(mv.take(i as int), code) is None,
        decreases v@.len() - i,
    {
        assert(mv.take(i + 1).drop_last() == mv.take(i as int));
        if v[i].from.code == code && v[i].enabled {
            proof {
                lemma_first_enabled_prefix(mv, i + 1, code);
            }
            return Some(i);
        }
        i = i + 1;
    }
    assert(mv.take(v@.len() as int) == mv);
    None
}

/// A first match in a prefix is the first match in the whole.
proof fn lemma_first_enabled_prefix(ms: Seq<(u32, ActionView, bool, Seq<char>)>, k: int, code: u32)
    requires
        0 <= k <= ms.len(),
        first_enabled(ms.take(k), code) is Some,
    ensures
        first_enabled(ms, code) == first_enabled(ms.take(k), code),
    decreases ms.len() - k,
{
    if k < ms.len() {
        assert(ms.take(k + 1).drop_last() == ms.take(k));
        lemma_first_enabled_prefix(ms, k + 1, code);
    } else {
        assert(ms.take(k) == ms);
    }
}

/// The name of an action in a configuration.
pub open spec fn action_name(a: ActionView) -> Seq<char> {
    match a {
        ActionView::InputChar(c) => seq![c],
        ActionView::DeleteChar => "DeleteChar"@,
        ActionView::Confirm => "Confirm"@,
        ActionView::Cancel => "Cancel"@,
        ActionView::PageUp => "PageUp"@,
        ActionView::PageDown => "PageDown"@,
        ActionView::SelectUp => "SelectUp"@,
        ActionView::SelectDown => "SelectDown"@,
        ActionView::SwitchMode => "SwitchMode"@,
        ActionView::TriggerFuzzy => "TriggerFuzzy"@,
        ActionView::Other(s) => s,
    }
}

/// The action a configuration names.
pub open spec fn action_of_name(name: Seq<char>) -> ActionView {
    if name == "Confirm"@ {
        ActionView::Confirm
    } else if name == "Cancel"@ {
        ActionView::Cancel
    } else if name == "DeleteChar"@ {
        ActionView::DeleteChar
    } else if name == "PageUp"@ {
        ActionView::PageUp
    } else if name == "PageDown"@ {
        ActionView::PageDown
    } else if name == "SelectUp"@ {
        ActionView::SelectUp
    } else if name == "SelectDown"@ {
        ActionView::SelectDown
    } else if name == "SwitchMode"@ {
        ActionView::SwitchMode
    } else if name == "TriggerFuzzy"@ {
        ActionView::TriggerFuzzy
    } else if (utf8_len(name) as usize) == 1 {
        ActionView::InputChar(name[0])
    } else {
        ActionView::Other(name)
    }
}

/// The key code a configuration names, or `None` when it names no key.
pub open spec fn key_code_of_name(name: Seq<char>) -> Option<u32> {
    if parse_u32(name) is Some {
        parse_u32(name)
    } else if name.len() == 1 && is_ascii_alnum(name[0]) {
        Some(name[0] as u32)
    } else if name == "Enter"@ || name == "RETURN"@ {
        Some(13)
    } else if name == "Backspace"@ || name == "BACK"@ {
        Some(8)
    } else if name == "Esc"@ || name == "ESCAPE"@ {
        Some(27)
    } else if name == "Up"@ || name == "UP"@ {
        Some(38)
    } else if name == "Down"@ || name == "DOWN"@ {
        Some(40)
    } else if name == "PageUp"@ {
        Some(33)
    } else if name == "PageDown"@ {
        Some(34)
    } else {
        None
    }
}

/// Index of the first `=` in `s`.
pub open spec fn first_eq(s: Seq<char>) -> Option<int>
    decreases s.len(),
{
    if s.len() == 0 {
        None
    } else {
        match first_eq(s.drop_last()) {
            Some(i) => Some(i),
            None => if s.last() == '=' {
                Some(s.len() - 1)
            } else {
                None
            },
        }
    }
}

/// What one configuration line gives: nothing, a mapping, or an error message.
pub enum ConfigLine {
    /// A blank or comment line.
    Skip,
    /// A mapping: key code, action, description.
    Mapping(u32, ActionView, Seq<char>),
    /// An error, with its message.
    Bad(Seq<char>),
}

/// What the configuration line `line` gives.
pub open spec fn config_line(line: Seq<char>) -> ConfigLine {
    let t = trim(line);
    if t.len() == 0 || t[0] == '#' {
        ConfigLine::Skip
    } else {
        match first_eq(t) {
            None => ConfigLine::Bad("无效的按键配置行: "@ + t),
            Some(i) => {
                let key = trim(t.take(i));
                let act = trim(t.skip(i + 1));
                match key_code_of_name(key) {
                    None => ConfigLine::Bad("无法识别的按键: "@ + key),
                    Some(code) => ConfigLine::Mapping(code, action_of_name(act), key + "="@ + act),
                }
            },
        }
    }
}

/// The mappings that the lines `ls` add, and the message of the first bad line.
pub open spec fn config_run(ls: Seq<Seq<char>>) -> (
    Seq<(u32, ActionView, bool, Seq<char>)>,
    Option<Seq<char>>,
)
    decreases ls.len(),
{
    if ls.len() == 0 {
        (seq![], None)
    } else {
        let prev = config_run(ls.drop_last());
        if prev.1 is Some {
            prev
        } else {
            match config_line(ls.last()) {
                ConfigLine::Skip => prev,
                ConfigLine::Mapping(c, a, d) => (prev.0.push((c, a, true, d)), None),
                ConfigLine::Bad(m) => (prev.0, Some(m)),
            }
        }
    }
}

/// The line that saving writes for a mapping.
pub open spec fn saved_line(m: (u32, ActionView, bool, Seq<char>)) -> Seq<char> {
    decimal(m.0 as nat) + "="@ + action_name(m.1)
}

/// Parses a key name.
pub fn parse_key_code(name: &str) -> (r: ImeResult<u32>)
    ensures
        match r {
            Ok(c) => key_code_of_name(name@) == Some(c),
            Err(e) => key_code_of_name(name@) is None && e.kind_and_text() == (
                4int,
                "无法识别的按键: "@ + name@,
            ),
        },
{
    let chars = str_chars(name);
    parse_key_code_chars(chars.as_slice())
}

/// Parses a key name given as characters.
fn parse_key_code_chars(name: &[char]) -> (r: ImeResult<u32>)
    ensures
        match r {
            Ok(c) => key_code_of_name(name@) == Some(c),
            Err(e) => key_code_of_name(name@) is None && e.kind_and_text() == (
                4int,
                "无法识别的按键: "@ + name@,
            ),
        },
{
    match parse_u32_chars(name) {
        Some(c) => {
            return Ok(c);
        },
        None => {},
    }
    if name.len() == 1 && crate::text::char_is_ascii_alnum(name[0]) {
        return Ok(name[0] as u32);
    }
    if chars_eq_str(name, "Enter") || chars_eq_str(name, "RETURN") {
        Ok(13)
    } else if chars_eq_str(name, "Backspace") || chars_eq_str(name, "BACK") {
        Ok(8)
    } else if chars_eq_str(name, "Esc") || chars_eq_str(name, "ESCAPE") {
        Ok(27)
    } else if chars_eq_str(name, "Up") || chars_eq_str(name, "UP") {
        Ok(38)
    } else if chars_eq_str(name, "Down") || chars_eq_str(name, "DOWN") {
        Ok(40)
    } else if chars_eq_str(name, "PageUp") {
        Ok(33)
    } else if chars_eq_str(name, "PageDown") {
        Ok(34)
    } else {
        let mut m = str_to_string("无法识别的按键: ");
        string_push_chars(&mut m, name);
        Err(ImeError::ConfigError(m))
    }
}

/// The action a configuration names.
fn parse_action(name: &[char]) -> (r: KeyAction)
    ensures
        r@ == action_of_name(name@),
{
    if chars_eq_str(name, "Confirm") {
        KeyAction::Confirm
    } else if chars_eq_str(name, "Cancel") {
        KeyAction::Cancel
    } else if chars_eq_str(name, "DeleteChar") {
        KeyAction::DeleteChar
    } else if chars_eq_str(name, "PageUp") {
        KeyAction::PageUp
    } else if chars_eq_str(name, "PageDown") {
        KeyAction::PageDown
    } else if chars_eq_str(name, "SelectUp") {
        KeyAction::SelectUp
    } else if chars_eq_str(name, "SelectDown") {
        KeyAction::SelectDown
    } else if chars_eq_str(name, "SwitchMode") {
        KeyAction::SwitchMode
    } else if chars_eq_str(name, "TriggerFuzzy") {
        KeyAction::TriggerFuzzy
    } else {
        let s = string_from_chars(name);
        if s.as_str().len() == 1 {
            proof {
                crate::text::lemma_utf8_len_at_least_len(name@);
            }
            KeyAction::InputChar(name[0])
        } else {
            KeyAction::Other(s)
        }
    }
}

/// Index of the first `=` in `s`.
fn find_eq(s: &[char]) -> (r: Option<usize>)
    ensures
        match r {
            Some(i) => first_eq(s@) == Some(i as int) && i < s@.len(),
            None => first_eq(s@) is None,
        },
{
    let mut i: usize = 0;
    while i < s.len()
        invariant
            i <= s@.len(),
            first_eq(s@.take(i as int)) is None,
        decreases s@.len() - i,
    {
        assert(s@.take(i + 1).drop_last() == s@.take(i as int));
        if s[i] == '=' {
            proof {
                lemma_first_eq_prefix(s@, i + 1);
            }
            return Some(i);
        }
        i = i + 1;
    }
    assert(s@.take(s@.len() as int) == s@);
    None
}

/// A first `=` in a prefix is the first `=` of the whole.
proof fn lemma_first_eq_prefix(s: Seq<char>, k: int)
    requires
        0 <= k <= s.len(),
        first_eq(s.take(k)) is Some,
    ensures
        first_eq(s) == first_eq(s.take(k)),
    decreases s.len() - k,
{
    if k < s.len() {
        assert(s.take(k + 1).drop_last() == s.take(k));
        lemma_first_eq_prefix(s, k + 1);
    } else {
        assert(s.take(k) == s);
    }
}

/// A mapping for a key name and a letter of the alphabet.
fn letter_mapping(ch: char, prefix: &str) -> (r: KeyMapping)
    ensures
        mapping_view(r) == (ch as u32, ActionView::InputChar(ch), true, prefix@ + seq![ch]),
        letter_key(r.from, ch),
{
    let mut d = str_to_string(prefix);
    crate::text::string_push(&mut d, ch);
    KeyMapping {
        from: KeyEvent::new(ch as u32, Some(ch)),
        to: KeyAction::InputChar(ch),
        enabled: true,
        description: d,
    }
}

/// The key event of a key typing `c`: its code is that of `c`, it carries
/// `c`, it is a character key, and no modifier is held.
pub open spec fn letter_key(e: KeyEvent, c: char) -> bool {
    &&& e.code == c as u32
    &&& e.char == Some(c)
    &&& e.key_type == KeyType::Char
    &&& !e.shift && !e.ctrl && !e.alt && !e.meta
}

/// The lowercase letter number `i` of the alphabet.
pub open spec fn letter(i: int) -> char {
    ((97 + i) as u32) as char
}

/// The mappings of the 26 lowercase letters, each typing itself, described
/// by `prefix` and the letter.
pub open spec fn letter_table(prefix: Seq<char>) -> Seq<(u32, ActionView, bool, Seq<char>)> {
    Seq::new(26, |i: int| ((97 + i) as u32, ActionView::InputChar(letter(i)), true, prefix + seq![letter(i)]))
}

/// The mappings of the letters `a` to `z`.
fn letter_mappings(prefix: &str) -> (r: Vec<KeyMapping>)
    ensures
        mapping_views(r@) == letter_table(prefix@),
        forall|i: int| 0 <= i < 26 ==> letter_key(#[trigger] r@[i].from, letter(i)),
{
    let mut r: Vec<KeyMapping> = Vec::new();
    let mut i: u32 = 0;
    while i < 26
        invariant
            i <= 26,
            mapping_views(r@) == letter_table(prefix@).take(i as int),
            forall|k: int| 0 <= k < i ==> letter_key(#[trigger] r@[k].from, letter(k)),
        decreases 26 - i,
    {
        let ch = char_of_letter(i);
        let ghost before = r@;
        r.push(letter_mapping(ch, prefix));
        assert(mapping_views(r@) =~= mapping_views(before).push(letter_table(prefix@)[i as int]));
        assert(letter_table(prefix@).take(i + 1) =~= letter_table(prefix@).take(i as int).push(
            letter_table(prefix@)[i as int],
        ));
        i = i + 1;
    }
    assert(letter_table(prefix@).take(26) =~= letter_table(prefix@));
    r
}

/// The lowercase letter number `i`.
fn char_of_letter(i: u32) -> (c: char)
    requires
        i < 26,
    ensures
        c == letter(i as int),
        c as u32 == 97 + i,
{
    let u: u32 = 97 + i;
    let c = char_from_ascii(u);
    c
}

/// The character of an ASCII code.
pub(crate) fn char_from_ascii(u: u32) -> (c: char)
    requires
        u < 128,
    ensures
        c as u32 == u,
        c == (u as char),
{
    let b: u8 = u as u8;
    assert(b == u);
    b as char
}

impl KeyMapper {
    /// A mapper with no user mappings and the built-in mappings.
    pub fn new() -> (r: Self)
        ensures
            r@.mappings.len() == 0,
            r@.defaults == builtin_mappings(),
    {
        let r = KeyMapper { mappings: Vec::new(), default_mappings: Self::default_mappings() };
        assert(mapping_views(r.mappings@) =~= Seq::<(u32, ActionView, bool, Seq<char>)>::empty());
        r
    }

    /// The built-in mappings.
    fn default_mappings() -> (r: Vec<KeyMapping>)
        ensures
            mapping_views(r@) == builtin_mappings(),
    {
        let mut v: Vec<KeyMapping> = Vec::new();
        v.push(make_mapping(13, KeyAction::Confirm, "回车确认"));
        v.push(make_mapping(8, KeyAction::DeleteChar, "退格删除"));
        v.push(make_mapping(27, KeyAction::Cancel, "Esc 取消"));
        v.push(make_mapping(38, KeyAction::SelectUp, "上方向键选择上一个"));
        v.push(make_mapping(40, KeyAction::SelectDown, "下方向键选择下一个"));
        v.push(make_mapping(33, KeyAction::PageUp, "PageUp 上一页"));
        v.push(make_mapping(34, KeyAction::PageDown, "PageDown 下一页"));
        assert(mapping_views(v@) =~= builtin_mappings());
        v
    }

    /// Adds a user mapping at the end.
    pub fn add_mapping(&mut self, mapping: KeyMapping)
        ensures
            final(self)@ == (KeyMapperView {
                mappings: old(self)@.mappings.push(mapping_view(mapping)),
                ..old(self)@
            }),
            final(self).user_list() == old(self).user_list().push(mapping),
            final(self).default_list() == old(self).default_list(),
    {
        let ghost m0 = self.mappings@;
        self.mappings.push(mapping);
        assert(mapping_views(self.mappings@) =~= mapping_views(m0).push(mapping_view(mapping)));
    }

    /// Removes the user mappings of the key of `from`, enabled or not,
    /// keeping the others as they were and in their order; whether any was
    /// removed.
    pub fn remove_mapping(&mut self, from: &KeyEvent) -> (r: bool)
        ensures
            final(self).user_list() == old(self).user_list().filter(not_of_key(from.code)),
            final(self)@ == (KeyMapperView {
                mappings: old(self)@.mappings.filter(other_key(from.code)),
                ..old(self)@
            }),
            r == (exists|i: int|
                0 <= i < old(self).user_list().len() && (#[trigger] old(self).user_list()[i]).from.code
                    == from.code),
            r == (final(self)@.mappings.len() < old(self)@.mappings.len()),
            final(self).default_list() == old(self).default_list(),
    {
        let ghost pred = other_key(from.code);
        let ghost q = not_of_key(from.code);
        let ghost ol = self.mappings@;
        let ghost mv = mapping_views(ol);
        let mut rest: Vec<KeyMapping> = Vec::new();
        std::mem::swap(&mut rest, &mut self.mappings);
        let len_before = rest.len();
        let mut kept: Vec<KeyMapping> = Vec::new();
        let mut i: usize = 0;
        assert(mv.take(0) =~= Seq::<(u32, ActionView, bool, Seq<char>)>::empty());
        assert(ol.take(0) =~= Seq::<KeyMapping>::empty());
        assert(mapping_views(kept@) =~= Seq::<(u32, ActionView, bool, Seq<char>)>::empty());
        assert(ol.skip(0) =~= ol);
        while i < len_before
            invariant
                len_before == ol.len(),
                pred == other_key(from.code),
                q == not_of_key(from.code),
                mv == mapping_views(ol),
                i <= len_before,
                rest@ == ol.skip(i as int),
                kept@ == ol.take(i as int).filter(q),
                mapping_views(kept@) == mv.take(i as int).filter(pred),
            decreases len_before - i,
        {
            let m = rest.remove(0);
            proof {
                assert(m == ol[i as int]);
                assert(ol.skip(i as int).remove(0) =~= ol.skip(i + 1));
                assert(mv.take(i + 1) == mv.take(i as int).push(mv[i as int]));
                mv.take(i as int).lemma_filter_push(mv[i as int], pred);
                assert(ol.take(i + 1) == ol.take(i as int).push(ol[i as int]));
                ol.take(i as int).lemma_filter_push(ol[i as int], q);
                assert(mv[i as int] == mapping_view(ol[i as int]));
            }
            if m.from.code != from.code {
                let ghost k0 = kept@;
                kept.push(m);
                assert(mapping_views(kept@) =~= mapping_views(k0).push(mapping_view(m)));
            }
            i = i + 1;
        }
        assert(mv.take(len_before as int) == mv);
        assert(ol.take(len_before as int) == ol);
        let removed = kept.len() < len_before;
        proof {
            ol.lemma_filter_len(q);
            if exists|k: int| 0 <= k < ol.len() && (#[trigger] ol[k]).from.code == from.code {
                let k = choose|k: int| 0 <= k < ol.len() && (#[trigger] ol[k]).from.code == from.code;
                lemma_filter_drops(ol, q, k);
            } else {
                assert(ol.filter(q) =~= ol) by {
                    lemma_filter_all(ol, q);
                }
            }
        }
        self.mappings = kept;
        removed
    }

    /// The user mappings as they are held.
    pub closed spec fn user_list(&self) -> Seq<KeyMapping> {
        self.mappings@
    }

    /// The built-in mappings as they are held.
    pub closed spec fn default_list(&self) -> Seq<KeyMapping> {
        self.default_mappings@
    }

    /// The first enabled mapping of the key of `key`: a user mapping if
    /// there is one, else a built-in one.
    pub fn find_mapping(&self, key: &KeyEvent) -> (r: Option<&KeyMapping>)
        ensures
            match r {
                Some(m) => lookup_action(self@.mappings, self@.defaults, key.code) == Some(m.to@)
                    && m.from.code == key.code && m.enabled && match first_enabled(
                    self@.mappings,
                    key.code,
                ) {
                    Some(i) => *m == self.user_list()[i],
                    None => first_enabled(self@.defaults, key.code) matches Some(j)
                        && *m == self.default_list()[j],
                },
                None => lookup_action(self@.mappings, self@.defaults, key.code) is None,
            },
    {
        match find_first(&self.mappings, key.code) {
            Some(i) => Some(&self.mappings[i]),
            None => match find_first(&self.default_mappings, key.code) {
                Some(i) => Some(&self.default_mappings[i]),
                None => None,
            },
        }
    }

    /// The action of `key`: that of its first enabled user mapping, else of
    /// its first enabled built-in mapping, else `None`.
    pub fn process_key(&self, key: &KeyEvent) -> (r: Option<KeyAction>)
        ensures
            match r {
                Some(a) => lookup_action(self@.mappings, self@.defaults, key.code) == Some(a@),
                None => lookup_action(self@.mappings, self@.defaults, key.code) is None,
            },
    {
        match self.find_mapping(key) {
            Some(m) => Some(m.to.duplicate()),
            None => None,
        }
    }

    /// The user mappings.
    pub fn mappings(&self) -> (r: &[KeyMapping])
        ensures
            mapping_views(r@) == self@.mappings,
            r@ == self.user_list(),
    {
        self.mappings.as_slice()
    }

    /// The built-in mappings.
    pub fn default_mappings_ref(&self) -> (r: &[KeyMapping])
        ensures
            mapping_views(r@) == self@.defaults,
            r@ == self.default_list(),
    {
        self.default_mappings.as_slice()
    }

    /// Removes all user mappings.
    pub fn clear_mappings(&mut self)
        ensures
            final(self)@ == (KeyMapperView { mappings: Seq::empty(), ..old(self)@ }),
            final(self).user_list() == Seq::<KeyMapping>::empty(),
            final(self).default_list() == old(self).default_list(),
    {
        self.mappings.clear();
        assert(mapping_views(self.mappings@) =~= Seq::<(u32, ActionView, bool, Seq<char>)>::empty());
    }

    /// Adds the mappings of a configuration of lines `key=action`; blank
    /// lines and lines starting with `#` are skipped. Stops at the first bad
    /// line with an error; the mappings of the lines before it stay added.
    pub fn load_config(&mut self, config: &str) -> (r: ImeResult<()>)
        ensures
            final(self)@ == (KeyMapperView {
                mappings: old(self)@.mappings + config_run(lines(config@)).0,
                ..old(self)@
            }),
            match r {
                Ok(_) => config_run(lines(config@)).1 is None,
                Err(e) => config_run(lines(config@)).1 == Some(e.kind_and_text().1)
                    && e.kind_and_text().0 == 4,
            },
            final(self).default_list() == old(self).default_list(),
            final(self).user_list().take(old(self).user_list().len() as int) == old(self).user_list(),
    {
        let ghost m0 = mapping_views(self.mappings@);
        let chars = str_chars(config);
        let ls = split_lines(chars.as_slice());
        let ghost lsv = views(ls@);
        let mut i: usize = 0;
        assert(lsv.take(0) =~= Seq::<Seq<char>>::empty());
        assert(m0 + Seq::<(u32, ActionView, bool, Seq<char>)>::empty() == m0);
        while i < ls.len()
            invariant
                lsv == views(ls@),
                lsv == lines(config@),
                m0 == old(self)@.mappings,
                i <= ls@.len(),
                config_run(lsv.take(i as int)).1 is None,
                mapping_views(self.mappings@) == m0 + config_run(lsv.take(i as int)).0,
                mapping_views(self.default_mappings@) == old(self)@.defaults,
                self.default_mappings@ == old(self).default_list(),
                old(self).user_list().len() <= self.mappings@.len(),
                self.mappings@.take(old(self).user_list().len() as int) == old(self).user_list(),
            decreases ls@.len() - i,
        {
            proof {
                assert(lsv.take(i + 1).drop_last() == lsv.take(i as int));
                assert(lsv.take(i + 1).last() == ls@[i as int]@);
            }
            let t = trim_chars(ls[i].as_slice());
            if t.len() == 0 || t[0] == '#' {
                i = i + 1;
                continue;
            }
            match find_eq(t.as_slice()) {
                None => {
                    let mut m = str_to_string("无效的按键配置行: ");
                    string_push_chars(&mut m, t.as_slice());
                    proof {
                        assert(config_line(lsv[i as int]) == ConfigLine::Bad(m@));
                        assert(config_run(lsv.take(i + 1)) == (config_run(lsv.take(i as int)).0, Some(m@)));
                        lemma_config_error_stays(lsv, i + 1);
                    }
                    return Err(ImeError::ConfigError(m));
                },
                Some(eq) => {
                    let key_part = sub_chars(t.as_slice(), 0, eq);
                    let act_part = sub_chars(t.as_slice(), eq + 1, t.len());
                    let key = trim_chars(key_part.as_slice());
                    let act = trim_chars(act_part.as_slice());
                    assert(act_part@ == t@.skip(eq + 1));
                    assert(key_part@ == t@.take(eq as int));
                    let action = parse_action(act.as_slice());
                    match parse_key_code_chars(key.as_slice()) {
                        Err(e) => {
                            proof {
                                assert(config_line(lsv[i as int]) == ConfigLine::Bad(e.kind_and_text().1));
                                assert(config_run(lsv.take(i + 1)) == (config_run(lsv.take(i as int)).0, Some(e.kind_and_text().1)));
                                lemma_config_error_stays(lsv, i + 1);
                            }
                            return Err(e);
                        },
                        Ok(code) => {
                            let mut d = string_from_chars(key.as_slice());
                            string_push_str(&mut d, "=");
                            string_push_chars(&mut d, act.as_slice());
                            let mapping = KeyMapping {
                                from: KeyEvent::new(code, None),
                                to: action,
                                enabled: true,
                                description: d,
                            };
                            let ghost before = self.mappings@;
                            self.mappings.push(mapping);
                            assert(mapping_views(self.mappings@) =~= mapping_views(before).push(
                                mapping_view(mapping),
                            ));
                            assert(self.mappings@.take(old(self).user_list().len() as int) =~= before.take(
                                old(self).user_list().len() as int,
                            ));
                        },
                    }
                },
            }
            i = i + 1;
        }
        assert(lsv.take(ls@.len() as int) == lsv);
        Ok(())
    }

    /// The user mappings as lines `code=action`, joined by line feeds.
    pub fn save_config(&self) -> (r: ImeResult<String>)
        ensures
            r matches Ok(s) && s@ == join(self@.mappings.map_values(|m| saved_line(m)), "\n"@),
    {
        let ghost mv = mapping_views(self.mappings@);
        let ghost sl = mv.map_values(|m: (u32, ActionView, bool, Seq<char>)| saved_line(m));
        let mut out = String::new();
        let mut i: usize = 0;
        assert(sl.take(0) =~= Seq::<Seq<char>>::empty());
        while i < self.mappings.len()
            invariant
                i <= self.mappings@.len(),
                mv == mapping_views(self.mappings@),
                sl == mv.map_values(|m: (u32, ActionView, bool, Seq<char>)| saved_line(m)),
                out@ == join(sl.take(i as int), "\n"@),
            decreases self.mappings@.len() - i,
        {
            let ghost before = out@;
            if i > 0 {
                string_push_str(&mut out, "\n");
            }
            let ghost mid = out@;
            let m = &self.mappings[i];
            push_decimal(&mut out, m.from.code as usize);
            string_push_str(&mut out, "=");
            match &m.to {
                KeyAction::InputChar(ch) => crate::text::string_push(&mut out, *ch),
                KeyAction::DeleteChar => string_push_str(&mut out, "DeleteChar"),
                KeyAction::Confirm => string_push_str(&mut out, "Confirm"),
                KeyAction::Cancel => string_push_str(&mut out, "Cancel"),
                KeyAction::PageUp => string_push_str(&mut out, "PageUp"),
                KeyAction::PageDown => string_push_str(&mut out, "PageDown"),
                KeyAction::SelectUp => string_push_str(&mut out, "SelectUp"),
                KeyAction::SelectDown => string_push_str(&mut out, "SelectDown"),
                KeyAction::SwitchMode => string_push_str(&mut out, "SwitchMode"),
                KeyAction::TriggerFuzzy => string_push_str(&mut out, "TriggerFuzzy"),
                KeyAction::Other(o) => string_push_str(&mut out, o.as_str()),
            }
            proof {
                assert(out@ == mid + saved_line(mv[i as int]));
                let sub = sl.take(i + 1);
                assert(sub.drop_last() == sl.take(i as int));
                assert(sub.last() == saved_line(mv[i as int]));
                if i == 0 {
                    assert(sub.len() == 1);
                    assert(mid == Seq::<char>::empty());
                }
            }
            i = i + 1;
        }
        assert(sl.take(mv.len() as int) == sl);
        Ok(out)
    }
}

/// Once a line is bad, the later lines change nothing.
proof fn lemma_config_error_stays(ls: Seq<Seq<char>>, k: int)
    requires
        0 <= k <= ls.len(),
        config_run(ls.take(k)).1 is Some,
    ensures
        config_run(ls) == config_run(ls.take(k)),
    decreases ls.len() - k,
{
    if k < ls.len() {
        assert(ls.take(k + 1).drop_last() == ls.take(k));
        lemma_config_error_stays(ls, k + 1);
    } else {
        assert(ls.take(k) == ls);
    }
}

/// Preset mappings.
pub struct KeyPresets;

impl KeyPresets {
    /// The letters `a` to `z`, each typing itself, described `拼音字母 x`.
    pub fn pinyin_preset() -> (r: Vec<KeyMapping>)
        ensures
            mapping_views(r@) == letter_table("拼音字母 "@),
            forall|i: int| 0 <= i < 26 ==> letter_key(#[trigger] r@[i].from, letter(i)),
    {
        letter_mappings("拼音字母 ")
    }

    /// The letters `a` to `z`, each typing itself, described `五笔字母 x`.
    pub fn wubi_preset() -> (r: Vec<KeyMapping>)
        ensures
            mapping_views(r@) == letter_table("五笔字母 "@),
            forall|i: int| 0 <= i < 26 ==> letter_key(#[trigger] r@[i].from, letter(i)),
    {
        letter_mappings("五笔字母 ")
    }

    /// The letters `a` to `z`, each typing itself, described `英文字母 x`,
    /// then the space key (32) typing a space.
    pub fn english_preset() -> (r: Vec<KeyMapping>)
        ensures
            mapping_views(r@) == letter_table("英文字母 "@).push(
                (32u32, ActionView::InputChar(' '), true, "空格"@),
            ),
            forall|i: int| 0 <= i < 26 ==> letter_key(#[trigger] r@[i].from, letter(i)),
            letter_key(r@[26].from, ' '),
    {
        let mut v = letter_mappings("英文字母 ");
        let ghost before = v@;
        let m = KeyMapping {
            from: KeyEvent::new(32, Some(' ')),
            to: KeyAction::InputChar(' '),
            enabled: true,
            description: str_to_string("空格"),
        };
        v.push(m);
        assert(mapping_views(v@) =~= mapping_views(before).push(mapping_view(m)));
        v
    }
}


/// Whether an action's name in a configuration reads back as the action: a
/// name that is not empty, has no line feed, does not start or end with
/// white space, and names this very action.
pub open spec fn name_reads_back(a: ActionView) -> bool {
    let n = action_name(a);
    &&& n.len() > 0
    &&& !n.contains('\n')
    &&& !crate::text::is_ws(n[0])
    &&& !crate::text::is_ws(n.last())
    &&& action_of_name(n) == a
}

/// The mappings that loading a saved configuration of `ms` gives: the same
/// keys and actions, switched on, each described by its saved line.
pub open spec fn reloaded(ms: Seq<(u32, ActionView, bool, Seq<char>)>) -> Seq<
    (u32, ActionView, bool, Seq<char>),
> {
    ms.map_values(|m: (u32, ActionView, bool, Seq<char>)| (m.0, m.1, true, saved_line(m)))
}

/// Without `=` in a text there is no first `=`.
proof fn lemma_first_eq_none(s: Seq<char>)
    requires
        forall|k: int| 0 <= k < s.len() ==> s[k] != '=',
    ensures
        first_eq(s) is None,
    decreases s.len(),
{
    if s.len() > 0 {
        lemma_first_eq_none(s.drop_last());
    }
}

/// The first `=` of a text is where it stands before any other.
proof fn lemma_first_eq_at(s: Seq<char>, i: int)
    requires
        0 <= i < s.len(),
        s[i] == '=',
        forall|k: int| 0 <= k < i ==> s[k] != '=',
    ensures
        first_eq(s) == Some(i),
    decreases s.len(),
{
    if i < s.len() - 1 {
        lemma_first_eq_at(s.drop_last(), i);
    } else {
        lemma_first_eq_none(s.drop_last());
    }
}

/// A saved line reads back as the mapping it was saved from.
proof fn lemma_saved_line_reads_back(m: (u32, ActionView, bool, Seq<char>))
    requires
        name_reads_back(m.1),
    ensures
        config_line(saved_line(m)) == ConfigLine::Mapping(m.0, m.1, saved_line(m)),
{
    reveal_strlit("=");
    let d = crate::text::decimal(m.0 as nat);
    let n = action_name(m.1);
    let t = saved_line(m);
    crate::text::lemma_decimal_digits(m.0 as nat);
    crate::text::lemma_parse_decimal(m.0);
    assert(crate::text::is_digit(d[0]));
    assert(crate::text::is_digit(d.last()));
    assert(t == d + "="@ + n);
    assert(t[0] == d[0]);
    assert(t.last() == n.last());
    crate::text::lemma_trim_clean(t);
    assert(t[d.len() as int] == '=');
    assert forall|k: int| 0 <= k < d.len() implies t[k] != '=' by {
        assert(t[k] == d[k]);
        assert(crate::text::is_digit(d[k]));
    }
    lemma_first_eq_at(t, d.len() as int);
    assert(t.take(d.len() as int) == d);
    assert(t.skip(d.len() + 1int) == n);
    crate::text::lemma_trim_clean(d);
    crate::text::lemma_trim_clean(n);
}

/// A saved line has what splitting into lines needs.
proof fn lemma_saved_line_plain(m: (u32, ActionView, bool, Seq<char>))
    requires
        name_reads_back(m.1),
    ensures
        saved_line(m).len() > 0,
        !saved_line(m).contains('\n'),
        saved_line(m).last() != '\r',
{
    reveal_strlit("=");
    let d = crate::text::decimal(m.0 as nat);
    let n = action_name(m.1);
    let t = saved_line(m);
    crate::text::lemma_decimal_digits(m.0 as nat);
    assert(t == d + "="@ + n);
    assert(t.last() == n.last());
    if t.contains('\n') {
        let k = choose|k: int| 0 <= k < t.len() && t[k] == '\n';
        if k < d.len() {
            assert(t[k] == d[k]);
            assert(crate::text::is_digit(d[k]));
        } else if k > d.len() {
            assert(t[k] == n[k - d.len() - 1]);
            assert(n.contains('\n'));
        }
    }
}

/// Loading what saving wrote gives back the saved keys and actions, all
/// switched on, for mappings whose action names read back.
pub proof fn law_saved_config_loads_back(ms: Seq<(u32, ActionView, bool, Seq<char>)>)
    requires
        forall|i: int| 0 <= i < ms.len() ==> name_reads_back(#[trigger] ms[i].1),
    ensures
        config_run(lines(join(ms.map_values(|m| saved_line(m)), "\n"@))) == (
            reloaded(ms),
            None::<Seq<char>>,
        ),
{
    let ws = ms.map_values(|m: (u32, ActionView, bool, Seq<char>)| saved_line(m));
    assert forall|k: int| 0 <= k < ws.len() implies #[trigger] ws[k].len() > 0 && !ws[k].contains(
        '\n',
    ) && ws[k].last() != '\r' by {
        lemma_saved_line_plain(ms[k]);
    }
    crate::text::lemma_lines_of_join(ws);
    lemma_run_saved(ms);
}

/// Running the saved lines of `ms` gives the reloaded mappings.
proof fn lemma_run_saved(ms: Seq<(u32, ActionView, bool, Seq<char>)>)
    requires
        forall|i: int| 0 <= i < ms.len() ==> name_reads_back(#[trigger] ms[i].1),
    ensures
        config_run(ms.map_values(|m: (u32, ActionView, bool, Seq<char>)| saved_line(m))) == (
            reloaded(ms),
            None::<Seq<char>>,
        ),
    decreases ms.len(),
{
    let ws = ms.map_values(|m: (u32, ActionView, bool, Seq<char>)| saved_line(m));
    if ms.len() == 0 {
        assert(reloaded(ms) =~= Seq::<(u32, ActionView, bool, Seq<char>)>::empty());
    } else {
        let front = ms.drop_last();
        assert forall|i: int| 0 <= i < front.len() implies name_reads_back(#[trigger] front[i].1) by {
            assert(front[i] == ms[i]);
        }
        lemma_run_saved(front);
        assert(ws.drop_last() =~= front.map_values(
            |m: (u32, ActionView, bool, Seq<char>)| saved_line(m),
        ));
        assert(ws.last() == saved_line(ms.last()));
        assert(name_reads_back(ms[ms.len() - 1].1));
        lemma_saved_line_reads_back(ms.last());
        assert(reloaded(ms) =~= reloaded(front).push(
            (ms.last().0, ms.last().1, true, saved_line(ms.last())),
        ));
    }
}
} // verus!
