//! The input-method host: the state machine that turns key presses into
//! edits of the input buffer, candidate choices and confirmed text.
use vstd::prelude::*;

use crate::candidate_window::{
    CandidateWindow, CandidateWindowView, CandidateWindowManager, PAGE_SIZE, WindowManagerView,
    active_view, page_items, pages_of, select_next_view, select_prev_view,
};
use crate::key_mapper::{ActionView, KeyAction, KeyEvent, KeyMapper, KeyMapperView, lookup_action};
use crate::text::{char_width, is_ascii_alnum, str_to_string, string_push, string_push_str, utf8_len};
use crate::types::{ImeResult, InputMode};

verus! {

broadcast use vstd::seq_lib::group_seq_properties;

/// Errors of the host.
#[derive(Debug)]
pub enum ImeHostError {
    /// Setting up failed.
    InitError(String),
    /// Input failed.
    InputError(String),
    /// A candidate failed.
    CandidateError(String),
    /// A setting is invalid.
    ConfigError(String),
    /// The state is invalid.
    StateError(String),
}

impl ImeHostError {
    /// The message the error shows.
    pub open spec fn spec_message(self) -> Seq<char> {
        match self {
            ImeHostError::InitError(m) => "初始化失败: "@ + m@,
            ImeHostError::InputError(m) => "输入处理失败: "@ + m@,
            ImeHostError::CandidateError(m) => "候选词处理失败: "@ + m@,
            ImeHostError::ConfigError(m) => "配置错误: "@ + m@,
            ImeHostError::StateError(m) => "状态错误: "@ + m@,
        }
    }

    /// The message the error shows (what its `Display` writes).
    pub fn message(&self) -> (r: String)
        ensures
            r@ == self.spec_message(),
    {
        let (p, m) = match self {
            ImeHostError::InitError(m) => ("初始化失败: ", m),
            ImeHostError::InputError(m) => ("输入处理失败: ", m),
            ImeHostError::CandidateError(m) => ("候选词处理失败: ", m),
            ImeHostError::ConfigError(m) => ("配置错误: ", m),
            ImeHostError::StateError(m) => ("状态错误: ", m),
        };
        let mut r = str_to_string(p);
        string_push_str(&mut r, m.as_str());
        r
    }
}

/// States of the host.
#[derive(PartialEq, Eq, Structural, Clone, Copy, Debug)]
pub enum ImeState {
    /// Nothing typed.
    Idle,
    /// Typing.
    Inputting,
    /// Choosing a candidate.
    Selecting,
    /// A candidate chosen.
    Confirming,
    /// Failed.
    Error,
}

/// Kinds of responses.
#[derive(PartialEq, Eq, Structural, Clone, Copy, Debug)]
pub enum ImeResponseType {
    /// Nothing done.
    Nothing,
    /// A character typed.
    InputChar,
    /// A character deleted.
    DeleteChar,
    /// Text confirmed.
    Confirm,
    /// Input cancelled.
    Cancel,
    /// Candidates to show.
    ShowCandidates,
    /// Candidates to hide.
    HideCandidates,
    /// The mode to switch.
    SwitchMode,
    /// Failed.
    Error,
}

/// Settings of the host; `S` is the style of its candidate windows.
pub struct ImeConfig<S> {
    /// The input mode.
    pub input_mode: InputMode,
    /// Whether fuzzy matching is on.
    pub fuzzy_enabled: bool,
    /// The most candidates shown.
    pub max_candidates: usize,
    /// Whether learning is on.
    pub l0_enabled: bool,
    /// The style of candidate windows.
    pub window_style: S,
}

impl<S> ImeConfig<S> {
    /// The default settings with the given window style: pinyin, fuzzy
    /// matching and learning on, at most 10 candidates.
    pub fn with_style(window_style: S) -> (r: Self)
        ensures
            r == (ImeConfig {
                input_mode: InputMode::Pinyin,
                fuzzy_enabled: true,
                max_candidates: 10,
                l0_enabled: true,
                window_style,
            }),
    {
        ImeConfig {
            input_mode: InputMode::Pinyin,
            fuzzy_enabled: true,
            max_candidates: 10,
            l0_enabled: true,
            window_style,
        }
    }
}

/// What the host answers to an operation.
pub struct ImeResponse {
    /// What happened.
    pub response_type: ImeResponseType,
    /// The text typed or confirmed, if any.
    pub text: Option<String>,
    /// The candidates to show.
    pub candidates: Vec<String>,
    /// The buffer.
    pub buffer: String,
    /// The cursor.
    pub cursor: usize,
    /// Whether the window must be refreshed.
    pub need_refresh: bool,
    /// Whether the window must be hidden.
    pub need_hide: bool,
}

/// The value of a response.
pub struct ResponseView {
    /// What happened.
    pub kind: ImeResponseType,
    /// The text typed or confirmed, if any.
    pub text: Option<Seq<char>>,
    /// The candidates to show.
    pub candidates: Seq<Seq<char>>,
    /// The buffer.
    pub buffer: Seq<char>,
    /// The cursor.
    pub cursor: usize,
    /// Whether the window must be refreshed.
    pub need_refresh: bool,
    /// Whether the window must be hidden.
    pub need_hide: bool,
}

impl View for ImeResponse {
    type V = ResponseView;

    open spec fn view(&self) -> ResponseView {
        ResponseView {
            kind: self.response_type,
            text: match self.text {
                Some(t) => Some(t@),
                None => None,
            },
            candidates: crate::types::string_views(self.candidates@),
            buffer: self.buffer@,
            cursor: self.cursor,
            need_refresh: self.need_refresh,
            need_hide: self.need_hide,
        }
    }
}

/// The response that says nothing was done.
pub open spec fn empty_response() -> ResponseView {
    ResponseView {
        kind: ImeResponseType::Nothing,
        text: None,
        candidates: seq![],
        buffer: seq![],
        cursor: 0,
        need_refresh: false,
        need_hide: false,
    }
}

impl ImeResponse {
    /// The response that says nothing was done.
    pub fn empty() -> (r: Self)
        ensures
            r@ == empty_response(),
    {
        let r = ImeResponse {
            response_type: ImeResponseType::Nothing,
            text: None,
            candidates: Vec::new(),
            buffer: String::new(),
            cursor: 0,
            need_refresh: false,
            need_hide: false,
        };
        assert(crate::types::string_views(r.candidates@) =~= Seq::<Seq<char>>::empty());
        r
    }
}

/// The value of a host.
pub struct ImeHostView<S> {
    /// The state.
    pub state: ImeState,
    /// The input buffer.
    pub buffer: Seq<char>,
    /// The cursor, a byte offset in the buffer.
    pub cursor: usize,
    /// The input mode.
    pub mode: InputMode,
    /// The text confirmed so far.
    pub confirmed: Seq<char>,
    /// The settings.
    pub config: ImeConfig<S>,
    /// The candidate windows.
    pub windows: WindowManagerView<String, S>,
    /// The key mappings.
    pub keys: KeyMapperView,
    /// The session the host serves.
    pub session_id: u64,
}

/// The texts of the current page of a window.
pub open spec fn page_texts<S>(w: CandidateWindowView<String, S>) -> Seq<Seq<char>> {
    crate::types::string_views(page_items(w.candidates, w.page as int))
}

/// The text of the selected candidate of the active window, if any.
pub open spec fn selected_text<S>(m: WindowManagerView<String, S>) -> Option<Seq<char>> {
    match active_view(m) {
        Some(w) => if w.selected_index < page_items(w.candidates, w.page as int).len() {
            Some(page_items(w.candidates, w.page as int)[w.selected_index as int]@)
        } else {
            None
        },
        None => None,
    }
}

/// The texts of the current page of the active window (none without one).
pub open spec fn active_texts<S>(m: WindowManagerView<String, S>) -> Seq<Seq<char>> {
    match active_view(m) {
        Some(w) => page_texts(w),
        None => seq![],
    }
}

/// The windows after applying `f` to the active one.
pub open spec fn with_active<S>(
    m: WindowManagerView<String, S>,
    f: spec_fn(CandidateWindowView<String, S>) -> CandidateWindowView<String, S>,
) -> WindowManagerView<String, S> {
    match active_view(m) {
        Some(w) => WindowManagerView { windows: m.windows.update(m.active->0 as int, f(w)), ..m },
        None => m,
    }
}

/// A window after `prev_page`.
pub open spec fn prev_page_view<S>(w: CandidateWindowView<String, S>) -> CandidateWindowView<String, S> {
    if w.page > 0 {
        CandidateWindowView { page: (w.page - 1) as usize, selected_index: 0, ..w }
    } else {
        w
    }
}

/// A window after `next_page`.
pub open spec fn next_page_view<S>(w: CandidateWindowView<String, S>) -> CandidateWindowView<String, S> {
    if w.page + 1 < pages_of(w.candidates.len() as int) {
        CandidateWindowView { page: (w.page + 1) as usize, selected_index: 0, ..w }
    } else {
        w
    }
}

/// In a candidate window, turning back right after turning forward gives
/// back the page, with its first candidate selected.
pub proof fn law_window_prev_undoes_next<S>(w: CandidateWindowView<String, S>)
    requires
        w.candidates.len() <= usize::MAX,
        w.page + 1 < pages_of(w.candidates.len() as int),
    ensures
        prev_page_view(next_page_view(w)) == (CandidateWindowView { selected_index: 0, ..w }),
{
    let n = w.candidates.len() as int;
    assert((n + 9) / 10 <= n) by (nonlinear_arith)
        requires
            n >= 1,
    ;
}

/// The host and response after typing `c`: an ASCII letter or digit is
/// added to the buffer, the cursor moves past it and the host is typing;
/// anything else changes nothing.
pub open spec fn after_input<S>(o: ImeHostView<S>, c: char, n: ImeHostView<S>, r: ResponseView) -> bool {
    if !is_ascii_alnum(c) {
        n == o && r == empty_response()
    } else {
        &&& n == ImeHostView {
            buffer: o.buffer.push(c),
            cursor: (o.cursor + 1) as usize,
            state: ImeState::Inputting,
            ..o
        }
        &&& r == ResponseView {
            kind: ImeResponseType::InputChar,
            text: Some(seq![c]),
            candidates: seq![],
            buffer: n.buffer,
            cursor: n.cursor,
            need_refresh: true,
            need_hide: false,
        }
    }
}

/// The host and response after deleting: the last character of a
/// non-empty buffer goes, the cursor moves to the end, and an emptied
/// buffer makes the host idle.
pub open spec fn after_delete<S>(o: ImeHostView<S>, n: ImeHostView<S>, r: ResponseView) -> bool {
    if o.cursor == 0 || o.buffer.len() == 0 {
        n == o && r == empty_response()
    } else {
        let b = o.buffer.drop_last();
        &&& n == ImeHostView {
            buffer: b,
            cursor: utf8_len(b) as usize,
            state: if b.len() == 0 {
                ImeState::Idle
            } else {
                o.state
            },
            ..o
        }
        &&& r == ResponseView {
            kind: ImeResponseType::DeleteChar,
            text: None,
            candidates: seq![],
            buffer: b,
            cursor: utf8_len(b) as usize,
            need_refresh: true,
            need_hide: false,
        }
    }
}

/// The host and response after confirming: the selected candidate of the
/// active window, else the buffer, is confirmed; the buffer empties and the
/// host is idle. Nothing happens with neither.
pub open spec fn after_confirm<S>(o: ImeHostView<S>, n: ImeHostView<S>, r: ResponseView) -> bool {
    let sel = selected_text(o.windows);
    if o.buffer.len() == 0 && sel is None {
        n == o && r == empty_response()
    } else {
        let text = match sel {
            Some(t) => t,
            None => o.buffer,
        };
        &&& n == ImeHostView {
            buffer: seq![],
            cursor: 0,
            state: ImeState::Idle,
            confirmed: o.confirmed + text,
            ..o
        }
        &&& r == ResponseView {
            kind: ImeResponseType::Confirm,
            text: Some(text),
            candidates: seq![],
            buffer: seq![],
            cursor: 0,
            need_refresh: false,
            need_hide: true,
        }
    }
}

/// The host and response after cancelling: the buffer empties and the
/// host is idle; the window is refreshed and hidden when there was input.
pub open spec fn after_cancel<S>(o: ImeHostView<S>, n: ImeHostView<S>, r: ResponseView) -> bool {
    let was = o.buffer.len() > 0 || o.state != ImeState::Idle;
    &&& n == ImeHostView { buffer: seq![], cursor: 0, state: ImeState::Idle, ..o }
    &&& r == ResponseView {
        kind: ImeResponseType::Cancel,
        text: None,
        candidates: seq![],
        buffer: seq![],
        cursor: 0,
        need_refresh: was,
        need_hide: was,
    }
}

/// The host and response after choosing candidate `index` of the active
/// window's page: it is confirmed and the host is confirming; nothing
/// happens without such a candidate.
pub open spec fn after_select<S>(o: ImeHostView<S>, index: usize, n: ImeHostView<S>, r: ResponseView) -> bool {
    match active_view(o.windows) {
        Some(w) => if index < page_items(w.candidates, w.page as int).len() {
            let text = page_items(w.candidates, w.page as int)[index as int]@;
            &&& n == ImeHostView {
                windows: with_active(o.windows, |x: CandidateWindowView<String, S>| CandidateWindowView { selected_index: index, ..x }),
                state: ImeState::Confirming,
                confirmed: o.confirmed + text,
                ..o
            }
            &&& r == ResponseView {
                kind: ImeResponseType::Confirm,
                text: Some(text),
                candidates: seq![],
                buffer: o.buffer,
                cursor: o.cursor,
                need_refresh: false,
                need_hide: true,
            }
        } else {
            n == o && r == empty_response()
        },
        None => n == o && r == empty_response(),
    }
}

/// The host and response after moving in the active window with `f`: the
/// current page of the active window is shown.
pub open spec fn after_move<S>(
    o: ImeHostView<S>,
    f: spec_fn(CandidateWindowView<String, S>) -> CandidateWindowView<String, S>,
    n: ImeHostView<S>,
    r: ResponseView,
) -> bool {
    &&& n == ImeHostView { windows: with_active(o.windows, f), ..o }
    &&& r == ResponseView {
        kind: ImeResponseType::ShowCandidates,
        text: None,
        candidates: active_texts(n.windows),
        buffer: o.buffer,
        cursor: o.cursor,
        need_refresh: true,
        need_hide: false,
    }
}

/// The response that only reports the buffer and cursor.
pub open spec fn report<S>(o: ImeHostView<S>, kind: ImeResponseType) -> ResponseView {
    ResponseView {
        kind,
        text: None,
        candidates: seq![],
        buffer: o.buffer,
        cursor: o.cursor,
        need_refresh: false,
        need_hide: false,
    }
}

/// The host and response after the action a key maps to.
pub open spec fn after_action<S>(o: ImeHostView<S>, a: ActionView, n: ImeHostView<S>, r: ResponseView) -> bool {
    match a {
        ActionView::InputChar(c) => after_input(o, c, n, r),
        ActionView::DeleteChar => after_delete(o, n, r),
        ActionView::Confirm => after_confirm(o, n, r),
        ActionView::Cancel => after_cancel(o, n, r),
        ActionView::PageUp => after_move(o, |w: CandidateWindowView<String, S>| prev_page_view(w), n, r),
        ActionView::PageDown => after_move(o, |w: CandidateWindowView<String, S>| next_page_view(w), n, r),
        ActionView::SelectUp => after_move(o, |w: CandidateWindowView<String, S>| select_prev_view(w), n, r),
        ActionView::SelectDown => after_move(o, |w: CandidateWindowView<String, S>| select_next_view(w), n, r),
        ActionView::SwitchMode => n == o && r == report(o, ImeResponseType::SwitchMode),
        _ => n == o && r == report(o, ImeResponseType::Nothing),
    }
}

/// The input-method host; `S` is the style of its candidate windows.
pub struct ImeHost<S> {
    config: ImeConfig<S>,
    state: ImeState,
    buffer: String,
    cursor: usize,
    mode: InputMode,
    window_manager: CandidateWindowManager<String, S>,
    key_mapper: KeyMapper,
    confirmed_text: String,
    session_id: u64,
}

impl<S> View for ImeHost<S> {
    type V = ImeHostView<S>;

    closed spec fn view(&self) -> ImeHostView<S> {
        ImeHostView {
            state: self.state,
            buffer: self.buffer@,
            cursor: self.cursor,
            mode: self.mode,
            confirmed: self.confirmed_text@,
            config: self.config,
            windows: self.window_manager@,
            keys: self.key_mapper@,
            session_id: self.session_id,
        }
    }
}

/// The cursor stands at the end of the buffer.
pub open spec fn cursor_at_end<S>(h: ImeHostView<S>) -> bool {
    h.cursor == utf8_len(h.buffer)
}

impl<S> ImeHost<S> {
    /// A host with the given settings: idle, nothing typed, pinyin mode,
    /// no windows, the built-in key mappings.
    pub fn new(config: ImeConfig<S>) -> (r: Self)
        ensures
            r@.state == ImeState::Idle,
            r@.buffer.len() == 0,
            r@.cursor == 0,
            r@.mode == InputMode::Pinyin,
            r@.confirmed.len() == 0,
            r@.config == config,
            r@.windows.windows.len() == 0,
            r@.windows.active is None,
            r@.keys.mappings.len() == 0,
            r@.keys.defaults == crate::key_mapper::builtin_mappings(),
            r@.session_id == 1,
            cursor_at_end(r@),
    {
        ImeHost {
            config,
            state: ImeState::Idle,
            buffer: String::new(),
            cursor: 0,
            mode: InputMode::Pinyin,
            window_manager: CandidateWindowManager::new(),
            key_mapper: KeyMapper::new(),
            confirmed_text: String::new(),
            session_id: 1,
        }
    }

    /// Makes the host idle with an empty buffer.
    pub fn initialize(&mut self) -> (r: ImeResult<()>)
        ensures
            r is Ok,
            cursor_at_end(final(self)@),
            final(self)@ == (ImeHostView {
                state: ImeState::Idle,
                buffer: seq![],
                cursor: 0,
                ..old(self)@
            }),
    {
        self.buffer = String::new();
        self.cursor = 0;
        self.state = ImeState::Idle;
        Ok(())
    }

    /// Handles a key press: its action in the key mappings (user mappings
    /// first), or nothing when it maps to none.
    pub fn process_key(&mut self, key: KeyEvent) -> (r: ImeResult<ImeResponse>)
        requires
            old(self)@.cursor < usize::MAX,
            cursor_at_end(old(self)@),
        ensures
            cursor_at_end(final(self)@),
            r is Ok,
            match lookup_action(old(self)@.keys.mappings, old(self)@.keys.defaults, key.code) {
                Some(a) => after_action(old(self)@, a, final(self)@, r->Ok_0@),
                None => final(self)@ == old(self)@ && r->Ok_0@ == empty_response(),
            },
    {
        let action = match self.key_mapper.process_key(&key) {
            Some(a) => a,
            None => return Ok(ImeResponse::empty()),
        };
        match action {
            KeyAction::InputChar(ch) => self.input_char(ch),
            KeyAction::DeleteChar => self.delete_char(),
            KeyAction::Confirm => self.confirm(),
            KeyAction::Cancel => self.cancel(),
            KeyAction::PageUp => self.page_up(),
            KeyAction::PageDown => self.page_down(),
            KeyAction::SelectUp => self.select_up(),
            KeyAction::SelectDown => self.select_down(),
            KeyAction::SwitchMode => Ok(self.report(ImeResponseType::SwitchMode)),
            KeyAction::TriggerFuzzy => Ok(self.report(ImeResponseType::Nothing)),
            KeyAction::Other(_) => Ok(self.report(ImeResponseType::Nothing)),
        }
    }

    /// A response that reports the buffer and cursor.
    fn report(&self, kind: ImeResponseType) -> (r: ImeResponse)
        ensures
            r@ == report(self@, kind),
    {
        let r = ImeResponse {
            response_type: kind,
            text: None,
            candidates: Vec::new(),
            buffer: self.buffer.clone(),
            cursor: self.cursor,
            need_refresh: false,
            need_hide: false,
        };
        assert(crate::types::string_views(r.candidates@) =~= Seq::<Seq<char>>::empty());
        r
    }

    /// Types `ch`: only ASCII letters and digits are taken.
    pub fn input_char(&mut self, ch: char) -> (r: ImeResult<ImeResponse>)
        requires
            old(self)@.cursor < usize::MAX,
        ensures
            r is Ok,
            after_input(old(self)@, ch, final(self)@, r->Ok_0@),
            cursor_at_end(old(self)@) ==> cursor_at_end(final(self)@),
    {
        if !crate::text::char_is_ascii_alnum(ch) {
            return Ok(ImeResponse::empty());
        }
        let ghost b0 = self.buffer@;
        let w = crate::text::char_len_utf8(ch);
        proof {
            crate::text::lemma_utf8_len_push(b0, ch);
            vstd::utf8::char_is_scalar(ch);
        }
        assert(w == 1);
        string_push(&mut self.buffer, ch);
        self.cursor = self.cursor + w;
        self.state = ImeState::Inputting;
        let mut text = String::new();
        string_push(&mut text, ch);
        let r = ImeResponse {
            response_type: ImeResponseType::InputChar,
            text: Some(text),
            candidates: Vec::new(),
            buffer: self.buffer.clone(),
            cursor: self.cursor,
            need_refresh: true,
            need_hide: false,
        };
        assert(crate::types::string_views(r.candidates@) =~= Seq::<Seq<char>>::empty());
        Ok(r)
    }

    /// Deletes the last character of the buffer.
    pub fn delete_char(&mut self) -> (r: ImeResult<ImeResponse>)
        requires
            cursor_at_end(old(self)@),
        ensures
            r is Ok,
            after_delete(old(self)@, final(self)@, r->Ok_0@),
            cursor_at_end(final(self)@),
    {
        if self.cursor == 0 || crate::text::str_chars(self.buffer.as_str()).len() == 0 {
            return Ok(ImeResponse::empty());
        }
        let chars = str_chars_of(&self.buffer);
        let n = chars.len();
        let kept = crate::text::sub_chars(chars.as_slice(), 0, n - 1);
        assert(kept@ == self.buffer@.drop_last());
        let b = crate::text::string_from_chars(kept.as_slice());
        let ghost bv = b@;
        proof {
            crate::text::lemma_utf8_len_push(bv, self.buffer@.last());
            assert(bv.push(self.buffer@.last()) == self.buffer@);
        }
        let c = byte_len_of(&b, self.cursor);
        self.buffer = b;
        self.cursor = c;
        if kept.len() == 0 {
            self.state = ImeState::Idle;
        }
        let r = ImeResponse {
            response_type: ImeResponseType::DeleteChar,
            text: None,
            candidates: Vec::new(),
            buffer: self.buffer.clone(),
            cursor: self.cursor,
            need_refresh: true,
            need_hide: false,
        };
        assert(crate::types::string_views(r.candidates@) =~= Seq::<Seq<char>>::empty());
        Ok(r)
    }

    /// Confirms the selected candidate of the active window, else the
    /// buffer.
    pub fn confirm(&mut self) -> (r: ImeResult<ImeResponse>)
        ensures
            r is Ok,
            after_confirm(old(self)@, final(self)@, r->Ok_0@),
            cursor_at_end(old(self)@) ==> cursor_at_end(final(self)@),
    {
        let sel: Option<String> = match self.window_manager.active_window() {
            Some(w) => match w.selected_candidate() {
                Some(c) => Some(c.clone()),
                None => None,
            },
            None => None,
        };
        if crate::text::str_chars(self.buffer.as_str()).len() == 0 && sel.is_none() {
            return Ok(ImeResponse::empty());
        }
        let text = match sel {
            Some(t) => t,
            None => self.buffer.clone(),
        };
        string_push_str(&mut self.confirmed_text, text.as_str());
        self.buffer = String::new();
        self.cursor = 0;
        self.state = ImeState::Idle;
        let r = ImeResponse {
            response_type: ImeResponseType::Confirm,
            text: Some(text),
            candidates: Vec::new(),
            buffer: String::new(),
            cursor: 0,
            need_refresh: false,
            need_hide: true,
        };
        assert(crate::types::string_views(r.candidates@) =~= Seq::<Seq<char>>::empty());
        Ok(r)
    }

    /// Cancels the input.
    pub fn cancel(&mut self) -> (r: ImeResult<ImeResponse>)
        ensures
            r is Ok,
            after_cancel(old(self)@, final(self)@, r->Ok_0@),
            cursor_at_end(final(self)@),
    {
        let was = crate::text::str_chars(self.buffer.as_str()).len() > 0 || self.state
            != ImeState::Idle;
        self.buffer = String::new();
        self.cursor = 0;
        self.state = ImeState::Idle;
        let r = ImeResponse {
            response_type: ImeResponseType::Cancel,
            text: None,
            candidates: Vec::new(),
            buffer: String::new(),
            cursor: 0,
            need_refresh: was,
            need_hide: was,
        };
        assert(crate::types::string_views(r.candidates@) =~= Seq::<Seq<char>>::empty());
        Ok(r)
    }

    /// Chooses candidate `index` of the current page of the active window.
    pub fn select_candidate(&mut self, index: usize) -> (r: ImeResult<ImeResponse>)
        ensures
            r is Ok,
            after_select(old(self)@, index, final(self)@, r->Ok_0@),
            cursor_at_end(old(self)@) ==> cursor_at_end(final(self)@),
    {
        let ghost o = self@;
        let text = match self.window_manager.active_window() {
            None => return Ok(ImeResponse::empty()),
            Some(w) => {
                if index >= w.current_page_candidates().len() {
                    return Ok(ImeResponse::empty());
                }
                w.current_page_candidates()[index].clone()
            },
        };
        let _ = self.window_manager.select_in_active(index);
        proof {
            let w = active_view(o.windows)->0;
            let f = |x: CandidateWindowView<String, S>| CandidateWindowView { selected_index: index, ..x };
            assert(f(w) == CandidateWindowView { selected_index: index, ..w });
        }
        self.state = ImeState::Confirming;
        string_push_str(&mut self.confirmed_text, text.as_str());
        let r = ImeResponse {
            response_type: ImeResponseType::Confirm,
            text: Some(text),
            candidates: Vec::new(),
            buffer: self.buffer.clone(),
            cursor: self.cursor,
            need_refresh: false,
            need_hide: true,
        };
        assert(crate::types::string_views(r.candidates@) =~= Seq::<Seq<char>>::empty());
        Ok(r)
    }

    /// The texts of the current page of the active window.
    fn active_page(&self) -> (r: Vec<String>)
        ensures
            crate::types::string_views(r@) == active_texts(self@.windows),
    {
        match self.window_manager.active_window() {
            Some(w) => {
                let items = w.current_page_candidates();
                let mut out: Vec<String> = Vec::new();
                let mut i: usize = 0;
                while i < items.len()
                    invariant
                        i <= items@.len(),
                        crate::types::string_views(out@) == crate::types::string_views(
                            items@.take(i as int),
                        ),
                    decreases items@.len() - i,
                {
                    out.push(items[i].clone());
                    assert(items@.take(i + 1) == items@.take(i as int).push(items@[i as int]));
                    assert(crate::types::string_views(items@.take(i + 1)) =~= crate::types::string_views(
                        items@.take(i as int),
                    ).push(items@[i as int]@));
                    i = i + 1;
                }
                assert(items@.take(items@.len() as int) == items@);
                out
            },
            None => {
                let out: Vec<String> = Vec::new();
                assert(crate::types::string_views(out@) =~= Seq::<Seq<char>>::empty());
                out
            },
        }
    }

    /// A response showing the current page of the active window.
    fn show_page(&self) -> (r: ImeResponse)
        ensures
            r@ == (ResponseView {
                kind: ImeResponseType::ShowCandidates,
                text: None,
                candidates: active_texts(self@.windows),
                buffer: self@.buffer,
                cursor: self@.cursor,
                need_refresh: true,
                need_hide: false,
            }),
    {
        ImeResponse {
            response_type: ImeResponseType::ShowCandidates,
            text: None,
            candidates: self.active_page(),
            buffer: self.buffer.clone(),
            cursor: self.cursor,
            need_refresh: true,
            need_hide: false,
        }
    }

    /// Turns the active window to its previous page.
    pub fn page_up(&mut self) -> (r: ImeResult<ImeResponse>)
        ensures
            r is Ok,
            after_move(old(self)@, |w: CandidateWindowView<String, S>| prev_page_view(w), final(self)@, r->Ok_0@),
    {
        let _ = self.window_manager.prev_page_in_active();
        Ok(self.show_page())
    }

    /// Turns the active window to its next page.
    pub fn page_down(&mut self) -> (r: ImeResult<ImeResponse>)
        ensures
            r is Ok,
            after_move(old(self)@, |w: CandidateWindowView<String, S>| next_page_view(w), final(self)@, r->Ok_0@),
    {
        let _ = self.window_manager.next_page_in_active();
        Ok(self.show_page())
    }

    /// Selects the previous candidate of the active window.
    fn select_up(&mut self) -> (r: ImeResult<ImeResponse>)
        ensures
            r is Ok,
            after_move(old(self)@, |w: CandidateWindowView<String, S>| select_prev_view(w), final(self)@, r->Ok_0@),
    {
        let _ = self.window_manager.select_prev_in_active();
        Ok(self.show_page())
    }

    /// Selects the next candidate of the active window.
    fn select_down(&mut self) -> (r: ImeResult<ImeResponse>)
        ensures
            r is Ok,
            after_move(old(self)@, |w: CandidateWindowView<String, S>| select_next_view(w), final(self)@, r->Ok_0@),
    {
        let _ = self.window_manager.select_next_in_active();
        Ok(self.show_page())
    }

    /// Switches the input mode.
    pub fn switch_mode(&mut self, mode: InputMode) -> (r: ImeResult<()>)
        ensures
            r is Ok,
            final(self)@ == (ImeHostView {
                mode,
                config: ImeConfig { input_mode: mode, ..old(self)@.config },
                ..old(self)@
            }),
    {
        self.mode = mode;
        self.config.input_mode = mode;
        Ok(())
    }

    /// The state.
    pub fn state(&self) -> (r: &ImeState)
        ensures
            *r == self@.state,
    {
        &self.state
    }

    /// The buffer.
    pub fn buffer(&self) -> (r: &str)
        ensures
            r@ == self@.buffer,
    {
        self.buffer.as_str()
    }

    /// The cursor.
    pub fn cursor(&self) -> (r: usize)
        ensures
            r == self@.cursor,
    {
        self.cursor
    }

    /// The input mode.
    pub fn mode(&self) -> (r: InputMode)
        ensures
            r == self@.mode,
    {
        self.mode
    }

    /// The text confirmed so far.
    pub fn confirmed_text(&self) -> (r: &str)
        ensures
            r@ == self@.confirmed,
    {
        self.confirmed_text.as_str()
    }

    /// The settings.
    pub fn config(&self) -> (r: &ImeConfig<S>)
        ensures
            *r == self@.config,
    {
        &self.config
    }

    /// The candidate windows.
    pub fn window_manager(&self) -> (r: &CandidateWindowManager<String, S>)
        ensures
            r@ == self@.windows,
    {
        &self.window_manager
    }

    /// Adds a candidate window; its index.
    pub fn add_window(&mut self, window: CandidateWindow<String, S>) -> (r: usize)
        ensures
            r == old(self)@.windows.windows.len(),
            final(self)@ == (ImeHostView {
                windows: WindowManagerView {
                    windows: old(self)@.windows.windows.push(window@),
                    ..old(self)@.windows
                },
                ..old(self)@
            }),
    {
        self.window_manager.add_window(window)
    }

    /// Makes window `index` active, if there is one.
    pub fn set_active_window(&mut self, index: usize) -> (r: bool)
        ensures
            r == (index < old(self)@.windows.windows.len()),
            r ==> final(self)@ == (ImeHostView {
                windows: WindowManagerView { active: Some(index), ..old(self)@.windows },
                ..old(self)@
            }),
            !r ==> final(self)@ == old(self)@,
    {
        self.window_manager.set_active_window(index)
    }

    /// Sets the candidates of the active window; false when none is active.
    pub fn set_candidates(&mut self, candidates: Vec<String>) -> (r: bool)
        requires
            candidates@.len() + PAGE_SIZE <= usize::MAX,
        ensures
            r == (active_view(old(self)@.windows) is Some),
            !r ==> final(self)@ == old(self)@,
            r ==> final(self)@ == (ImeHostView {
                windows: with_active(
                    old(self)@.windows,
                    |w: CandidateWindowView<String, S>| CandidateWindowView {
                        candidates: candidates@,
                        page: 0,
                        selected_index: 0,
                        ..w
                    },
                ),
                ..old(self)@
            }),
    {
        self.window_manager.set_candidates_in_active(candidates)
    }

    /// Records whether the active window is shown; false when none is
    /// active.
    pub fn set_window_visible(&mut self, visible: bool) -> (r: bool)
        ensures
            r == (active_view(old(self)@.windows) is Some),
            !r ==> final(self)@ == old(self)@,
            r ==> final(self)@ == (ImeHostView {
                windows: with_active(
                    old(self)@.windows,
                    |w: CandidateWindowView<String, S>| CandidateWindowView { visible, ..w },
                ),
                ..old(self)@
            }),
    {
        self.window_manager.set_visible_in_active(visible)
    }

    /// The key mappings.
    pub fn key_mapper(&self) -> (r: &KeyMapper)
        ensures
            r@ == self@.keys,
    {
        &self.key_mapper
    }

    /// Replaces the key mappings.
    pub fn set_key_mapper(&mut self, key_mapper: KeyMapper)
        ensures
            final(self)@ == (ImeHostView { keys: key_mapper@, ..old(self)@ }),
    {
        self.key_mapper = key_mapper;
    }

    /// Makes the host idle, emptying the buffer and the confirmed text.
    pub fn reset(&mut self)
        ensures
            cursor_at_end(final(self)@),
            final(self)@ == (ImeHostView {
                state: ImeState::Idle,
                buffer: seq![],
                cursor: 0,
                confirmed: seq![],
                ..old(self)@
            }),
    {
        self.buffer = String::new();
        self.cursor = 0;
        self.state = ImeState::Idle;
        self.confirmed_text = String::new();
    }

    /// Whether the host is typing or choosing.
    pub fn is_inputting(&self) -> (r: bool)
        ensures
            r == (self@.state == ImeState::Inputting || self@.state == ImeState::Selecting),
    {
        self.state == ImeState::Inputting || self.state == ImeState::Selecting
    }
}

/// The characters of a string.
fn str_chars_of(s: &String) -> (r: Vec<char>)
    ensures
        r@ == s@,
{
    crate::text::str_chars(s.as_str())
}

/// The byte length of `b`, known to be below `bound`.
fn byte_len_of(b: &String, bound: usize) -> (r: usize)
    requires
        utf8_len(b@) <= bound,
    ensures
        r == utf8_len(b@),
{
    let c = crate::text::str_chars(b.as_str());
    crate::text::chars_utf8_len(c.as_slice())
}

/// Makers of hosts.
pub struct ImeFactory;

impl ImeFactory {
    /// A host with the given settings.
    pub fn create_ime<S>(config: ImeConfig<S>) -> (r: ImeHost<S>)
        ensures
            r@.config == config,
            r@.state == ImeState::Idle,
            r@.buffer.len() == 0,
    {
        ImeHost::new(config)
    }

    /// A host with the default settings and the given window style.
    pub fn create_default<S>(style: S) -> (r: ImeHost<S>)
        ensures
            r@.config == ImeConfig::with_style_spec(style),
            r@.state == ImeState::Idle,
    {
        ImeHost::new(ImeConfig::with_style(style))
    }

    /// A host in pinyin mode.
    pub fn create_pinyin<S>(style: S) -> (r: ImeHost<S>)
        ensures
            r@.config == (ImeConfig { input_mode: InputMode::Pinyin, ..ImeConfig::with_style_spec(style) }),
            r@.state == ImeState::Idle,
    {
        let c = ImeConfig::with_style(style);
        ImeHost::new(ImeConfig { input_mode: InputMode::Pinyin, ..c })
    }

    /// A host in wubi mode.
    pub fn create_wubi<S>(style: S) -> (r: ImeHost<S>)
        ensures
            r@.config == (ImeConfig { input_mode: InputMode::Wubi, ..ImeConfig::with_style_spec(style) }),
            r@.state == ImeState::Idle,
    {
        let c = ImeConfig::with_style(style);
        ImeHost::new(ImeConfig { input_mode: InputMode::Wubi, ..c })
    }
}

impl<S> ImeConfig<S> {
    /// The default settings with the given window style.
    pub open spec fn with_style_spec(window_style: S) -> ImeConfig<S> {
        ImeConfig {
            input_mode: InputMode::Pinyin,
            fuzzy_enabled: true,
            max_candidates: 10,
            l0_enabled: true,
            window_style,
        }
    }
}

} // verus!
