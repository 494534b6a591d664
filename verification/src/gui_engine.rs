//! The engine behind the stand-alone candidate window: it feeds key presses
//! to an input-method host, picks candidates with digits, confirms with
//! Space, and reports what the window must show.
//!
//! Matching and ranking candidates is done by the caller: when a key changes
//! the spelling, `process_key` returns it, and the caller hands the ranked
//! texts back with `show_candidates` before taking a `snapshot`.
use vstd::prelude::*;

use crate::candidate_window::{
    active_view, pages_of, CandidateWindow, CandidateWindowView, WindowManagerView, WindowPosition,
    PAGE_SIZE,
};
use crate::gui_config::GuiConfig;
use crate::ime_host::{
    after_action, after_confirm, after_input, after_select, cursor_at_end, page_texts,
    with_active, ImeConfig, ImeHost, ImeHostView, ImeResponse, ImeResponseType, ImeState,
    ResponseView,
};
use crate::key_mapper::{lookup_action, KeyEvent};
use crate::text::{is_ascii_alnum, str_to_string};
use crate::types::{string_views, InputMode};

verus! {

/// What the window shows after a key.
#[derive(Debug, Clone, Default)]
pub struct GuiState {
    /// The spelling typed so far.
    pub buffer: String,
    /// The candidates of the current page.
    pub candidates: Vec<String>,
    /// The selected candidate of the page.
    pub selected_index: usize,
    /// The current page (from 0).
    pub page: usize,
    /// The number of pages.
    pub total_pages: usize,
    /// Whether the window is shown.
    pub visible: bool,
    /// The text just committed, if any.
    pub committed: Option<String>,
    /// The input mode mark: 中 or 英.
    pub mode: String,
}

impl GuiState {
    /// Whether the key that led here is taken from the application: the
    /// window is shown, or text was committed.
    pub fn takes_key(&self) -> (r: bool)
        ensures
            r == (self.visible || self.committed is Some),
    {
        self.visible || self.committed.is_some()
    }
}

/// The engine; `S` is the style of its candidate window.
pub struct WbwIme<S> {
    host: ImeHost<S>,
    page_size: usize,
    space_confirms: bool,
    digit_selects: bool,
    pending_commit: Option<String>,
}

/// What the engine holds.
pub struct GuiView<S> {
    /// The input-method host.
    pub host: ImeHostView<S>,
    /// Candidates per page, between 1 and 10.
    pub page_size: usize,
    /// Space confirms.
    pub space_confirms: bool,
    /// Digits 1 to 9 pick a candidate.
    pub digit_selects: bool,
    /// Text committed and not yet reported by a snapshot.
    pub pending: Option<Seq<char>>,
}

impl<S> View for WbwIme<S> {
    type V = GuiView<S>;

    closed spec fn view(&self) -> GuiView<S> {
        GuiView {
            host: self.host@,
            page_size: self.page_size,
            space_confirms: self.space_confirms,
            digit_selects: self.digit_selects,
            pending: match self.pending_commit {
                Some(t) => Some(t@),
                None => None,
            },
        }
    }
}

/// The host with its active window hidden.
pub open spec fn hide_active<S>(h: ImeHostView<S>) -> ImeHostView<S> {
    ImeHostView {
        windows: with_active(
            h.windows,
            |w: CandidateWindowView<String, S>| CandidateWindowView { visible: false, ..w },
        ),
        ..h
    }
}

/// The host with its active window hidden and emptied.
pub open spec fn clear_active<S>(h: ImeHostView<S>) -> ImeHostView<S> {
    ImeHostView {
        windows: with_active(
            h.windows,
            |w: CandidateWindowView<String, S>| CandidateWindowView {
                visible: false,
                candidates: Seq::<String>::empty(),
                page: 0,
                selected_index: 0,
                ..w
            },
        ),
        ..h
    }
}

/// The host made idle with nothing typed or confirmed.
pub open spec fn host_reset<S>(h: ImeHostView<S>) -> ImeHostView<S> {
    ImeHostView { state: ImeState::Idle, buffer: seq![], cursor: 0, confirmed: seq![], ..h }
}

/// The engine `n`, and the spelling to match `q`, after the host went to
/// `h` answering `r`: a changed spelling is to be matched (an emptied one
/// hides and empties the window); a confirmation is kept for the next
/// snapshot, resets the host and hides the window; a cancellation hides it.
pub open spec fn after_response<S>(
    o: GuiView<S>,
    h: ImeHostView<S>,
    r: ResponseView,
    n: GuiView<S>,
    q: Option<Seq<char>>,
) -> bool {
    let base = GuiView { host: h, ..o };
    match r.kind {
        ImeResponseType::InputChar | ImeResponseType::DeleteChar => {
            if active_view(h.windows) is None {
                n == base && q is None
            } else if h.buffer.len() == 0 {
                n == GuiView { host: clear_active(h), ..o } && q is None
            } else {
                n == base && q == Some(h.buffer)
            }
        },
        ImeResponseType::Confirm => {
            &&& n == GuiView {
                host: hide_active(host_reset(h)),
                pending: match r.text {
                    Some(t) => if t.len() > 0 {
                        Some(t)
                    } else {
                        o.pending
                    },
                    None => o.pending,
                },
                ..o
            }
            &&& q is None
        },
        ImeResponseType::Cancel => n == GuiView { host: hide_active(h), ..o } && q is None,
        _ => n == base && q is None,
    }
}

/// The typed character that counts: an ASCII letter or digit.
pub open spec fn key_char(ch: Option<char>) -> Option<char> {
    match ch {
        Some(c) => if is_ascii_alnum(c) {
            Some(c)
        } else {
            None
        },
        None => None,
    }
}

/// Whether the host is typing or choosing.
pub open spec fn inputting<S>(h: ImeHostView<S>) -> bool {
    h.state == ImeState::Inputting || h.state == ImeState::Selecting
}

/// A key press with code `code` and character `ch` takes `o` to `n`, with
/// `q` the spelling to match: while typing, a digit 1 to 9 picks that
/// candidate of the page (when digits select) and Space confirms (when it
/// confirms); a letter or digit is typed; any other key goes through the
/// host's key mappings.
pub open spec fn key_step<S>(
    o: GuiView<S>,
    code: u32,
    ch: Option<char>,
    n: GuiView<S>,
    q: Option<Seq<char>>,
) -> bool {
    let c = key_char(ch);
    if o.digit_selects && inputting(o.host) && c is Some && '1' <= c->0 && c->0 <= '9' {
        let index = ((c->0 as u32) - ('1' as u32)) as usize;
        exists|h: ImeHostView<S>, r: ResponseView|
            #![trigger after_select(o.host, index, h, r)]
            after_select(o.host, index, h, r) && after_response(o, h, r, n, q)
    } else if code == 32 && o.space_confirms && inputting(o.host) {
        exists|h: ImeHostView<S>, r: ResponseView|
            #![trigger after_confirm(o.host, h, r)]
            after_confirm(o.host, h, r) && after_response(o, h, r, n, q)
    } else if c is Some {
        exists|h: ImeHostView<S>, r: ResponseView|
            #![trigger after_input(o.host, c->0, h, r)]
            after_input(o.host, c->0, h, r) && after_response(o, h, r, n, q)
    } else {
        match lookup_action(o.host.keys.mappings, o.host.keys.defaults, code) {
            Some(a) => exists|h: ImeHostView<S>, r: ResponseView|
                #![trigger after_action(o.host, a, h, r)]
                after_action(o.host, a, h, r) && after_response(o, h, r, n, q),
            None => n == o && q is None,
        }
    }
}

/// A copy of a list of strings.
fn copy_texts(s: &[String]) -> (r: Vec<String>)
    ensures
        string_views(r@) == string_views(s@),
{
    let mut r: Vec<String> = Vec::new();
    let mut i: usize = 0;
    while i < s.len()
        invariant
            i <= s@.len(),
            string_views(r@) == string_views(s@).take(i as int),
        decreases s@.len() - i,
    {
        let ghost old_r = r@;
        let x = s[i].clone();
        r.push(x);
        assert(r@ == old_r.push(x));
        assert(string_views(r@) =~= string_views(old_r).push(x@));
        assert(string_views(s@).take(i + 1) =~= string_views(s@).take(i as int).push(s@[i as int]@));
        assert(string_views(r@) =~= string_views(s@).take(i + 1));
        i = i + 1;
    }
    assert(string_views(s@).take(s@.len() as int) =~= string_views(s@));
    r
}

/// Changing the active window twice is changing it once by the composition.
proof fn lemma_with_active_twice<S>(
    m: WindowManagerView<String, S>,
    f: spec_fn(CandidateWindowView<String, S>) -> CandidateWindowView<String, S>,
    g: spec_fn(CandidateWindowView<String, S>) -> CandidateWindowView<String, S>,
    h: spec_fn(CandidateWindowView<String, S>) -> CandidateWindowView<String, S>,
)
    requires
        active_view(m) is Some ==> g(f(active_view(m)->0)) == h(active_view(m)->0),
    ensures
        with_active(with_active(m, f), g) == with_active(m, h),
{
    match active_view(m) {
        Some(w) => {
            let i = m.active->0;
            let m1 = with_active(m, f);
            assert(m1.windows[i as int] == f(w));
            assert(active_view(m1) == Some(f(w)));
            assert(m1.windows.update(i as int, g(f(w))) =~= m.windows.update(i as int, h(w)));
        },
        None => {},
    }
}

impl<S> GuiView<S> {
    /// The engine's invariant: the cursor stands at the end of the spelling
    /// and pages hold 1 to 10 candidates.
    pub open spec fn well_formed(self) -> bool {
        &&& cursor_at_end(self.host)
        &&& 1 <= self.page_size <= 10
    }
}

impl<S> WbwIme<S> {

    /// An engine with the settings of `config`: candidates per page is
    /// `page_size` brought into 1 to 10; one window, active, at (0, 0) and
    /// 300 by 200, with `style`.
    pub fn new(config: &GuiConfig, page_size: usize, style: S, window_style: S) -> (r: Self)
        ensures
            r@.well_formed(),
            r@.page_size == if page_size < 1 {
                1
            } else if page_size > 10 {
                10
            } else {
                page_size
            },
            r@.space_confirms == config.behavior.space_confirms,
            r@.digit_selects == config.behavior.digit_selects,
            r@.pending is None,
            r@.host.state == ImeState::Idle,
            r@.host.buffer.len() == 0,
            r@.host.config == (ImeConfig {
                input_mode: InputMode::Pinyin,
                fuzzy_enabled: config.behavior.fuzzy_enabled,
                max_candidates: r@.page_size,
                l0_enabled: config.behavior.l0_enabled,
                window_style: style,
            }),
            r@.host.windows.windows.len() == 1,
            r@.host.windows.active == Some(0usize),
            r@.host.windows.windows[0] == (CandidateWindowView {
                position: WindowPosition { x: 0, y: 0, width: 300, height: 200 },
                style: window_style,
                visible: false,
                selected_index: 0,
                candidates: Seq::<String>::empty(),
                page: 0,
            }),
    {
        let size: usize = if page_size < 1 {
            1
        } else if page_size > 10 {
            10
        } else {
            page_size
        };
        let ime_config = ImeConfig {
            input_mode: InputMode::Pinyin,
            fuzzy_enabled: config.behavior.fuzzy_enabled,
            max_candidates: size,
            l0_enabled: config.behavior.l0_enabled,
            window_style: style,
        };
        let mut host = ImeHost::new(ime_config);
        let window = CandidateWindow::new(WindowPosition::new(0, 0, 300, 200), window_style);
        let idx = host.add_window(window);
        host.set_active_window(idx);
        WbwIme {
            host,
            page_size: size,
            space_confirms: config.behavior.space_confirms,
            digit_selects: config.behavior.digit_selects,
            pending_commit: None,
        }
    }

    /// Acts on the host's answer; returns the spelling to match, if any.
    fn after_host(&mut self, response: ImeResponse) -> (q: Option<String>)
        requires
            old(self)@.well_formed(),
        ensures
            final(self)@.well_formed(),
            after_response(
                old(self)@,
                old(self)@.host,
                response@,
                final(self)@,
                match q {
                    Some(s) => Some(s@),
                    None => None,
                },
            ),
    {
        match response.response_type {
            ImeResponseType::InputChar | ImeResponseType::DeleteChar => {
                if self.host.window_manager().active_window().is_none() {
                    return None;
                }
                let empty = crate::text::str_chars(self.host.buffer()).len() == 0;
                if empty {
                    self.host.set_window_visible(false);
                    self.host.set_candidates(Vec::new());
                    proof {
                        let o = old(self)@.host;
                        lemma_with_active_twice(
                            o.windows,
                            |x: CandidateWindowView<String, S>| CandidateWindowView { visible: false, ..x },
                            |x: CandidateWindowView<String, S>| CandidateWindowView {
                                candidates: Seq::<String>::empty(),
                                page: 0,
                                selected_index: 0,
                                ..x
                            },
                            |w: CandidateWindowView<String, S>| CandidateWindowView {
                                visible: false,
                                candidates: Seq::<String>::empty(),
                                page: 0,
                                selected_index: 0,
                                ..w
                            },
                        );
                    }
                    None
                } else {
                    Some(str_to_string(self.host.buffer()))
                }
            },
            ImeResponseType::Confirm => {
                match response.text {
                    Some(t) => {
                        if crate::text::str_chars(t.as_str()).len() > 0 {
                            self.pending_commit = Some(t);
                        }
                    },
                    None => {},
                }
                self.host.reset();
                self.host.set_window_visible(false);
                None
            },
            ImeResponseType::Cancel => {
                self.host.set_window_visible(false);
                None
            },
            _ => None,
        }
    }

    /// Handles a key press with code `code` and character `ch`; returns the
    /// spelling whose candidates the caller must match, rank and hand back
    /// with `show_candidates`.
    pub fn process_key(&mut self, code: u32, ch: Option<char>) -> (q: Option<String>)
        requires
            old(self)@.well_formed(),
            old(self)@.host.cursor < usize::MAX,
        ensures
            final(self)@.well_formed(),
            key_step(
                old(self)@,
                code,
                ch,
                final(self)@,
                match q {
                    Some(s) => Some(s@),
                    None => None,
                },
            ),
    {
        let c: Option<char> = match ch {
            Some(x) => if crate::text::char_is_ascii_alnum(x) {
                Some(x)
            } else {
                None
            },
            None => None,
        };
        let typing = self.host.is_inputting();
        if self.digit_selects && typing {
            if let Some(d) = c {
                if '1' <= d && d <= '9' {
                    let index: usize = ((d as u32) - ('1' as u32)) as usize;
                    let ghost o = self.host@;
                    let response = match self.host.select_candidate(index) {
                        Ok(r) => r,
                        Err(_) => {
                            return None;
                        },
                    };
                    let ghost h = self.host@;
                    let ghost rv = response@;
                    let q = self.after_host(response);
                    assert(after_select(o, index, h, rv));
                    return q;
                }
            }
        }
        if code == 32 && self.space_confirms && typing {
            let ghost o = self.host@;
            let response = match self.host.confirm() {
                Ok(r) => r,
                Err(_) => {
                    return None;
                },
            };
            let ghost h = self.host@;
            let ghost rv = response@;
            let q = self.after_host(response);
            assert(after_confirm(o, h, rv));
            return q;
        }
        if let Some(x) = c {
            let ghost o = self.host@;
            let response = match self.host.input_char(x) {
                Ok(r) => r,
                Err(_) => {
                    return None;
                },
            };
            let ghost h = self.host@;
            let ghost rv = response@;
            let q = self.after_host(response);
            assert(after_input(o, x, h, rv));
            return q;
        }
        let ghost o = self.host@;
        let key = KeyEvent::new(code, c);
        let response = match self.host.process_key(key) {
            Ok(r) => r,
            Err(_) => {
                return None;
            },
        };
        let ghost h = self.host@;
        let ghost rv = response@;
        let q = self.after_host(response);
        proof {
            match lookup_action(o.keys.mappings, o.keys.defaults, code) {
                Some(a) => {
                    assert(after_action(o, a, h, rv));
                },
                None => {},
            }
        }
        q
    }

    /// Shows the ranked candidates `ranked` for the spelling last returned
    /// by `process_key`: the active window takes them, from its first page,
    /// and is shown.
    pub fn show_candidates(&mut self, ranked: Vec<String>)
        requires
            old(self)@.well_formed(),
            ranked@.len() + PAGE_SIZE <= usize::MAX,
        ensures
            final(self)@.well_formed(),
            final(self)@ == (GuiView {
                host: ImeHostView {
                    windows: with_active(
                        old(self)@.host.windows,
                        |w: CandidateWindowView<String, S>| CandidateWindowView {
                            candidates: ranked@,
                            page: 0,
                            selected_index: 0,
                            visible: true,
                            ..w
                        },
                    ),
                    ..old(self)@.host
                },
                ..old(self)@
            }),
    {
        let ghost o = self.host@;
        self.host.set_candidates(ranked);
        self.host.set_window_visible(true);
        proof {
            lemma_with_active_twice(
                o.windows,
                |x: CandidateWindowView<String, S>| CandidateWindowView {
                    candidates: ranked@,
                    page: 0,
                    selected_index: 0,
                    ..x
                },
                |x: CandidateWindowView<String, S>| CandidateWindowView { visible: true, ..x },
                |w: CandidateWindowView<String, S>| CandidateWindowView {
                    candidates: ranked@,
                    page: 0,
                    selected_index: 0,
                    visible: true,
                    ..w
                },
            );
        }
    }

    /// What the window shows now, with the mode mark for `chinese_mode`;
    /// the committed text is reported once.
    pub fn snapshot(&mut self, chinese_mode: bool) -> (r: GuiState)
        requires
            old(self)@.well_formed(),
        ensures
            final(self)@.well_formed(),
            final(self)@ == (GuiView { pending: None, ..old(self)@ }),
            r.buffer@ == old(self)@.host.buffer,
            r.committed.is_some() == old(self)@.pending.is_some(),
            r.committed is Some ==> Some(r.committed->0@) == old(self)@.pending,
            r.mode@ == if chinese_mode {
                "中"@
            } else {
                "英"@
            },
            match active_view(old(self)@.host.windows) {
                Some(w) => {
                    &&& r.selected_index == w.selected_index
                    &&& r.page == w.page
                    &&& r.total_pages == pages_of(w.candidates.len() as int)
                    &&& string_views(r.candidates@) == page_texts(w)
                    &&& r.visible == (w.visible && old(self)@.host.buffer.len() > 0)
                },
                None => {
                    &&& r.selected_index == 0
                    &&& r.page == 0
                    &&& r.total_pages == 0
                    &&& r.candidates@.len() == 0
                    &&& !r.visible
                },
            },
    {
        let buffer = str_to_string(self.host.buffer());
        let has_text = crate::text::str_chars(self.host.buffer()).len() > 0;
        let (selected_index, page, total_pages, candidates, visible) = match self.host.window_manager().active_window() {
            Some(w) => {
                let texts = copy_texts(w.current_page_candidates());
                (w.selected_index(), w.page(), w.total_pages(), texts, w.is_visible() && has_text)
            },
            None => (0, 0, 0, Vec::new(), false),
        };
        let committed = self.pending_commit.take();
        let mode = if chinese_mode {
            str_to_string("中")
        } else {
            str_to_string("英")
        };
        GuiState { buffer, candidates, selected_index, page, total_pages, visible, committed, mode }
    }

    /// Candidates per page.
    pub fn page_size(&self) -> (r: usize)
        ensures
            r == self@.page_size,
    {
        self.page_size
    }

    /// Whether the host is typing or choosing.
    pub fn is_inputting(&self) -> (r: bool)
        ensures
            r == inputting(self@.host),
    {
        self.host.is_inputting()
    }

    /// Makes the host idle with nothing typed, and hides the window.
    pub fn reset(&mut self)
        requires
            old(self)@.well_formed(),
        ensures
            final(self)@.well_formed(),
            final(self)@ == (GuiView { host: hide_active(host_reset(old(self)@.host)), ..old(self)@ }),
    {
        self.host.reset();
        self.host.set_window_visible(false);
    }

    /// The spelling typed so far.
    pub fn buffer(&self) -> (r: &str)
        ensures
            r@ == self@.host.buffer,
    {
        self.host.buffer()
    }
}

} // verus!
