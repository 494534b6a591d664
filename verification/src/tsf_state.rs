//! The composition state of the text-service front end: the buffer being
//! typed, its candidates page by page, and the text to commit. Matching and
//! ranking candidates is done by the caller, which hands the ranked texts
//! back.
use vstd::prelude::*;

use crate::text::{string_push, utf8_len};
use crate::ipc::{ToDll, ToGui};
use crate::types::{clone_strings, string_views};

verus! {

broadcast use vstd::seq_lib::group_seq_properties;

/// What the text service does after a click in the window.
#[derive(Debug, Clone, PartialEq, Eq)]
pub enum GuiReplyEffect {
    /// Paste this committed text.
    Paste(String),
    /// Send the window the new page.
    Refresh,
    /// Nothing.
    Nothing,
}

/// The composition state.
pub struct TsfState {
    /// The text typed.
    pub buffer: String,
    /// Whether a composition is under way.
    pub composing: bool,
    /// Whether letters compose Chinese (else they pass through).
    pub chinese_mode: bool,
    /// The candidates of the current page.
    pub candidates: Vec<String>,
    /// All candidates of the buffer, ranked.
    pub all_candidates: Vec<String>,
    /// The current page.
    pub page: usize,
    /// Candidates on a page.
    pub page_size: usize,
    /// The selected candidate of the page.
    pub selected_index: usize,
    /// The text shown as composing.
    pub composing_text: String,
    /// The text to commit after the last key, if any.
    pub commit_text: Option<String>,
}

/// The value of the composition state.
pub struct TsfView {
    /// The text typed.
    pub buffer: Seq<char>,
    /// Whether a composition is under way.
    pub composing: bool,
    /// Whether letters compose Chinese.
    pub chinese_mode: bool,
    /// The candidates of the current page.
    pub candidates: Seq<Seq<char>>,
    /// All candidates, ranked.
    pub all_candidates: Seq<Seq<char>>,
    /// The current page.
    pub page: usize,
    /// Candidates on a page.
    pub page_size: usize,
    /// The selected candidate of the page.
    pub selected_index: usize,
    /// The text shown as composing.
    pub composing_text: Seq<char>,
    /// The text to commit, if any.
    pub commit_text: Option<Seq<char>>,
}

impl View for TsfState {
    type V = TsfView;

    open spec fn view(&self) -> TsfView {
        TsfView {
            buffer: self.buffer@,
            composing: self.composing,
            chinese_mode: self.chinese_mode,
            candidates: string_views(self.candidates@),
            all_candidates: string_views(self.all_candidates@),
            page: self.page,
            page_size: self.page_size,
            selected_index: self.selected_index,
            composing_text: self.composing_text@,
            commit_text: match self.commit_text {
                Some(t) => Some(t@),
                None => None,
            },
        }
    }
}

/// The paging fields are usable: pages are not empty and the first index of
/// the current page fits in a `usize`.
pub open spec fn paging_ok(v: TsfView) -> bool {
    v.page_size > 0 && v.page * v.page_size <= usize::MAX
}

/// The candidates of page `page` of `all`, `size` to a page.
pub open spec fn page_of(all: Seq<Seq<char>>, page: int, size: int) -> Seq<Seq<char>> {
    let start = page * size;
    if start >= all.len() {
        seq![]
    } else if start + size >= all.len() {
        all.subrange(start, all.len() as int)
    } else {
        all.subrange(start, start + size)
    }
}

/// The state after turning to the next page, if there is one.
pub open spec fn next_page_view(v: TsfView) -> TsfView {
    if page_count(v.all_candidates.len() as int, v.page_size as int) > v.page + 1 {
        TsfView {
            page: (v.page + 1) as usize,
            selected_index: 0,
            candidates: page_of(v.all_candidates, v.page + 1, v.page_size as int),
            ..v
        }
    } else {
        v
    }
}

/// The state after turning to the previous page, if there is one.
pub open spec fn prev_page_view(v: TsfView) -> TsfView {
    if v.page > 0 {
        TsfView {
            page: (v.page - 1) as usize,
            selected_index: 0,
            candidates: page_of(v.all_candidates, v.page - 1, v.page_size as int),
            ..v
        }
    } else {
        v
    }
}

/// Turning back right after turning forward gives back the page and its
/// candidates, with the first candidate selected.
pub proof fn law_prev_page_undoes_next(v: TsfView)
    requires
        v.page_size > 0,
        v.all_candidates.len() <= usize::MAX,
        page_count(v.all_candidates.len() as int, v.page_size as int) > v.page + 1,
    ensures
        prev_page_view(next_page_view(v)) == (TsfView {
            selected_index: 0,
            candidates: page_of(v.all_candidates, v.page as int, v.page_size as int),
            ..v
        }),
{
    let n = v.all_candidates.len() as int;
    let size = v.page_size as int;
    if n > 0 {
        assert((n + size - 1) / size <= n) by (nonlinear_arith)
            requires
                n >= 1,
                size >= 1,
        ;
    }
    assert(v.page + 1 <= usize::MAX);
}

/// The number of pages of `n` candidates, `size` to a page (1 when there
/// are none).
pub open spec fn page_count(n: int, size: int) -> int {
    if n == 0 {
        1
    } else {
        (n + size - 1) / size
    }
}

/// The state with the composition cleared.
pub open spec fn reset_view(v: TsfView) -> TsfView {
    TsfView {
        buffer: seq![],
        candidates: seq![],
        all_candidates: seq![],
        selected_index: 0,
        page: 0,
        composing: false,
        composing_text: seq![],
        ..v
    }
}

/// The state with the candidates cleared because the buffer is empty.
pub open spec fn cleared_view(v: TsfView) -> TsfView {
    TsfView {
        candidates: seq![],
        all_candidates: seq![],
        selected_index: 0,
        composing_text: seq![],
        page: 0,
        ..v
    }
}

/// The state after committing `text`.
pub open spec fn committed_view(v: TsfView, text: Seq<char>) -> TsfView {
    TsfView { commit_text: Some(text), ..reset_view(v) }
}

/// After the buffer of `v` changed: an empty buffer clears the candidates
/// (nothing to match); otherwise the caller must match the buffer.
pub open spec fn after_buffer_change(v: TsfView, n: TsfView, query: Option<Seq<char>>) -> bool {
    n == changed_view(v) && query == changed_query(v)
}

/// The state after its buffer changed (before matching).
pub open spec fn changed_view(v: TsfView) -> TsfView {
    if v.buffer.len() == 0 {
        cleared_view(v)
    } else {
        v
    }
}

/// The buffer to match after it changed, if it is not empty.
pub open spec fn changed_query(v: TsfView) -> Option<Seq<char>> {
    if v.buffer.len() == 0 {
        None
    } else {
        Some(v.buffer)
    }
}

/// What a key does to the state, and whether the buffer must be matched:
/// Enter commits the selected candidate, Space the first, a digit key the
/// candidate of that number (0 for the tenth), Backspace deletes, Escape
/// clears, PageUp and PageDown turn pages, and a letter composes (up to 32
/// bytes) unless letters pass through outside a composition.
pub open spec fn after_key(o: TsfView, vkey: u32, n: TsfView, query: Option<Seq<char>>) -> bool {
    let v = TsfView { commit_text: None, ..o };
    let has_buffer = v.buffer.len() > 0;
    if vkey == 0x0D {
        query is None && if has_buffer && v.candidates.len() > 0 && v.selected_index
            < v.candidates.len() {
            n == committed_view(v, v.candidates[v.selected_index as int])
        } else {
            n == v
        }
    } else if vkey == 0x08 {
        if has_buffer {
            let b = TsfView { buffer: v.buffer.drop_last(), ..v };
            &&& query == changed_query(b)
            &&& n == TsfView { composing: v.buffer.drop_last().len() > 0, ..changed_view(b) }
        } else {
            n == v && query is None
        }
    } else if vkey == 0x1B {
        n == reset_view(v) && query is None
    } else if vkey == 0x20 {
        query is None && if has_buffer && v.candidates.len() > 0 {
            n == committed_view(v, v.candidates[0])
        } else {
            n == v
        }
    } else if vkey == 0x21 {
        query is None && n == if has_buffer && v.page > 0 {
            TsfView {
                page: (v.page - 1) as usize,
                selected_index: 0,
                candidates: page_of(v.all_candidates, v.page - 1, v.page_size as int),
                ..v
            }
        } else {
            v
        }
    } else if vkey == 0x22 {
        query is None && n == if has_buffer && page_count(
            v.all_candidates.len() as int,
            v.page_size as int,
        ) > v.page + 1 {
            TsfView {
                page: (v.page + 1) as usize,
                selected_index: 0,
                candidates: page_of(v.all_candidates, v.page + 1, v.page_size as int),
                ..v
            }
        } else {
            v
        }
    } else if vkey == 0x30 || vkey == 0x60 {
        query is None && if has_buffer && v.candidates.len() > 9 {
            n == committed_view(v, v.candidates[9])
        } else {
            n == v
        }
    } else if (0x31 <= vkey <= 0x39) || (0x61 <= vkey <= 0x69) {
        let idx = (vkey % 16) - 1;
        query is None && if has_buffer && idx < v.candidates.len() {
            n == committed_view(v, v.candidates[idx])
        } else {
            n == v
        }
    } else if 0x41 <= vkey <= 0x5A {
        if !v.chinese_mode && !v.composing {
            n == v && query is None
        } else {
            let b = TsfView {
                buffer: if utf8_len(v.buffer) < 32 {
                    v.buffer.push(((vkey + 0x20) as u32) as char)
                } else {
                    v.buffer
                },
                ..v
            };
            &&& query == changed_query(b)
            &&& n == TsfView { composing: true, ..changed_view(b) }
        }
    } else {
        n == v && query is None
    }
}

impl TsfState {
    /// A state in Chinese mode with nothing typed, ten candidates to a page.
    pub fn new() -> (r: Self)
        ensures
            r@ == (TsfView {
                buffer: seq![],
                composing: false,
                chinese_mode: true,
                candidates: seq![],
                all_candidates: seq![],
                page: 0,
                page_size: 10,
                selected_index: 0,
                composing_text: seq![],
                commit_text: None,
            }),
    {
        let r = TsfState {
            buffer: String::new(),
            composing: false,
            chinese_mode: true,
            candidates: Vec::new(),
            all_candidates: Vec::new(),
            page: 0,
            page_size: 10,
            selected_index: 0,
            composing_text: String::new(),
            commit_text: None,
        };
        assert(string_views(r.candidates@) =~= Seq::<Seq<char>>::empty());
        assert(string_views(r.all_candidates@) =~= Seq::<Seq<char>>::empty());
        r
    }

    /// Takes the ranked candidates of the buffer: the first page of them is
    /// shown, its first candidate selected, and the buffer is the composing
    /// text.
    pub fn set_matches(&mut self, ranked: Vec<String>)
        requires
            old(self)@.page_size > 0,
        ensures
            final(self)@ == (TsfView {
                all_candidates: string_views(ranked@),
                page: 0,
                selected_index: 0,
                candidates: page_of(string_views(ranked@), 0, old(self)@.page_size as int),
                composing_text: old(self)@.buffer,
                ..old(self)@
            }),
    {
        self.all_candidates = ranked;
        self.page = 0;
        self.selected_index = 0;
        self.apply_page();
        self.composing_text = self.buffer.clone();
    }

    /// Shows the current page of all candidates.
    fn apply_page(&mut self)
        requires
            paging_ok(old(self)@),
        ensures
            final(self)@ == (TsfView {
                candidates: page_of(
                    old(self)@.all_candidates,
                    old(self)@.page as int,
                    old(self)@.page_size as int,
                ),
                ..old(self)@
            }),
    {
        let start = self.page * self.page_size;
        let n = self.all_candidates.len();
        let ghost all = string_views(self.all_candidates@);
        let mut out: Vec<String> = Vec::new();
        if start < n {
            let end = if self.page_size >= n - start {
                n
            } else {
                start + self.page_size
            };
            let mut i: usize = start;
            while i < end
                invariant
                    start <= i <= end <= n,
                    n == self.all_candidates@.len(),
                    all == string_views(self.all_candidates@),
                    string_views(out@) == all.subrange(start as int, i as int),
                decreases end - i,
            {
                let ghost o0 = string_views(out@);
                out.push(self.all_candidates[i].clone());
                assert(string_views(out@) =~= o0.push(all[i as int]));
                assert(all.subrange(start as int, i + 1) == all.subrange(start as int, i as int).push(
                    all[i as int],
                ));
                i = i + 1;
            }
        } else {
            assert(string_views(out@) =~= Seq::<Seq<char>>::empty());
        }
        self.candidates = out;
    }

    /// Turns to the next page, if there is one.
    pub fn next_page(&mut self)
        requires
            paging_ok(old(self)@),
        ensures
            paging_ok(final(self)@),
            final(self)@ == next_page_view(old(self)@),
    {
        let total = self.total_pages();
        assert(self.all_candidates@.len() == self.all_candidates.len());
        if total - 1 > self.page {
            proof {
                lemma_next_page_fits(self.all_candidates@.len() as int, self.page_size as int, self.page as int);
            }
            self.page = self.page + 1;
            self.selected_index = 0;
            self.apply_page();
        }
    }

    /// Turns to the previous page, if there is one.
    pub fn prev_page(&mut self)
        requires
            paging_ok(old(self)@),
        ensures
            paging_ok(final(self)@),
            final(self)@ == prev_page_view(old(self)@),
    {
        if self.page > 0 {
            proof {
                assert((self.page - 1) * self.page_size <= self.page * self.page_size) by (nonlinear_arith)
                    requires
                        self.page > 0,
                        self.page_size > 0,
                ;
            }
            self.page = self.page - 1;
            self.selected_index = 0;
            self.apply_page();
        }
    }

    /// The number of pages (1 when there are no candidates).
    pub fn total_pages(&self) -> (r: usize)
        requires
            self@.page_size > 0,
        ensures
            r == page_count(self@.all_candidates.len() as int, self@.page_size as int),
            r >= 1,
    {
        let n = self.all_candidates.len();
        if n == 0 {
            1
        } else {
            let d = n / self.page_size;
            let m = n % self.page_size;
            proof {
                assert(n == d * self.page_size + m) by (nonlinear_arith)
                    requires
                        d == n / self.page_size,
                        m == n % self.page_size,
                        self.page_size > 0,
                ;
                lemma_div_ceil(n as int, self.page_size as int, d as int, m as int);
                if d == 0 {
                    assert(d * self.page_size == 0) by (nonlinear_arith)
                        requires
                            d == 0,
                    ;
                }
                if m > 0 {
                    assert(d < n) by (nonlinear_arith)
                        requires
                            n == d * self.page_size + m,
                            m > 0,
                            self.page_size > 0,
                            d >= 0,
                    ;
                }
            }
            if m > 0 {
                d + 1
            } else {
                d
            }
        }
    }

    /// Commits candidate `idx` of the current page, if there is a buffer and
    /// such a candidate.
    pub fn select_commit(&mut self, idx: usize)
        ensures
            final(self)@ == if old(self)@.buffer.len() > 0 && idx < old(self)@.candidates.len() {
                committed_view(
                    TsfView { commit_text: None, ..old(self)@ },
                    old(self)@.candidates[idx as int],
                )
            } else {
                TsfView { commit_text: None, ..old(self)@ }
            },
    {
        self.commit_text = None;
        if crate::text::str_chars(self.buffer.as_str()).len() > 0 && idx < self.candidates.len() {
            self.commit(idx);
        }
    }

    /// Commits candidate `idx` of the page and clears the composition.
    fn commit(&mut self, idx: usize)
        requires
            idx < old(self)@.candidates.len(),
        ensures
            final(self)@ == committed_view(old(self)@, old(self)@.candidates[idx as int]),
    {
        let t = self.candidates[idx].clone();
        self.reset_composing();
        self.commit_text = Some(t);
    }

    /// Clears the composition.
    fn reset_composing(&mut self)
        ensures
            final(self)@ == reset_view(old(self)@),
    {
        self.buffer = String::new();
        self.candidates = Vec::new();
        self.all_candidates = Vec::new();
        self.selected_index = 0;
        self.page = 0;
        self.composing = false;
        self.composing_text = String::new();
        assert(string_views(self.candidates@) =~= Seq::<Seq<char>>::empty());
        assert(string_views(self.all_candidates@) =~= Seq::<Seq<char>>::empty());
    }

    /// Switches between Chinese and pass-through and clears the composition.
    pub fn toggle_chinese(&mut self)
        ensures
            final(self)@ == reset_view(
                TsfView { chinese_mode: !old(self)@.chinese_mode, ..old(self)@ },
            ),
    {
        self.chinese_mode = !self.chinese_mode;
        self.reset_composing();
    }

    /// Clears the composition (for a modifier key pressed outside).
    pub fn reset_composing_ext(&mut self)
        ensures
            final(self)@ == reset_view(old(self)@),
    {
        self.reset_composing();
    }

    /// Clears the candidates when the buffer is empty; otherwise returns the
    /// buffer, whose candidates the caller must match, rank and hand back
    /// with `set_matches`.
    pub fn update_candidates(&mut self) -> (r: Option<String>)
        ensures
            after_buffer_change(old(self)@, final(self)@, match r {
                Some(q) => Some(q@),
                None => None,
            }),
    {
        if crate::text::str_chars(self.buffer.as_str()).len() == 0 {
            self.candidates = Vec::new();
            self.all_candidates = Vec::new();
            self.selected_index = 0;
            self.composing_text = String::new();
            self.page = 0;
            assert(string_views(self.candidates@) =~= Seq::<Seq<char>>::empty());
            assert(string_views(self.all_candidates@) =~= Seq::<Seq<char>>::empty());
            None
        } else {
            Some(self.buffer.clone())
        }
    }

    /// The window message for the current composition at caret position
    /// (`x`, `y`): shown while composing a non-empty buffer, else hidden.
    pub fn gui_message(&self, x: i32, y: i32) -> (r: ToGui)
        requires
            self@.page_size > 0,
        ensures
            !(self@.composing && self@.buffer.len() > 0) ==> r == ToGui::Hide,
            (self@.composing && self@.buffer.len() > 0) ==> match r {
                ToGui::Show { buffer, candidates, selected, page, total_pages, x: rx, y: ry } => {
                    &&& buffer@ == self@.buffer
                    &&& string_views(candidates@) == self@.candidates
                    &&& selected == self@.selected_index
                    &&& page == self@.page
                    &&& total_pages == page_count(
                        self@.all_candidates.len() as int,
                        self@.page_size as int,
                    )
                    &&& rx == x
                    &&& ry == y
                },
                ToGui::Hide => false,
            },
    {
        if !self.composing || crate::text::str_chars(self.buffer.as_str()).len() == 0 {
            ToGui::Hide
        } else {
            ToGui::Show {
                buffer: self.buffer.clone(),
                candidates: clone_strings(&self.candidates),
                selected: self.selected_index,
                page: self.page,
                total_pages: self.total_pages(),
                x,
                y,
            }
        }
    }

    /// Acts on a click reported by the window: a candidate commits it (its
    /// text is handed back to be pasted); a page arrow turns the page, and
    /// the window is refreshed when the page changed (after turning back,
    /// when the page reached is not the first).
    pub fn on_gui_reply(&mut self, msg: ToDll) -> (r: GuiReplyEffect)
        requires
            paging_ok(old(self)@),
        ensures
            paging_ok(final(self)@),
            match msg {
                ToDll::Select(idx) => {
                    &&& old(self)@.buffer.len() > 0 && idx < old(self)@.candidates.len() ==> {
                        &&& final(self)@ == TsfView {
                            commit_text: None,
                            ..reset_view(old(self)@)
                        }
                        &&& r matches GuiReplyEffect::Paste(t) && t@ == old(
                            self,
                        )@.candidates[idx as int]
                    }
                    &&& !(old(self)@.buffer.len() > 0 && idx < old(self)@.candidates.len()) ==> {
                        &&& final(self)@ == TsfView { commit_text: None, ..old(self)@ }
                        &&& r == GuiReplyEffect::Nothing
                    }
                },
                ToDll::PageUp => {
                    &&& final(self)@ == prev_page_view(old(self)@)
                    &&& r == if final(self)@.page > 0 {
                        GuiReplyEffect::Refresh
                    } else {
                        GuiReplyEffect::Nothing
                    }
                },
                ToDll::PageDown => {
                    &&& final(self)@ == next_page_view(old(self)@)
                    &&& r == if final(self)@.page != old(self)@.page {
                        GuiReplyEffect::Refresh
                    } else {
                        GuiReplyEffect::Nothing
                    }
                },
            },
    {
        match msg {
            ToDll::Select(idx) => {
                self.select_commit(idx);
                proof {
                    if self.page == 0 {
                        assert(self.page * self.page_size == 0) by (nonlinear_arith)
                            requires
                                self.page == 0,
                        ;
                    }
                }
                match self.commit_text.take() {
                    Some(t) => GuiReplyEffect::Paste(t),
                    None => GuiReplyEffect::Nothing,
                }
            },
            ToDll::PageUp => {
                self.prev_page();
                if self.page > 0 {
                    GuiReplyEffect::Refresh
                } else {
                    GuiReplyEffect::Nothing
                }
            },
            ToDll::PageDown => {
                let before = self.page;
                self.next_page();
                if before != self.page {
                    GuiReplyEffect::Refresh
                } else {
                    GuiReplyEffect::Nothing
                }
            },
        }
    }

    /// Handles virtual key `vkey`; returns the buffer when its candidates
    /// must be matched and handed back with `set_matches`.
    pub fn process_key(&mut self, vkey: u32) -> (r: Option<String>)
        requires
            paging_ok(old(self)@),
        ensures
            after_key(old(self)@, vkey, final(self)@, match r {
                Some(q) => Some(q@),
                None => None,
            }),
    {
        self.commit_text = None;
        let has_buffer = crate::text::str_chars(self.buffer.as_str()).len() > 0;
        if vkey == 0x0D {
            if has_buffer && self.candidates.len() > 0 && self.selected_index < self.candidates.len() {
                let i = self.selected_index;
                self.commit(i);
            }
            None
        } else if vkey == 0x08 {
            if has_buffer {
                let ghost v = self@;
                let chars = crate::text::str_chars(self.buffer.as_str());
                let kept = crate::text::sub_chars(chars.as_slice(), 0, chars.len() - 1);
                self.buffer = crate::text::string_from_chars(kept.as_slice());
                assert(self.buffer@ == v.buffer.drop_last());
                let ghost b = self@;
                let q = self.update_candidates();
                let ghost m = self@;
                self.composing = crate::text::str_chars(self.buffer.as_str()).len() > 0;
                assert(after_buffer_change(b, m, match q { Some(x) => Some(x@), None => None }));
                q
            } else {
                None
            }
        } else if vkey == 0x1B {
            self.reset_composing();
            None
        } else if vkey == 0x20 {
            if has_buffer && self.candidates.len() > 0 {
                self.commit(0);
            }
            None
        } else if vkey == 0x21 {
            if has_buffer {
                self.prev_page();
            }
            None
        } else if vkey == 0x22 {
            if has_buffer {
                self.next_page();
            }
            None
        } else if vkey == 0x30 || vkey == 0x60 {
            if has_buffer && self.candidates.len() > 9 {
                self.commit(9);
            }
            None
        } else if (0x31 <= vkey && vkey <= 0x39) || (0x61 <= vkey && vkey <= 0x69) {
            let idx = ((vkey % 16) - 1) as usize;
            if has_buffer && idx < self.candidates.len() {
                self.commit(idx);
            }
            None
        } else if 0x41 <= vkey && vkey <= 0x5A {
            if !self.chinese_mode && !self.composing {
                return None;
            }
            let chars = crate::text::str_chars(self.buffer.as_str());
            if crate::text::utf8_len_below(chars.as_slice(), 32) {
                let c = crate::key_mapper::char_from_ascii(vkey + 0x20);
                string_push(&mut self.buffer, c);
            }
            let ghost b = self@;
            let q = self.update_candidates();
            let ghost m = self@;
            self.composing = true;
            assert(after_buffer_change(b, m, match q { Some(x) => Some(x@), None => None }));
            q
        } else {
            None
        }
    }
}

/// The next page starts within the candidates.
proof fn lemma_next_page_fits(n: int, size: int, page: int)
    requires
        size > 0,
        page >= 0,
        n >= 0,
        page_count(n, size) > page + 1,
    ensures
        (page + 1) * size < n,
{
    if n == 0 {
    } else {
        assert((page + 1) * size < n) by (nonlinear_arith)
            requires
                (n + size - 1) / size > page + 1,
                size > 0,
                n > 0,
                page >= 0,
        ;
    }
}

/// Rounding the quotient up.
proof fn lemma_div_ceil(n: int, size: int, d: int, m: int)
    requires
        size > 0,
        n > 0,
        n == d * size + m,
        0 <= m < size,
        d == n / size,
    ensures
        (n + size - 1) / size == if m > 0 {
            d + 1
        } else {
            d
        },
{
    if m > 0 {
        assert((n + size - 1) / size == d + 1) by (nonlinear_arith)
            requires
                n == d * size + m,
                0 < m < size,
                size > 0,
        ;
    } else {
        assert((n + size - 1) / size == d) by (nonlinear_arith)
            requires
                n == d * size,
                size > 0,
        ;
    }
}

/// Where the candidate window is anchored, given the text extent of the
/// selection: its top-left corner (the insertion caret), except that a
/// zero-width selection sometimes reports (0, 0), and then the bottom-right
/// corner stands in for it.
pub fn caret_anchor(left: i32, top: i32, right: i32, bottom: i32) -> (r: (i32, i32))
    ensures
        r == if left == 0 && top == 0 {
            (right, bottom)
        } else {
            (left, top)
        },
{
    if left == 0 && top == 0 {
        (right, bottom)
    } else {
        (left, top)
    }
}

} // verus!
