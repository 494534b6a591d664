//! The candidate window: where it stands, and paging and selection of the
//! candidates it shows.
use vstd::prelude::*;

use crate::text::{str_to_string, string_push_str};

verus! {

/// Errors of the candidate window.
#[derive(Debug)]
pub enum CandidateWindowError {
    /// The window could not be set up.
    InitError(String),
    /// The window could not be updated.
    UpdateError(String),
    /// The window could not be shown.
    ShowError(String),
    /// The window could not be hidden.
    HideError(String),
}

impl CandidateWindowError {
    /// The message the error shows.
    pub open spec fn spec_message(self) -> Seq<char> {
        match self {
            CandidateWindowError::InitError(m) => "窗口初始化失败: "@ + m@,
            CandidateWindowError::UpdateError(m) => "窗口更新失败: "@ + m@,
            CandidateWindowError::ShowError(m) => "窗口显示失败: "@ + m@,
            CandidateWindowError::HideError(m) => "窗口隐藏失败: "@ + m@,
        }
    }

    /// The message the error shows (what its `Display` writes).
    pub fn message(&self) -> (r: String)
        ensures
            r@ == self.spec_message(),
    {
        let (p, m) = match self {
            CandidateWindowError::InitError(m) => ("窗口初始化失败: ", m),
            CandidateWindowError::UpdateError(m) => ("窗口更新失败: ", m),
            CandidateWindowError::ShowError(m) => ("窗口显示失败: ", m),
            CandidateWindowError::HideError(m) => ("窗口隐藏失败: ", m),
        };
        let mut r = str_to_string(p);
        string_push_str(&mut r, m.as_str());
        r
    }
}

/// Where the window stands and how large it is.
#[derive(Clone, Copy, Debug)]
pub struct WindowPosition {
    /// Left edge.
    pub x: i32,
    /// Top edge.
    pub y: i32,
    /// Width.
    pub width: u32,
    /// Height.
    pub height: u32,
}

impl WindowPosition {
    /// A position and size.
    pub fn new(x: i32, y: i32, width: u32, height: u32) -> (r: Self)
        ensures
            r == (WindowPosition { x, y, width, height }),
    {
        WindowPosition { x, y, width, height }
    }

    /// Whether the point is inside the window: at or right of the left
    /// edge and left of the right edge, and the same vertically. The width
    /// and height are taken as `i32`, as the window system does.
    pub fn contains(&self, px: i32, py: i32) -> (r: bool)
        requires
            self.x + (self.width as i32) <= i32::MAX,
            self.x + (self.width as i32) >= i32::MIN,
            self.y + (self.height as i32) <= i32::MAX,
            self.y + (self.height as i32) >= i32::MIN,
        ensures
            r == (px >= self.x && px < self.x + (self.width as i32) && py >= self.y && py < self.y
                + (self.height as i32)),
    {
        px >= self.x && px < self.x + self.width as i32 && py >= self.y && py < self.y
            + self.height as i32
    }

    /// Moves the window.
    pub fn move_to(&mut self, x: i32, y: i32)
        ensures
            *final(self) == (WindowPosition { x, y, ..*old(self) }),
    {
        self.x = x;
        self.y = y;
    }

    /// Resizes the window.
    pub fn resize(&mut self, width: u32, height: u32)
        ensures
            *final(self) == (WindowPosition { width, height, ..*old(self) }),
    {
        self.width = width;
        self.height = height;
    }
}

/// Events of the candidate window.
#[derive(Clone, Copy, Debug)]
pub enum WindowEvent {
    /// Shown.
    Show,
    /// Hidden.
    Hide,
    /// Moved.
    Move(i32, i32),
    /// Resized.
    Resize(u32, u32),
    /// A candidate chosen.
    Select(usize),
    /// A page turned.
    PageChange(usize),
    /// A click.
    Click(i32, i32),
    /// Closed.
    Close,
}

/// Candidates shown on a page.
pub const PAGE_SIZE: usize = 10;

/// The number of pages of `n` candidates (what `total_pages` computes).
pub open spec fn pages_of(n: int) -> int {
    (n + PAGE_SIZE - 1) / PAGE_SIZE as int
}

/// The candidates of page `page` of `s`.
pub open spec fn page_items<T>(s: Seq<T>, page: int) -> Seq<T> {
    let start = page * PAGE_SIZE;
    if start < s.len() {
        s.subrange(start, if start + PAGE_SIZE < s.len() {
            start + PAGE_SIZE
        } else {
            s.len() as int
        })
    } else {
        seq![]
    }
}

/// The candidate window: its candidates `T`, its style `S`, and which page
/// and candidate are current.
pub struct CandidateWindow<T, S> {
    position: WindowPosition,
    style: S,
    visible: bool,
    selected_index: usize,
    candidates: Vec<T>,
    page_size: usize,
    page: usize,
}

/// The value of a candidate window.
pub struct CandidateWindowView<T, S> {
    /// Where it stands.
    pub position: WindowPosition,
    /// Its style.
    pub style: S,
    /// Whether it is shown.
    pub visible: bool,
    /// The selected candidate of the current page.
    pub selected_index: usize,
    /// All candidates.
    pub candidates: Seq<T>,
    /// The current page.
    pub page: usize,
}

impl<T, S> View for CandidateWindow<T, S> {
    type V = CandidateWindowView<T, S>;

    closed spec fn view(&self) -> CandidateWindowView<T, S> {
        CandidateWindowView {
            position: self.position,
            style: self.style,
            visible: self.visible,
            selected_index: self.selected_index,
            candidates: self.candidates@,
            page: self.page,
        }
    }
}

impl<T, S> CandidateWindow<T, S> {
    #[verifier::type_invariant]
    spec fn paged(&self) -> bool {
        &&& self.page_size == PAGE_SIZE
        &&& self.page * PAGE_SIZE + PAGE_SIZE <= usize::MAX
        &&& self.candidates@.len() + PAGE_SIZE <= usize::MAX
    }

    /// A hidden window with no candidates, on the first page.
    pub fn new(position: WindowPosition, style: S) -> (r: Self)
        ensures
            r@ == (CandidateWindowView {
                position,
                style,
                visible: false,
                selected_index: 0,
                candidates: Seq::<T>::empty(),
                page: 0,
            }),
    {
        CandidateWindow {
            position,
            style,
            visible: false,
            selected_index: 0,
            candidates: Vec::new(),
            page_size: 10,
            page: 0,
        }
    }

    /// Sets the candidates and goes back to the first page and candidate.
    pub fn set_candidates(&mut self, candidates: Vec<T>)
        requires
            candidates@.len() + PAGE_SIZE <= usize::MAX,
        ensures
            final(self)@ == (CandidateWindowView {
                candidates: candidates@,
                page: 0,
                selected_index: 0,
                ..old(self)@
            }),
    {
        proof {
            use_type_invariant(&*self);
        }
        self.candidates = candidates;
        self.page = 0;
        self.selected_index = 0;
    }

    /// Replaces the candidates and goes back to the first candidate of the
    /// page.
    pub fn update_candidates(&mut self, candidates: Vec<T>)
        requires
            candidates@.len() + PAGE_SIZE <= usize::MAX,
        ensures
            final(self)@ == (CandidateWindowView {
                candidates: candidates@,
                selected_index: 0,
                ..old(self)@
            }),
    {
        proof {
            use_type_invariant(&*self);
        }
        self.candidates = candidates;
        self.selected_index = 0;
    }

    /// The candidates of the current page.
    pub fn current_page_candidates(&self) -> (r: &[T])
        ensures
            r@ == page_items(self@.candidates, self@.page as int),
    {
        proof {
            use_type_invariant(self);
        }
        let start = self.page * self.page_size;
        let end = if start + self.page_size < self.candidates.len() {
            start + self.page_size
        } else {
            self.candidates.len()
        };
        if start < self.candidates.len() {
            let s = self.candidates.as_slice();
            &s[start..end]
        } else {
            let e: &[T] = &[];
            assert(e@ =~= Seq::<T>::empty());
            e
        }
    }

    /// The number of pages.
    pub fn total_pages(&self) -> (r: usize)
        ensures
            r == pages_of(self@.candidates.len() as int),
    {
        proof {
            use_type_invariant(self);
        }
        (self.candidates.len() + self.page_size - 1) / self.page_size
    }

    /// Turns to the next page, if there is one, and selects its first
    /// candidate.
    pub fn next_page(&mut self) -> (r: bool)
        ensures
            r == (old(self)@.page + 1 < pages_of(old(self)@.candidates.len() as int)),
            r ==> final(self)@ == (CandidateWindowView {
                page: (old(self)@.page + 1) as usize,
                selected_index: 0,
                ..old(self)@
            }),
            !r ==> final(self)@ == old(self)@,
    {
        proof {
            use_type_invariant(&*self);
        }
        let total = (self.candidates.len() + self.page_size - 1) / self.page_size;
        if self.page + 1 < total {
            assert((self.page + 1) * 10 + 10 <= self.candidates.len() + 9) by (nonlinear_arith)
                requires
                    self.page + 1 < total,
                    total == (self.candidates.len() + 9) / 10,
            ;
            self.page = self.page + 1;
            self.selected_index = 0;
            true
        } else {
            false
        }
    }

    /// Turns to the previous page, if there is one, and selects its first
    /// candidate.
    pub fn prev_page(&mut self) -> (r: bool)
        ensures
            r == (old(self)@.page > 0),
            r ==> final(self)@ == (CandidateWindowView {
                page: (old(self)@.page - 1) as usize,
                selected_index: 0,
                ..old(self)@
            }),
            !r ==> final(self)@ == old(self)@,
    {
        proof {
            use_type_invariant(&*self);
        }
        if self.page > 0 {
            assert((self.page - 1) * 10 <= self.page * 10) by (nonlinear_arith)
                requires
                    self.page > 0,
            ;
            self.page = self.page - 1;
            self.selected_index = 0;
            true
        } else {
            false
        }
    }

    /// Selects the next candidate: the next on the page, else the first of
    /// the next page; false when there is none.
    pub fn select_next(&mut self) -> (r: bool)
        ensures
            old(self)@.selected_index + 1 < page_items(old(self)@.candidates, old(self)@.page as int).len()
                ==> r && final(self)@ == (CandidateWindowView {
                selected_index: (old(self)@.selected_index + 1) as usize,
                ..old(self)@
            }),
            !(old(self)@.selected_index + 1 < page_items(old(self)@.candidates, old(self)@.page as int).len())
                ==> {
                &&& r == (old(self)@.page + 1 < pages_of(old(self)@.candidates.len() as int))
                &&& r ==> final(self)@ == (CandidateWindowView {
                    page: (old(self)@.page + 1) as usize,
                    selected_index: 0,
                    ..old(self)@
                })
                &&& !r ==> final(self)@ == old(self)@
            },
    {
        proof {
            use_type_invariant(&*self);
        }
        let n = self.current_page_candidates().len();
        if self.selected_index < n && self.selected_index + 1 < n {
            self.selected_index = self.selected_index + 1;
            true
        } else if self.next_page() {
            proof {
                use_type_invariant(&*self);
            }
            self.selected_index = 0;
            true
        } else {
            false
        }
    }

    /// Selects the previous candidate: the previous on the page, else the
    /// last of the previous page; false when there is none.
    pub fn select_prev(&mut self) -> (r: bool)
        ensures
            old(self)@.selected_index > 0 ==> r && final(self)@ == (CandidateWindowView {
                selected_index: (old(self)@.selected_index - 1) as usize,
                ..old(self)@
            }),
            old(self)@.selected_index == 0 ==> {
                &&& r == (old(self)@.page > 0)
                &&& r ==> final(self)@ == (CandidateWindowView {
                    page: (old(self)@.page - 1) as usize,
                    selected_index: if page_items(old(self)@.candidates, old(self)@.page - 1).len() > 0 {
                        (page_items(old(self)@.candidates, old(self)@.page - 1).len() - 1) as usize
                    } else {
                        0
                    },
                    ..old(self)@
                })
                &&& !r ==> final(self)@ == old(self)@
            },
    {
        proof {
            use_type_invariant(&*self);
        }
        if self.selected_index > 0 {
            self.selected_index = self.selected_index - 1;
            true
        } else if self.prev_page() {
            proof {
                use_type_invariant(&*self);
            }
            let n = self.current_page_candidates().len();
            self.selected_index = if n > 0 {
                n - 1
            } else {
                0
            };
            true
        } else {
            false
        }
    }

    /// Selects candidate `index` of the current page, if it has one.
    pub fn select(&mut self, index: usize) -> (r: bool)
        ensures
            r == (index < page_items(old(self)@.candidates, old(self)@.page as int).len()),
            r ==> final(self)@ == (CandidateWindowView { selected_index: index, ..old(self)@ }),
            !r ==> final(self)@ == old(self)@,
    {
        proof {
            use_type_invariant(&*self);
        }
        if index < self.current_page_candidates().len() {
            self.selected_index = index;
            true
        } else {
            false
        }
    }

    /// The selected candidate of the current page, if there is one.
    pub fn selected_candidate(&self) -> (r: Option<&T>)
        ensures
            match r {
                Some(c) => self@.selected_index < page_items(self@.candidates, self@.page as int).len()
                    && *c == page_items(self@.candidates, self@.page as int)[self@.selected_index as int],
                None => self@.selected_index >= page_items(self@.candidates, self@.page as int).len(),
            },
    {
        let items = self.current_page_candidates();
        if self.selected_index < items.len() {
            Some(&items[self.selected_index])
        } else {
            None
        }
    }

    /// Where the window stands.
    pub fn position(&self) -> (r: &WindowPosition)
        ensures
            *r == self@.position,
    {
        &self.position
    }

    /// Moves and resizes the window.
    pub fn set_position(&mut self, position: WindowPosition)
        ensures
            final(self)@ == (CandidateWindowView { position, ..old(self)@ }),
    {
        proof {
            use_type_invariant(&*self);
        }
        self.position = position;
    }

    /// The style.
    pub fn style(&self) -> (r: &S)
        ensures
            *r == self@.style,
    {
        &self.style
    }

    /// Replaces the style.
    pub fn set_style(&mut self, style: S)
        ensures
            final(self)@ == (CandidateWindowView { style, ..old(self)@ }),
    {
        proof {
            use_type_invariant(&*self);
        }
        self.style = style;
    }

    /// Whether the window is shown.
    pub fn is_visible(&self) -> (r: bool)
        ensures
            r == self@.visible,
    {
        self.visible
    }

    /// Records whether the window is shown.
    pub fn set_visible(&mut self, visible: bool)
        ensures
            final(self)@ == (CandidateWindowView { visible, ..old(self)@ }),
    {
        proof {
            use_type_invariant(&*self);
        }
        self.visible = visible;
    }

    /// The current page.
    pub fn page(&self) -> (r: usize)
        ensures
            r == self@.page,
    {
        self.page
    }

    /// The number of candidates.
    pub fn total_candidates(&self) -> (r: usize)
        ensures
            r == self@.candidates.len(),
    {
        self.candidates.len()
    }

    /// The selected candidate of the current page.
    pub fn selected_index(&self) -> (r: usize)
        ensures
            r == self@.selected_index,
    {
        self.selected_index
    }
}

/// A window after `select_prev`.
pub open spec fn select_prev_view<T, S>(w: CandidateWindowView<T, S>) -> CandidateWindowView<T, S> {
    if w.selected_index > 0 {
        CandidateWindowView { selected_index: (w.selected_index - 1) as usize, ..w }
    } else if w.page > 0 {
        CandidateWindowView {
            page: (w.page - 1) as usize,
            selected_index: if page_items(w.candidates, w.page - 1).len() > 0 {
                (page_items(w.candidates, w.page - 1).len() - 1) as usize
            } else {
                0
            },
            ..w
        }
    } else {
        w
    }
}

/// A window after `select_next`.
pub open spec fn select_next_view<T, S>(w: CandidateWindowView<T, S>) -> CandidateWindowView<T, S> {
    if w.selected_index + 1 < page_items(w.candidates, w.page as int).len() {
        CandidateWindowView { selected_index: (w.selected_index + 1) as usize, ..w }
    } else if w.page + 1 < pages_of(w.candidates.len() as int) {
        CandidateWindowView { page: (w.page + 1) as usize, selected_index: 0, ..w }
    } else {
        w
    }
}

/// Several candidate windows, one of them possibly active.
pub struct CandidateWindowManager<T, S> {
    windows: Vec<CandidateWindow<T, S>>,
    active_window: Option<usize>,
}

/// The values of a list of windows.
pub open spec fn window_views<T, S>(ws: Seq<CandidateWindow<T, S>>) -> Seq<CandidateWindowView<T, S>> {
    ws.map_values(|w: CandidateWindow<T, S>| w@)
}

/// The value of a window manager.
pub struct WindowManagerView<T, S> {
    /// The windows.
    pub windows: Seq<CandidateWindowView<T, S>>,
    /// The index of the active window, if one was set.
    pub active: Option<usize>,
}

impl<T, S> View for CandidateWindowManager<T, S> {
    type V = WindowManagerView<T, S>;

    closed spec fn view(&self) -> WindowManagerView<T, S> {
        WindowManagerView { windows: window_views(self.windows@), active: self.active_window }
    }
}

/// The active window of a manager's value, when the active index holds one.
pub open spec fn active_view<T, S>(m: WindowManagerView<T, S>) -> Option<CandidateWindowView<T, S>> {
    match m.active {
        Some(i) => if i < m.windows.len() {
            Some(m.windows[i as int])
        } else {
            None
        },
        None => None,
    }
}

impl<T, S> CandidateWindowManager<T, S> {
    /// No windows, none active.
    pub fn new() -> (r: Self)
        ensures
            r@.windows.len() == 0,
            r@.active is None,
    {
        let r = CandidateWindowManager { windows: Vec::new(), active_window: None };
        assert(window_views(r.windows@) =~= Seq::<CandidateWindowView<T, S>>::empty());
        r
    }

    /// Adds a window at the end; its index.
    pub fn add_window(&mut self, window: CandidateWindow<T, S>) -> (r: usize)
        ensures
            r == old(self)@.windows.len(),
            final(self)@ == (WindowManagerView {
                windows: old(self)@.windows.push(window@),
                ..old(self)@
            }),
    {
        let index = self.windows.len();
        let ghost w0 = window_views(self.windows@);
        let ghost wv = window@;
        self.windows.push(window);
        assert(window_views(self.windows@) =~= w0.push(wv));
        index
    }

    /// Removes window `index`, if there is one; the active index is
    /// dropped when it was that window.
    pub fn remove_window(&mut self, index: usize) -> (r: bool)
        ensures
            r == (index < old(self)@.windows.len()),
            r ==> final(self)@ == (WindowManagerView {
                windows: old(self)@.windows.remove(index as int),
                active: if old(self)@.active == Some(index) {
                    None
                } else {
                    old(self)@.active
                },
            }),
            !r ==> final(self)@ == old(self)@,
    {
        if index < self.windows.len() {
            let ghost w0 = window_views(self.windows@);
            let _w = self.windows.remove(index);
            assert(window_views(self.windows@) =~= w0.remove(index as int));
            if self.active_window == Some(index) {
                self.active_window = None;
            }
            true
        } else {
            false
        }
    }

    /// Window `index`, if there is one.
    pub fn get_window(&self, index: usize) -> (r: Option<&CandidateWindow<T, S>>)
        ensures
            match r {
                Some(w) => index < self@.windows.len() && w@ == self@.windows[index as int],
                None => index >= self@.windows.len(),
            },
    {
        if index < self.windows.len() {
            Some(&self.windows[index])
        } else {
            None
        }
    }

    /// Makes window `index` active, if there is one.
    pub fn set_active_window(&mut self, index: usize) -> (r: bool)
        ensures
            r == (index < old(self)@.windows.len()),
            r ==> final(self)@ == (WindowManagerView { active: Some(index), ..old(self)@ }),
            !r ==> final(self)@ == old(self)@,
    {
        if index < self.windows.len() {
            self.active_window = Some(index);
            true
        } else {
            false
        }
    }

    /// The active window, if one is set and still there.
    pub fn active_window(&self) -> (r: Option<&CandidateWindow<T, S>>)
        ensures
            match r {
                Some(w) => active_view(self@) == Some(w@),
                None => active_view(self@) is None,
            },
    {
        match self.active_window {
            Some(i) => if i < self.windows.len() {
                Some(&self.windows[i])
            } else {
                None
            },
            None => None,
        }
    }

    /// The index of the active window, if one is set and still there.
    pub fn active_index(&self) -> (r: Option<usize>)
        ensures
            match r {
                Some(i) => self@.active == Some(i) && i < self@.windows.len(),
                None => active_view(self@) is None,
            },
    {
        match self.active_window {
            Some(i) => if i < self.windows.len() {
                Some(i)
            } else {
                None
            },
            None => None,
        }
    }

    /// Selects candidate `index` of the current page of the active window;
    /// `None` when no window is active.
    pub fn select_in_active(&mut self, index: usize) -> (r: Option<bool>)
        ensures
            match r {
                None => active_view(old(self)@) is None && final(self)@ == old(self)@,
                Some(b) => {
                    let i = old(self)@.active->0;
                    let w = old(self)@.windows[i as int];
                    &&& active_view(old(self)@) == Some(w)
                    &&& b == (index < page_items(w.candidates, w.page as int).len())
                    &&& final(self)@ == (WindowManagerView {
                        windows: old(self)@.windows.update(
                            i as int,
                            if b {
                                CandidateWindowView { selected_index: index, ..w }
                            } else {
                                w
                            },
                        ),
                        ..old(self)@
                    })
                },
            },
    {
        match self.active_index() {
            None => None,
            Some(i) => {
                let ghost w0 = window_views(self.windows@);
                let b = self.windows[i].select(index);
                assert(window_views(self.windows@) =~= w0.update(i as int, self.windows@[i as int]@));
                Some(b)
            },
        }
    }

    /// Turns to the previous page of the active window; `None` when no window is active.
    pub fn prev_page_in_active(&mut self) -> (r: Option<bool>)
        ensures
            match r {
                None => active_view(old(self)@) is None && final(self)@ == old(self)@,
                Some(b) => {
                    let i = old(self)@.active->0;
                    let w = old(self)@.windows[i as int];
                    &&& active_view(old(self)@) == Some(w)
                    &&& b == (w.page > 0)
                    &&& final(self)@ == (WindowManagerView {
                        windows: old(self)@.windows.update(i as int, if b { CandidateWindowView { page: (w.page - 1) as usize, selected_index: 0, ..w } } else { w }),
                        ..old(self)@
                    })
                },
            },
    {
        match self.active_index() {
            None => None,
            Some(i) => {
                let ghost w0 = window_views(self.windows@);
                let b = self.windows[i].prev_page();
                assert(window_views(self.windows@) =~= w0.update(i as int, self.windows@[i as int]@));
                Some(b)
            },
        }
    }

    /// Turns to the next page of the active window; `None` when no window is active.
    pub fn next_page_in_active(&mut self) -> (r: Option<bool>)
        ensures
            match r {
                None => active_view(old(self)@) is None && final(self)@ == old(self)@,
                Some(b) => {
                    let i = old(self)@.active->0;
                    let w = old(self)@.windows[i as int];
                    &&& active_view(old(self)@) == Some(w)
                    &&& b == (w.page + 1 < pages_of(w.candidates.len() as int))
                    &&& final(self)@ == (WindowManagerView {
                        windows: old(self)@.windows.update(i as int, if b { CandidateWindowView { page: (w.page + 1) as usize, selected_index: 0, ..w } } else { w }),
                        ..old(self)@
                    })
                },
            },
    {
        match self.active_index() {
            None => None,
            Some(i) => {
                let ghost w0 = window_views(self.windows@);
                let b = self.windows[i].next_page();
                assert(window_views(self.windows@) =~= w0.update(i as int, self.windows@[i as int]@));
                Some(b)
            },
        }
    }

    /// Selects the previous candidate of the active window; `None` when no window is active.
    pub fn select_prev_in_active(&mut self) -> (r: Option<bool>)
        ensures
            match r {
                None => active_view(old(self)@) is None && final(self)@ == old(self)@,
                Some(b) => {
                    let i = old(self)@.active->0;
                    let w = old(self)@.windows[i as int];
                    &&& active_view(old(self)@) == Some(w)
                    &&& b == (w.selected_index > 0 || w.page > 0)
                    &&& final(self)@ == (WindowManagerView {
                        windows: old(self)@.windows.update(i as int, select_prev_view(w)),
                        ..old(self)@
                    })
                },
            },
    {
        match self.active_index() {
            None => None,
            Some(i) => {
                let ghost w0 = window_views(self.windows@);
                let b = self.windows[i].select_prev();
                assert(window_views(self.windows@) =~= w0.update(i as int, self.windows@[i as int]@));
                Some(b)
            },
        }
    }

    /// Selects the next candidate of the active window; `None` when no window is active.
    pub fn select_next_in_active(&mut self) -> (r: Option<bool>)
        ensures
            match r {
                None => active_view(old(self)@) is None && final(self)@ == old(self)@,
                Some(b) => {
                    let i = old(self)@.active->0;
                    let w = old(self)@.windows[i as int];
                    &&& active_view(old(self)@) == Some(w)
                    &&& b == (w.selected_index + 1 < page_items(w.candidates, w.page as int).len() || w.page + 1 < pages_of(w.candidates.len() as int))
                    &&& final(self)@ == (WindowManagerView {
                        windows: old(self)@.windows.update(i as int, select_next_view(w)),
                        ..old(self)@
                    })
                },
            },
    {
        match self.active_index() {
            None => None,
            Some(i) => {
                let ghost w0 = window_views(self.windows@);
                let b = self.windows[i].select_next();
                assert(window_views(self.windows@) =~= w0.update(i as int, self.windows@[i as int]@));
                Some(b)
            },
        }
    }

    /// Sets the candidates of the active window (first page, first
    /// candidate); false when no window is active.
    pub fn set_candidates_in_active(&mut self, candidates: Vec<T>) -> (r: bool)
        requires
            candidates@.len() + PAGE_SIZE <= usize::MAX,
        ensures
            r == (active_view(old(self)@) is Some),
            r ==> final(self)@ == (WindowManagerView {
                windows: old(self)@.windows.update(
                    old(self)@.active->0 as int,
                    CandidateWindowView {
                        candidates: candidates@,
                        page: 0,
                        selected_index: 0,
                        ..old(self)@.windows[old(self)@.active->0 as int]
                    },
                ),
                ..old(self)@
            }),
            !r ==> final(self)@ == old(self)@,
    {
        match self.active_index() {
            None => false,
            Some(i) => {
                let ghost w0 = window_views(self.windows@);
                self.windows[i].set_candidates(candidates);
                assert(window_views(self.windows@) =~= w0.update(i as int, self.windows@[i as int]@));
                true
            },
        }
    }

    /// Records whether the active window is shown; false when no window is
    /// active.
    pub fn set_visible_in_active(&mut self, visible: bool) -> (r: bool)
        ensures
            r == (active_view(old(self)@) is Some),
            r ==> final(self)@ == (WindowManagerView {
                windows: old(self)@.windows.update(
                    old(self)@.active->0 as int,
                    CandidateWindowView { visible, ..old(self)@.windows[old(self)@.active->0 as int] },
                ),
                ..old(self)@
            }),
            !r ==> final(self)@ == old(self)@,
    {
        match self.active_index() {
            None => false,
            Some(i) => {
                let ghost w0 = window_views(self.windows@);
                self.windows[i].set_visible(visible);
                assert(window_views(self.windows@) =~= w0.update(i as int, self.windows@[i as int]@));
                true
            },
        }
    }

    /// The number of windows.
    pub fn window_count(&self) -> (r: usize)
        ensures
            r == self@.windows.len(),
    {
        self.windows.len()
    }

    /// Removes all windows; none is active.
    pub fn clear(&mut self)
        ensures
            final(self)@.windows.len() == 0,
            final(self)@.active is None,
    {
        self.windows.clear();
        self.active_window = None;
        assert(window_views(self.windows@) =~= Seq::<CandidateWindowView<T, S>>::empty());
    }
}

} // verus!
