//! The text being composed, with an undo history.
use vstd::prelude::*;

use crate::text::{
    char_len_utf8, char_width, str_chars, string_from_chars, lemma_utf8_len_push, utf8_len,
};
use crate::types::{
    InputContext, InputContextView, InputMode, clone_strings, string_views,
};

verus! {

broadcast use vstd::seq_lib::group_seq_properties;

/// The cursor `cursor` stands at the character boundary `k` of `buf`.
pub open spec fn cursor_at(buf: Seq<char>, cursor: usize, k: int) -> bool {
    0 <= k <= buf.len() && utf8_len(buf.take(k)) == cursor
}

/// The cursor stands on a character boundary of the buffer.
pub open spec fn cursor_on_boundary(ctx: InputContextView) -> bool {
    exists|k: int| #[trigger] cursor_at(ctx.buffer, ctx.cursor, k)
}

/// The history after the context `cur` is saved into `h` (at most `max` kept).
pub open spec fn saved(h: Seq<InputContextView>, cur: InputContextView, max: usize) -> Seq<
    InputContextView,
> {
    if h.push(cur).len() > max {
        h.push(cur).drop_first()
    } else {
        h.push(cur)
    }
}

/// Undoing right after a change gives back the context before the change:
/// the change saved it last, and undo restores the last saved context and
/// the history before it (when the history was not full).
pub proof fn law_undo_reverts_change(h: Seq<InputContextView>, cur: InputContextView, max: usize)
    requires
        max >= 1,
    ensures
        saved(h, cur, max).len() > 0,
        saved(h, cur, max).last() == cur,
        h.len() < max ==> saved(h, cur, max).drop_last() == h,
{
    assert(h.push(cur).last() == cur);
    if h.push(cur).len() > max {
        assert(h.push(cur).drop_first().last() == cur);
    } else {
        assert(h.push(cur).drop_last() == h);
    }
}

/// The values of a sequence of contexts.
pub open spec fn context_views(v: Seq<InputContext>) -> Seq<InputContextView> {
    v.map_values(|c: InputContext| c@)
}

/// Keeps the current input context and its history for undo.
pub struct ContextManager {
    current: InputContext,
    history: History,
}

/// Saved contexts, oldest first; never more than 100.
struct History {
    items: Vec<InputContext>,
    max: usize,
}

impl History {
    /// At most `max` saved contexts, and `max` is 100.
    #[verifier::type_invariant]
    spec fn bounded(&self) -> bool {
        &&& self.max == 100
        &&& self.items@.len() <= self.max
    }

    /// The saved contexts.
    spec fn views(&self) -> Seq<InputContextView> {
        context_views(self.items@)
    }

    /// No saved contexts.
    fn new() -> (r: Self)
        ensures
            r.views() == Seq::<InputContextView>::empty(),
            r.max == 100,
    {
        let r = History { items: Vec::new(), max: 100 };
        assert(context_views(r.items@) =~= Seq::<InputContextView>::empty());
        r
    }

    /// Saves `c`, dropping the oldest context when the history is full.
    fn save(&mut self, c: InputContext)
        ensures
            final(self).views() == saved(old(self).views(), c@, old(self).max),
            final(self).max == old(self).max,
    {
        proof {
            use_type_invariant(&*self);
        }
        let ghost h0 = self.views();
        let ghost cv = c@;
        let mut items: Vec<InputContext> = Vec::new();
        std::mem::swap(&mut items, &mut self.items);
        assert(context_views(items@) == h0);
        if items.len() >= self.max {
            items.remove(0);
            assert(context_views(items@) =~= h0.drop_first());
        }
        let ghost i1 = context_views(items@);
        items.push(c);
        assert(context_views(items@) =~= i1.push(cv));
        assert(saved(h0, cv, self.max) =~= context_views(items@));
        self.items = items;
    }

    /// Takes out the last saved context, if any.
    fn pop(&mut self) -> (r: Option<InputContext>)
        ensures
            final(self).max == old(self).max,
            match r {
                Some(c) => old(self).views().len() > 0 && c@ == old(self).views().last()
                    && final(self).views() == old(self).views().drop_last(),
                None => old(self).views().len() == 0 && final(self).views() == old(self).views(),
            },
    {
        proof {
            use_type_invariant(&*self);
        }
        let mut items: Vec<InputContext> = Vec::new();
        std::mem::swap(&mut items, &mut self.items);
        let ghost h0 = items@;
        let r = items.pop();
        if r.is_some() {
            assert(context_views(items@) =~= context_views(h0).drop_last());
        }
        self.items = items;
        r
    }

    /// Forgets the saved contexts.
    fn clear(&mut self)
        ensures
            final(self).views() == Seq::<InputContextView>::empty(),
            final(self).max == old(self).max,
    {
        proof {
            use_type_invariant(&*self);
        }
        self.items = Vec::new();
        assert(context_views(self.items@) =~= Seq::<InputContextView>::empty());
    }

    /// The saved contexts, oldest first: at most 100.
    fn as_slice(&self) -> (r: &[InputContext])
        ensures
            context_views(r@) == self.views(),
            r@.len() <= self.max,
            self.max == 100,
    {
        proof {
            use_type_invariant(self);
        }
        self.items.as_slice()
    }
}

/// The value of a [`ContextManager`].
pub struct ContextManagerView {
    /// The current context.
    pub current: InputContextView,
    /// Earlier contexts, oldest first.
    pub history: Seq<InputContextView>,
    /// Most contexts kept in the history.
    pub max_history: usize,
}

impl View for ContextManager {
    type V = ContextManagerView;

    closed spec fn view(&self) -> ContextManagerView {
        ContextManagerView {
            current: self.current@,
            history: self.history.views(),
            max_history: self.history.max,
        }
    }
}

/// Byte length of the first `k` characters of `buf`, step by step.
proof fn lemma_utf8_len_take_step(buf: Seq<char>, k: int)
    requires
        0 <= k < buf.len(),
    ensures
        utf8_len(buf.take(k + 1)) == utf8_len(buf.take(k)) + char_width(buf[k]),
        char_width(buf[k]) >= 1,
{
    assert(buf.take(k + 1) == buf.take(k).push(buf[k]));
    lemma_utf8_len_push(buf.take(k), buf[k]);
    vstd::utf8::char_is_scalar(buf[k]);
}

/// The byte offsets of the character boundaries grow with the boundary.
proof fn lemma_boundary_unique(buf: Seq<char>, cursor: usize, k1: int, k2: int)
    requires
        cursor_at(buf, cursor, k1),
        cursor_at(buf, cursor, k2),
    ensures
        k1 == k2,
    decreases k2 - k1,
{
    if k1 < k2 {
        lemma_boundary_grows(buf, k1, k2);
    } else if k2 < k1 {
        lemma_boundary_grows(buf, k2, k1);
    }
}

/// Later boundaries have larger byte offsets.
proof fn lemma_boundary_grows(buf: Seq<char>, a: int, b: int)
    requires
        0 <= a < b <= buf.len(),
    ensures
        utf8_len(buf.take(a)) < utf8_len(buf.take(b)),
    decreases b - a,
{
    lemma_utf8_len_take_step(buf, b - 1);
    if a < b - 1 {
        lemma_boundary_grows(buf, a, b - 1);
    }
}

/// The character index of the boundary at byte `cursor`, if there is one.
fn boundary_index(buf: &Vec<char>, cursor: usize) -> (r: Option<usize>)
    ensures
        match r {
            Some(k) => cursor_at(buf@, cursor, k as int),
            None => forall|k: int| !cursor_at(buf@, cursor, k),
        },
{
    let mut acc: usize = 0;
    let mut k: usize = 0;
    assert(buf@.take(0) =~= Seq::<char>::empty());
    while k < buf.len() && acc < cursor
        invariant
            k <= buf@.len(),
            acc == utf8_len(buf@.take(k as int)),
            acc <= cursor,
            forall|j: int| 0 <= j < k ==> utf8_len(buf@.take(j)) < cursor,
        decreases buf@.len() - k,
    {
        proof {
            lemma_utf8_len_take_step(buf@, k as int);
            assert forall|j: int| 0 <= j < k + 1 implies utf8_len(buf@.take(j)) < cursor by {
                if j < k {
                } else {
                }
            }
        }
        let w = char_len_utf8(buf[k]);
        if w > cursor - acc {
            proof {
                assert forall|j: int| !cursor_at(buf@, cursor, j) by {
                    if 0 <= j <= buf@.len() && utf8_len(buf@.take(j)) == cursor {
                        if j > k + 1 {
                            lemma_boundary_grows(buf@, k + 1, j);
                        }
                    }
                }
            }
            return None;
        }
        acc = acc + w;
        k = k + 1;
    }
    if acc == cursor {
        Some(k)
    } else {
        proof {
            assert forall|j: int| !cursor_at(buf@, cursor, j) by {
                if 0 <= j <= buf@.len() && utf8_len(buf@.take(j)) == cursor {
                    if j > k {
                        lemma_boundary_grows(buf@, k as int, j);
                    }
                }
            }
        }
        None
    }
}

/// A copy of `v` with `c` inserted at `k`.
fn insert_char(v: &Vec<char>, k: usize, c: char) -> (r: Vec<char>)
    requires
        k <= v@.len(),
    ensures
        r@ == v@.take(k as int).push(c) + v@.skip(k as int),
{
    let mut r: Vec<char> = Vec::new();
    let mut i: usize = 0;
    while i < k
        invariant
            i <= k <= v@.len(),
            r@ == v@.take(i as int),
        decreases k - i,
    {
        r.push(v[i]);
        assert(v@.take(i + 1) == v@.take(i as int).push(v@[i as int]));
        i = i + 1;
    }
    r.push(c);
    let ghost mid = r@;
    while i < v.len()
        invariant
            k <= i <= v@.len(),
            mid == v@.take(k as int).push(c),
            r@ == mid + v@.subrange(k as int, i as int),
        decreases v@.len() - i,
    {
        r.push(v[i]);
        assert(v@.subrange(k as int, i + 1) == v@.subrange(k as int, i as int).push(v@[i as int]));
        i = i + 1;
    }
    assert(v@.subrange(k as int, v@.len() as int) == v@.skip(k as int));
    r
}

impl ContextManager {
    /// A manager for session `session_id`: empty buffer, cursor 0, pinyin
    /// mode, nothing selected, no history, at most 100 saved contexts.
    pub fn new(session_id: u64) -> (r: Self)
        ensures
            r@.current.buffer.len() == 0,
            r@.current.cursor == 0,
            r@.current.mode == InputMode::Pinyin,
            r@.current.selected.len() == 0,
            r@.current.session_id == session_id,
            r@.history.len() == 0,
            r@.max_history == 100,
    {
        let current = InputContext {
            buffer: String::new(),
            cursor: 0,
            mode: InputMode::Pinyin,
            selected: Vec::new(),
            session_id,
        };
        let r = ContextManager { current, history: History::new() };
        assert(string_views(r.current.selected@) =~= Seq::<Seq<char>>::empty());
        r
    }

    /// The current context.
    pub fn current(&self) -> (r: &InputContext)
        ensures
            r@ == self@.current,
    {
        &self.current
    }

    /// The current context, for changes.
    pub fn current_mut(&mut self) -> (r: &mut InputContext)
        ensures
            r@ == old(self)@.current,
            final(self)@ == (ContextManagerView { current: final(r)@, ..old(self)@ }),
    {
        &mut self.current
    }

    /// Saves the current context into the history.
    fn save_history(&mut self)
        ensures
            final(self)@ == (ContextManagerView {
                history: saved(old(self)@.history, old(self)@.current, old(self)@.max_history),
                ..old(self)@
            }),
    {
        let c = self.current.duplicate();
        self.history.save(c);
    }

    /// Inserts `ch` at the cursor and moves the cursor past it; the
    /// context before is saved for undo.
    pub fn push_char(&mut self, ch: char)
        requires
            cursor_on_boundary(old(self)@.current),
            utf8_len(old(self)@.current.buffer) + 4 <= usize::MAX,
        ensures
            forall|k: int| #[trigger]
                cursor_at(old(self)@.current.buffer, old(self)@.current.cursor, k)
                    ==> final(self)@.current.buffer == old(self)@.current.buffer.take(k).push(ch)
                    + old(self)@.current.buffer.skip(k),
            final(self)@.current.cursor == old(self)@.current.cursor + char_width(ch),
            final(self)@.current.mode == old(self)@.current.mode,
            final(self)@.current.selected == old(self)@.current.selected,
            final(self)@.current.session_id == old(self)@.current.session_id,
            final(self)@.history == saved(
                old(self)@.history,
                old(self)@.current,
                old(self)@.max_history,
            ),
            final(self)@.max_history == old(self)@.max_history,
    {
        let ghost old_cur = self.current@;
        self.save_history();
        let chars = str_chars(self.current.buffer.as_str());
        let k0 = boundary_index(&chars, self.current.cursor);
        let k = match k0 {
            Some(k) => k,
            None => {
                proof {
                    let j = choose|j: int| #[trigger] cursor_at(old_cur.buffer, old_cur.cursor, j);
                    assert(cursor_at(chars@, self.current.cursor, j));
                }
                0
            },
        };
        let nv = insert_char(&chars, k, ch);
        let w = char_len_utf8(ch);
        proof {
            assert(cursor_at(old_cur.buffer, old_cur.cursor, k as int));
            assert(utf8_len(old_cur.buffer.take(k as int)) <= utf8_len(old_cur.buffer)) by {
                assert(old_cur.buffer == old_cur.buffer.take(k as int) + old_cur.buffer.skip(k as int));
                crate::text::lemma_utf8_len_append(old_cur.buffer.take(k as int), old_cur.buffer.skip(k as int));
            }
            assert forall|j: int| #[trigger] cursor_at(old_cur.buffer, old_cur.cursor, j) implies j == k by {
                lemma_boundary_unique(old_cur.buffer, old_cur.cursor, j, k as int);
            }
        }
        self.current.buffer = string_from_chars(nv.as_slice());
        self.current.cursor = self.current.cursor + w;
    }

    /// Removes the text between the character before the cursor and the end
    /// of the buffer, moves the cursor to where that character started, and
    /// returns that character; `None` when the cursor is at the start. The
    /// context before is saved for undo.
    pub fn pop_char(&mut self) -> (r: Option<char>)
        requires
            old(self)@.current.cursor > 0 ==> cursor_on_boundary(old(self)@.current),
        ensures
            old(self)@.current.cursor == 0 ==> r is None && final(self)@ == old(self)@,
            old(self)@.current.cursor > 0 ==> {
                &&& forall|k: int| #[trigger]
                    cursor_at(old(self)@.current.buffer, old(self)@.current.cursor, k)
                        ==> r == Some(old(self)@.current.buffer[k - 1])
                        && final(self)@.current.buffer == old(self)@.current.buffer.take(k - 1)
                        && final(self)@.current.cursor == utf8_len(
                        old(self)@.current.buffer.take(k - 1),
                    )
                &&& final(self)@.current.mode == old(self)@.current.mode
                &&& final(self)@.current.selected == old(self)@.current.selected
                &&& final(self)@.current.session_id == old(self)@.current.session_id
                &&& final(self)@.history == saved(
                    old(self)@.history,
                    old(self)@.current,
                    old(self)@.max_history,
                )
                &&& final(self)@.max_history == old(self)@.max_history
            },
    {
        if self.current.cursor > 0 {
            let ghost old_cur = self.current@;
            self.save_history();
            let chars = str_chars(self.current.buffer.as_str());
            let k0 = boundary_index(&chars, self.current.cursor);
            let k = match k0 {
                Some(k) => k,
                None => {
                    proof {
                        let j = choose|j: int| #[trigger] cursor_at(old_cur.buffer, old_cur.cursor, j);
                        assert(cursor_at(chars@, self.current.cursor, j));
                    }
                    1
                },
            };
            proof {
                assert forall|j: int| #[trigger] cursor_at(old_cur.buffer, old_cur.cursor, j) implies j == k by {
                    lemma_boundary_unique(old_cur.buffer, old_cur.cursor, j, k as int);
                }
                if k == 0 {
                    assert(chars@.take(0) =~= Seq::<char>::empty());
                }
            }
            let mut nv: Vec<char> = Vec::new();
            let mut i: usize = 0;
            let mut bytes: usize = 0;
            assert(chars@.take(0) =~= Seq::<char>::empty());
            while i + 1 < k
                invariant
                    k <= chars@.len(),
                    1 <= k,
                    i < k,
                    nv@ == chars@.take(i as int),
                    bytes == utf8_len(chars@.take(i as int)),
                    utf8_len(chars@.take(k as int)) == old_cur.cursor,
                decreases k - i,
            {
                proof {
                    lemma_utf8_len_take_step(chars@, i as int);
                    lemma_boundary_grows(chars@, i + 1, k as int);
                }
                let w = char_len_utf8(chars[i]);
                nv.push(chars[i]);
                bytes = bytes + w;
                i = i + 1;
            }
            let removed = chars[k - 1];
            self.current.buffer = string_from_chars(nv.as_slice());
            self.current.cursor = bytes;
            Some(removed)
        } else {
            None
        }
    }

    /// Empties the buffer and puts the cursor at 0; the context before is
    /// saved for undo.
    pub fn clear_buffer(&mut self)
        ensures
            final(self)@ == (ContextManagerView {
                current: InputContextView {
                    buffer: Seq::empty(),
                    cursor: 0,
                    ..old(self)@.current
                },
                history: saved(old(self)@.history, old(self)@.current, old(self)@.max_history),
                ..old(self)@
            }),
    {
        self.save_history();
        self.current.buffer = String::new();
        self.current.cursor = 0;
    }

    /// Sets the input mode.
    pub fn set_mode(&mut self, mode: InputMode)
        ensures
            final(self)@ == (ContextManagerView {
                current: InputContextView { mode, ..old(self)@.current },
                ..old(self)@
            }),
    {
        self.current.mode = mode;
    }

    /// The input mode.
    pub fn mode(&self) -> (r: InputMode)
        ensures
            r == self@.current.mode,
    {
        self.current.mode
    }

    /// Adds a chosen word.
    pub fn add_selected(&mut self, word: String)
        ensures
            final(self)@ == (ContextManagerView {
                current: InputContextView {
                    selected: old(self)@.current.selected.push(word@),
                    ..old(self)@.current
                },
                ..old(self)@
            }),
    {
        let ghost s0 = self.current.selected@;
        self.current.selected.push(word);
        assert(string_views(self.current.selected@) =~= string_views(s0).push(word@));
    }

    /// The chosen words.
    pub fn selected(&self) -> (r: &[String])
        ensures
            string_views(r@) == self@.current.selected,
    {
        self.current.selected.as_slice()
    }

    /// Forgets the chosen words.
    pub fn clear_selected(&mut self)
        ensures
            final(self)@ == (ContextManagerView {
                current: InputContextView { selected: Seq::empty(), ..old(self)@.current },
                ..old(self)@
            }),
    {
        self.current.selected.clear();
        assert(string_views(self.current.selected@) =~= Seq::<Seq<char>>::empty());
    }

    /// The buffer.
    pub fn buffer(&self) -> (r: &str)
        ensures
            r@ == self@.current.buffer,
    {
        self.current.buffer.as_str()
    }

    /// Byte length of the buffer.
    pub fn buffer_len(&self) -> (r: usize)
        ensures
            r == (utf8_len(self@.current.buffer) as usize),
    {
        self.current.buffer.as_str().len()
    }

    /// Whether the buffer is empty.
    pub fn is_buffer_empty(&self) -> (r: bool)
        ensures
            r == (self@.current.buffer.len() == 0),
    {
        self.current.buffer.as_str().is_empty()
    }

    /// The cursor (a byte offset).
    pub fn cursor(&self) -> (r: usize)
        ensures
            r == self@.current.cursor,
    {
        self.current.cursor
    }

    /// Goes back to the last saved context; `false` when there is none.
    pub fn undo(&mut self) -> (r: bool)
        ensures
            r == (old(self)@.history.len() > 0),
            r ==> final(self)@ == (ContextManagerView {
                current: old(self)@.history.last(),
                history: old(self)@.history.drop_last(),
                ..old(self)@
            }),
            !r ==> final(self)@ == old(self)@,
    {
        match self.history.pop() {
            Some(prev) => {
                self.current = prev;
                true
            },
            None => false,
        }
    }

    /// The saved contexts, oldest first: never more than the 100 kept.
    pub fn history(&self) -> (r: &[InputContext])
        ensures
            context_views(r@) == self@.history,
            self@.max_history == 100,
            self@.history.len() <= self@.max_history,
    {
        self.history.as_slice()
    }

    /// Forgets the saved contexts.
    pub fn clear_history(&mut self)
        ensures
            final(self)@ == (ContextManagerView { history: Seq::empty(), ..old(self)@ }),
    {
        self.history.clear();
    }
}

/// Events that change an input context.
pub enum ContextEvent {
    /// A character typed.
    CharInput(char),
    /// A character deleted.
    CharDelete,
    /// The buffer cleared.
    BufferClear,
    /// The mode switched.
    ModeChange(InputMode),
    /// A candidate chosen.
    CandidateSelect(String),
    /// The input confirmed.
    Confirm,
    /// The input cancelled.
    Cancel,
    /// The last change undone.
    Undo,
}

/// A saved copy of an input context.
pub struct ContextSnapshot {
    /// The buffer.
    pub buffer: String,
    /// The cursor.
    pub cursor: usize,
    /// The mode.
    pub mode: InputMode,
    /// The chosen words.
    pub selected: Vec<String>,
    /// When it was taken, in seconds since the epoch.
    pub timestamp: u64,
}

impl vstd::std_specs::convert::FromSpecImpl<&InputContext> for ContextSnapshot {
    open spec fn obeys_from_spec() -> bool {
        false
    }

    open spec fn from_spec(v: &InputContext) -> Self {
        vstd::pervasive::arbitrary()
    }
}

impl From<&InputContext> for ContextSnapshot {
    /// A snapshot of `ctx`, stamped with the current time.
    fn from(ctx: &InputContext) -> (r: Self)
        ensures
            r.buffer@ == ctx.buffer@,
            r.cursor == ctx.cursor,
            r.mode == ctx.mode,
            string_views(r.selected@) == string_views(ctx.selected@),
    {
        ContextSnapshot {
            buffer: ctx.buffer.clone(),
            cursor: ctx.cursor,
            mode: ctx.mode,
            selected: clone_strings(&ctx.selected),
            timestamp: crate::clock::now_millis() / 1000,
        }
    }
}

impl ContextSnapshot {
    /// The context that this snapshot holds, for session `session_id`.
    pub fn to_input_context(&self, session_id: u64) -> (r: InputContext)
        ensures
            r@ == (InputContextView {
                buffer: self.buffer@,
                cursor: self.cursor,
                mode: self.mode,
                selected: string_views(self.selected@),
                session_id,
            }),
    {
        InputContext {
            buffer: self.buffer.clone(),
            cursor: self.cursor,
            mode: self.mode,
            selected: clone_strings(&self.selected),
            session_id,
        }
    }
}

} // verus!
