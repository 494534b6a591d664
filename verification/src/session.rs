//! Input sessions: each has its own input context, settings, activity times
//! and saved snapshots of the context. The manager numbers sessions from 1
//! and keeps the open ones.
//!
//! The candidate list shown for a session holds scores and is kept by the
//! caller beside it.
use vstd::prelude::*;

use crate::context::{ContextManager, ContextManagerView, ContextSnapshot};
use crate::types::{string_views, InputContextView, SessionConfig};

verus! {

/// Most snapshots a session keeps.
pub const MAX_SNAPSHOTS: usize = 50;

/// What happened to a session.
#[derive(Debug, Clone)]
pub enum SessionEvent {
    /// It was opened.
    Created(u64),
    /// It was closed.
    Closed(u64),
    /// It timed out.
    Timeout(u64),
    /// It failed.
    Error(u64, String),
}

/// One session.
pub struct SessionState {
    /// Its number.
    pub id: u64,
    /// Its input context and undo history.
    pub context: ContextManager,
    /// Its settings.
    pub config: SessionConfig,
    /// When it was opened, in seconds since the epoch.
    pub created_at: u64,
    /// When it was last active, in seconds since the epoch.
    pub last_active: u64,
    /// Saved snapshots of the context, oldest first.
    pub snapshots: Vec<ContextSnapshot>,
}

/// The context a snapshot holds, for session `id`.
pub open spec fn snapshot_context(s: ContextSnapshot, id: u64) -> InputContextView {
    InputContextView {
        buffer: s.buffer@,
        cursor: s.cursor,
        mode: s.mode,
        selected: string_views(s.selected@),
        session_id: id,
    }
}

/// A fresh context manager's value for session `id` whose current context
/// is `c`.
pub open spec fn fresh_context(c: InputContextView) -> ContextManagerView {
    ContextManagerView { current: c, history: seq![], max_history: 100 }
}

/// Whether the session inactive since `last_active` has timed out at `now`:
/// more than `timeout` seconds have passed (none when the clock went back).
pub open spec fn timed_out(now: u64, last_active: u64, timeout: u64) -> bool {
    now > last_active && now - last_active > timeout
}

/// Seconds from `from` to `now`, 0 when the clock went back.
pub open spec fn elapsed(now: u64, from: u64) -> u64 {
    if now > from {
        (now - from) as u64
    } else {
        0
    }
}

/// Seconds since the epoch.
fn now_secs() -> u64 {
    crate::clock::now_millis() / 1000
}

impl SessionState {
    /// Session `id` with `config`: an empty context, no snapshots, opened
    /// and active now.
    pub fn new(id: u64, config: SessionConfig) -> (r: Self)
        ensures
            r.id == id,
            r.context@.current.buffer.len() == 0,
            r.context@.current.cursor == 0,
            r.context@.current.session_id == id,
            r.context@.history.len() == 0,
            r.config == config,
            r.created_at == r.last_active,
            r.snapshots@.len() == 0,
    {
        let now = now_secs();
        SessionState {
            id,
            context: ContextManager::new(id),
            config,
            created_at: now,
            last_active: now,
            snapshots: Vec::new(),
        }
    }

    /// Marks the session active now. Only `last_active` changes.
    pub fn touch(&mut self)
        ensures
            final(self).id == old(self).id,
            final(self).context == old(self).context,
            final(self).config == old(self).config,
            final(self).created_at == old(self).created_at,
            final(self).snapshots == old(self).snapshots,
    {
        self.last_active = now_secs();
    }

    /// Saves a snapshot of the current context; beyond `MAX_SNAPSHOTS` the
    /// oldest one is dropped.
    pub fn save_snapshot(&mut self)
        ensures
            final(self).id == old(self).id,
            final(self).context == old(self).context,
            final(self).config == old(self).config,
            final(self).created_at == old(self).created_at,
            final(self).last_active == old(self).last_active,
            final(self).snapshots@.len() > 0,
            snapshot_context(final(self).snapshots@.last(), old(self).context@.current.session_id)
                == old(self).context@.current,
            final(self).snapshots@.drop_last() == if old(self).snapshots@.len() + 1
                > MAX_SNAPSHOTS {
                old(self).snapshots@.drop_first()
            } else {
                old(self).snapshots@
            },
    {
        let snapshot = ContextSnapshot::from(self.context.current());
        let ghost s0 = self.snapshots@;
        self.snapshots.push(snapshot);
        if self.snapshots.len() > MAX_SNAPSHOTS {
            let ghost s1 = self.snapshots@;
            self.snapshots.remove(0);
            assert(self.snapshots@ == s1.drop_first());
            assert(self.snapshots@.drop_last() == s0.drop_first());
        } else {
            assert(self.snapshots@.drop_last() == s0);
        }
    }

    /// Makes snapshot `index` the context again, with a fresh undo history;
    /// false when there is no such snapshot.
    pub fn restore_snapshot(&mut self, index: usize) -> (r: bool)
        ensures
            r == (index < old(self).snapshots@.len()),
            final(self).id == old(self).id,
            final(self).config == old(self).config,
            final(self).created_at == old(self).created_at,
            final(self).last_active == old(self).last_active,
            final(self).snapshots == old(self).snapshots,
            r ==> final(self).context@ == fresh_context(
                snapshot_context(old(self).snapshots@[index as int], old(self).id),
            ),
            !r ==> final(self).context == old(self).context,
    {
        if index < self.snapshots.len() {
            let ctx = self.snapshots[index].to_input_context(self.id);
            let mut mgr = ContextManager::new(self.id);
            let ghost cv = ctx@;
            let slot = mgr.current_mut();
            *slot = ctx;
            assert(mgr@.current == cv);
            assert(mgr@.history =~= Seq::<InputContextView>::empty());
            self.context = mgr;
            true
        } else {
            false
        }
    }

    /// The number of snapshots.
    pub fn snapshot_count(&self) -> (r: usize)
        ensures
            r == self.snapshots@.len(),
    {
        self.snapshots.len()
    }

    /// Drops all snapshots.
    pub fn clear_snapshots(&mut self)
        ensures
            final(self).snapshots@.len() == 0,
            final(self).id == old(self).id,
            final(self).context == old(self).context,
            final(self).config == old(self).config,
            final(self).created_at == old(self).created_at,
            final(self).last_active == old(self).last_active,
    {
        self.snapshots.clear();
    }

    /// The session's number.
    pub fn id(&self) -> (r: u64)
        ensures
            r == self.id,
    {
        self.id
    }

    /// The session's settings.
    pub fn config(&self) -> (r: &SessionConfig)
        ensures
            *r == self.config,
    {
        &self.config
    }

    /// Replaces the session's settings.
    pub fn set_config(&mut self, config: SessionConfig)
        ensures
            final(self).config == config,
            final(self).id == old(self).id,
            final(self).context == old(self).context,
            final(self).created_at == old(self).created_at,
            final(self).last_active == old(self).last_active,
            final(self).snapshots == old(self).snapshots,
    {
        self.config = config;
    }

    /// Whether, at `now` (seconds since the epoch), more than `timeout`
    /// seconds have passed since the session was last active.
    pub fn is_timeout_at(&self, now: u64, timeout: u64) -> (r: bool)
        ensures
            r == timed_out(now, self.last_active, timeout),
    {
        now > self.last_active && now - self.last_active > timeout
    }

    /// Whether more than `timeout` seconds have passed since the session was
    /// last active, by the clock now.
    pub fn is_timeout(&self, timeout: u64) -> (r: bool)
        ensures
            exists|now: u64| r == timed_out(now, self.last_active, timeout),
    {
        let now = now_secs();
        self.is_timeout_at(now, timeout)
    }

    /// Seconds from the opening to `now` (0 when the clock went back).
    pub fn duration_secs_at(&self, now: u64) -> (r: u64)
        ensures
            r == elapsed(now, self.created_at),
    {
        if now > self.created_at {
            now - self.created_at
        } else {
            0
        }
    }

    /// Seconds since the session was opened, by the clock now.
    pub fn duration_secs(&self) -> (r: u64)
        ensures
            exists|now: u64| r == elapsed(now, self.created_at),
    {
        let now = now_secs();
        self.duration_secs_at(now)
    }
}

/// The open sessions, numbered from 1.
pub struct SessionManager {
    sessions: Vec<SessionState>,
    next_id: u64,
    default_config: SessionConfig,
}

/// The numbers of a list of sessions.
pub open spec fn session_ids(s: Seq<SessionState>) -> Seq<u64> {
    s.map_values(|x: SessionState| x.id)
}

/// The position of session `id` in `s`, if it is there.
pub open spec fn position_of(s: Seq<SessionState>, id: u64) -> Option<int> {
    if exists|i: int| 0 <= i < s.len() && s[i].id == id {
        Some(choose|i: int| 0 <= i < s.len() && s[i].id == id)
    } else {
        None
    }
}

/// What the manager holds.
pub struct SessionManagerView {
    /// The open sessions, in the order they were opened.
    pub sessions: Seq<SessionState>,
    /// The number the next session gets.
    pub next_id: u64,
    /// The settings new sessions get.
    pub default_config: SessionConfig,
}

impl View for SessionManager {
    type V = SessionManagerView;

    closed spec fn view(&self) -> SessionManagerView {
        SessionManagerView {
            sessions: self.sessions@,
            next_id: self.next_id,
            default_config: self.default_config,
        }
    }
}

impl SessionManagerView {
    /// Sessions have distinct numbers, all below the next one, which is
    /// positive.
    pub open spec fn well_formed(self) -> bool {
        &&& self.next_id >= 1
        &&& forall|i: int, j: int|
            0 <= i < j < self.sessions.len() ==> #[trigger] self.sessions[i].id
                != #[trigger] self.sessions[j].id
        &&& forall|i: int| 0 <= i < self.sessions.len() ==> #[trigger] self.sessions[i].id < self.next_id
    }
}

impl SessionManager {
    /// No sessions; the first gets number 1; default settings.
    pub fn new() -> (r: Self)
        ensures
            r@.well_formed(),
            r@.sessions.len() == 0,
            r@.next_id == 1,
            r@.default_config.fuzzy_enabled,
            r@.default_config.max_candidates == 10,
            r@.default_config.ngram_enabled,
            r@.default_config.user_dict_path is None,
    {
        SessionManager { sessions: Vec::new(), next_id: 1, default_config: SessionConfig::default() }
    }

    /// Opens a session with the default settings; its number.
    pub fn create_session(&mut self) -> (r: u64)
        requires
            old(self)@.well_formed(),
            old(self)@.next_id < u64::MAX,
        ensures
            final(self)@.well_formed(),
            r == old(self)@.next_id,
            final(self)@.next_id == r + 1,
            final(self)@.default_config == old(self)@.default_config,
            final(self)@.sessions.drop_last() == old(self)@.sessions,
            final(self)@.sessions.len() == old(self)@.sessions.len() + 1,
            final(self)@.sessions.last().id == r,
            final(self)@.sessions.last().config.same(old(self)@.default_config),
            final(self)@.sessions.last().context@.current.buffer.len() == 0,
            final(self)@.sessions.last().snapshots@.len() == 0,
    {
        let config = self.default_config.duplicate();
        self.create_session_with_config(config)
    }

    /// Opens a session with `config`; its number.
    pub fn create_session_with_config(&mut self, config: SessionConfig) -> (r: u64)
        requires
            old(self)@.well_formed(),
            old(self)@.next_id < u64::MAX,
        ensures
            final(self)@.well_formed(),
            r == old(self)@.next_id,
            final(self)@.next_id == r + 1,
            final(self)@.default_config == old(self)@.default_config,
            final(self)@.sessions.drop_last() == old(self)@.sessions,
            final(self)@.sessions.len() == old(self)@.sessions.len() + 1,
            final(self)@.sessions.last().id == r,
            final(self)@.sessions.last().config == config,
            final(self)@.sessions.last().context@.current.buffer.len() == 0,
            final(self)@.sessions.last().snapshots@.len() == 0,
    {
        let id = self.next_id;
        self.next_id = self.next_id + 1;
        let state = SessionState::new(id, config);
        let ghost s0 = self.sessions@;
        self.sessions.push(state);
        assert(self.sessions@.drop_last() == s0);
        assert(self.sessions@[s0.len() as int].id == id);
        id
    }

    /// The position of session `id`.
    fn find(&self, id: u64) -> (r: Option<usize>)
        ensures
            match r {
                Some(i) => i < self@.sessions.len() && self@.sessions[i as int].id == id,
                None => forall|i: int| 0 <= i < self@.sessions.len() ==> self@.sessions[i].id != id,
            },
    {
        let mut i: usize = 0;
        while i < self.sessions.len()
            invariant
                i <= self.sessions@.len(),
                forall|k: int| 0 <= k < i ==> self.sessions@[k].id != id,
            decreases self.sessions@.len() - i,
        {
            if self.sessions[i].id == id {
                return Some(i);
            }
            i = i + 1;
        }
        None
    }

    /// Session `id`, if it is open.
    pub fn get_session(&self, id: u64) -> (r: Option<&SessionState>)
        requires
            self@.well_formed(),
        ensures
            match position_of(self@.sessions, id) {
                Some(i) => r == Some(&self@.sessions[i]),
                None => r is None,
            },
    {
        match self.find(id) {
            Some(i) => {
                proof {
                    lemma_position(self@.sessions, id, i as int);
                }
                Some(&self.sessions[i])
            },
            None => None,
        }
    }

    /// Closes session `id`; false when it is not open.
    pub fn close_session(&mut self, id: u64) -> (r: bool)
        requires
            old(self)@.well_formed(),
        ensures
            final(self)@.well_formed(),
            r == (position_of(old(self)@.sessions, id) is Some),
            final(self)@.next_id == old(self)@.next_id,
            final(self)@.default_config == old(self)@.default_config,
            match position_of(old(self)@.sessions, id) {
                Some(i) => final(self)@.sessions == old(self)@.sessions.remove(i),
                None => final(self)@.sessions == old(self)@.sessions,
            },
    {
        match self.find(id) {
            Some(i) => {
                proof {
                    lemma_position(self@.sessions, id, i as int);
                }
                let ghost s0 = self.sessions@;
                self.sessions.remove(i);
                proof {
                    assert forall|a: int, b: int|
                        0 <= a < b < self.sessions@.len() implies #[trigger] self.sessions@[a].id
                        != #[trigger] self.sessions@[b].id by {
                        let a0 = if a < i { a } else { a + 1 };
                        let b0 = if b < i { b } else { b + 1 };
                        assert(self.sessions@[a] == s0[a0]);
                        assert(self.sessions@[b] == s0[b0]);
                        assert(s0[a0].id != s0[b0].id);
                    }
                    assert forall|a: int| 0 <= a < self.sessions@.len() implies #[trigger] self.sessions@[a].id
                        < self.next_id by {
                        let a0 = if a < i { a } else { a + 1 };
                        assert(self.sessions@[a] == s0[a0]);
                    }
                }
                true
            },
            None => {
                proof {
                    assert(position_of(self@.sessions, id) is None);
                }
                false
            },
        }
    }

    /// The numbers of the open sessions, in the order they were opened.
    pub fn active_sessions(&self) -> (r: Vec<u64>)
        ensures
            r@ == session_ids(self@.sessions),
    {
        let mut r: Vec<u64> = Vec::new();
        let mut i: usize = 0;
        while i < self.sessions.len()
            invariant
                i <= self.sessions@.len(),
                r@ == session_ids(self.sessions@.take(i as int)),
            decreases self.sessions@.len() - i,
        {
            r.push(self.sessions[i].id);
            assert(self.sessions@.take(i + 1) == self.sessions@.take(i as int).push(self.sessions@[i as int]));
            assert(session_ids(self.sessions@.take(i + 1)) == session_ids(self.sessions@.take(i as int)).push(self.sessions@[i as int].id));
            i = i + 1;
        }
        assert(self.sessions@.take(self.sessions@.len() as int) == self.sessions@);
        r
    }

    /// The number of open sessions.
    pub fn active_count(&self) -> (r: usize)
        ensures
            r == self@.sessions.len(),
    {
        self.sessions.len()
    }

    /// Closes all sessions; numbering goes on.
    pub fn close_all(&mut self)
        requires
            old(self)@.well_formed(),
        ensures
            final(self)@.well_formed(),
            final(self)@ == (SessionManagerView { sessions: seq![], ..old(self)@ }),
    {
        self.sessions.clear();
    }

    /// The settings new sessions get.
    pub fn default_config(&self) -> (r: &SessionConfig)
        ensures
            *r == self@.default_config,
    {
        &self.default_config
    }

    /// Replaces the settings new sessions get.
    pub fn set_default_config(&mut self, config: SessionConfig)
        requires
            old(self)@.well_formed(),
        ensures
            final(self)@.well_formed(),
            final(self)@ == (SessionManagerView { default_config: config, ..old(self)@ }),
    {
        self.default_config = config;
    }

    /// Saves a snapshot in session `id`; false when it is not open.
    pub fn save_snapshot_in(&mut self, id: u64) -> (r: bool)
        requires
            old(self)@.well_formed(),
        ensures
            final(self)@.well_formed(),
            r == (position_of(old(self)@.sessions, id) is Some),
            final(self)@.next_id == old(self)@.next_id,
            final(self)@.default_config == old(self)@.default_config,
            final(self)@.sessions.len() == old(self)@.sessions.len(),
            !r ==> final(self)@.sessions == old(self)@.sessions,
            r ==> {
                let i = position_of(old(self)@.sessions, id)->0;
                let o = old(self)@.sessions[i];
                let n = final(self)@.sessions[i];
                &&& final(self)@.sessions == old(self)@.sessions.update(i, n)
                &&& n.id == o.id && n.context == o.context && n.config == o.config
                &&& snapshot_context(n.snapshots@.last(), o.context@.current.session_id)
                    == o.context@.current
                &&& n.snapshots@.drop_last() == if o.snapshots@.len() + 1 > MAX_SNAPSHOTS {
                    o.snapshots@.drop_first()
                } else {
                    o.snapshots@
                }
            },
    {
        match self.find(id) {
            Some(i) => {
                proof {
                    lemma_position(self@.sessions, id, i as int);
                }
                let ghost s0 = self.sessions@;
                let mut s = self.sessions.remove(i);
                s.save_snapshot();
                self.sessions.insert(i, s);
                proof {
                    assert(self.sessions@ == s0.update(i as int, s));
                    assert forall|a: int, b: int|
                        0 <= a < b < self.sessions@.len() implies #[trigger] self.sessions@[a].id
                        != #[trigger] self.sessions@[b].id by {
                        assert(self.sessions@[a].id == s0[a].id);
                        assert(self.sessions@[b].id == s0[b].id);
                    }
                    assert forall|a: int| 0 <= a < self.sessions@.len() implies #[trigger] self.sessions@[a].id
                        < self.next_id by {
                        assert(self.sessions@[a].id == s0[a].id);
                    }
                }
                true
            },
            None => false,
        }
    }
}

/// With distinct numbers, a position holding `id` is the position of `id`.
proof fn lemma_position(s: Seq<SessionState>, id: u64, i: int)
    requires
        0 <= i < s.len(),
        s[i].id == id,
        forall|a: int, b: int| 0 <= a < b < s.len() ==> #[trigger] s[a].id != #[trigger] s[b].id,
    ensures
        position_of(s, id) == Some(i),
{
    let j = choose|j: int| 0 <= j < s.len() && s[j].id == id;
    assert(0 <= j < s.len() && s[j].id == id);
    if j < i {
        assert(s[j].id != s[i].id);
    } else if j > i {
        assert(s[i].id != s[j].id);
    }
}

impl Default for SessionManager {
    /// The same as `new`.
    fn default() -> (r: Self)
        ensures
            r@.well_formed(),
            r@.sessions.len() == 0,
            r@.next_id == 1,
    {
        Self::new()
    }
}

/// Session numbers are never reused: a session opened after others gets a
/// number none of them has.
pub proof fn law_fresh_session_numbers(m: SessionManagerView)
    requires
        m.well_formed(),
    ensures
        forall|i: int| 0 <= i < m.sessions.len() ==> #[trigger] m.sessions[i].id != m.next_id,
{
}

} // verus!
