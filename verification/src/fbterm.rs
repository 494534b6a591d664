//! The input state of the framebuffer-terminal front end, and the decoding
//! of its message headers. Matching and ranking candidates is done by the
//! caller, which hands the ranked texts back.
use vstd::prelude::*;

use crate::text::string_push;
use crate::types::string_views;

verus! {

broadcast use vstd::seq_lib::group_seq_properties;

/// Kinds of messages of the terminal's input-method protocol.
#[derive(PartialEq, Eq, Structural, Clone, Copy, Debug)]
pub enum MsgType {
    /// The server connects.
    Connect,
    /// The terminal disconnects.
    Disconnect,
    /// Input is switched on.
    Active,
    /// Input is switched off.
    Deactive,
    /// A key was pressed.
    SendKey,
    /// Text to insert.
    PutText,
    /// Windows to draw.
    SetWins,
    /// Windows drawn.
    AckWins,
    /// Where the cursor is.
    CursorPosition,
    /// Facts about the terminal.
    FbTermInfo,
    /// The user interface is hidden.
    HideUI,
    /// The user interface is shown.
    ShowUI,
    /// Hiding acknowledged.
    AckHideUI,
}

/// The number that stands for each kind of message.
pub open spec fn msg_code(t: MsgType) -> u32 {
    match t {
        MsgType::Connect => 1,
        MsgType::Disconnect => 2,
        MsgType::Active => 3,
        MsgType::Deactive => 4,
        MsgType::SendKey => 5,
        MsgType::PutText => 6,
        MsgType::SetWins => 7,
        MsgType::AckWins => 8,
        MsgType::CursorPosition => 9,
        MsgType::FbTermInfo => 10,
        MsgType::HideUI => 11,
        MsgType::ShowUI => 12,
        MsgType::AckHideUI => 13,
    }
}

/// The number of a kind of message.
pub fn msg_type_code(t: MsgType) -> (r: u32)
    ensures
        r == msg_code(t),
{
    match t {
        MsgType::Connect => 1,
        MsgType::Disconnect => 2,
        MsgType::Active => 3,
        MsgType::Deactive => 4,
        MsgType::SendKey => 5,
        MsgType::PutText => 6,
        MsgType::SetWins => 7,
        MsgType::AckWins => 8,
        MsgType::CursorPosition => 9,
        MsgType::FbTermInfo => 10,
        MsgType::HideUI => 11,
        MsgType::ShowUI => 12,
        MsgType::AckHideUI => 13,
    }
}

/// The largest payload accepted, in bytes.
pub const MAX_PAYLOAD: usize = 1048576;

/// Why a header is refused.
#[derive(PartialEq, Eq, Structural, Clone, Copy, Debug)]
pub enum HeaderError {
    /// The kind of message is unknown.
    UnknownType,
    /// The payload is larger than `MAX_PAYLOAD`.
    PayloadTooLarge(u32),
}

/// Decodes a message header given as its two numbers: the kind, and the
/// payload length, which must not exceed `MAX_PAYLOAD`.
pub fn decode_header(type_val: u32, length: u32) -> (r: Result<(MsgType, usize), HeaderError>)
    ensures
        match r {
            Ok((t, n)) => msg_code(t) == type_val && n == length && length <= MAX_PAYLOAD,
            Err(HeaderError::UnknownType) => !(1 <= type_val <= 13),
            Err(HeaderError::PayloadTooLarge(l)) => 1 <= type_val <= 13 && l == length && length
                > MAX_PAYLOAD,
        },
{
    let t = if type_val == 1 {
        MsgType::Connect
    } else if type_val == 2 {
        MsgType::Disconnect
    } else if type_val == 3 {
        MsgType::Active
    } else if type_val == 4 {
        MsgType::Deactive
    } else if type_val == 5 {
        MsgType::SendKey
    } else if type_val == 6 {
        MsgType::PutText
    } else if type_val == 7 {
        MsgType::SetWins
    } else if type_val == 8 {
        MsgType::AckWins
    } else if type_val == 9 {
        MsgType::CursorPosition
    } else if type_val == 10 {
        MsgType::FbTermInfo
    } else if type_val == 11 {
        MsgType::HideUI
    } else if type_val == 12 {
        MsgType::ShowUI
    } else if type_val == 13 {
        MsgType::AckHideUI
    } else {
        return Err(HeaderError::UnknownType);
    };
    if length as usize > MAX_PAYLOAD {
        return Err(HeaderError::PayloadTooLarge(length));
    }
    Ok((t, length as usize))
}

/// The input state of the terminal front end.
pub struct FbtermState {
    buffer: String,
    active: bool,
    candidates: Vec<String>,
    selected_index: usize,
    cursor_x: u32,
    cursor_y: u32,
}

/// The value of the input state.
pub struct FbtermView {
    /// The text typed.
    pub buffer: Seq<char>,
    /// Whether input is on.
    pub active: bool,
    /// The ranked candidates of the buffer.
    pub candidates: Seq<Seq<char>>,
    /// The selected candidate.
    pub selected_index: usize,
    /// The cursor column.
    pub cursor_x: u32,
    /// The cursor row.
    pub cursor_y: u32,
}

impl View for FbtermState {
    type V = FbtermView;

    closed spec fn view(&self) -> FbtermView {
        FbtermView {
            buffer: self.buffer@,
            active: self.active,
            candidates: string_views(self.candidates@),
            selected_index: self.selected_index,
            cursor_x: self.cursor_x,
            cursor_y: self.cursor_y,
        }
    }
}

/// The state with the input cleared.
pub open spec fn cleared(v: FbtermView) -> FbtermView {
    FbtermView { buffer: seq![], candidates: seq![], selected_index: 0, ..v }
}

/// The state after its buffer changed: with an empty buffer the candidates
/// are cleared; otherwise the caller must match the buffer.
pub open spec fn refreshed(v: FbtermView) -> FbtermView {
    if v.buffer.len() == 0 {
        FbtermView { candidates: seq![], selected_index: 0, ..v }
    } else {
        v
    }
}

/// The buffer to match after it changed, if it is not empty.
pub open spec fn query_of(v: FbtermView) -> Option<Seq<char>> {
    if v.buffer.len() == 0 {
        None
    } else {
        Some(v.buffer)
    }
}

/// The lower case of an ASCII letter.
pub open spec fn ascii_lower(b: u8) -> char {
    if 65 <= b <= 90 {
        ((b + 32) as u32) as char
    } else {
        (b as u32) as char
    }
}

/// What the first byte of a key does: Enter commits the selected
/// candidate, Space the first, a digit that candidate (0 the tenth),
/// Backspace deletes, Escape clears, a letter is typed in lower case.
/// The result is the committed text and the buffer to match.
pub open spec fn after_key(o: FbtermView, keys: Seq<u8>, n: FbtermView, commit: Option<Seq<char>>, query: Option<Seq<char>>) -> bool {
    if keys.len() == 0 {
        n == o && commit is None && query is None
    } else {
        let key = keys[0];
        let ready = o.buffer.len() > 0 && o.candidates.len() > 0;
        if key == 0x0d || key == 0x0a {
            query is None && if ready {
                n == cleared(o) && commit == Some(o.candidates[o.selected_index as int])
            } else {
                n == o && commit is None
            }
        } else if key == 0x08 || key == 0x7f {
            commit is None && if o.buffer.len() > 0 {
                let b = FbtermView { buffer: o.buffer.drop_last(), ..o };
                n == refreshed(b) && query == query_of(b)
            } else {
                n == o && query is None
            }
        } else if key == 0x1b {
            n == cleared(o) && commit is None && query is None
        } else if key == 0x20 {
            query is None && if ready {
                n == cleared(o) && commit == Some(o.candidates[0])
            } else {
                n == o && commit is None
            }
        } else if 0x31 <= key <= 0x39 {
            let idx = key - 0x31;
            query is None && if o.buffer.len() > 0 && idx < o.candidates.len() {
                n == cleared(o) && commit == Some(o.candidates[idx])
            } else {
                n == o && commit is None
            }
        } else if key == 0x30 {
            query is None && if o.buffer.len() > 0 && o.candidates.len() > 9 {
                n == cleared(o) && commit == Some(o.candidates[9])
            } else {
                n == o && commit is None
            }
        } else if (0x61 <= key <= 0x7a) || (0x41 <= key <= 0x5a) {
            let b = FbtermView { buffer: o.buffer.push(ascii_lower(key)), ..o };
            commit is None && n == refreshed(b) && query == query_of(b)
        } else {
            n == o && commit is None && query is None
        }
    }
}

impl FbtermState {
    #[verifier::type_invariant]
    spec fn first_selected(&self) -> bool {
        self.selected_index == 0
    }

    /// An inactive state with nothing typed.
    pub fn new() -> (r: Self)
        ensures
            r@ == (FbtermView {
                buffer: seq![],
                active: false,
                candidates: seq![],
                selected_index: 0,
                cursor_x: 0,
                cursor_y: 0,
            }),
    {
        let r = FbtermState {
            buffer: String::new(),
            active: false,
            candidates: Vec::new(),
            selected_index: 0,
            cursor_x: 0,
            cursor_y: 0,
        };
        assert(string_views(r.candidates@) =~= Seq::<Seq<char>>::empty());
        r
    }

    /// Whether input is on.
    pub fn is_active(&self) -> (r: bool)
        ensures
            r == self@.active,
    {
        self.active
    }

    /// The text typed.
    pub fn buffer(&self) -> (r: &str)
        ensures
            r@ == self@.buffer,
    {
        self.buffer.as_str()
    }

    /// The ranked candidates.
    pub fn candidates(&self) -> (r: &[String])
        ensures
            string_views(r@) == self@.candidates,
    {
        self.candidates.as_slice()
    }

    /// The cursor position.
    pub fn cursor(&self) -> (r: (u32, u32))
        ensures
            r == (self@.cursor_x, self@.cursor_y),
    {
        (self.cursor_x, self.cursor_y)
    }

    /// Input switched on.
    pub fn activate(&mut self)
        ensures
            final(self)@ == (FbtermView { active: true, ..old(self)@ }),
    {
        proof {
            use_type_invariant(&*self);
        }
        self.active = true;
    }

    /// Input switched off: the input is cleared.
    pub fn deactivate(&mut self)
        ensures
            final(self)@ == (FbtermView {
                active: false,
                buffer: seq![],
                candidates: seq![],
                ..old(self)@
            }),
    {
        proof {
            use_type_invariant(&*self);
        }
        self.active = false;
        self.buffer = String::new();
        self.candidates = Vec::new();
        assert(string_views(self.candidates@) =~= Seq::<Seq<char>>::empty());
    }

    /// Records the cursor position.
    pub fn set_cursor(&mut self, x: u32, y: u32)
        ensures
            final(self)@ == (FbtermView { cursor_x: x, cursor_y: y, ..old(self)@ }),
    {
        proof {
            use_type_invariant(&*self);
        }
        self.cursor_x = x;
        self.cursor_y = y;
    }

    /// Takes the ranked candidates of the buffer; the first is selected.
    pub fn set_candidates(&mut self, ranked: Vec<String>)
        ensures
            final(self)@ == (FbtermView {
                candidates: string_views(ranked@),
                selected_index: 0,
                ..old(self)@
            }),
    {
        proof {
            use_type_invariant(&*self);
        }
        self.candidates = ranked;
        self.selected_index = 0;
    }

    /// Clears the input.
    fn clear(&mut self)
        ensures
            final(self)@ == cleared(old(self)@),
    {
        proof {
            use_type_invariant(&*self);
        }
        self.buffer = String::new();
        self.candidates = Vec::new();
        self.selected_index = 0;
        assert(string_views(self.candidates@) =~= Seq::<Seq<char>>::empty());
    }

    /// Clears the candidates when the buffer is empty; otherwise returns the
    /// buffer, whose candidates the caller must match, rank and hand back
    /// with `set_candidates`.
    pub fn update_candidates(&mut self) -> (r: Option<String>)
        ensures
            final(self)@ == refreshed(old(self)@),
            match r {
                Some(q) => query_of(old(self)@) == Some(q@),
                None => query_of(old(self)@) is None,
            },
    {
        proof {
            use_type_invariant(&*self);
        }
        if crate::text::str_chars(self.buffer.as_str()).len() == 0 {
            self.candidates = Vec::new();
            self.selected_index = 0;
            assert(string_views(self.candidates@) =~= Seq::<Seq<char>>::empty());
            None
        } else {
            Some(self.buffer.clone())
        }
    }

    /// Commits candidate `idx` and clears the input.
    fn commit(&mut self, idx: usize) -> (r: Option<String>)
        requires
            idx < old(self)@.candidates.len(),
        ensures
            final(self)@ == cleared(old(self)@),
            r matches Some(t) && t@ == old(self)@.candidates[idx as int],
    {
        proof {
            use_type_invariant(&*self);
        }
        let t = self.candidates[idx].clone();
        self.clear();
        Some(t)
    }

    /// Handles a key, given as its bytes: returns the text to commit, and
    /// the buffer when its candidates must be matched and handed back with
    /// `set_candidates`.
    pub fn process_key(&mut self, keys: &[u8]) -> (r: (Option<String>, Option<String>))
        ensures
            after_key(
                old(self)@,
                keys@,
                final(self)@,
                match r.0 {
                    Some(t) => Some(t@),
                    None => None,
                },
                match r.1 {
                    Some(q) => Some(q@),
                    None => None,
                },
            ),
    {
        proof {
            use_type_invariant(&*self);
        }
        if keys.len() == 0 {
            return (None, None);
        }
        let key = keys[0];
        let has_buffer = crate::text::str_chars(self.buffer.as_str()).len() > 0;
        let ready = has_buffer && self.candidates.len() > 0;
        if key == 0x0d || key == 0x0a {
            if ready {
                let i = self.selected_index;
                (self.commit(i), None)
            } else {
                (None, None)
            }
        } else if key == 0x08 || key == 0x7f {
            if has_buffer {
                let chars = crate::text::str_chars(self.buffer.as_str());
                let kept = crate::text::sub_chars(chars.as_slice(), 0, chars.len() - 1);
                self.buffer = crate::text::string_from_chars(kept.as_slice());
                let q = self.update_candidates();
                (None, q)
            } else {
                (None, None)
            }
        } else if key == 0x1b {
            self.clear();
            (None, None)
        } else if key == 0x20 {
            if ready {
                (self.commit(0), None)
            } else {
                (None, None)
            }
        } else if 0x31 <= key && key <= 0x39 {
            let idx = (key - 0x31) as usize;
            if has_buffer && idx < self.candidates.len() {
                (self.commit(idx), None)
            } else {
                (None, None)
            }
        } else if key == 0x30 {
            if has_buffer && self.candidates.len() > 9 {
                (self.commit(9), None)
            } else {
                (None, None)
            }
        } else if (0x61 <= key && key <= 0x7a) || (0x41 <= key && key <= 0x5a) {
            let code: u32 = if key <= 0x5a {
                key as u32 + 32
            } else {
                key as u32
            };
            let c = crate::key_mapper::char_from_ascii(code);
            let mut b = self.buffer.clone();
            string_push(&mut b, c);
            self.buffer = b;
            let q = self.update_candidates();
            (None, q)
        } else {
            (None, None)
        }
    }

    /// Handles a message of the terminal and says what the server does next.
    /// `payload` is the message's payload and `cursor` its first two
    /// native-endian words, read by the caller where it has eight bytes.
    /// A disconnect stops; switching input on or off sets it (off clears
    /// the input and redraws); a key is handled only while input is on, and
    /// then the windows are redrawn; a cursor position is kept where the
    /// payload holds one; hiding redraws and is acknowledged; anything else
    /// changes nothing.
    pub fn on_message(&mut self, t: MsgType, payload: &[u8], cursor: Option<(u32, u32)>) -> (r:
        FbtermReply)
        ensures
            r.stop == (t == MsgType::Disconnect),
            r.ack_hide == (t == MsgType::HideUI),
            r.set_wins == (t == MsgType::Deactive || t == MsgType::HideUI || (t == MsgType::SendKey
                && old(self)@.active)),
            t == MsgType::SendKey && old(self)@.active ==> after_key(
                old(self)@,
                payload@,
                final(self)@,
                match r.commit {
                    Some(c) => Some(c@),
                    None => None,
                },
                match r.query {
                    Some(q) => Some(q@),
                    None => None,
                },
            ),
            !(t == MsgType::SendKey && old(self)@.active) ==> r.commit is None && r.query is None,
            t == MsgType::Active ==> final(self)@ == (FbtermView { active: true, ..old(self)@ }),
            t == MsgType::Deactive ==> final(self)@ == (FbtermView {
                active: false,
                buffer: seq![],
                candidates: seq![],
                ..old(self)@
            }),
            t == MsgType::CursorPosition ==> final(self)@ == match cursor {
                Some((x, y)) => if payload@.len() >= 8 {
                    FbtermView { cursor_x: x, cursor_y: y, ..old(self)@ }
                } else {
                    old(self)@
                },
                None => old(self)@,
            },
            !(t == MsgType::Active || t == MsgType::Deactive || t == MsgType::CursorPosition || (t
                == MsgType::SendKey && old(self)@.active)) ==> final(self)@ == old(self)@,
    {
        let mut r = FbtermReply { stop: false, commit: None, query: None, set_wins: false, ack_hide: false };
        match t {
            MsgType::Disconnect => {
                r.stop = true;
            },
            MsgType::Active => {
                self.activate();
            },
            MsgType::Deactive => {
                self.deactivate();
                r.set_wins = true;
            },
            MsgType::SendKey => {
                if self.active {
                    let (commit, query) = self.process_key(payload);
                    r.commit = commit;
                    r.query = query;
                    r.set_wins = true;
                }
            },
            MsgType::CursorPosition => {
                if payload.len() >= 8 {
                    if let Some((x, y)) = cursor {
                        self.set_cursor(x, y);
                    }
                }
            },
            MsgType::HideUI => {
                r.set_wins = true;
                r.ack_hide = true;
            },
            _ => {},
        }
        r
    }
}

/// What the server does after a message.
pub struct FbtermReply {
    /// Stop serving: the terminal disconnected.
    pub stop: bool,
    /// Text to insert.
    pub commit: Option<String>,
    /// The buffer whose candidates must be matched and handed back with
    /// `set_candidates`.
    pub query: Option<String>,
    /// Send the windows.
    pub set_wins: bool,
    /// Acknowledge hiding.
    pub ack_hide: bool,
}

} // verus!
