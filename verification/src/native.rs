//! What the C interface of the engine reports: state and response codes,
//! the cursor as a C integer, and the spelling taken from typed text. The
//! pointers and allocations of the C interface are the caller's.
use vstd::prelude::*;

use crate::ime_host::{ImeResponse, ImeResponseType, ImeState};
use crate::text::{is_ascii_alnum, str_byte_len, str_chars, string_push, utf8_len};

verus! {

/// The engine state as the C interface reports it (codes 0 to 4).
#[derive(Debug, Clone, Copy, PartialEq, Eq, Structural)]
pub enum WbwImeState {
    Idle,
    Inputting,
    Selecting,
    Confirming,
    Error,
}

impl WbwImeState {
    /// The state for a host state.
    pub fn from_state(s: ImeState) -> (r: Self)
        ensures
            r == match s {
                ImeState::Idle => WbwImeState::Idle,
                ImeState::Inputting => WbwImeState::Inputting,
                ImeState::Selecting => WbwImeState::Selecting,
                ImeState::Confirming => WbwImeState::Confirming,
                ImeState::Error => WbwImeState::Error,
            },
    {
        match s {
            ImeState::Idle => WbwImeState::Idle,
            ImeState::Inputting => WbwImeState::Inputting,
            ImeState::Selecting => WbwImeState::Selecting,
            ImeState::Confirming => WbwImeState::Confirming,
            ImeState::Error => WbwImeState::Error,
        }
    }

    /// The C code of the state.
    pub fn code(&self) -> (r: u32)
        ensures
            r == match *self {
                WbwImeState::Idle => 0u32,
                WbwImeState::Inputting => 1,
                WbwImeState::Selecting => 2,
                WbwImeState::Confirming => 3,
                WbwImeState::Error => 4,
            },
    {
        match self {
            WbwImeState::Idle => 0,
            WbwImeState::Inputting => 1,
            WbwImeState::Selecting => 2,
            WbwImeState::Confirming => 3,
            WbwImeState::Error => 4,
        }
    }
}

/// The C code of a response kind.
pub open spec fn response_code(t: ImeResponseType) -> u32 {
    match t {
        ImeResponseType::Nothing => 0,
        ImeResponseType::InputChar => 1,
        ImeResponseType::DeleteChar => 2,
        ImeResponseType::Confirm => 3,
        ImeResponseType::Cancel => 4,
        ImeResponseType::SwitchMode => 5,
        ImeResponseType::ShowCandidates => 6,
        ImeResponseType::HideCandidates => 7,
        ImeResponseType::Error => 8,
    }
}

/// The C code of a response kind: 0 for none, then input, delete, confirm,
/// cancel, mode switch, show, hide, error.
pub fn response_type_code(t: ImeResponseType) -> (r: u32)
    ensures
        r == response_code(t),
{
    match t {
        ImeResponseType::Nothing => 0,
        ImeResponseType::InputChar => 1,
        ImeResponseType::DeleteChar => 2,
        ImeResponseType::Confirm => 3,
        ImeResponseType::Cancel => 4,
        ImeResponseType::SwitchMode => 5,
        ImeResponseType::ShowCandidates => 6,
        ImeResponseType::HideCandidates => 7,
        ImeResponseType::Error => 8,
    }
}

/// The cursor reported to C: the cursor, at most the buffer's byte length,
/// both taken as 32-bit integers (truncated as the C interface has it).
pub fn c_cursor(cursor: usize, buffer: &str) -> (r: u32)
    ensures
        r == if (cursor as u32) < (utf8_len(buffer@) as usize as u32) {
            cursor as u32
        } else {
            utf8_len(buffer@) as usize as u32
        },
{
    let c: u32 = cursor as u32;
    let n: u32 = str_byte_len(buffer) as u32;
    if c < n {
        c
    } else {
        n
    }
}

/// The ASCII letters and digits of `s`, in order.
pub open spec fn alnum_only(s: Seq<char>) -> Seq<char> {
    s.filter(|c: char| is_ascii_alnum(c))
}

/// The response to typing the text `text` at once: the spelling is its
/// ASCII letters and digits, the cursor stands after it, and the window is
/// refreshed; the candidates are the caller's.
pub fn input_text_response(text: &str) -> (r: ImeResponse)
    ensures
        r@.kind == ImeResponseType::InputChar,
        r@.text is None,
        r@.candidates.len() == 0,
        r@.buffer == alnum_only(text@),
        r@.cursor == utf8_len(alnum_only(text@)),
        r@.need_refresh,
        !r@.need_hide,
{
    let cs = str_chars(text);
    let mut buffer = String::new();
    let mut i: usize = 0;
    while i < cs.len()
        invariant
            i <= cs@.len(),
            cs@ == text@,
            buffer@ == alnum_only(cs@.take(i as int)),
        decreases cs@.len() - i,
    {
        let c = cs[i];
        assert(cs@.take(i + 1) == cs@.take(i as int).push(c));
        proof {
            cs@.take(i as int).lemma_filter_push(c, |c: char| is_ascii_alnum(c));
        }
        if crate::text::char_is_ascii_alnum(c) {
            string_push(&mut buffer, c);
        }
        i = i + 1;
    }
    assert(cs@.take(cs@.len() as int) == cs@);
    let cursor = str_byte_len(buffer.as_str());
    let r = ImeResponse {
        response_type: ImeResponseType::InputChar,
        text: None,
        candidates: Vec::new(),
        buffer,
        cursor,
        need_refresh: true,
        need_hide: false,
    };
    assert(crate::types::string_views(r.candidates@) =~= Seq::<Seq<char>>::empty());
    r
}

} // verus!
