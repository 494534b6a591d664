//! Decisions of the low-level keyboard hook used where the text-service key
//! channel is not available: which key events are taken over and handed to
//! the engine, which are passed on to the application, and the Shift switch
//! between Chinese and pass-through.
//!
//! The caller installs the hook, reads the keyboard layout and the modifier
//! keys, runs the engine and reports what it did; the choices are made here.
use vstd::prelude::*;

verus! {

/// Backspace.
pub const VK_BACK: u32 = 0x08;
/// Enter.
pub const VK_RETURN: u32 = 0x0D;
/// Escape.
pub const VK_ESCAPE: u32 = 0x1B;
/// Space.
pub const VK_SPACE: u32 = 0x20;
/// Page up.
pub const VK_PRIOR: u32 = 0x21;
/// Page down.
pub const VK_NEXT: u32 = 0x22;
/// Left arrow.
pub const VK_LEFT: u32 = 0x25;
/// Up arrow.
pub const VK_UP: u32 = 0x26;
/// Right arrow.
pub const VK_RIGHT: u32 = 0x27;
/// Down arrow.
pub const VK_DOWN: u32 = 0x28;
/// Shift.
pub const VK_SHIFT: u32 = 0x10;
/// Control.
pub const VK_CONTROL: u32 = 0x11;
/// Alt.
pub const VK_MENU: u32 = 0x12;
/// Keypad 0.
pub const VK_NUMPAD0: u32 = 0x60;
/// Keypad 9.
pub const VK_NUMPAD9: u32 = 0x69;

/// The engine key for virtual key `vk`: its code and the character it types.
pub open spec fn translate_spec(vk: u32) -> Option<(u32, Option<char>)> {
    if vk == VK_BACK || vk == VK_RETURN || vk == VK_ESCAPE || vk == VK_SPACE || vk == VK_PRIOR
        || vk == VK_NEXT || vk == VK_LEFT || vk == VK_UP || vk == VK_RIGHT || vk == VK_DOWN {
        Some((vk, None))
    } else if 0x41 <= vk <= 0x5A {
        Some((vk, Some(((vk + 0x20) as u8) as char)))
    } else if 0x30 <= vk <= 0x39 {
        Some((vk, Some((vk as u8) as char)))
    } else if vk == VK_SHIFT {
        Some((VK_SHIFT, None))
    } else if VK_NUMPAD0 <= vk <= VK_NUMPAD9 {
        Some(((vk - VK_NUMPAD0 + 0x30) as u32, Some(((vk - VK_NUMPAD0 + 0x30) as u8) as char)))
    } else {
        None
    }
}

/// Translates a virtual key into an engine key: the editing and paging keys
/// keep their codes, letters type their lower case, digits (also on the
/// keypad) type themselves; other keys are not for the engine.
pub fn translate(vk: u32) -> (r: Option<(u32, Option<char>)>)
    ensures
        r == translate_spec(vk),
{
    if vk == VK_BACK || vk == VK_RETURN || vk == VK_ESCAPE || vk == VK_SPACE || vk == VK_PRIOR
        || vk == VK_NEXT || vk == VK_LEFT || vk == VK_UP || vk == VK_RIGHT || vk == VK_DOWN {
        Some((vk, None))
    } else if 0x41 <= vk && vk <= 0x5A {
        Some((vk, Some(((vk + 0x20) as u8) as char)))
    } else if 0x30 <= vk && vk <= 0x39 {
        Some((vk, Some((vk as u8) as char)))
    } else if vk == VK_SHIFT {
        Some((VK_SHIFT, None))
    } else if VK_NUMPAD0 <= vk && vk <= VK_NUMPAD9 {
        let code: u32 = vk - VK_NUMPAD0 + 0x30;
        Some((code, Some((code as u8) as char)))
    } else {
        None
    }
}

/// Whether a keyboard layout handle (its low 32 bits) is a Chinese layout:
/// the primary language of its language identifier is Simplified (0x04) or
/// Traditional (0x1C) Chinese.
pub fn is_chinese_layout(layout: u32) -> (r: bool)
    ensures
        r == (layout % 1024 == 0x04 || layout % 1024 == 0x1C),
{
    let primary: u32 = layout % 1024;
    primary == 0x04 || primary == 0x1C
}

/// What to do with a key-down event.
#[derive(Debug, Clone, Copy, PartialEq, Eq)]
pub enum HookDecision {
    /// Pass it on to the application.
    PassThrough,
    /// Hand this key to the engine, then report with `engine_done`.
    Engine { code: u32, ch: Option<char> },
}

/// The hook's state: the Shift override and the keys taken over whose
/// release is still to come.
pub struct HookState {
    chinese_mode: bool,
    eaten_down: Vec<u32>,
}

/// What the hook state holds.
pub struct HookView {
    /// Chinese mode forced on by Shift.
    pub chinese_mode: bool,
    /// Keys taken over and still down, in the order they went down.
    pub eaten_down: Seq<u32>,
}

impl View for HookState {
    type V = HookView;

    closed spec fn view(&self) -> HookView {
        HookView { chinese_mode: self.chinese_mode, eaten_down: self.eaten_down@ }
    }
}

/// The decision for a key-down of `vk` in state `s`, given whether the
/// foreground layout is Chinese and whether Control or Alt is held.
pub open spec fn key_down_decision(
    s: HookView,
    vk: u32,
    system_chinese: bool,
    ctrl: bool,
    alt: bool,
) -> HookDecision {
    let chinese = s.chinese_mode || system_chinese;
    let eating = s.eaten_down.len() > 0;
    if vk == VK_CONTROL || vk == VK_MENU || vk == VK_SHIFT {
        HookDecision::PassThrough
    } else if !chinese && !eating {
        HookDecision::PassThrough
    } else if ctrl || alt {
        HookDecision::PassThrough
    } else {
        match translate_spec(vk) {
            Some((code, ch)) => HookDecision::Engine { code, ch },
            None => HookDecision::PassThrough,
        }
    }
}

impl HookState {
    /// No override, no key taken over.
    pub fn new() -> (r: Self)
        ensures
            !r@.chinese_mode,
            r@.eaten_down.len() == 0,
    {
        HookState { chinese_mode: false, eaten_down: Vec::new() }
    }

    /// Whether Chinese mode is forced on.
    pub fn chinese_mode(&self) -> (r: bool)
        ensures
            r == self@.chinese_mode,
    {
        self.chinese_mode
    }

    /// Whether some key taken over is still down.
    pub fn is_eating(&self) -> (r: bool)
        ensures
            r == (self@.eaten_down.len() > 0),
    {
        self.eaten_down.len() > 0
    }

    /// A key went down. Control and Alt always pass; Shift passes and, when
    /// no key taken over is down, switches the Chinese override. Other keys
    /// go to the engine when Chinese is on (forced or by layout) or a key
    /// taken over is down, no Control or Alt is held, and the key is one the
    /// engine knows.
    pub fn key_down(&mut self, vk: u32, system_chinese: bool, ctrl: bool, alt: bool) -> (r:
        HookDecision)
        ensures
            r == key_down_decision(old(self)@, vk, system_chinese, ctrl, alt),
            final(self)@.eaten_down == old(self)@.eaten_down,
            final(self)@.chinese_mode == if vk == VK_SHIFT && old(self)@.eaten_down.len() == 0 {
                !old(self)@.chinese_mode
            } else {
                old(self)@.chinese_mode
            },
    {
        if vk == VK_CONTROL || vk == VK_MENU {
            return HookDecision::PassThrough;
        }
        if vk == VK_SHIFT {
            if self.eaten_down.len() == 0 {
                self.chinese_mode = !self.chinese_mode;
            }
            return HookDecision::PassThrough;
        }
        let chinese = self.chinese_mode || system_chinese;
        let eating = self.eaten_down.len() > 0;
        if !chinese && !eating {
            return HookDecision::PassThrough;
        }
        if ctrl || alt {
            return HookDecision::PassThrough;
        }
        match translate(vk) {
            Some((code, ch)) => HookDecision::Engine { code, ch },
            None => HookDecision::PassThrough,
        }
    }

    /// The engine handled the key `vk`; `taken` says whether it consumed it
    /// (it is composing or it committed text). A consumed key is swallowed
    /// and remembered until it is released. Returns whether to swallow.
    pub fn engine_done(&mut self, vk: u32, taken: bool) -> (r: bool)
        ensures
            r == taken,
            final(self)@.chinese_mode == old(self)@.chinese_mode,
            final(self)@.eaten_down == if taken && !old(self)@.eaten_down.contains(vk) {
                old(self)@.eaten_down.push(vk)
            } else {
                old(self)@.eaten_down
            },
    {
        if taken {
            let mut i: usize = 0;
            let mut found = false;
            while i < self.eaten_down.len()
                invariant
                    i <= self.eaten_down@.len(),
                    found == (exists|k: int| 0 <= k < i && self.eaten_down@[k] == vk),
                decreases self.eaten_down@.len() - i,
            {
                if self.eaten_down[i] == vk {
                    found = true;
                }
                i = i + 1;
            }
            if !found {
                self.eaten_down.push(vk);
            } else {
                assert(self.eaten_down@.contains(vk));
            }
        }
        taken
    }

    /// A key went up: swallowed, and forgotten, when it was taken over on
    /// its way down; else passed on. Returns whether to swallow.
    pub fn key_up(&mut self, vk: u32) -> (r: bool)
        ensures
            r == old(self)@.eaten_down.contains(vk),
            final(self)@.chinese_mode == old(self)@.chinese_mode,
            r ==> exists|k: int|
                #![trigger old(self)@.eaten_down.remove(k)]
                0 <= k < old(self)@.eaten_down.len() && old(self)@.eaten_down[k] == vk && (
                forall|j: int| 0 <= j < k ==> old(self)@.eaten_down[j] != vk)
                    && final(self)@.eaten_down == old(self)@.eaten_down.remove(k),
            !r ==> final(self)@.eaten_down == old(self)@.eaten_down,
    {
        let mut i: usize = 0;
        while i < self.eaten_down.len()
            invariant
                i <= self.eaten_down@.len(),
                self.eaten_down@ == old(self).eaten_down@,
                self.chinese_mode == old(self).chinese_mode,
                forall|j: int| 0 <= j < i ==> self.eaten_down@[j] != vk,
            decreases self.eaten_down@.len() - i,
        {
            if self.eaten_down[i] == vk {
                let ghost before = self.eaten_down@;
                self.eaten_down.remove(i);
                assert(before[i as int] == vk);
                assert(before.contains(vk));
                assert(self.eaten_down@ == before.remove(i as int));
                assert(before == old(self)@.eaten_down);
                assert(self.eaten_down@ == old(self)@.eaten_down.remove(i as int));
                return true;
            }
            i = i + 1;
        }
        assert(!self.eaten_down@.contains(vk));
        false
    }

    /// Whether the hook may stop: no forced Chinese mode and no key taken
    /// over still down.
    pub fn should_exit_idle(&self) -> (r: bool)
        ensures
            r == (!self@.chinese_mode && self@.eaten_down.len() == 0),
    {
        !self.chinese_mode && self.eaten_down.len() == 0
    }
}

/// A key taken over on its way down is swallowed on its way up, and is then
/// forgotten.
pub proof fn law_taken_key_released(s: HookView, vk: u32)
    requires
        !s.eaten_down.contains(vk),
    ensures
        s.eaten_down.push(vk).contains(vk),
        s.eaten_down.push(vk).remove(s.eaten_down.len() as int) == s.eaten_down,
        forall|j: int| 0 <= j < s.eaten_down.len() ==> s.eaten_down.push(vk)[j] != vk,
{
    assert(s.eaten_down.push(vk)[s.eaten_down.len() as int] == vk);
    assert(s.eaten_down.push(vk).remove(s.eaten_down.len() as int) =~= s.eaten_down);
}

} // verus!
