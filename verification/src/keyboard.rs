use vstd::prelude::*;

verus! {

/// The state of the sixteen keys 0x0 to 0xF.
///
/// Its view is a sequence of sixteen booleans: entry `k` is true while key `k`
/// is held down.
pub struct Keyboard {
    keys: [bool; 16],
}

impl View for Keyboard {
    type V = Seq<bool>;

    closed spec fn view(&self) -> Seq<bool> {
        self.keys@
    }
}

/// A keypad on which no key is held down.
pub open spec fn all_released() -> Seq<bool> {
    Seq::new(16, |key: int| false)
}

/// Whether `key` names a key of the keypad that is held down. A value above
/// 0xF names no key, and so is never pressed.
pub open spec fn key_down(keys: Seq<bool>, key: int) -> bool {
    0 <= key < 16 && keys[key]
}

/// Whether none of the keys below `limit` is held down.
pub open spec fn none_down_below(keys: Seq<bool>, limit: int) -> bool {
    forall|key: int| 0 <= key < limit ==> !#[trigger] keys[key]
}

/// The lowest key that is held down, if any is.
pub open spec fn first_key_down(keys: Seq<bool>) -> Option<u8> {
    if exists|key: int| 0 <= key < 16 && #[trigger] keys[key] {
        Some(
            (choose|key: int| 0 <= key < 16 && #[trigger] keys[key] && none_down_below(keys, key)) as u8,
        )
    } else {
        None
    }
}

impl Keyboard {
    /// A keypad always has sixteen keys.
    pub proof fn lemma_sixteen_keys(&self)
        ensures
            self@.len() == 16,
    {
    }

    /// A keypad with every key released.
    pub fn new() -> (keyboard: Keyboard)
        ensures
            keyboard@ == all_released(),
    {
        let keyboard = Keyboard { keys: [false; 16] };
        assert(keyboard@ =~= all_released());
        keyboard
    }

    /// Records that `key` went down. A value above 0xF names no key and
    /// changes nothing.
    pub fn set_pressed(&mut self, key: u8)
        ensures
            final(self)@.len() == 16,
            key < 16 ==> final(self)@ == old(self)@.update(key as int, true),
            key >= 16 ==> final(self)@ == old(self)@,
    {
        if key < 16 {
            self.keys[key as usize] = true;
        }
    }

    /// Records that `key` came up. A value above 0xF names no key and
    /// changes nothing.
    pub fn set_released(&mut self, key: u8)
        ensures
            final(self)@.len() == 16,
            key < 16 ==> final(self)@ == old(self)@.update(key as int, false),
            key >= 16 ==> final(self)@ == old(self)@,
    {
        if key < 16 {
            self.keys[key as usize] = false;
        }
    }

    /// Whether `key` is held down.
    pub fn is_pressed(&self, key: u8) -> (pressed: bool)
        ensures
            pressed == key_down(self@, key as int),
    {
        key < 16 && self.keys[key as usize]
    }

    /// Whether `key` is not held down.
    pub fn is_released(&self, key: u8) -> (released: bool)
        ensures
            released == !key_down(self@, key as int),
    {
        !self.is_pressed(key)
    }

    /// Looks for a key press without blocking: the lowest key that is held
    /// down, or `None` while every key is released. A machine that waits for a
    /// key asks again on its next cycle.
    pub fn wait_key(&self) -> (key: Option<u8>)
        ensures
            key == first_key_down(self@),
            key matches Some(k) ==> k < 16 && self@[k as int] && none_down_below(self@, k as int),
            key is None ==> none_down_below(self@, 16),
    {
        let mut key: u8 = 0;
        while key < 16
            invariant
                key <= 16,
                self@.len() == 16,
                none_down_below(self@, key as int),
            decreases 16 - key,
        {
            if self.keys[key as usize] {
                return Some(key);
            }
            key = key + 1;
        }
        None
    }
}

} // verus!
