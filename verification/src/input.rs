//! The 16-key input port as the processor sees it: a pressed/released state
//! per logical key (hex digits 0..F). The host polls the real keyboard and
//! mirrors it into a `Keypad` before every step; the mapping from logical
//! keys to physical key codes is the host's, not the processor's.

use vstd::prelude::*;

verus! {

/// Number of logical keys.
pub const KEYS: usize = 16;

/// The lowest pressed key at or above `from`, if any.
pub open spec fn spec_first_pressed(keys: Seq<bool>, from: int) -> Option<u8>
    decreases KEYS - from,
    when from >= 0
{
    if from >= KEYS {
        None
    } else if keys[from] {
        Some(from as u8)
    } else {
        spec_first_pressed(keys, from + 1)
    }
}

/// Pressed state of the 16 logical keys.
pub struct Keypad {
    keys: Vec<bool>,
}

impl View for Keypad {
    type V = Seq<bool>;

    closed spec fn view(&self) -> Seq<bool> {
        self.keys@
    }
}

impl Keypad {
    pub open spec fn wf(&self) -> bool {
        self@.len() == KEYS
    }

    /// All keys released.
    pub fn new() -> (k: Keypad)
        ensures
            k.wf(),
            forall|j: int| 0 <= j < KEYS ==> !k@[j],
    {
        let mut keys: Vec<bool> = Vec::new();
        let mut j: usize = 0;
        while j < KEYS
            invariant
                j <= KEYS,
                keys@.len() == j,
                forall|i: int| 0 <= i < j ==> !keys@[i],
            decreases KEYS - j,
        {
            keys.push(false);
            j = j + 1;
        }
        Keypad { keys }
    }

    /// Record that a logical key went down or up.
    pub fn set_key(&mut self, key: u8, pressed: bool)
        requires
            old(self).wf(),
            key < 16,
        ensures
            final(self).wf(),
            final(self)@ == old(self)@.update(key as int, pressed),
    {
        self.keys[key as usize] = pressed;
    }

    /// Whether the key named by `key` is down; values outside 0..15 name no
    /// key and are never pressed.
    pub fn is_key_pressed(&self, key: u8) -> (r: bool)
        requires
            self.wf(),
        ensures
            r == (key < 16 && self@[key as int]),
    {
        key < 16 && self.keys[key as usize]
    }

    /// The lowest currently pressed key, if any.
    pub fn first_pressed(&self) -> (r: Option<u8>)
        requires
            self.wf(),
        ensures
            r == spec_first_pressed(self@, 0),
    {
        let mut j: usize = 0;
        while j < KEYS
            invariant
                self.wf(),
                j <= KEYS,
                spec_first_pressed(self@, 0) == spec_first_pressed(self@, j as int),
            decreases KEYS - j,
        {
            if self.keys[j] {
                return Some(j as u8);
            }
            j = j + 1;
        }
        None
    }
}

} // verus!
