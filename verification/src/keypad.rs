use vstd::prelude::*;

verus! {

/// The sixteen-key input latch of the machine: one pressed/released flag per
/// logical key 0x0..=0xF. The lookup from physical key codes to logical
/// indices lives outside the core; the keypad only stores indices.
pub struct Keypad {
    pub pad: Vec<bool>,
}

impl Keypad {
    /// All sixteen latches exist, and nothing more.
    pub open spec fn wf(&self) -> bool {
        self.pad@.len() == 16
    }

    /// A fresh keypad with every key released.
    pub fn new() -> (keypad: Keypad)
        ensures
            keypad.wf(),
            forall|k: int| 0 <= k < 16 ==> !keypad.pad@[k],
    {
        let mut pad: Vec<bool> = Vec::new();
        let mut k: usize = 0;
        while k < 16
            invariant
                k <= 16,
                pad@.len() == k,
                forall|j: int| 0 <= j < k ==> !pad@[j],
            decreases 16 - k,
        {
            pad.push(false);
            k = k + 1;
        }
        Keypad { pad }
    }

    /// Whether the key at `index` is currently pressed.
    pub fn get_status(&mut self, index: usize) -> (pressed: bool)
        requires
            old(self).wf(),
            index < 16,
        ensures
            final(self).pad@ == old(self).pad@,
            pressed == old(self).pad@[index as int],
    {
        self.pad[index]
    }

    /// Latches one key as pressed or released.
    pub fn set_key(&mut self, index: usize, state: bool)
        requires
            old(self).wf(),
            index < 16,
        ensures
            final(self).wf(),
            final(self).pad@ == old(self).pad@.update(index as int, state),
    {
        self.pad.set(index, state);
    }
}

impl Default for Keypad {
    /// Same as `Keypad::new`: every key released.
    fn default() -> (keypad: Keypad)
        ensures
            keypad.wf(),
            forall|k: int| 0 <= k < 16 ==> !keypad.pad@[k],
    {
        Keypad::new()
    }
}

} // verus!
