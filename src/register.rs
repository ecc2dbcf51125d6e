use vstd::prelude::*;
use vstd::string::*;

use crate::keys::{keys_text, push_keys_text, Key};

verus! {

/// Number of register slots: one per ASCII code.
pub const REGISTER_COUNT: usize = 128;

/// A register is named by one ASCII character.
#[derive(Clone, Copy, PartialEq, Eq, Structural, Debug)]
pub struct RegisterKey(pub u8);

impl RegisterKey {
    /// The register named by `c`, if `c` is an ASCII character.
    pub fn from_char(c: char) -> (r: Option<RegisterKey>)
        ensures
            (c as u32) < 128 ==> r == Some(RegisterKey(c as u8)),
            (c as u32) >= 128 ==> r is None,
    {
        let code = c as u32;
        if code < 128 {
            Some(RegisterKey(code as u8))
        } else {
            None
        }
    }
}

/// One growable string per register key.
pub struct RegisterCollection {
    pub registers: Vec<String>,
}

impl RegisterCollection {
    pub open spec fn wf(&self) -> bool {
        self.registers@.len() == REGISTER_COUNT
    }

    pub open spec fn text(&self, key: RegisterKey) -> Seq<char> {
        self.registers@[key.0 as int]@
    }

    pub fn new() -> (r: Self)
        ensures
            r.wf(),
            forall|k: int| 0 <= k < REGISTER_COUNT ==> (#[trigger] r.registers@[k])@.len() == 0,
    {
        let mut registers: Vec<String> = Vec::new();
        while registers.len() < REGISTER_COUNT
            invariant
                registers@.len() <= REGISTER_COUNT,
                forall|k: int| 0 <= k < registers@.len() ==> (#[trigger] registers@[k])@.len() == 0,
            decreases REGISTER_COUNT - registers@.len(),
        {
            registers.push(String::new());
        }
        RegisterCollection { registers }
    }

    pub fn get(&self, key: RegisterKey) -> (r: &str)
        requires
            self.wf(),
            key.0 < 128,
        ensures
            r@ == self.text(key),
    {
        self.registers[key.0 as usize].as_str()
    }

    /// Replaces the text of register `key`.
    pub fn set(&mut self, key: RegisterKey, text: &str)
        requires
            old(self).wf(),
            key.0 < 128,
        ensures
            final(self).wf(),
            final(self).text(key) == text@,
            forall|k: int| 0 <= k < REGISTER_COUNT && k != key.0 ==> #[trigger] final(self).registers@[k]
                == old(self).registers@[k],
    {
        self.registers.set(key.0 as usize, String::from_str(text));
    }

    /// Appends how `keys` are written to register `key`: how a macro records.
    pub fn record_keys(&mut self, key: RegisterKey, keys: &[Key])
        requires
            old(self).wf(),
            key.0 < 128,
        ensures
            final(self).wf(),
            final(self).text(key) == old(self).text(key) + keys_text(keys@),
            forall|k: int| 0 <= k < REGISTER_COUNT && k != key.0 ==> #[trigger] final(self).registers@[k]
                == old(self).registers@[k],
    {
        let mut text = String::new();
        self.registers.set_and_swap(key.0 as usize, &mut text);
        push_keys_text(&mut text, keys);
        self.registers.set(key.0 as usize, text);
    }
}

} // verus!
