//! The battle log: the last three lines of battle text.
use vstd::prelude::*;

verus! {

/// The last three lines of battle text, oldest first.
pub struct BattleDialogue {
    pub dialogue1: String,
    pub dialogue2: String,
    pub dialogue3: String,
}

impl BattleDialogue {
    /// A log that only says the battle has started.
    pub fn new() -> (r: BattleDialogue)
        ensures
            r.dialogue1@ == Seq::<char>::empty(),
            r.dialogue2@ == Seq::<char>::empty(),
            r.dialogue3@ == ">Battle Start"@,
    {
        BattleDialogue {
            dialogue1: String::new(),
            dialogue2: String::new(),
            dialogue3: String::from_str(">Battle Start"),
        }
    }

    /// Appends `text` as the newest line; the oldest line drops out.
    pub fn change(&mut self, text: String)
        ensures
            final(self).dialogue1@ == old(self).dialogue2@,
            final(self).dialogue2@ == old(self).dialogue3@,
            final(self).dialogue3@ == text@,
    {
        self.dialogue1 = self.dialogue2.clone();
        self.dialogue2 = self.dialogue3.clone();
        self.dialogue3 = text;
    }
}

} // verus!
