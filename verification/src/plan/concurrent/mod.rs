use vstd::prelude::*;

pub mod concurrent_marking_work;

verus! {

/// The pause type for a concurrent GC phase.
#[derive(Clone, Copy, Debug, PartialEq, Eq, Structural)]
pub enum Pause {
    /// A whole GC (including root scanning, closure, releasing, etc.) happening in a single pause.
    Full,
    /// The initial pause before concurrent marking.
    InitialMark,
    /// The pause after concurrent marking.
    FinalMark,
}

impl Default for Pause {
    fn default() -> (p: Pause)
        ensures
            p == Pause::Full,
    {
        Pause::Full
    }
}

/// The byte that stands for an optional pause: zero for none, then one per kind.
pub open spec fn pause_to_byte(pause: Option<Pause>) -> u8 {
    match pause {
        None => 0,
        Some(Pause::Full) => 1,
        Some(Pause::InitialMark) => 2,
        Some(Pause::FinalMark) => 3,
    }
}

/// The optional pause that a byte stands for.
pub open spec fn byte_to_pause(val: u8) -> Option<Pause>
    recommends
        val <= 3,
{
    if val == 0 {
        None
    } else if val == 1 {
        Some(Pause::Full)
    } else if val == 2 {
        Some(Pause::InitialMark)
    } else {
        Some(Pause::FinalMark)
    }
}

impl Pause {
    /// The byte for an optional pause.
    pub fn to_u8(pause: Option<Pause>) -> (r: u8)
        ensures
            r == pause_to_byte(pause),
    {
        match pause {
            None => 0,
            Some(Pause::Full) => 1,
            Some(Pause::InitialMark) => 2,
            Some(Pause::FinalMark) => 3,
        }
    }

    /// The optional pause for a byte. Only the bytes 0 to 3 stand for one.
    pub fn from_u8(val: u8) -> (r: Option<Pause>)
        requires
            val <= 3,
        ensures
            r == byte_to_pause(val),
    {
        if val == 0 {
            None
        } else if val == 1 {
            Some(Pause::Full)
        } else if val == 2 {
            Some(Pause::InitialMark)
        } else {
            Some(Pause::FinalMark)
        }
    }
}

/// Decoding the byte of an optional pause gives the pause back, and the byte is in range.
pub proof fn lemma_pause_round_trip(pause: Option<Pause>)
    ensures
        pause_to_byte(pause) <= 3,
        byte_to_pause(pause_to_byte(pause)) == pause,
{
}

/// Encoding the pause of an in-range byte gives the byte back.
pub proof fn lemma_byte_round_trip(val: u8)
    requires
        val <= 3,
    ensures
        pause_to_byte(byte_to_pause(val)) == val,
{
}

} // verus!
