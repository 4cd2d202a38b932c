use vstd::prelude::*;

verus! {

/// Payload that loop instructions carry before the linker has paired them.
pub const UNLINKED: usize = usize::MAX;

/// One compiled instruction.
#[derive(Clone, Copy, Debug, PartialEq, Eq, Structural)]
pub enum Instr {
    /// Move the data pointer left by the given count.
    MoveLeft(usize),
    /// Move the data pointer right by the given count.
    MoveRight(usize),
    /// Add the given amount to the current cell, wrapping.
    Add(u8),
    /// Subtract the given amount from the current cell, wrapping.
    Sub(u8),
    /// Loop head; the payload is the index of the matching `CloseLoop`.
    OpenLoop(usize),
    /// Loop tail; the payload is the index of the matching `OpenLoop`.
    CloseLoop(usize),
    /// Set the current cell to zero.
    Zero,
    /// Write the current cell.
    Output,
    /// Read one byte into the current cell.
    Input,
}

/// The instruction that a single source byte stands for, or `None` for a comment byte.
pub open spec fn decode_spec(b: u8) -> Option<Instr> {
    if b == 60 {  // '<'
        Some(Instr::MoveLeft(1))
    } else if b == 62 {  // '>'
        Some(Instr::MoveRight(1))
    } else if b == 43 {  // '+'
        Some(Instr::Add(1))
    } else if b == 45 {  // '-'
        Some(Instr::Sub(1))
    } else if b == 91 {  // '['
        Some(Instr::OpenLoop(UNLINKED))
    } else if b == 93 {  // ']'
        Some(Instr::CloseLoop(UNLINKED))
    } else if b == 46 {  // '.'
        Some(Instr::Output)
    } else if b == 44 {  // ','
        Some(Instr::Input)
    } else {
        None
    }
}

/// The single instruction that does what `a` followed by `b` does, when both are
/// counted instructions of the same kind and the summed count fits the payload.
pub open spec fn merge_spec(a: Instr, b: Instr) -> Option<Instr> {
    match (a, b) {
        (Instr::MoveLeft(x), Instr::MoveLeft(y)) => if x + y <= usize::MAX {
            Some(Instr::MoveLeft((x + y) as usize))
        } else {
            None
        },
        (Instr::MoveRight(x), Instr::MoveRight(y)) => if x + y <= usize::MAX {
            Some(Instr::MoveRight((x + y) as usize))
        } else {
            None
        },
        (Instr::Add(x), Instr::Add(y)) => if x + y <= u8::MAX {
            Some(Instr::Add((x + y) as u8))
        } else {
            None
        },
        (Instr::Sub(x), Instr::Sub(y)) => if x + y <= u8::MAX {
            Some(Instr::Sub((x + y) as u8))
        } else {
            None
        },
        _ => None,
    }
}

/// Decodes one source byte.
pub fn decode(b: u8) -> (r: Option<Instr>)
    ensures
        r == decode_spec(b),
{
    if b == 60 {  // '<'
        Some(Instr::MoveLeft(1))
    } else if b == 62 {  // '>'
        Some(Instr::MoveRight(1))
    } else if b == 43 {  // '+'
        Some(Instr::Add(1))
    } else if b == 45 {  // '-'
        Some(Instr::Sub(1))
    } else if b == 91 {  // '['
        Some(Instr::OpenLoop(UNLINKED))
    } else if b == 93 {  // ']'
        Some(Instr::CloseLoop(UNLINKED))
    } else if b == 46 {  // '.'
        Some(Instr::Output)
    } else if b == 44 {  // ','
        Some(Instr::Input)
    } else {
        None
    }
}

/// Combines two counted instructions of the same kind into one, if the count fits.
pub fn merge(a: Instr, b: Instr) -> (r: Option<Instr>)
    ensures
        r == merge_spec(a, b),
{
    match (a, b) {
        (Instr::MoveLeft(x), Instr::MoveLeft(y)) => match x.checked_add(y) {
            Some(n) => Some(Instr::MoveLeft(n)),
            None => None,
        },
        (Instr::MoveRight(x), Instr::MoveRight(y)) => match x.checked_add(y) {
            Some(n) => Some(Instr::MoveRight(n)),
            None => None,
        },
        (Instr::Add(x), Instr::Add(y)) => match x.checked_add(y) {
            Some(n) => Some(Instr::Add(n)),
            None => None,
        },
        (Instr::Sub(x), Instr::Sub(y)) => match x.checked_add(y) {
            Some(n) => Some(Instr::Sub(n)),
            None => None,
        },
        _ => None,
    }
}

} // verus!
