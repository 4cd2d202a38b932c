use vstd::prelude::*;
use crate::instr::Instr;

verus! {

/// The three instructions at `i` are the clear-cell idiom: a loop whose body is a
/// single decrement by one.
pub open spec fn is_clear_window(p: Seq<Instr>, i: int) -> bool {
    0 <= i && i + 3 <= p.len() && p[i] is OpenLoop && p[i + 1] == Instr::Sub(1) && p[i
        + 2] is CloseLoop
}

/// Replaces the three instructions at `i` by `Zero`.
pub open spec fn clear_window(p: Seq<Instr>, i: int) -> Seq<Instr> {
    p.update(i, Instr::Zero).update(i + 1, Instr::Zero).update(i + 2, Instr::Zero)
}

/// The program after scanning from `i` onwards, left to right, rewriting every
/// clear-cell window and resuming after it.
pub open spec fn peephole_from(p: Seq<Instr>, i: int) -> Seq<Instr>
    decreases p.len() - i,
{
    if i < 0 || i + 3 > p.len() {
        p
    } else if is_clear_window(p, i) {
        peephole_from(clear_window(p, i), i + 3)
    } else {
        peephole_from(p, i + 1)
    }
}

/// The program with every clear-cell idiom rewritten, scanning from the start.
pub open spec fn peephole_spec(p: Seq<Instr>) -> Seq<Instr> {
    peephole_from(p, 0)
}

/// Rewrites every `OpenLoop, Sub(1), CloseLoop` window into three `Zero`s, in place.
pub fn peephole(prog: &mut Vec<Instr>)
    ensures
        final(prog)@ == peephole_spec(old(prog)@),
        final(prog)@.len() == old(prog)@.len(),
{
    let mut i: usize = 0;
    while i < prog.len() && prog.len() - i >= 3
        invariant
            prog@.len() == old(prog)@.len(),
            peephole_from(prog@, i as int) == peephole_spec(old(prog)@),
        decreases prog.len() - i,
    {
        let window = match (prog[i], prog[i + 1], prog[i + 2]) {
            (Instr::OpenLoop(_), Instr::Sub(1), Instr::CloseLoop(_)) => true,
            _ => false,
        };
        if window {
            prog.set(i, Instr::Zero);
            prog.set(i + 1, Instr::Zero);
            prog.set(i + 2, Instr::Zero);
            i += 3;
        } else {
            i += 1;
        }
    }
}

} // verus!
