use vstd::prelude::*;
use crate::instr::Instr;
use crate::link::{balanced, depth, link, linked, reports, same_shape, CompileError};
use crate::machine::{initial_state, run_spec, Status};
use crate::lower::{lower, lower_spec};
use crate::peephole::{peephole, peephole_from, peephole_spec};

verus! {

/// The program that lowering and the clear-cell rewrite make of a source, before
/// its loops are linked.
pub open spec fn unlinked_spec(src: Seq<u8>) -> Seq<Instr> {
    peephole_spec(lower_spec(src))
}

/// Compiles source bytes: lowers them, rewrites the clear-cell idiom, and links the
/// loops. Fails exactly when the loop brackets of the source are unbalanced.
pub fn compile(src: &Vec<u8>) -> (r: Result<Vec<Instr>, CompileError>)
    ensures
        r is Ok <==> balanced(unlinked_spec(src@)),
        r matches Ok(q) ==> same_shape(unlinked_spec(src@), q@) && linked(q@),
        r matches Err(e) ==> reports(unlinked_spec(src@), e),
{
    let mut prog = lower(src);
    peephole(&mut prog);
    match link(&mut prog) {
        Ok(()) => Ok(prog),
        Err(e) => Err(e),
    }
}

/// The empty source compiles, and any program that compiling it may give is empty
/// and halts at once from the initial state, writing nothing and reading nothing.
pub proof fn lemma_empty_source(q: Seq<Instr>, input: Seq<u8>, fuel: nat)
    requires
        same_shape(unlinked_spec(Seq::empty()), q),
    ensures
        balanced(unlinked_spec(Seq::empty())),
        q == Seq::<Instr>::empty(),
        run_spec(q, initial_state(), input, fuel) == (
            Status::Halted,
            initial_state(),
            Seq::<u8>::empty(),
        ),
{
    let e = Seq::<Instr>::empty();
    assert(lower_spec(Seq::<u8>::empty()) == e);
    assert(peephole_from(e, 0) == e);
    assert(depth(e, 0) == 0);
    assert(q =~= e);
}

} // verus!
