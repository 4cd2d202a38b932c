use vstd::prelude::*;
use crate::instr::{decode, merge, merge_spec, decode_spec, Instr};

verus! {

/// The instruction stream for a source: command bytes are decoded in order, comment
/// bytes are dropped, and each instruction is folded into the previous one whenever
/// the two merge.
pub open spec fn lower_spec(src: Seq<u8>) -> Seq<Instr>
    decreases src.len(),
{
    if src.len() == 0 {
        Seq::empty()
    } else {
        let p = lower_spec(src.drop_last());
        match decode_spec(src.last()) {
            None => p,
            Some(x) => if p.len() > 0 && merge_spec(p.last(), x) is Some {
                p.update(p.len() - 1, merge_spec(p.last(), x)->0)
            } else {
                p.push(x)
            },
        }
    }
}

/// No two neighbouring instructions could be merged into one.
pub open spec fn run_length_maximal(p: Seq<Instr>) -> bool {
    forall|k: int| 0 <= k && k + 1 < p.len() ==> (#[trigger] merge_spec(p[k], p[k + 1])) is None
}

/// Lowers source bytes into run-length collapsed instructions.
pub fn lower(src: &Vec<u8>) -> (prog: Vec<Instr>)
    ensures
        prog@ == lower_spec(src@),
        run_length_maximal(prog@),
{
    proof {
        lemma_lower_run_length_maximal(src@);
    }
    let mut prog: Vec<Instr> = Vec::new();
    let mut i: usize = 0;
    while i < src.len()
        invariant
            i <= src.len(),
            prog@ == lower_spec(src@.take(i as int)),
        decreases src.len() - i,
    {
        assert(src@.take(i + 1).drop_last() == src@.take(i as int));
        match decode(src[i]) {
            None => {},
            Some(x) => {
                let n = prog.len();
                let merged = if n > 0 {
                    merge(prog[n - 1], x)
                } else {
                    None
                };
                match merged {
                    Some(m) => prog.set(n - 1, m),
                    None => prog.push(x),
                }
            },
        }
        i += 1;
    }
    assert(src@.take(src@.len() as int) == src@);
    prog
}

/// After lowering, neighbouring instructions never carry the same counted tag unless
/// their counts together overflow what one payload holds (a run of more than 255
/// `+` or `-` is split into several instructions).
pub proof fn lemma_lower_run_length_maximal(src: Seq<u8>)
    ensures
        run_length_maximal(lower_spec(src)),
    decreases src.len(),
{
    if src.len() > 0 {
        lemma_lower_run_length_maximal(src.drop_last());
        let p = lower_spec(src.drop_last());
        let q = lower_spec(src);
        match decode_spec(src.last()) {
            None => {},
            Some(x) => {
                if p.len() > 0 && merge_spec(p.last(), x) is Some {
                    assert forall|k: int| 0 <= k && k + 1 < q.len() implies (#[trigger] merge_spec(
                        q[k],
                        q[k + 1],
                    )) is None by {
                        if k + 2 < q.len() {
                            assert(q[k] == p[k] && q[k + 1] == p[k + 1]);
                        } else {
                            assert(merge_spec(p[k], p[k + 1]) is None);
                        }
                    }
                } else {
                    assert forall|k: int| 0 <= k && k + 1 < q.len() implies (#[trigger] merge_spec(
                        q[k],
                        q[k + 1],
                    )) is None by {
                        if k + 2 < q.len() {
                            assert(q[k] == p[k] && q[k + 1] == p[k + 1]);
                        }
                    }
                }
            },
        }
    }
}

} // verus!
