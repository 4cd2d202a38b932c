use vstd::prelude::*;
use crate::instr::Instr;

verus! {

/// Why a program's loop brackets could not be paired.
#[derive(Clone, Copy, Debug, PartialEq, Eq, Structural)]
pub enum CompileError {
    /// The `CloseLoop` at this index has no open loop to close.
    UnmatchedClose(usize),
    /// The `OpenLoop` at this index is never closed.
    UnmatchedOpen(usize),
}

/// How an instruction changes the loop nesting depth.
pub open spec fn bracket_delta(x: Instr) -> int {
    if x is OpenLoop {
        1
    } else if x is CloseLoop {
        -1
    } else {
        0
    }
}

/// Open loops minus close loops among the first `i` instructions.
pub open spec fn depth(p: Seq<Instr>, i: int) -> int
    decreases i,
{
    if i <= 0 {
        0
    } else {
        depth(p, i - 1) + bracket_delta(p[i - 1])
    }
}

/// The depth never goes below zero on any prefix of the first `n` instructions.
pub open spec fn never_negative(p: Seq<Instr>, n: int) -> bool {
    forall|k: int| 0 <= k <= n ==> #[trigger] depth(p, k) >= 0
}

/// The loop brackets of `p` are balanced.
pub open spec fn balanced(p: Seq<Instr>) -> bool {
    never_negative(p, p.len() as int) && depth(p, p.len() as int) == 0
}

/// `q` is `p` with at most the loop payloads changed.
pub open spec fn same_shape(p: Seq<Instr>, q: Seq<Instr>) -> bool {
    &&& p.len() == q.len()
    &&& forall|k: int|
        0 <= k < p.len() ==> {
            &&& (p[k] is OpenLoop <==> #[trigger] q[k] is OpenLoop)
            &&& (p[k] is CloseLoop <==> q[k] is CloseLoop)
            &&& (!(p[k] is OpenLoop) && !(p[k] is CloseLoop) ==> q[k] == p[k])
        }
}

/// The `OpenLoop` at `k` points forward to a `CloseLoop` that points back at it.
pub open spec fn open_linked(q: Seq<Instr>, k: int) -> bool {
    let j = q[k]->OpenLoop_0 as int;
    k < j < q.len() && q[j] == Instr::CloseLoop(k as usize)
}

/// The `CloseLoop` at `c` points back to an `OpenLoop` that points at it, and every
/// loop instruction strictly between the two is paired within that range.
pub open spec fn close_linked(q: Seq<Instr>, c: int) -> bool {
    let k = q[c]->CloseLoop_0 as int;
    &&& 0 <= k < c
    &&& q[k] == Instr::OpenLoop(c as usize)
    &&& forall|m: int|
        k < m < c ==> {
            &&& (#[trigger] q[m] is OpenLoop ==> q[m]->OpenLoop_0 < c)
            &&& (q[m] is CloseLoop ==> q[m]->CloseLoop_0 > k)
        }
}

/// Every loop instruction of `q` is paired with its partner, properly nested.
pub open spec fn linked(q: Seq<Instr>) -> bool {
    forall|k: int|
        0 <= k < q.len() ==> (#[trigger] q[k] is OpenLoop ==> open_linked(q, k)) && (
        q[k] is CloseLoop ==> close_linked(q, k))
}

/// `e` correctly describes why the brackets of `p` are unbalanced: either the depth
/// first drops below zero at the `CloseLoop` at index `c`, or it never does but ends
/// above zero, and index `o` holds an `OpenLoop` left open.
pub open spec fn reports(p: Seq<Instr>, e: CompileError) -> bool {
    match e {
        CompileError::UnmatchedClose(c) => {
            &&& c < p.len()
            &&& never_negative(p, c as int)
            &&& depth(p, c + 1) < 0
        },
        CompileError::UnmatchedOpen(o) => {
            &&& never_negative(p, p.len() as int)
            &&& depth(p, p.len() as int) > 0
            &&& o < p.len()
            &&& p[o as int] is OpenLoop
        },
    }
}

/// Pairs every `OpenLoop` with its `CloseLoop`, writing each partner's index into
/// the other's payload.
pub fn link(prog: &mut Vec<Instr>) -> (r: Result<(), CompileError>)
    ensures
        same_shape(old(prog)@, final(prog)@),
        r is Ok ==> balanced(old(prog)@) && linked(final(prog)@),
        r matches Err(e) ==> reports(old(prog)@, e),
{
    let ghost p = prog@;
    let mut stack: Vec<usize> = Vec::new();
    let mut i: usize = 0;
    while i < prog.len()
        invariant
            p == old(prog)@,
            prog@.len() == p.len(),
            i <= p.len(),
            forall|k: int| i <= k < p.len() ==> #[trigger] prog@[k] == p[k],
            same_shape(p, prog@),
            never_negative(p, i as int),
            stack@.len() == depth(p, i as int),
            forall|m: int|
                0 <= m < stack@.len() ==> #[trigger] stack@[m] < i && prog@[stack@[m] as int] is OpenLoop,
            forall|m: int, n: int| 0 <= m < n < stack@.len() ==> stack@[m] < stack@[n],
            forall|k: int|
                0 <= k < i && #[trigger] prog@[k] is OpenLoop && !stack@.contains(k as usize)
                    ==> open_linked(prog@, k) && prog@[k]->OpenLoop_0 < i,
            forall|c: int| 0 <= c < i && #[trigger] prog@[c] is CloseLoop ==> close_linked(prog@, c),
            forall|c: int, m: int|
                0 <= c < i && #[trigger] prog@[c] is CloseLoop && 0 <= m < stack@.len() ==> {
                    let k = prog@[c]->CloseLoop_0 as int;
                    let s = #[trigger] stack@[m] as int;
                    k != s && !(k < s < c)
                },
        decreases p.len() - i,
    {
        assert(depth(p, i + 1) == depth(p, i as int) + bracket_delta(p[i as int]));
        match prog[i] {
            Instr::OpenLoop(_) => {
                let ghost s0 = stack@;
                stack.push(i);
                assert forall|k: int|
                    0 <= k < i + 1 && #[trigger] prog@[k] is OpenLoop && !stack@.contains(
                        k as usize,
                    ) implies open_linked(prog@, k) && prog@[k]->OpenLoop_0 < i + 1 by {
                    if s0.contains(k as usize) {
                        let m = choose|m: int| 0 <= m < s0.len() && s0[m] == k as usize;
                        assert(stack@[m] == k as usize);
                    }
                    if k == i {
                        assert(stack@[s0.len() as int] == k as usize);
                    }
                }
            },
            Instr::CloseLoop(_) => {
                if stack.len() == 0 {
                    assert(prog@[i as int] == p[i as int]);
                    assert(depth(p, i + 1) < 0);
                    return Err(CompileError::UnmatchedClose(i));
                }
                let ghost prog0 = prog@;
                let ghost s0 = stack@;
                let t = stack.pop().unwrap();
                prog.set(t, Instr::OpenLoop(i));
                prog.set(i, Instr::CloseLoop(t));
                assert(stack@ == s0.drop_last());
                assert forall|k: int|
                    0 <= k < i + 1 && #[trigger] prog@[k] is OpenLoop && !stack@.contains(
                        k as usize,
                    ) implies open_linked(prog@, k) && prog@[k]->OpenLoop_0 < i + 1 by {
                    if k != t {
                        if s0.contains(k as usize) {
                            let m = choose|m: int| 0 <= m < s0.len() && s0[m] == k as usize;
                            assert(stack@[m] == k as usize);
                        }
                        assert(prog0[k] == prog@[k]);
                    }
                }
            },
            _ => {},
        }
        i += 1;
    }
    if stack.len() > 0 {
        let o = stack[stack.len() - 1];
        return Err(CompileError::UnmatchedOpen(o));
    }
    Ok(())
}

} // verus!
