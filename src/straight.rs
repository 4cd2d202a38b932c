use vstd::prelude::*;
use crate::compile::unlinked_spec;
use crate::instr::{decode_spec, merge_spec, Instr};
use crate::link::{balanced, depth, same_shape};
use crate::lower::lower_spec;
use crate::machine::{
    initial_state, lemma_add_twice, lemma_sub_twice, run_spec, step_spec, Event, State, Status,
    TAPE_LEN,
};
use crate::peephole::{is_clear_window, peephole_from};

verus! {

/// Where a loop-free evaluation stands: its status, its state, the input not yet
/// read and the output written so far.
pub struct Trace {
    pub status: Status,
    pub state: State,
    pub input: Seq<u8>,
    pub output: Seq<u8>,
}

/// The source holds neither `[` nor `]`.
pub open spec fn loop_free_source(src: Seq<u8>) -> bool {
    forall|k: int| 0 <= k < src.len() ==> #[trigger] src[k] != 91 && src[k] != 93
}

/// The program holds no loop instruction.
pub open spec fn loop_free(p: Seq<Instr>) -> bool {
    forall|k: int| 0 <= k < p.len() ==> !(#[trigger] p[k] is OpenLoop) && !(p[k] is CloseLoop)
}

/// One source byte read on its own, the way a byte-at-a-time interpreter reads a
/// loop-free source; once the evaluation has stopped nothing more happens.
pub open spec fn reference_byte(t: Trace, b: u8) -> Trace {
    let s = t.state;
    if t.status != Status::Halted {
        t
    } else if b == 60 {  // '<'
        if s.dp < 1 {
            Trace { status: Status::TapeFault, ..t }
        } else {
            Trace { state: State { dp: s.dp - 1, ..s }, ..t }
        }
    } else if b == 62 {  // '>'
        if s.dp + 1 >= TAPE_LEN {
            Trace { status: Status::TapeFault, ..t }
        } else {
            Trace { state: State { dp: s.dp + 1, ..s }, ..t }
        }
    } else if b == 43 {  // '+'
        Trace {
            state: State { tape: s.tape.update(s.dp, ((s.tape[s.dp] + 1) % 256) as u8), ..s },
            ..t
        }
    } else if b == 45 {  // '-'
        Trace {
            state: State { tape: s.tape.update(s.dp, ((s.tape[s.dp] - 1) % 256) as u8), ..s },
            ..t
        }
    } else if b == 46 {  // '.'
        Trace { output: t.output.push(s.tape[s.dp]), ..t }
    } else if b == 44 {  // ','
        if t.input.len() == 0 {
            Trace { status: Status::InputExhausted, ..t }
        } else {
            Trace {
                state: State { tape: s.tape.update(s.dp, t.input[0]), ..s },
                input: t.input.drop_first(),
                ..t
            }
        }
    } else {
        t
    }
}

/// A loop-free source read byte by byte.
pub open spec fn reference_run(src: Seq<u8>, t: Trace) -> Trace
    decreases src.len(),
{
    if src.len() == 0 {
        t
    } else {
        reference_byte(reference_run(src.drop_last(), t), src.last())
    }
}

/// One instruction, other than a loop instruction, applied to a trace.
pub open spec fn apply_instr(t: Trace, x: Instr) -> Trace {
    let s = t.state;
    if t.status != Status::Halted {
        t
    } else {
        let offered = if t.input.len() > 0 {
            Some(t.input[0])
        } else {
            None
        };
        let (u, e) = step_spec(seq![x], State { pc: 0, ..s }, offered);
        let moved = State { pc: s.pc, ..u };
        match e {
            Event::TapeFault => Trace { status: Status::TapeFault, ..t },
            Event::NeedsInput => Trace { status: Status::InputExhausted, ..t },
            Event::ReadInput => Trace { state: moved, input: t.input.drop_first(), ..t },
            Event::Output(b) => Trace { state: moved, output: t.output.push(b), ..t },
            _ => Trace { state: moved, ..t },
        }
    }
}

/// The instructions of a program from index `k` on, applied in order to `t`.
pub open spec fn apply_from(p: Seq<Instr>, k: int, t: Trace) -> Trace
    decreases p.len() - k,
{
    if k < 0 || k >= p.len() {
        t
    } else {
        apply_from(p, k + 1, apply_instr(t, p[k]))
    }
}

/// Same status, tape, input and output, and, unless evaluation stopped, the same
/// data pointer.
pub open spec fn alike(a: Trace, b: Trace) -> bool {
    &&& a.status == b.status
    &&& a.state.tape == b.state.tape
    &&& a.input == b.input
    &&& a.output == b.output
    &&& a.status == Status::Halted ==> a.state.dp == b.state.dp
}

/// The data pointer lies on a tape of the fixed size.
pub open spec fn on_tape(s: State) -> bool {
    0 <= s.dp < TAPE_LEN && s.tape.len() == TAPE_LEN
}

proof fn lemma_apply_on_tape(t: Trace, x: Instr)
    requires
        on_tape(t.state),
    ensures
        on_tape(apply_instr(t, x).state),
{
}

proof fn lemma_apply_alike(a: Trace, b: Trace, x: Instr)
    requires
        alike(a, b),
        on_tape(a.state),
        on_tape(b.state),
        !(x is OpenLoop) && !(x is CloseLoop),
    ensures
        alike(apply_instr(a, x), apply_instr(b, x)),
{
    if a.status == Status::Halted {
        assert(a.state.tape[a.state.dp] == b.state.tape[b.state.dp]);
    }
}

proof fn lemma_apply_merged(t: Trace, a: Instr, b: Instr)
    requires
        merge_spec(a, b) is Some,
        on_tape(t.state),
    ensures
        alike(apply_instr(apply_instr(t, a), b), apply_instr(t, merge_spec(a, b)->0)),
{
    if t.status == Status::Halted {
        let c = t.state.tape[t.state.dp];
        let u = apply_instr(t, a);
        let m = merge_spec(a, b)->0;
        match (a, b) {
            (Instr::Add(x), Instr::Add(y)) => {
                lemma_add_twice(c, x, y);
                assert(apply_instr(u, b).state.tape =~= apply_instr(t, m).state.tape);
            },
            (Instr::Sub(x), Instr::Sub(y)) => {
                lemma_sub_twice(c, x, y);
                assert(apply_instr(u, b).state.tape =~= apply_instr(t, m).state.tape);
            },
            _ => {},
        }
    }
}

proof fn lemma_apply_from_push(p: Seq<Instr>, x: Instr, k: int, t: Trace)
    requires
        0 <= k <= p.len(),
    ensures
        apply_from(p.push(x), k, t) == apply_instr(apply_from(p, k, t), x),
    decreases p.len() - k,
{
    if k < p.len() {
        assert(p.push(x)[k] == p[k]);
        lemma_apply_from_push(p, x, k + 1, apply_instr(t, p[k]));
    } else {
        assert(p.push(x)[k] == x);
        assert(apply_from(p.push(x), k + 1, apply_instr(t, x)) == apply_instr(t, x));
    }
}

proof fn lemma_apply_from_on_tape(p: Seq<Instr>, k: int, t: Trace)
    requires
        on_tape(t.state),
    ensures
        on_tape(apply_from(p, k, t).state),
    decreases p.len() - k,
{
    if 0 <= k < p.len() {
        lemma_apply_on_tape(t, p[k]);
        lemma_apply_from_on_tape(p, k + 1, apply_instr(t, p[k]));
    }
}

proof fn lemma_apply_from_stopped(p: Seq<Instr>, k: int, t: Trace)
    requires
        t.status != Status::Halted,
    ensures
        apply_from(p, k, t) == t,
    decreases p.len() - k,
{
    if 0 <= k < p.len() {
        lemma_apply_from_stopped(p, k + 1, apply_instr(t, p[k]));
    }
}

proof fn lemma_pushed_loop_free(p: Seq<Instr>, x: Instr)
    requires
        loop_free(p),
        !(x is OpenLoop) && !(x is CloseLoop),
    ensures
        loop_free(p.push(x)),
{
    assert forall|k: int| 0 <= k < p.push(x).len() implies !(#[trigger] p.push(x)[k] is OpenLoop)
        && !(p.push(x)[k] is CloseLoop) by {
        if k < p.len() {
            assert(p.push(x)[k] == p[k]);
        }
    }
}

proof fn lemma_lower_reference(src: Seq<u8>, t: Trace)
    requires
        loop_free_source(src),
        on_tape(t.state),
    ensures
        loop_free(lower_spec(src)),
        alike(apply_from(lower_spec(src), 0, t), reference_run(src, t)),
        on_tape(reference_run(src, t).state),
    decreases src.len(),
{
    if src.len() > 0 {
        let pre = src.drop_last();
        let b = src.last();
        assert(loop_free_source(pre)) by {
            assert forall|k: int| 0 <= k < pre.len() implies #[trigger] pre[k] != 91 && pre[k]
                != 93 by {
                assert(pre[k] == src[k]);
            }
        }
        assert(b == src[src.len() - 1]);
        lemma_lower_reference(pre, t);
        let p = lower_spec(pre);
        let r = reference_run(pre, t);
        lemma_apply_from_on_tape(p, 0, t);
        let a = apply_from(p, 0, t);
        match decode_spec(b) {
            None => {},
            Some(x) => {
                assert(reference_byte(r, b) == apply_instr(r, x));
                lemma_apply_on_tape(r, x);
                lemma_apply_alike(a, r, x);
                if p.len() > 0 && merge_spec(p.last(), x) is Some {
                    let m = merge_spec(p.last(), x)->0;
                    let d = p.drop_last();
                    assert(p == d.push(p.last()));
                    assert(p.update(p.len() - 1, m) == d.push(m));
                    lemma_apply_from_push(d, p.last(), 0, t);
                    lemma_apply_from_push(d, m, 0, t);
                    lemma_apply_from_on_tape(d, 0, t);
                    lemma_apply_merged(apply_from(d, 0, t), p.last(), x);
                    assert(loop_free(d)) by {
                        assert forall|k: int| 0 <= k < d.len() implies !(#[trigger] d[k] is OpenLoop)
                            && !(d[k] is CloseLoop) by {
                            assert(d[k] == p[k]);
                        }
                    }
                    lemma_pushed_loop_free(d, m);
                } else {
                    lemma_apply_from_push(p, x, 0, t);
                    lemma_pushed_loop_free(p, x);
                }
            },
        }
    }
}

proof fn lemma_apply_from_same(p: Seq<Instr>, k: int, t1: Trace, t2: Trace)
    requires
        t1.status == t2.status,
        t1.state.dp == t2.state.dp,
        t1.state.tape == t2.state.tape,
        t1.input == t2.input,
        t1.output == t2.output,
    ensures
        apply_from(p, k, t1).status == apply_from(p, k, t2).status,
        apply_from(p, k, t1).state.dp == apply_from(p, k, t2).state.dp,
        apply_from(p, k, t1).state.tape == apply_from(p, k, t2).state.tape,
        apply_from(p, k, t1).input == apply_from(p, k, t2).input,
        apply_from(p, k, t1).output == apply_from(p, k, t2).output,
    decreases p.len() - k,
{
    if 0 <= k < p.len() {
        lemma_apply_from_same(p, k + 1, apply_instr(t1, p[k]), apply_instr(t2, p[k]));
    }
}

proof fn lemma_run_applies(p: Seq<Instr>, s: State, input: Seq<u8>, out: Seq<u8>, fuel: nat)
    requires
        loop_free(p),
        0 <= s.pc <= p.len(),
        on_tape(s),
        fuel >= p.len() - s.pc,
    ensures
        ({
            let r = run_spec(p, s, input, fuel);
            let a = apply_from(
                p,
                s.pc,
                Trace { status: Status::Halted, state: s, input, output: out },
            );
            &&& r.0 == a.status
            &&& r.1.tape == a.state.tape
            &&& r.1.dp == a.state.dp
            &&& out + r.2 == a.output
        }),
    decreases p.len() - s.pc,
{
    let t = Trace { status: Status::Halted, state: s, input, output: out };
    if s.pc < p.len() {
        let x = p[s.pc];
        let offered = if input.len() > 0 {
            Some(input[0])
        } else {
            None
        };
        let (u, e) = step_spec(p, s, offered);
        let (v, f) = step_spec(seq![x], State { pc: 0, ..s }, offered);
        assert(e == f);
        let t1 = apply_instr(t, x);
        if e == Event::TapeFault || e == Event::NeedsInput {
            lemma_apply_from_stopped(p, s.pc + 1, t1);
            assert(out + Seq::<u8>::empty() == out);
        } else {
            assert(u == State { pc: s.pc + 1, ..v });
            let rest_in = if e == Event::ReadInput {
                input.drop_first()
            } else {
                input
            };
            let out1 = t1.output;
            lemma_run_applies(p, u, rest_in, out1, (fuel - 1) as nat);
            lemma_apply_from_same(
                p,
                s.pc + 1,
                t1,
                Trace { status: Status::Halted, state: u, input: rest_in, output: out1 },
            );
            let r1 = run_spec(p, u, rest_in, (fuel - 1) as nat);
            match e {
                Event::Output(b) => {
                    assert(out + (seq![b] + r1.2) == out.push(b) + r1.2);
                },
                _ => {},
            }
        }
    } else {
        assert(out + Seq::<u8>::empty() == out);
    }
}

proof fn lemma_peephole_keeps_loop_free(p: Seq<Instr>, i: int)
    requires
        loop_free(p),
    ensures
        peephole_from(p, i) == p,
    decreases p.len() - i,
{
    if !(i < 0 || i + 3 > p.len()) {
        assert(!is_clear_window(p, i));
        lemma_peephole_keeps_loop_free(p, i + 1);
    }
}

proof fn lemma_loop_free_depth(p: Seq<Instr>, i: int)
    requires
        loop_free(p),
        0 <= i <= p.len(),
    ensures
        depth(p, i) == 0,
    decreases i,
{
    if i > 0 {
        lemma_loop_free_depth(p, i - 1);
    }
}

/// For a source without loops, compilation succeeds, and the compiled program,
/// given a step for each of its instructions, agrees with the byte-at-a-time
/// reading of the source on the same input: both end with the same status, write
/// the same bytes and leave the same tape, with the same data pointer when neither
/// stopped early.
pub proof fn lemma_loop_free_matches_reference(
    src: Seq<u8>,
    q: Seq<Instr>,
    input: Seq<u8>,
    fuel: nat,
)
    requires
        loop_free_source(src),
        same_shape(unlinked_spec(src), q),
        fuel >= q.len(),
    ensures
        balanced(unlinked_spec(src)),
        ({
            let r = run_spec(q, initial_state(), input, fuel);
            let e = reference_run(
                src,
                Trace {
                    status: Status::Halted,
                    state: initial_state(),
                    input,
                    output: Seq::empty(),
                },
            );
            &&& r.0 == e.status
            &&& r.1.tape == e.state.tape
            &&& r.2 == e.output
            &&& r.0 == Status::Halted ==> r.1.dp == e.state.dp
        }),
{
    let s = initial_state();
    let t = Trace { status: Status::Halted, state: s, input, output: Seq::empty() };
    lemma_lower_reference(src, t);
    let p = lower_spec(src);
    lemma_peephole_keeps_loop_free(p, 0);
    assert(q =~= p);
    assert forall|k: int| 0 <= k <= p.len() implies #[trigger] depth(p, k) >= 0 by {
        lemma_loop_free_depth(p, k);
    }
    lemma_loop_free_depth(p, p.len() as int);
    lemma_run_applies(p, s, input, Seq::empty(), fuel);
    assert(Seq::<u8>::empty() + run_spec(p, s, input, fuel).2 == run_spec(p, s, input, fuel).2);
}

} // verus!
