use vstd::prelude::*;
use crate::instr::{merge_spec, Instr};

verus! {

/// Number of cells on the tape.
pub const TAPE_LEN: usize = 10000;

/// The mathematical state of an evaluation.
pub struct State {
    pub pc: int,
    pub dp: int,
    pub tape: Seq<u8>,
}

/// The state in which every evaluation starts: both counters at zero and a zeroed tape.
pub open spec fn initial_state() -> State {
    State { pc: 0, dp: 0, tape: Seq::new(TAPE_LEN as nat, |k: int| 0u8) }
}

/// A running evaluation: program counter, data pointer and tape.
pub struct Machine {
    pub pc: usize,
    pub dp: usize,
    pub tape: Vec<u8>,
}

impl View for Machine {
    type V = State;

    open spec fn view(&self) -> State {
        State { pc: self.pc as int, dp: self.dp as int, tape: self.tape@ }
    }
}

impl Machine {
    /// The tape has its fixed size and the data pointer lies on it.
    pub open spec fn wf(&self) -> bool {
        self.tape@.len() == TAPE_LEN && self.dp < TAPE_LEN
    }

    /// A machine in the initial state.
    pub fn new() -> (m: Machine)
        ensures
            m.wf(),
            m@ == initial_state(),
    {
        let mut tape: Vec<u8> = Vec::new();
        let mut k: usize = 0;
        while k < TAPE_LEN
            invariant
                k <= TAPE_LEN,
                tape@.len() == k,
                forall|i: int| 0 <= i < k ==> tape@[i] == 0,
            decreases TAPE_LEN - k,
        {
            tape.push(0);
            k += 1;
        }
        assert(tape@ == initial_state().tape);
        Machine { pc: 0, dp: 0, tape }
    }
}

/// What one step of evaluation did.
#[derive(Clone, Copy, Debug, PartialEq, Eq, Structural)]
pub enum Event {
    /// An instruction without input or output was executed.
    Continue,
    /// The given byte was written.
    Output(u8),
    /// The offered input byte was read into the current cell.
    ReadInput,
    /// The instruction reads input and no byte was offered; nothing changed.
    NeedsInput,
    /// The program counter is past the end; nothing changed.
    Halted,
    /// The instruction would move the data pointer off the tape; nothing changed.
    TapeFault,
}

/// Where a jump to the partner at `j` leads: just past the partner, or to the end
/// when `j` lies outside the program.
pub open spec fn jump_target(len: int, j: usize) -> int {
    if j < len {
        j + 1
    } else {
        len
    }
}

/// The state with the current cell replaced by `v` and the program counter advanced.
pub open spec fn write_cell(s: State, v: u8) -> State {
    State { pc: s.pc + 1, dp: s.dp, tape: s.tape.update(s.dp, v) }
}

/// One step of evaluation of `prog` from `s`, with `input` the byte offered to an
/// `Input` instruction.
pub open spec fn step_spec(prog: Seq<Instr>, s: State, input: Option<u8>) -> (State, Event) {
    if s.pc < 0 || s.pc >= prog.len() {
        (s, Event::Halted)
    } else {
        let cell = s.tape[s.dp];
        let next = State { pc: s.pc + 1, dp: s.dp, tape: s.tape };
        match prog[s.pc] {
            Instr::MoveLeft(n) => if s.dp < n {
                (s, Event::TapeFault)
            } else {
                (State { dp: s.dp - n, ..next }, Event::Continue)
            },
            Instr::MoveRight(n) => if s.dp + n >= TAPE_LEN {
                (s, Event::TapeFault)
            } else {
                (State { dp: s.dp + n, ..next }, Event::Continue)
            },
            Instr::Add(n) => (write_cell(s, ((cell + n) % 256) as u8), Event::Continue),
            Instr::Sub(n) => (write_cell(s, ((cell - n) % 256) as u8), Event::Continue),
            Instr::Zero => (write_cell(s, 0), Event::Continue),
            Instr::OpenLoop(j) => if cell == 0 {
                (State { pc: jump_target(prog.len() as int, j), ..s }, Event::Continue)
            } else {
                (next, Event::Continue)
            },
            Instr::CloseLoop(j) => if cell != 0 {
                (State { pc: jump_target(prog.len() as int, j), ..s }, Event::Continue)
            } else {
                (next, Event::Continue)
            },
            Instr::Output => (next, Event::Output(cell)),
            Instr::Input => match input {
                Some(b) => (write_cell(s, b), Event::ReadInput),
                None => (s, Event::NeedsInput),
            },
        }
    }
}

/// Executes one instruction of `prog`. An `Input` instruction reads `input`, and
/// leaves the machine unchanged when it is `None`.
pub fn step(prog: &Vec<Instr>, m: &mut Machine, input: Option<u8>) -> (e: Event)
    requires
        old(m).wf(),
    ensures
        final(m).wf(),
        (final(m)@, e) == step_spec(prog@, old(m)@, input),
{
    if m.pc >= prog.len() {
        return Event::Halted;
    }
    let dp = m.dp;
    let cell = m.tape[dp];
    match prog[m.pc] {
        Instr::MoveLeft(n) => {
            if dp < n {
                return Event::TapeFault;
            }
            m.dp = dp - n;
        },
        Instr::MoveRight(n) => {
            if n >= TAPE_LEN - dp {
                return Event::TapeFault;
            }
            m.dp = dp + n;
        },
        Instr::Add(n) => {
            m.tape.set(dp, cell.wrapping_add(n));
        },
        Instr::Sub(n) => {
            m.tape.set(dp, cell.wrapping_sub(n));
        },
        Instr::Zero => {
            m.tape.set(dp, 0);
        },
        Instr::OpenLoop(j) => {
            if cell == 0 {
                m.pc = if j < prog.len() {
                    j
                } else {
                    prog.len() - 1
                };
            }
        },
        Instr::CloseLoop(j) => {
            if cell != 0 {
                m.pc = if j < prog.len() {
                    j
                } else {
                    prog.len() - 1
                };
            }
        },
        Instr::Output => {
            m.pc = m.pc + 1;
            return Event::Output(cell);
        },
        Instr::Input => {
            match input {
                Some(b) => {
                    m.tape.set(dp, b);
                    m.pc = m.pc + 1;
                    return Event::ReadInput;
                },
                None => {
                    return Event::NeedsInput;
                },
            }
        },
    }
    m.pc = m.pc + 1;
    Event::Continue
}

/// How a bounded evaluation ended.
#[derive(Clone, Copy, Debug, PartialEq, Eq, Structural)]
pub enum Status {
    /// The program counter reached the end of the program.
    Halted,
    /// An instruction would have moved the data pointer off the tape.
    TapeFault,
    /// An `Input` instruction found the input used up.
    InputExhausted,
    /// The step budget ran out before the program ended.
    OutOfFuel,
}

/// Evaluation of `prog` from `s` on the bytes `input`, for at most `fuel` steps:
/// how it ended, the state it ended in, and the bytes it wrote.
pub open spec fn run_spec(prog: Seq<Instr>, s: State, input: Seq<u8>, fuel: nat) -> (
    Status,
    State,
    Seq<u8>,
)
    decreases fuel,
{
    if s.pc < 0 || s.pc >= prog.len() {
        (Status::Halted, s, Seq::empty())
    } else if fuel == 0 {
        (Status::OutOfFuel, s, Seq::empty())
    } else {
        let offered = if input.len() > 0 {
            Some(input[0])
        } else {
            None
        };
        let (t, e) = step_spec(prog, s, offered);
        match e {
            Event::Halted => (Status::Halted, s, Seq::empty()),
            Event::TapeFault => (Status::TapeFault, s, Seq::empty()),
            Event::NeedsInput => (Status::InputExhausted, s, Seq::empty()),
            Event::ReadInput => run_spec(prog, t, input.drop_first(), (fuel - 1) as nat),
            Event::Output(b) => {
                let r = run_spec(prog, t, input, (fuel - 1) as nat);
                (r.0, r.1, seq![b] + r.2)
            },
            Event::Continue => run_spec(prog, t, input, (fuel - 1) as nat),
        }
    }
}

/// The outcome of a bounded evaluation.
pub struct RunResult {
    pub status: Status,
    pub machine: Machine,
    pub output: Vec<u8>,
}

/// Evaluates `prog` from the initial state on the bytes `input`, for at most `fuel`
/// steps.
pub fn run(prog: &Vec<Instr>, input: &Vec<u8>, fuel: u64) -> (r: RunResult)
    ensures
        r.machine.wf(),
        (r.status, r.machine@, r.output@) == run_spec(
            prog@,
            initial_state(),
            input@,
            fuel as nat,
        ),
{
    let mut m = Machine::new();
    let mut pos: usize = 0;
    let mut left: u64 = fuel;
    let mut output: Vec<u8> = Vec::new();
    let ghost whole = run_spec(prog@, initial_state(), input@, fuel as nat);
    assert(input@.skip(0) == input@);
    assert(Seq::<u8>::empty() + whole.2 == whole.2);
    loop
        invariant
            m.wf(),
            pos <= input@.len(),
            whole == run_spec(prog@, initial_state(), input@, fuel as nat),
            ({
                let rest = run_spec(prog@, m@, input@.skip(pos as int), left as nat);
                whole.0 == rest.0 && whole.1 == rest.1 && whole.2 == output@ + rest.2
            }),
        decreases left,
    {
        if m.pc >= prog.len() {
            assert(output@ + Seq::<u8>::empty() == output@);
            return RunResult { status: Status::Halted, machine: m, output };
        }
        if left == 0 {
            assert(output@ + Seq::<u8>::empty() == output@);
            return RunResult { status: Status::OutOfFuel, machine: m, output };
        }
        let offered = if pos < input.len() {
            Some(input[pos])
        } else {
            None
        };
        let ghost rest_in = input@.skip(pos as int);
        match step(prog, &mut m, offered) {
            Event::Halted => {
                assert(output@ + Seq::<u8>::empty() == output@);
                return RunResult { status: Status::Halted, machine: m, output };
            },
            Event::TapeFault => {
                assert(output@ + Seq::<u8>::empty() == output@);
                return RunResult { status: Status::TapeFault, machine: m, output };
            },
            Event::NeedsInput => {
                assert(output@ + Seq::<u8>::empty() == output@);
                return RunResult { status: Status::InputExhausted, machine: m, output };
            },
            Event::ReadInput => {
                assert(rest_in.drop_first() == input@.skip(pos + 1));
                pos += 1;
            },
            Event::Output(b) => {
                let ghost before = output@;
                output.push(b);
                assert forall|x: Seq<u8>| before + (seq![b] + x) == output@ + x by {
                    assert(before + (seq![b] + x) =~= output@ + x);
                }
            },
            Event::Continue => {},
        }
        left = left - 1;
    }
}

/// Adding `n` to a cell and then subtracting `n` again, with wrapping, leaves the
/// tape and the data pointer as they were.
pub proof fn lemma_add_then_sub(n: u8, s: State)
    requires
        0 <= s.dp < s.tape.len(),
    ensures
        ({
            let prog = seq![Instr::Add(n), Instr::Sub(n)];
            let after = step_spec(prog, step_spec(prog, State { pc: 0, ..s }, None).0, None).0;
            after.tape == s.tape && after.dp == s.dp && after.pc == 2
        }),
{
    let prog = seq![Instr::Add(n), Instr::Sub(n)];
    let s1 = step_spec(prog, State { pc: 0, ..s }, None).0;
    let s2 = step_spec(prog, s1, None).0;
    let c = s.tape[s.dp];
    assert(((((c + n) % 256) as u8) - n) % 256 == c);
    assert(s2.tape =~= s.tape);
}

/// `Zero` sets the current cell to zero whatever it held, and changes nothing else
/// but the program counter.
pub proof fn lemma_zero_clears(prog: Seq<Instr>, s: State, input: Option<u8>)
    requires
        0 <= s.pc < prog.len(),
        prog[s.pc] == Instr::Zero,
        0 <= s.dp < s.tape.len(),
    ensures
        step_spec(prog, s, input) == (
            State { pc: s.pc + 1, dp: s.dp, tape: s.tape.update(s.dp, 0) },
            Event::Continue,
        ),
        step_spec(prog, s, input).0.tape[s.dp] == 0,
{
}

/// The loop `[-]` with its brackets linked, as the linker leaves it.
pub open spec fn clear_loop() -> Seq<Instr> {
    seq![Instr::OpenLoop(2), Instr::Sub(1), Instr::CloseLoop(0)]
}

proof fn lemma_clear_loop_body(s: State, input: Seq<u8>, fuel: nat)
    requires
        s.pc == 1,
        0 <= s.dp < s.tape.len(),
        s.tape[s.dp] != 0,
        fuel >= 2 * s.tape[s.dp],
    ensures
        run_spec(clear_loop(), s, input, fuel) == (
            Status::Halted,
            State { pc: 3, dp: s.dp, tape: s.tape.update(s.dp, 0) },
            Seq::<u8>::empty(),
        ),
    decreases s.tape[s.dp],
{
    let p = clear_loop();
    let c = s.tape[s.dp];
    let s1 = step_spec(p, s, None).0;
    assert(s1 == State { pc: 2, dp: s.dp, tape: s.tape.update(s.dp, (c - 1) as u8) });
    let s2 = step_spec(p, s1, None).0;
    if c == 1 {
        assert(s2.pc == 3);
        assert(run_spec(p, s1, input, (fuel - 1) as nat) == run_spec(p, s2, input, (fuel - 2) as nat));
    } else {
        assert(s2 == State { pc: 1, ..s1 });
        assert(run_spec(p, s1, input, (fuel - 1) as nat) == run_spec(p, s2, input, (fuel - 2) as nat));
        lemma_clear_loop_body(s2, input, (fuel - 2) as nat);
        assert(s2.tape.update(s.dp, 0) =~= s.tape.update(s.dp, 0));
    }
}

/// Running the single instruction `Zero` and running the loop `[-]` end alike: both
/// halt with the current cell cleared, the rest of the tape and the data pointer
/// unchanged, and no output, given steps enough for the loop to count the cell down.
pub proof fn lemma_zero_matches_clear_loop(s: State, input: Seq<u8>, fuel: nat)
    requires
        s.pc == 0,
        0 <= s.dp < s.tape.len(),
        fuel > 2 * s.tape[s.dp],
    ensures
        ({
            let z = run_spec(seq![Instr::Zero], s, input, fuel);
            let l = run_spec(clear_loop(), s, input, fuel);
            &&& z.0 == Status::Halted
            &&& l.0 == Status::Halted
            &&& z.1.tape == l.1.tape
            &&& z.1.dp == l.1.dp
            &&& z.2 == l.2
            &&& z.1.tape == s.tape.update(s.dp, 0)
            &&& z.1.dp == s.dp
            &&& z.2 == Seq::<u8>::empty()
        }),
{
    let p = clear_loop();
    let zp = seq![Instr::Zero];
    let offered = if input.len() > 0 {
        Some(input[0])
    } else {
        None
    };
    let z1 = step_spec(zp, s, offered).0;
    assert(z1 == State { pc: 1, dp: s.dp, tape: s.tape.update(s.dp, 0) });
    assert(run_spec(zp, z1, input, (fuel - 1) as nat) == (Status::Halted, z1, Seq::<u8>::empty()));
    assert(run_spec(zp, s, input, fuel) == run_spec(zp, z1, input, (fuel - 1) as nat));
    let s1 = step_spec(p, s, offered).0;
    assert(run_spec(p, s, input, fuel) == run_spec(p, s1, input, (fuel - 1) as nat));
    if s.tape[s.dp] == 0 {
        assert(s1.pc == 3);
        assert(s.tape.update(s.dp, 0) =~= s.tape);
    } else {
        assert(s1 == State { pc: 1, ..s });
        lemma_clear_loop_body(s1, input, (fuel - 1) as nat);
    }
}

pub(crate) proof fn lemma_add_twice(c: u8, x: u8, y: u8)
    requires
        x + y <= u8::MAX,
    ensures
        (((c + x) % 256) as u8 + y) % 256 == (c + (x + y) as u8) % 256,
{
    assert((((c + x) % 256) as u8 + y) % 256 == (c + (x + y) as u8) % 256) by (nonlinear_arith)
        requires
            x + y <= 255,
            0 <= c <= 255,
    ;
}

pub(crate) proof fn lemma_sub_twice(c: u8, x: u8, y: u8)
    requires
        x + y <= u8::MAX,
    ensures
        (((c - x) % 256) as u8 - y) % 256 == (c - (x + y) as u8) % 256,
{
    assert((((c - x) % 256) as u8 - y) % 256 == (c - (x + y) as u8) % 256) by (nonlinear_arith)
        requires
            x + y <= 255,
            0 <= c <= 255,
    ;
}

/// Two neighbouring counted instructions and the single instruction they merge into
/// are alike to run: from any state, both end with the same status and neither
/// writes anything, and when they halt they leave the same tape and data pointer.
#[verifier::rlimit(50)]
pub proof fn lemma_merge_transparent(a: Instr, b: Instr, s: State, input: Seq<u8>)
    requires
        merge_spec(a, b) is Some,
        s.pc == 0,
        s.tape.len() == TAPE_LEN,
        0 <= s.dp < TAPE_LEN,
    ensures
        ({
            let two = run_spec(seq![a, b], s, input, 2);
            let one = run_spec(seq![merge_spec(a, b)->0], s, input, 1);
            &&& two.0 == one.0
            &&& two.2 == one.2
            &&& two.2 == Seq::<u8>::empty()
            &&& one.0 == Status::Halted ==> two.1.tape == one.1.tape && two.1.dp == one.1.dp
        }),
{
    let p2 = seq![a, b];
    let p1 = seq![merge_spec(a, b)->0];
    let offered = if input.len() > 0 {
        Some(input[0])
    } else {
        None
    };
    let (t, e) = step_spec(p2, s, offered);
    let (u, f) = step_spec(p1, s, offered);
    assert(run_spec(p2, s, input, 2) == if e == Event::TapeFault {
        (Status::TapeFault, s, Seq::<u8>::empty())
    } else {
        run_spec(p2, t, input, 1)
    });
    assert(run_spec(p1, s, input, 1) == if f == Event::TapeFault {
        (Status::TapeFault, s, Seq::<u8>::empty())
    } else {
        run_spec(p1, u, input, 0)
    });
    if e != Event::TapeFault {
        let (t2, e2) = step_spec(p2, t, offered);
        assert(run_spec(p2, t, input, 1) == if e2 == Event::TapeFault {
            (Status::TapeFault, t, Seq::<u8>::empty())
        } else {
            run_spec(p2, t2, input, 0)
        });
        let c = s.tape[s.dp];
        match (a, b) {
            (Instr::Add(x), Instr::Add(y)) => {
                lemma_add_twice(c, x, y);
                assert(t2.tape =~= u.tape);
            },
            (Instr::Sub(x), Instr::Sub(y)) => {
                lemma_sub_twice(c, x, y);
                assert(t2.tape =~= u.tape);
            },
            _ => {},
        }
    }
}

} // verus!
