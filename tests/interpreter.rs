use tapevm::compile::compile;
use tapevm::instr::{decode, merge, Instr, UNLINKED};
use tapevm::link::{link, CompileError};
use tapevm::lower::lower;
use tapevm::machine::{run, step, Event, Machine, RunResult, Status, TAPE_LEN};
use tapevm::peephole::peephole;

const FUEL: u64 = 1_000_000;

fn exec(src: &str, input: &[u8]) -> RunResult {
    let prog = compile(&src.as_bytes().to_vec()).expect("source should compile");
    run(&prog, &input.to_vec(), FUEL)
}

#[test]
fn prints_three() {
    let r = exec("+++.", &[]);
    assert_eq!(r.status, Status::Halted);
    assert_eq!(r.output, vec![3u8]);
}

#[test]
fn echoes_one_byte() {
    let r = exec(",.", &[0x41]);
    assert_eq!(r.status, Status::Halted);
    assert_eq!(r.output, vec![0x41u8]);
}

#[test]
fn classic_multiply() {
    let r = exec("++[>+++<-]>.", &[]);
    assert_eq!(r.status, Status::Halted);
    assert_eq!(r.output, vec![6u8]);
}

#[test]
fn clear_idiom_then_increment() {
    let r = exec("+++++[-]+.", &[]);
    assert_eq!(r.status, Status::Halted);
    assert_eq!(r.output, vec![1u8]);
    let prog = compile(&b"+++++[-]+.".to_vec()).unwrap();
    assert_eq!(
        prog,
        vec![Instr::Add(5), Instr::Zero, Instr::Zero, Instr::Zero, Instr::Add(1), Instr::Output]
    );
}

#[test]
fn clear_idiom_matches_plain_loop() {
    // `[--]` is not rewritten, and on an even cell it clears it as `[-]` does.
    let a = exec("++++[-].", &[]);
    let b = exec("++++[--].", &[]);
    assert_eq!(a.output, b.output);
    assert_eq!(a.machine.tape, b.machine.tape);
}

#[test]
fn infinite_loop_runs_out_of_fuel() {
    let prog = compile(&b"+[]".to_vec()).expect("source should compile");
    let r = run(&prog, &vec![], 100_000);
    assert_eq!(r.status, Status::OutOfFuel);
    assert!(r.output.is_empty());
}

#[test]
fn lone_open_bracket_fails() {
    assert_eq!(compile(&b"[".to_vec()), Err(CompileError::UnmatchedOpen(0)));
}

#[test]
fn lone_close_bracket_fails() {
    assert_eq!(compile(&b"+]".to_vec()), Err(CompileError::UnmatchedClose(1)));
    assert_eq!(compile(&b"[]][".to_vec()), Err(CompileError::UnmatchedClose(2)));
}

#[test]
fn innermost_unclosed_open_is_reported() {
    assert_eq!(compile(&b"[[]+[".to_vec()), Err(CompileError::UnmatchedOpen(4)));
}

#[test]
fn long_run_wraps() {
    let src = "+".repeat(300);
    let prog = compile(&src.as_bytes().to_vec()).unwrap();
    assert_eq!(prog, vec![Instr::Add(255), Instr::Add(45)]);
    let r = exec(&src, &[]);
    assert_eq!(r.status, Status::Halted);
    assert_eq!(r.machine.tape[0], 44);
}

#[test]
fn empty_program_halts_silently() {
    let prog = compile(&vec![]).unwrap();
    assert!(prog.is_empty());
    let r = run(&prog, &vec![], FUEL);
    assert_eq!(r.status, Status::Halted);
    assert!(r.output.is_empty());
    assert_eq!(r.machine.pc, 0);
}

#[test]
fn lowering_collapses_runs_across_comments() {
    let prog = lower(&b"++a+--<<x>.,".to_vec());
    assert_eq!(
        prog,
        vec![
            Instr::Add(3),
            Instr::Sub(2),
            Instr::MoveLeft(2),
            Instr::MoveRight(1),
            Instr::Output,
            Instr::Input
        ]
    );
}

#[test]
fn lowering_keeps_no_mergeable_neighbours() {
    let prog = lower(&b"+-+-<><>++--".to_vec());
    for w in prog.windows(2) {
        assert_eq!(merge(w[0], w[1]), None);
    }
    assert_eq!(prog.len(), 10);
}

#[test]
fn decode_commands_and_comments() {
    assert_eq!(decode(b'['), Some(Instr::OpenLoop(UNLINKED)));
    assert_eq!(decode(b','), Some(Instr::Input));
    assert_eq!(decode(b'a'), None);
}

#[test]
fn merge_respects_payload_width() {
    assert_eq!(merge(Instr::Add(200), Instr::Add(55)), Some(Instr::Add(255)));
    assert_eq!(merge(Instr::Add(200), Instr::Add(56)), None);
    assert_eq!(merge(Instr::Sub(1), Instr::Add(1)), None);
    assert_eq!(merge(Instr::MoveRight(2), Instr::MoveRight(3)), Some(Instr::MoveRight(5)));
}

#[test]
fn peephole_rewrites_only_exact_idiom() {
    let mut prog = lower(&b"[-][--]+[-]".to_vec());
    peephole(&mut prog);
    assert_eq!(
        prog,
        vec![
            Instr::Zero,
            Instr::Zero,
            Instr::Zero,
            Instr::OpenLoop(UNLINKED),
            Instr::Sub(2),
            Instr::CloseLoop(UNLINKED),
            Instr::Add(1),
            Instr::Zero,
            Instr::Zero,
            Instr::Zero
        ]
    );
}

#[test]
fn linker_pairs_nested_loops() {
    let mut prog = lower(&b"[[+]>]".to_vec());
    assert_eq!(link(&mut prog), Ok(()));
    assert_eq!(
        prog,
        vec![
            Instr::OpenLoop(5),
            Instr::OpenLoop(3),
            Instr::Add(1),
            Instr::CloseLoop(1),
            Instr::MoveRight(1),
            Instr::CloseLoop(0)
        ]
    );
}

#[test]
fn add_then_sub_restores_cell() {
    let prog = vec![Instr::Add(7), Instr::Add(200), Instr::Sub(200), Instr::Output];
    let r = run(&prog, &vec![], FUEL);
    assert_eq!(r.output, vec![7u8]);
    let prog = vec![Instr::Sub(3), Instr::Output, Instr::Add(3), Instr::Output];
    let r = run(&prog, &vec![], FUEL);
    assert_eq!(r.output, vec![253u8, 0u8]);
}

#[test]
fn zero_clears_any_cell() {
    let prog = vec![Instr::Add(77), Instr::Zero, Instr::Output];
    let r = run(&prog, &vec![], FUEL);
    assert_eq!(r.output, vec![0u8]);
}

#[test]
fn moving_off_the_tape_faults() {
    let r = exec("<", &[]);
    assert_eq!(r.status, Status::TapeFault);
    assert_eq!(r.machine.pc, 0);
    let r = exec(&">".repeat(TAPE_LEN - 1), &[]);
    assert_eq!(r.status, Status::Halted);
    assert_eq!(r.machine.dp, TAPE_LEN - 1);
    let r = exec(&">".repeat(TAPE_LEN), &[]);
    assert_eq!(r.status, Status::TapeFault);
}

#[test]
fn reading_past_input_stops() {
    let r = exec(",.,.", &[9]);
    assert_eq!(r.status, Status::InputExhausted);
    assert_eq!(r.output, vec![9u8]);
    assert_eq!(r.machine.pc, 2);
}

#[test]
fn step_reports_each_event() {
    let prog = compile(&b"+.,".to_vec()).unwrap();
    let mut m = Machine::new();
    assert_eq!(step(&prog, &mut m, None), Event::Continue);
    assert_eq!(step(&prog, &mut m, None), Event::Output(1));
    assert_eq!(step(&prog, &mut m, None), Event::NeedsInput);
    assert_eq!(m.pc, 2);
    assert_eq!(step(&prog, &mut m, Some(42)), Event::ReadInput);
    assert_eq!(m.tape[0], 42);
    assert_eq!(step(&prog, &mut m, None), Event::Halted);
}

#[test]
fn hello_world_program() {
    let src = "++++++++[>++++[>++>+++>+++>+<<<<-]>+>+>->>+[<]<-]>>.>---.+++++++..+++.>>.<-.<.+++.------.--------.>>+.>++.";
    let r = exec(src, &[]);
    assert_eq!(r.status, Status::Halted);
    assert_eq!(r.output, b"Hello World!\n".to_vec());
}

/// Byte-at-a-time interpreter that scans for matching brackets, used as a yardstick.
fn reference(src: &[u8], input: &[u8]) -> (Vec<u8>, Vec<u8>) {
    let mut tape = vec![0u8; TAPE_LEN];
    let (mut pc, mut dp, mut inp) = (0usize, 0usize, 0usize);
    let mut out = vec![];
    while pc < src.len() {
        match src[pc] {
            b'<' => dp -= 1,
            b'>' => dp += 1,
            b'+' => tape[dp] = tape[dp].wrapping_add(1),
            b'-' => tape[dp] = tape[dp].wrapping_sub(1),
            b'.' => out.push(tape[dp]),
            b',' => {
                tape[dp] = input[inp];
                inp += 1;
            }
            b'[' if tape[dp] == 0 => {
                let mut depth = 1;
                while depth > 0 {
                    pc += 1;
                    if src[pc] == b'[' {
                        depth += 1;
                    } else if src[pc] == b']' {
                        depth -= 1;
                    }
                }
            }
            b']' if tape[dp] != 0 => {
                let mut depth = 1;
                while depth > 0 {
                    pc -= 1;
                    if src[pc] == b']' {
                        depth += 1;
                    } else if src[pc] == b'[' {
                        depth -= 1;
                    }
                }
            }
            _ => {}
        }
        pc += 1;
    }
    (tape, out)
}

#[test]
fn optimized_tape_matches_reference_without_io() {
    let sources = [
        "++[>+++<-]>".to_string(),
        "+++++[-]>++[-]<+".to_string(),
        "+".repeat(600) + ">" + &"-".repeat(300),
        "++++[>++ comment ++[>+<-]<-]>>[-]<".to_string(),
        "+++[[-]]>-[+]".to_string(),
    ];
    for src in sources.iter() {
        let r = exec(src, &[]);
        assert_eq!(r.status, Status::Halted);
        let (tape, _) = reference(src.as_bytes(), &[]);
        assert_eq!(r.machine.tape, tape, "source {:?}", src);
    }
}

#[test]
fn optimized_output_matches_reference() {
    let cases: [(&str, &[u8]); 4] = [
        (",[.-]", &[5]),
        (",>,<[->+<]>.", &[30, 12]),
        ("+++ +++ [>++ ++<-]>.[-]+.,.", &[200]),
        ("++++++++[>++++[>++>+++>+++>+<<<<-]>+>+>->>+[<]<-]>>.>---.", &[]),
    ];
    for (src, input) in cases.iter() {
        let r = exec(src, input);
        assert_eq!(r.status, Status::Halted);
        let (_, out) = reference(src.as_bytes(), input);
        assert_eq!(r.output, out, "source {:?}", src);
    }
}
