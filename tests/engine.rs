use beefu::machine::{ConfigError, Fault, Machine, Status, DEFAULT_TAPE_SIZE};
use beefu::program::Program;

fn machine(src: &str, tape_size: usize) -> Machine {
    Machine::new(Program::load(src.as_bytes().to_vec()), tape_size).unwrap()
}

#[test]
fn program_store_lookup() {
    let p = Program::load(b"+-x".to_vec());
    assert_eq!(p.length(), 3);
    assert_eq!(p.instruction_at(0), b'+');
    assert_eq!(p.instruction_at(2), b'x');
    assert_eq!(Program::load(Vec::new()).length(), 0);
}

#[test]
fn empty_tape_is_refused() {
    let r = Machine::new(Program::load(b"+".to_vec()), 0);
    assert!(matches!(r, Err(ConfigError::EmptyTape)));
}

#[test]
fn fresh_machine_has_zeroed_default_tape() {
    let m = machine("+", DEFAULT_TAPE_SIZE);
    assert_eq!(m.tape().len(), 30000);
    assert!(m.tape().iter().all(|&c| c == 0));
    assert_eq!(m.pointer(), 0);
    assert_eq!(m.pc(), 0);
    assert_eq!(m.loop_depth(), 0);
    assert_eq!(m.status(), Status::Continue);
}

#[test]
fn empty_program_halts_at_once() {
    let mut m = machine("", 1);
    assert_eq!(m.status(), Status::Halted);
    assert_eq!(m.step(), Status::Halted);
    assert_eq!(m.pc(), 0);
}

#[test]
fn increment_256_times_wraps_to_zero() {
    let src = "+".repeat(256);
    let mut m = machine(&src, 1);
    assert_eq!(m.run(255), Status::Continue);
    assert_eq!(m.tape()[0], 255);
    assert_eq!(m.step(), Status::Halted);
    assert_eq!(m.tape()[0], 0);
    assert_eq!(m.pc(), 256);
}

#[test]
fn decrement_on_zero_yields_255() {
    let mut m = machine("-", 1);
    assert_eq!(m.step(), Status::Halted);
    assert_eq!(m.tape()[0], 255);
}

#[test]
fn advance_past_last_cell_faults() {
    let mut m = machine(">>>", 3);
    assert_eq!(m.step(), Status::Continue);
    assert_eq!(m.step(), Status::Continue);
    assert_eq!(m.pointer(), 2);
    assert_eq!(m.step(), Status::Faulted(Fault::PointerOutOfBounds));
    assert_eq!(m.pointer(), 2);
    assert_eq!(m.pc(), 2);
    // A faulted machine stays faulted.
    assert_eq!(m.step(), Status::Faulted(Fault::PointerOutOfBounds));
    assert_eq!(m.pc(), 2);
}

#[test]
fn retreat_at_first_cell_faults() {
    let mut m = machine("<", 10);
    assert_eq!(m.step(), Status::Faulted(Fault::PointerOutOfBounds));
    assert_eq!(m.pointer(), 0);
    assert_eq!(m.pc(), 0);
    assert_eq!(m.status(), Status::Faulted(Fault::PointerOutOfBounds));
}

#[test]
fn unmatched_close_faults_on_zero_cell() {
    let mut m = machine("]", 1);
    assert_eq!(m.run(10), Status::Faulted(Fault::UnmatchedBracket));
    assert_eq!(m.pc(), 0);
}

#[test]
fn unmatched_close_faults_on_nonzero_cell() {
    let mut m = machine("+]", 1);
    assert_eq!(m.run(10), Status::Faulted(Fault::UnmatchedBracket));
    assert_eq!(m.pc(), 1);
    assert_eq!(m.tape()[0], 1);
}

#[test]
fn close_after_a_skipped_loop_faults() {
    let mut m = machine("[]]", 1);
    assert_eq!(m.run(10), Status::Faulted(Fault::UnmatchedBracket));
    assert_eq!(m.pc(), 2);
}

#[test]
fn two_increments_then_output_writes_two() {
    let mut m = machine("++.", 1);
    assert_eq!(m.run(100), Status::Halted);
    assert_eq!(m.take_output(), vec![2u8]);
    assert!(m.take_output().is_empty());
}

#[test]
fn clearing_loop_runs_body_five_times() {
    // Five increments, then the loop: three steps per pass of the body.
    let mut m = machine("+++++[-]", 1);
    assert_eq!(m.run(19), Status::Continue);
    assert_eq!(m.tape()[0], 0);
    assert_eq!(m.pc(), 7);
    assert_eq!(m.step(), Status::Halted);
    assert_eq!(m.tape()[0], 0);
    assert_eq!(m.loop_depth(), 0);

    let mut once = machine("+[-]", 1);
    assert_eq!(once.run(4), Status::Halted);
    assert_eq!(once.tape()[0], 0);
}

#[test]
fn loop_on_zero_cell_is_skipped() {
    let mut m = machine("[-]", 1);
    assert_eq!(m.step(), Status::Halted);
    assert_eq!(m.pc(), 3);
    assert_eq!(m.tape()[0], 0);
    assert_eq!(m.loop_depth(), 0);

    let mut empty = machine("[]", 1);
    assert_eq!(empty.step(), Status::Halted);
    assert_eq!(empty.pc(), 2);

    // Nested loops are skipped as a whole.
    let mut nested = machine("[[-]+]+", 1);
    assert_eq!(nested.step(), Status::Continue);
    assert_eq!(nested.pc(), 6);
    assert_eq!(nested.step(), Status::Halted);
    assert_eq!(nested.tape()[0], 1);

    // A loop open with no matching close skips to the end.
    let mut open = machine("[+", 1);
    assert_eq!(open.step(), Status::Halted);
    assert_eq!(open.pc(), 2);
    assert_eq!(open.tape()[0], 0);
}

#[test]
fn clearing_loop_from_five_runs_body_five_times() {
    let mut m = machine(",[-]", 1);
    m.feed(&[5]);
    assert_eq!(m.step(), Status::Continue);
    assert_eq!(m.tape()[0], 5);
    let mut body_runs = 0;
    loop {
        if m.pc() == 2 {
            body_runs += 1;
        }
        if m.step() != Status::Continue {
            break;
        }
    }
    assert_eq!(body_runs, 5);
    assert_eq!(m.status(), Status::Halted);
    assert_eq!(m.tape()[0], 0);
    assert_eq!(m.pc(), 4);
}

#[test]
fn spin_loop_never_halts() {
    let mut m = machine("+[]", 1);
    assert_eq!(m.run(10_000), Status::Continue);
    assert_eq!(m.tape()[0], 1);
}

#[test]
fn spin_loop_on_wrapping_cell_halts() {
    let mut m = machine("-+[]", 1);
    assert_eq!(m.run(10_000), Status::Halted);
    assert_eq!(m.tape()[0], 0);
    assert_eq!(m.pc(), 4);
}

#[test]
fn stepping_matches_run() {
    let src = "++[>++[>+<-]<-]>>.";
    let mut stepped = machine(src, 8);
    let mut steps: u64 = 0;
    while stepped.step() == Status::Continue {
        steps += 1;
    }
    steps += 1;
    let mut ran = machine(src, 8);
    assert_eq!(ran.run(1_000_000), Status::Halted);
    assert_eq!(stepped.tape(), ran.tape());
    assert_eq!(stepped.pointer(), ran.pointer());
    assert_eq!(stepped.pc(), ran.pc());
    assert_eq!(stepped.take_output(), vec![4u8]);
    assert_eq!(ran.take_output(), vec![4u8]);

    let mut exact = machine(src, 8);
    assert_eq!(exact.run(steps - 1), Status::Continue);
    assert_eq!(exact.run(1), Status::Halted);
    assert_eq!(exact.tape(), ran.tape());
}

#[test]
fn input_is_read_in_order() {
    let mut m = machine(",.>,.", 2);
    m.feed(b"AB");
    assert_eq!(m.run(100), Status::Halted);
    assert_eq!(m.take_output(), b"AB".to_vec());
    assert_eq!(m.tape(), &[65u8, 66u8][..]);
}

#[test]
fn input_at_end_leaves_cell_unchanged() {
    let mut m = machine("+++,", 1);
    assert_eq!(m.run(100), Status::Halted);
    assert_eq!(m.tape()[0], 3);
}

#[test]
fn awaits_input_only_before_unfed_read() {
    let mut m = machine("+,", 1);
    assert!(!m.awaits_input());
    m.step();
    assert!(m.awaits_input());
    m.feed(&[9]);
    assert!(!m.awaits_input());
    assert_eq!(m.step(), Status::Halted);
    assert_eq!(m.tape()[0], 9);
}

#[test]
fn other_bytes_are_no_ops() {
    let mut m = machine("a+ b\n+", 1);
    assert_eq!(m.run(100), Status::Halted);
    assert_eq!(m.tape()[0], 2);
    assert_eq!(m.pc(), 6);
    assert_eq!(m.program().length(), 6);
}

#[test]
fn loop_depth_tracks_open_loops() {
    let mut m = machine("+[[", 1);
    m.run(3);
    assert_eq!(m.loop_depth(), 2);
}
