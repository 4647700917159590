use vstd::prelude::*;

use crate::machine::{
    after_loop, close_from, lemma_terminal_is_fixed, Fault, MachineState, Status, DECREMENT,
    INCREMENT, LOOP_CLOSE, LOOP_OPEN, ADVANCE, RETREAT,
};

verus! {

/// Running `a + b` steps is running `a` steps and then `b` more: a run may be
/// split into any number of shorter runs, down to single steps.
pub proof fn lemma_steps_compose(s: MachineState, a: nat, b: nat)
    ensures
        s.steps(a + b) == s.steps(a).steps(b),
    decreases b,
{
    if b > 0 {
        lemma_steps_compose(s, a, (b - 1) as nat);
        assert(s.steps(a + b) == s.steps((a + b - 1) as nat).next());
    }
}

/// A run with a budget of `m` steps reports a halted or faulted status if and
/// only if the machine stops within `m` steps.
pub proof fn lemma_run_stops_iff_halts_within(s: MachineState, m: nat)
    ensures
        s.steps(m).is_terminal() <==> exists|k: nat| k <= m && #[trigger] s.steps(k).is_terminal(),
{
    if exists|k: nat| k <= m && #[trigger] s.steps(k).is_terminal() {
        let k = choose|k: nat| k <= m && #[trigger] s.steps(k).is_terminal();
        lemma_terminal_is_fixed(s, k, m);
    }
}

/// The forward scan for a matching loop close ends between its start and
/// the end of the program.
pub proof fn lemma_close_from_bounds(program: Seq<u8>, pos: int, depth: int)
    requires
        0 <= pos <= program.len(),
    ensures
        pos <= close_from(program, pos, depth) <= program.len(),
    decreases program.len() - pos,
{
    if pos < program.len() {
        lemma_close_from_bounds(program, pos + 1, depth + 1);
        lemma_close_from_bounds(program, pos + 1, depth - 1);
        lemma_close_from_bounds(program, pos + 1, depth);
    }
}

/// A single step preserves the machine's invariant.
pub proof fn lemma_next_wf(s: MachineState)
    requires
        s.wf(),
    ensures
        s.next().wf(),
{
    let t = s.next();
    if !s.is_terminal() {
        if s.program[s.pc] == LOOP_OPEN && s.cell() == 0 {
            lemma_close_from_bounds(s.program, s.pc + 1, 1);
        } else if s.program[s.pc] == LOOP_OPEN {
            assert forall|i: int| 0 <= i < t.stack.len() implies 0 <= #[trigger] t.stack[i]
                < t.program.len() by {
                if i < s.stack.len() {
                    assert(t.stack[i] == s.stack[i]);
                }
            }
        } else if s.program[s.pc] == LOOP_CLOSE && s.stack.len() > 0 {
            assert(s.stack.last() == s.stack[s.stack.len() - 1]);
            assert forall|i: int| 0 <= i < t.stack.len() implies 0 <= #[trigger] t.stack[i]
                < t.program.len() by {
                assert(t.stack[i] == s.stack[i]);
            }
        }
    }
}

/// The invariant holds after any number of steps.
pub proof fn lemma_steps_wf(s: MachineState, n: nat)
    requires
        s.wf(),
    ensures
        s.steps(n).wf(),
    decreases n,
{
    if n > 0 {
        lemma_steps_wf(s, (n - 1) as nat);
        lemma_next_wf(s.steps((n - 1) as nat));
    }
}

/// `+` adds one modulo 256 and `-` subtracts one modulo 256; in particular
/// `-` on a zero cell gives 255.
pub proof fn lemma_cell_arithmetic(s: MachineState)
    requires
        s.wf(),
        s.status() is Continue,
    ensures
        s.program[s.pc] == INCREMENT ==> s.next().cell() == (s.cell() + 1) % 256,
        s.program[s.pc] == DECREMENT ==> s.next().cell() == (s.cell() + 255) % 256,
        s.program[s.pc] == DECREMENT && s.cell() == 0 ==> s.next().cell() == 255,
{
}

/// `count` consecutive `+` instructions, at most 256, add `count` to the
/// current cell modulo 256 and change nothing else but the program counter.
#[verifier::rlimit(60)]
pub proof fn lemma_increments(s: MachineState, count: nat)
    requires
        s.wf(),
        s.fault is None,
        count <= 256,
        s.pc + count <= s.program.len(),
        forall|j: int| s.pc <= j < s.pc + count ==> #[trigger] s.program[j] == INCREMENT,
    ensures
        s.steps(count) == (MachineState {
            pc: s.pc + count,
            tape: s.tape.update(s.pointer, ((s.cell() + count) % 256) as u8),
            ..s
        }),
    decreases count,
{
    if count == 0 {
        assert(s.tape.update(s.pointer, ((s.cell() + count) % 256) as u8) =~= s.tape);
    } else {
        let k = (count - 1) as nat;
        lemma_increments(s, k);
        let t = s.steps(k);
        assert(s.steps(count) == t.next());
        lemma_increment_step(t);
        assert(((s.cell() + k) % 256 + 1) % 256 == (s.cell() + count) % 256);
        assert(t.next().tape =~= s.tape.update(s.pointer, ((s.cell() + count) % 256) as u8));
    }
}

/// One `+` step, spelled out.
proof fn lemma_increment_step(t: MachineState)
    requires
        t.fault is None,
        0 <= t.pc < t.program.len(),
        t.program[t.pc] == INCREMENT,
    ensures
        t.next() == (MachineState {
            pc: t.pc + 1,
            tape: t.tape.update(t.pointer, ((t.cell() + 1) % 256) as u8),
            ..t
        }),
{
}

/// `+` applied 256 times leaves the cell as it was: a cell is an 8-bit
/// counter that wraps around.
pub proof fn lemma_increment_wraps(s: MachineState)
    requires
        s.wf(),
        s.fault is None,
        s.pc + 256 <= s.program.len(),
        forall|j: int| s.pc <= j < s.pc + 256 ==> #[trigger] s.program[j] == INCREMENT,
    ensures
        s.steps(256) == (MachineState { pc: s.pc + 256, ..s }),
        s.steps(256).tape == s.tape,
{
    lemma_increments(s, 256);
    assert(s.tape.update(s.pointer, ((s.cell() + 256) % 256) as u8) =~= s.tape);
}

/// Moving right from the last cell, or left from the first, faults with
/// `PointerOutOfBounds` and changes nothing else.
pub proof fn lemma_pointer_bounds(s: MachineState)
    requires
        s.wf(),
        s.status() is Continue,
    ensures
        s.program[s.pc] == ADVANCE && s.pointer == s.tape.len() - 1 ==> s.next() == s.faulted(
            Fault::PointerOutOfBounds,
        ),
        s.program[s.pc] == RETREAT && s.pointer == 0 ==> s.next() == s.faulted(
            Fault::PointerOutOfBounds,
        ),
        s.program[s.pc] == ADVANCE && s.pointer == s.tape.len() - 1 ==> s.next().status()
            == Status::Faulted(Fault::PointerOutOfBounds),
        s.program[s.pc] == RETREAT && s.pointer == 0 ==> s.next().status() == Status::Faulted(
            Fault::PointerOutOfBounds,
        ),
{
}

/// A loop close reached with no open loop on the stack faults with
/// `UnmatchedBracket`, whatever the tape holds.
pub proof fn lemma_unmatched_close(s: MachineState)
    requires
        s.wf(),
        s.status() is Continue,
        s.program[s.pc] == LOOP_CLOSE,
        s.stack.len() == 0,
    ensures
        s.next() == s.faulted(Fault::UnmatchedBracket),
        s.next().status() == Status::Faulted(Fault::UnmatchedBracket),
{
}

/// The program `+[]` started on a cell of value 255 wraps the cell to zero,
/// skips the loop and halts after two steps; on any other value it never
/// stops.
pub proof fn lemma_spin_loop(s: MachineState, n: nat)
    requires
        s.wf(),
        s.fault is None,
        s.pc == 0,
        s.stack.len() == 0,
        s.program == seq![INCREMENT, LOOP_OPEN, LOOP_CLOSE],
    ensures
        s.cell() == 255 ==> s.steps(2).status() is Halted && s.steps(2).cell() == 0,
        s.cell() != 255 ==> !s.steps(n).is_terminal(),
{
    if s.cell() == 255 {
        let t1 = s.steps(1);
        assert(s.steps(0) == s);
        assert(s.program[0] == INCREMENT && s.program[1] == LOOP_OPEN && s.program[2]
            == LOOP_CLOSE);
        assert(t1 == s.next());
        assert(t1.cell() == 0 && t1.pc == 1 && t1.stack.len() == 0);
        assert(close_from(s.program, 2, 1) == 2);
        assert(s.steps(2) == t1.next());
    } else if n > 0 {
        lemma_spin_states(s, n);
    }
}

/// The states of `+[]` on a cell that does not wrap: after the first step
/// the machine alternates between the loop open and the loop close.
proof fn lemma_spin_states(s: MachineState, n: nat)
    requires
        s.wf(),
        s.fault is None,
        s.pc == 0,
        s.stack.len() == 0,
        s.program == seq![INCREMENT, LOOP_OPEN, LOOP_CLOSE],
        s.cell() != 255,
        n >= 1,
    ensures
        s.steps(n).fault is None,
        s.steps(n).cell() == s.cell() + 1,
        s.steps(n).pointer == s.pointer,
        s.steps(n).tape.len() == s.tape.len(),
        s.steps(n).program == s.program,
        n % 2 == 1 ==> s.steps(n).pc == 1 && s.steps(n).stack == Seq::<int>::empty(),
        n % 2 == 0 ==> s.steps(n).pc == 2 && s.steps(n).stack == seq![1int],
    decreases n,
{
    if n == 1 {
        assert(s.steps(1).stack =~= Seq::<int>::empty());
    } else {
        lemma_spin_states(s, (n - 1) as nat);
        let t = s.steps((n - 1) as nat);
        if n % 2 == 0 {
            assert(t.next().stack =~= seq![1int]);
        } else {
            assert(t.next().stack =~= Seq::<int>::empty());
        }
    }
}

/// A loop open reached on a zero cell skips the loop: the body never runs,
/// and execution resumes one past the matching loop close, or at the end of
/// the program where nothing matches. Nothing else changes.
pub proof fn lemma_zero_cell_skips_loop(s: MachineState)
    requires
        s.wf(),
        s.status() is Continue,
        s.program[s.pc] == LOOP_OPEN,
        s.cell() == 0,
    ensures
        s.next() == (MachineState { pc: after_loop(s.program, s.pc), ..s }),
        s.pc < s.next().pc <= s.program.len(),
{
    lemma_close_from_bounds(s.program, s.pc + 1, 1);
}

/// Whether `[-]` stands at the program counter.
pub open spec fn at_clearing_loop(s: MachineState) -> bool {
    &&& s.pc + 3 <= s.program.len()
    &&& s.program[s.pc] == LOOP_OPEN
    &&& s.program[s.pc + 1] == DECREMENT
    &&& s.program[s.pc + 2] == LOOP_CLOSE
}

/// The passes of a clearing loop `[-]` on a cell of value `c > 0`: each
/// pass of three steps runs the body once and returns to the loop open with
/// the cell one lower.
proof fn lemma_clearing_passes(s: MachineState, k: nat)
    requires
        s.wf(),
        s.fault is None,
        at_clearing_loop(s),
        k < s.cell(),
    ensures
        s.steps(3 * k) == (MachineState {
            tape: s.tape.update(s.pointer, (s.cell() - k) as u8),
            ..s
        }),
    decreases k,
{
    if k == 0 {
        assert(s.tape.update(s.pointer, s.cell()) =~= s.tape);
    } else {
        let j = (k - 1) as nat;
        lemma_clearing_passes(s, j);
        let t = s.steps(3 * j);
        let t1 = t.next();
        let t2 = t1.next();
        assert(s.steps(3 * j + 1) == t1);
        assert(s.steps(3 * j + 2) == t2);
        assert(s.steps(3 * k) == t2.next());
        assert(t1.stack == s.stack.push(s.pc));
        assert(t2.stack.drop_last() =~= s.stack);
        assert(t2.next().tape =~= s.tape.update(s.pointer, (s.cell() - k) as u8));
    }
}

/// A clearing loop `[-]` reached with the cell at `c`: on zero it is skipped
/// in one step and its body never runs; otherwise the body runs `c` times,
/// one pass of three steps each, so that after `3c` steps the cell is zero
/// and the program counter is past the loop, with the loop stack as before.
pub proof fn lemma_clearing_loop(s: MachineState)
    requires
        s.wf(),
        s.fault is None,
        at_clearing_loop(s),
    ensures
        s.cell() == 0 ==> s.steps(1) == (MachineState { pc: s.pc + 3, ..s }),
        s.cell() != 0 ==> s.steps(3 * s.cell() as nat) == (MachineState {
            pc: s.pc + 3,
            tape: s.tape.update(s.pointer, 0),
            ..s
        }),
{
    if s.cell() == 0 {
        assert(close_from(s.program, s.pc + 2, 1) == s.pc + 2);
        assert(close_from(s.program, s.pc + 1, 1) == s.pc + 2);
        assert(s.steps(1) == s.next());
    } else {
        let c = s.cell() as nat;
        let j = (c - 1) as nat;
        lemma_clearing_passes(s, j);
        let t = s.steps(3 * j);
        let t1 = t.next();
        let t2 = t1.next();
        assert(s.steps(3 * j + 1) == t1);
        assert(s.steps(3 * j + 2) == t2);
        assert(s.steps(3 * c) == t2.next());
        assert(t2.stack.drop_last() =~= s.stack);
        assert(t2.next().tape =~= s.tape.update(s.pointer, 0));
    }
}

} // verus!
