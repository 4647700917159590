use vstd::prelude::*;

use crate::program::Program;

verus! {

/// `>`: move the data pointer one cell to the right.
pub const ADVANCE: u8 = 62;

/// `<`: move the data pointer one cell to the left.
pub const RETREAT: u8 = 60;

/// `+`: add one to the current cell, modulo 256.
pub const INCREMENT: u8 = 43;

/// `-`: subtract one from the current cell, modulo 256.
pub const DECREMENT: u8 = 45;

/// `[`: open a loop. On a nonzero cell, push the position of this
/// instruction onto the loop-control stack and enter the body; on a zero
/// cell, skip past the matching `]`.
pub const LOOP_OPEN: u8 = 91;

/// `]`: close the innermost open loop.
pub const LOOP_CLOSE: u8 = 93;

/// `,`: read one byte of input into the current cell.
pub const INPUT: u8 = 44;

/// `.`: write the current cell to the output.
pub const OUTPUT: u8 = 46;

/// The tape size used when the caller configures none.
pub const DEFAULT_TAPE_SIZE: usize = 30000;

/// A condition that stops the machine for good.
#[derive(Clone, Copy, Debug, PartialEq, Eq, Structural)]
pub enum Fault {
    /// The data pointer would leave the tape.
    PointerOutOfBounds,
    /// A loop close was reached with an empty loop-control stack.
    UnmatchedBracket,
}

/// What a step or a run reports.
#[derive(Clone, Copy, Debug, PartialEq, Eq, Structural)]
pub enum Status {
    /// More instructions remain.
    Continue,
    /// The program counter has reached the end of the program.
    Halted,
    /// The machine has faulted and must not be stepped further.
    Faulted(Fault),
}

/// Why a machine could not be built.
#[derive(Clone, Copy, Debug, PartialEq, Eq, Structural)]
pub enum ConfigError {
    /// The requested tape has no cells.
    EmptyTape,
}

/// The mathematical state of a machine.
///
/// `input` holds the bytes fed to the machine and not yet read; `output`
/// holds every byte written so far and not yet taken by the caller.
pub struct MachineState {
    pub program: Seq<u8>,
    pub tape: Seq<u8>,
    pub pointer: int,
    pub pc: int,
    pub stack: Seq<int>,
    pub input: Seq<u8>,
    pub output: Seq<u8>,
    pub fault: Option<Fault>,
}

impl MachineState {
    /// The invariant of every machine: a non-empty tape with the pointer on
    /// it, a program counter in `[0, N]`, and loop-stack entries that are
    /// positions in the program.
    pub open spec fn wf(self) -> bool {
        &&& self.tape.len() >= 1
        &&& 0 <= self.pointer < self.tape.len()
        &&& 0 <= self.pc <= self.program.len()
        &&& forall|i: int|
            0 <= i < self.stack.len() ==> 0 <= #[trigger] self.stack[i] < self.program.len()
    }

    pub open spec fn status(self) -> Status {
        match self.fault {
            Some(f) => Status::Faulted(f),
            None => if self.pc < self.program.len() {
                Status::Continue
            } else {
                Status::Halted
            },
        }
    }

    /// Halted or faulted: no further step changes anything.
    pub open spec fn is_terminal(self) -> bool {
        !(self.status() is Continue)
    }

    pub open spec fn cell(self) -> u8 {
        self.tape[self.pointer]
    }

    /// This state with the fault `f` recorded and nothing else changed.
    pub open spec fn faulted(self, f: Fault) -> MachineState {
        MachineState { fault: Some(f), ..self }
    }

    /// This state with the program counter moved to the next instruction.
    pub open spec fn advanced(self) -> MachineState {
        MachineState { pc: self.pc + 1, ..self }
    }

    /// The effect of executing exactly one instruction.
    pub open spec fn next(self) -> MachineState {
        if self.is_terminal() {
            self
        } else {
            let ins = self.program[self.pc];
            let s = self.advanced();
            if ins == ADVANCE {
                if self.pointer + 1 >= self.tape.len() {
                    self.faulted(Fault::PointerOutOfBounds)
                } else {
                    MachineState { pointer: self.pointer + 1, ..s }
                }
            } else if ins == RETREAT {
                if self.pointer == 0 {
                    self.faulted(Fault::PointerOutOfBounds)
                } else {
                    MachineState { pointer: self.pointer - 1, ..s }
                }
            } else if ins == INCREMENT {
                MachineState {
                    tape: self.tape.update(self.pointer, ((self.cell() + 1) % 256) as u8),
                    ..s
                }
            } else if ins == DECREMENT {
                MachineState {
                    tape: self.tape.update(self.pointer, ((self.cell() + 255) % 256) as u8),
                    ..s
                }
            } else if ins == LOOP_OPEN {
                if self.cell() != 0 {
                    MachineState { stack: self.stack.push(self.pc), ..s }
                } else {
                    MachineState { pc: after_loop(self.program, self.pc), ..self }
                }
            } else if ins == LOOP_CLOSE {
                if self.stack.len() == 0 {
                    self.faulted(Fault::UnmatchedBracket)
                } else if self.cell() != 0 {
                    MachineState { pc: self.stack.last(), stack: self.stack.drop_last(), ..self }
                } else {
                    MachineState { stack: self.stack.drop_last(), ..s }
                }
            } else if ins == INPUT {
                if self.input.len() > 0 {
                    MachineState {
                        tape: self.tape.update(self.pointer, self.input[0]),
                        input: self.input.drop_first(),
                        ..s
                    }
                } else {
                    s
                }
            } else if ins == OUTPUT {
                MachineState { output: self.output.push(self.cell()), ..s }
            } else {
                s
            }
        }
    }

    /// The state after `n` steps.
    pub open spec fn steps(self, n: nat) -> MachineState
        decreases n,
    {
        if n == 0 {
            self
        } else {
            self.steps((n - 1) as nat).next()
        }
    }
}

/// Scanning forward from `pos` with `depth` loops open, the position of the
/// loop close that brings the depth back to zero, or the program's length
/// where there is none.
pub open spec fn close_from(program: Seq<u8>, pos: int, depth: int) -> int
    decreases program.len() - pos,
{
    if pos >= program.len() {
        program.len() as int
    } else if program[pos] == LOOP_OPEN {
        close_from(program, pos + 1, depth + 1)
    } else if program[pos] == LOOP_CLOSE {
        if depth <= 1 {
            pos
        } else {
            close_from(program, pos + 1, depth - 1)
        }
    } else {
        close_from(program, pos + 1, depth)
    }
}

/// Where a loop open at `open` skipping its body resumes: one past the
/// matching loop close, or the end of the program where nothing matches.
pub open spec fn after_loop(program: Seq<u8>, open: int) -> int {
    let c = close_from(program, open + 1, 1);
    if c < program.len() {
        c + 1
    } else {
        program.len() as int
    }
}

/// The position after the loop that opens at `open`, found by a forward
/// scan that counts nested loops.
fn skip_loop(program: &Program, open: usize) -> (r: usize)
    requires
        open < program@.len(),
    ensures
        r == after_loop(program@, open as int),
{
    let n = program.length();
    let mut pos: usize = open + 1;
    let mut depth: usize = 1;
    while pos < n
        invariant
            n == program@.len(),
            open < n,
            open + 1 <= pos <= n,
            1 <= depth <= pos,
            close_from(program@, pos as int, depth as int) == close_from(
                program@,
                open + 1,
                1,
            ),
        decreases n - pos,
    {
        let b = program.instruction_at(pos);
        if b == LOOP_OPEN {
            depth = depth + 1;
        } else if b == LOOP_CLOSE {
            if depth == 1 {
                return pos + 1;
            }
            depth = depth - 1;
        }
        pos = pos + 1;
    }
    n
}

/// The machine: program, tape, data pointer, program counter, loop-control
/// stack, and the input and output side channels as byte buffers.
///
/// Input policy: a `,` reached while no fed byte is pending leaves the cell
/// unchanged. A caller that reads interactively feeds a byte before the step
/// whenever `awaits_input` holds.
pub struct Machine {
    program: Program,
    tape: Vec<u8>,
    pointer: usize,
    pc: usize,
    stack: Vec<usize>,
    input: Vec<u8>,
    input_pos: usize,
    output: Vec<u8>,
    fault: Option<Fault>,
}

pub open spec fn stack_view(stack: Seq<usize>) -> Seq<int> {
    stack.map_values(|x: usize| x as int)
}

impl View for Machine {
    type V = MachineState;

    closed spec fn view(&self) -> MachineState {
        MachineState {
            program: self.program@,
            tape: self.tape@,
            pointer: self.pointer as int,
            pc: self.pc as int,
            stack: stack_view(self.stack@),
            input: self.input@.subrange(self.input_pos as int, self.input@.len() as int),
            output: self.output@,
            fault: self.fault,
        }
    }
}

impl Machine {
    /// The machine's invariant.
    pub closed spec fn inv(&self) -> bool {
        &&& self@.wf()
        &&& self.input_pos <= self.input@.len()
    }

    /// A machine's invariant gives the invariant of its state: the pointer on
    /// the tape, the program counter in `[0, N]`, and loop-stack entries
    /// that are positions in the program.
    pub proof fn lemma_inv_wf(&self)
        requires
            self.inv(),
        ensures
            self@.wf(),
    {
    }

    /// A machine at the start of `program`, with `tape_size` zeroed cells.
    /// A tape of no cells is refused.
    pub fn new(program: Program, tape_size: usize) -> (r: Result<Machine, ConfigError>)
        ensures
            tape_size == 0 <==> r is Err,
            r matches Err(e) ==> e == ConfigError::EmptyTape,
            r matches Ok(m) ==> {
                &&& m.inv()
                &&& m@.program == program@
                &&& m@.tape == Seq::new(tape_size as nat, |i: int| 0u8)
                &&& m@.pointer == 0
                &&& m@.pc == 0
                &&& m@.stack.len() == 0
                &&& m@.input.len() == 0
                &&& m@.output.len() == 0
                &&& m@.fault is None
            },
    {
        if tape_size == 0 {
            return Err(ConfigError::EmptyTape);
        }
        let mut tape: Vec<u8> = Vec::new();
        while tape.len() < tape_size
            invariant
                tape.len() <= tape_size,
                forall|i: int| 0 <= i < tape.len() ==> tape@[i] == 0u8,
            decreases tape_size - tape.len(),
        {
            tape.push(0u8);
        }
        let m = Machine {
            program,
            tape,
            pointer: 0,
            pc: 0,
            stack: Vec::new(),
            input: Vec::new(),
            input_pos: 0,
            output: Vec::new(),
            fault: None,
        };
        proof {
            assert(m@.tape =~= Seq::new(tape_size as nat, |i: int| 0u8));
            assert(m@.input =~= Seq::<u8>::empty());
        }
        Ok(m)
    }

    /// The current status: faulted, halted, or able to continue.
    pub fn status(&self) -> (r: Status)
        requires
            self.inv(),
        ensures
            r == self@.status(),
    {
        match self.fault {
            Some(f) => Status::Faulted(f),
            None => if self.pc < self.program.length() {
                Status::Continue
            } else {
                Status::Halted
            },
        }
    }

    /// Executes exactly one instruction. A halted or faulted machine is left
    /// as it is and reports its status again.
    pub fn step(&mut self) -> (r: Status)
        requires
            old(self).inv(),
        ensures
            final(self).inv(),
            final(self)@ == old(self)@.next(),
            r == final(self)@.status(),
    {
        if self.fault.is_some() || self.pc >= self.program.length() {
            return self.status();
        }
        let ghost s = self@;
        let ins = self.program.instruction_at(self.pc);
        let p = self.pointer;
        if ins == ADVANCE {
            if p >= self.tape.len() - 1 {
                self.fault = Some(Fault::PointerOutOfBounds);
            } else {
                self.pointer = p + 1;
                self.pc = self.pc + 1;
            }
        } else if ins == RETREAT {
            if p == 0 {
                self.fault = Some(Fault::PointerOutOfBounds);
            } else {
                self.pointer = p - 1;
                self.pc = self.pc + 1;
            }
        } else if ins == INCREMENT {
            let c = self.tape[p];
            self.tape.set(p, if c == 255 { 0 } else { c + 1 });
            self.pc = self.pc + 1;
        } else if ins == DECREMENT {
            let c = self.tape[p];
            self.tape.set(p, if c == 0 { 255 } else { c - 1 });
            self.pc = self.pc + 1;
        } else if ins == LOOP_OPEN {
            if self.tape[p] != 0 {
                self.stack.push(self.pc);
                proof {
                    assert(stack_view(self.stack@) =~= s.stack.push(s.pc));
                }
                self.pc = self.pc + 1;
            } else {
                self.pc = skip_loop(&self.program, self.pc);
            }
        } else if ins == LOOP_CLOSE {
            if self.stack.len() == 0 {
                self.fault = Some(Fault::UnmatchedBracket);
            } else {
                let start = self.stack.pop().unwrap();
                proof {
                    assert(stack_view(self.stack@) =~= s.stack.drop_last());
                }
                if self.tape[p] != 0 {
                    self.pc = start;
                } else {
                    self.pc = self.pc + 1;
                }
            }
        } else if ins == INPUT {
            if self.input_pos < self.input.len() {
                let b = self.input[self.input_pos];
                self.tape.set(p, b);
                self.input_pos = self.input_pos + 1;
                proof {
                    assert(self@.input =~= s.input.drop_first());
                }
            }
            self.pc = self.pc + 1;
        } else if ins == OUTPUT {
            let c = self.tape[p];
            self.output.push(c);
            self.pc = self.pc + 1;
        } else {
            self.pc = self.pc + 1;
        }
        proof {
            assert(self@ =~= s.next());
        }
        self.status()
    }

    /// Steps until the machine halts or faults, or until `max_steps` steps
    /// have been taken, whichever comes first. A terminal state is a fixed
    /// point of a step, so the result is the state after `max_steps` steps.
    pub fn run(&mut self, max_steps: u64) -> (r: Status)
        requires
            old(self).inv(),
        ensures
            final(self).inv(),
            final(self)@ == old(self)@.steps(max_steps as nat),
            r == final(self)@.status(),
    {
        let ghost s0 = self@;
        let mut n: u64 = 0;
        let mut status = self.status();
        while n < max_steps && status == Status::Continue
            invariant
                self.inv(),
                n <= max_steps,
                self@ == s0.steps(n as nat),
                status == self@.status(),
            decreases max_steps - n,
        {
            status = self.step();
            n = n + 1;
        }
        proof {
            if n < max_steps {
                lemma_terminal_is_fixed(s0, n as nat, max_steps as nat);
            }
        }
        status
    }

    /// Appends `bytes` to the pending input.
    pub fn feed(&mut self, bytes: &[u8])
        requires
            old(self).inv(),
        ensures
            final(self).inv(),
            final(self)@ == (MachineState { input: old(self)@.input + bytes@, ..old(self)@ }),
    {
        let ghost s = self@;
        let mut i: usize = 0;
        while i < bytes.len()
            invariant
                self.inv(),
                s.wf(),
                i <= bytes@.len(),
                self@ == (MachineState { input: s.input + bytes@.subrange(0, i as int), ..s }),
            decreases bytes@.len() - i,
        {
            let ghost before = self.input@;
            self.input.push(bytes[i]);
            proof {
                assert(before.subrange(self.input_pos as int, before.len() as int) =~= s.input
                    + bytes@.subrange(0, i as int));
                assert(self.input@.subrange(self.input_pos as int, self.input@.len() as int)
                    =~= before.subrange(self.input_pos as int, before.len() as int).push(
                    bytes@[i as int],
                ));
                assert(self@.input =~= s.input + bytes@.subrange(0, i + 1));
            }
            i = i + 1;
        }
        proof {
            assert(bytes@.subrange(0, i as int) =~= bytes@);
        }
    }

    /// Hands out the bytes written so far and clears the output buffer.
    pub fn take_output(&mut self) -> (r: Vec<u8>)
        requires
            old(self).inv(),
        ensures
            final(self).inv(),
            r@ == old(self)@.output,
            final(self)@ == (MachineState { output: Seq::empty(), ..old(self)@ }),
    {
        let mut out: Vec<u8> = Vec::new();
        std::mem::swap(&mut out, &mut self.output);
        proof {
            assert(self@.output =~= Seq::<u8>::empty());
        }
        out
    }

    /// Whether the next step reads input while none is pending.
    pub fn awaits_input(&self) -> (r: bool)
        requires
            self.inv(),
        ensures
            r == (self@.status() is Continue && self@.program[self@.pc] == INPUT
                && self@.input.len() == 0),
    {
        self.fault.is_none() && self.pc < self.program.length() && self.program.instruction_at(
            self.pc,
        ) == INPUT && self.input_pos == self.input.len()
    }

    /// The loaded program.
    pub fn program(&self) -> (r: &Program)
        ensures
            r@ == self@.program,
    {
        &self.program
    }

    /// The tape's cells.
    pub fn tape(&self) -> (r: &[u8])
        ensures
            r@ == self@.tape,
    {
        self.tape.as_slice()
    }

    /// The data pointer.
    pub fn pointer(&self) -> (r: usize)
        ensures
            r == self@.pointer,
    {
        self.pointer
    }

    /// The program counter.
    pub fn pc(&self) -> (r: usize)
        ensures
            r == self@.pc,
    {
        self.pc
    }

    /// The number of loops opened and not yet closed.
    pub fn loop_depth(&self) -> (r: usize)
        ensures
            r == self@.stack.len(),
    {
        self.stack.len()
    }
}

/// Once a run has reached a halted or faulted state, further steps change
/// nothing: stepping one instruction at a time until the machine stops
/// gives the same state as a run with any larger step budget.
pub proof fn lemma_terminal_is_fixed(s: MachineState, k: nat, m: nat)
    requires
        k <= m,
        s.steps(k).is_terminal(),
    ensures
        s.steps(m) == s.steps(k),
        s.steps(m).is_terminal(),
    decreases m - k,
{
    if m > k {
        lemma_terminal_is_fixed(s, k, (m - 1) as nat);
    }
}

} // verus!
