//! The interpreter as mathematics: its state, what one step does to it, and
//! what a run is. The executable engine is verified against these
//! definitions, and the laws of this crate are proved of them.
//!
//! The pointer is always the index of a cell that exists: a `>` that moves
//! it off the last cell extends the tape by [`TAPE_CHUNK`] zero cells in the
//! same step. Where the language leaves room, on `<` at cell 0, the tape is
//! circular: the pointer moves to the last cell that the tape has at that
//! moment.

use crate::error::Error;
use vstd::prelude::*;

verus! {

/// Number of tape cells that are stored inline. A tape starts with as many
/// cells.
pub const DEFAULT_MEM_SIZE: usize = 16;

/// Number of program bytes that an owned program stores inline.
pub const DEFAULT_PROGRAM_SIZE: usize = 16;

/// Number of open loops that are stored inline.
pub const DEFAULT_LOOP_STACK_SIZE: usize = 2;

/// Number of zero cells by which the tape grows.
pub const TAPE_CHUNK: usize = 100;

/// The instruction `>`.
pub const MOVE_RIGHT: u8 = 0x3e;

/// The instruction `<`.
pub const MOVE_LEFT: u8 = 0x3c;

/// The instruction `+`.
pub const INCREMENT: u8 = 0x2b;

/// The instruction `-`.
pub const DECREMENT: u8 = 0x2d;

/// The instruction `.`.
pub const OUTPUT: u8 = 0x2e;

/// The instruction `,`.
pub const INPUT: u8 = 0x2c;

/// The instruction `[`.
pub const LOOP_OPEN: u8 = 0x5b;

/// The instruction `]`.
pub const LOOP_CLOSE: u8 = 0x5d;

/// ASCII whitespace: space, tab, line feed, form feed, carriage return.
pub open spec fn is_space(byte: u8) -> bool {
    byte == 0x20 || byte == 0x09 || byte == 0x0a || byte == 0x0c || byte == 0x0d
}

/// One of the eight instruction bytes.
pub open spec fn is_instruction(byte: u8) -> bool {
    byte == MOVE_RIGHT || byte == MOVE_LEFT || byte == INCREMENT || byte == DECREMENT || byte
        == OUTPUT || byte == INPUT || byte == LOOP_OPEN || byte == LOOP_CLOSE
}

/// `n` cells that hold zero.
pub open spec fn zeros(n: nat) -> Seq<u8> {
    Seq::new(n, |i: int| 0u8)
}

/// What an input that has `left` to yield answers when it is asked for its
/// next byte.
pub open spec fn next_of(left: Seq<u8>) -> Option<u8> {
    if left.len() > 0 {
        Some(left[0])
    } else {
        None
    }
}

/// What an input that had `left` to yield has left after it was asked once.
pub open spec fn rest_of(left: Seq<u8>) -> Seq<u8> {
    if left.len() > 0 {
        left.drop_first()
    } else {
        left
    }
}

/// Scans forward from `pc` for the `]` that closes `depth` open brackets.
/// Returns the position after the scan and the depth still open there: depth
/// 0 just past the matching `]`, or a positive depth at the end of the
/// program. Only the two brackets count; every other byte is passed over.
pub open spec fn scan(program: Seq<u8>, pc: nat, depth: nat) -> (nat, nat)
    decreases program.len() - pc,
{
    if depth == 0 || pc >= program.len() {
        (pc, depth)
    } else if program[pc as int] == LOOP_OPEN {
        scan(program, pc + 1, depth + 1)
    } else if program[pc as int] == LOOP_CLOSE {
        scan(program, pc + 1, (depth - 1) as nat)
    } else {
        scan(program, pc + 1, depth)
    }
}

/// What a step asks of the world outside the machine.
#[derive(Debug, Clone, Copy, PartialEq, Eq)]
pub enum Request {
    /// The step neither reads nor writes.
    Nothing,
    /// The step executes `,`: it stores the next byte of the input.
    Input,
    /// The step executes `.`: it hands this byte, the value of the current
    /// cell, to the output sink.
    Output(u8),
}

/// What the world outside the machine contributes to one step. A step looks
/// at `pulled` only when it executes `,` and at `accepted` only when it
/// executes `.`.
#[derive(Debug, Clone, Copy, PartialEq, Eq)]
pub struct Outside {
    /// What the input source yielded: `None` when it is exhausted.
    pub pulled: Option<u8>,
    /// Whether the output sink took the byte.
    pub accepted: bool,
}

/// Whether the sink took every byte that the steps handed to it.
pub open spec fn all_accepted(outside: Seq<Outside>) -> bool {
    forall|k: int| 0 <= k < outside.len() ==> (#[trigger] outside[k]).accepted
}

/// The state of the interpreter.
pub struct State {
    /// The instructions buffered so far.
    pub program: Seq<u8>,
    /// Index of the next instruction.
    pub pc: nat,
    /// Index of the current cell.
    pub ptr: nat,
    /// The cells of the tape.
    pub tape: Seq<u8>,
    /// Positions of the `[` of the loops that were entered and not yet left,
    /// outermost first.
    pub loops: Seq<nat>,
    /// Depth of a loop skip that ran into the end of the program.
    pub pending: Option<nat>,
    /// Every byte that was emitted, oldest first: the value of the current
    /// cell at each `.` whose byte the sink accepted.
    pub emitted: Seq<u8>,
    /// Whether nothing has moved to the heap yet: the tape has not grown, no
    /// more loops were ever open at once than are stored inline, and the
    /// program is still borrowed.
    pub inline: bool,
}

/// A state together with the result that a step or a run reports.
pub struct Outcome {
    pub state: State,
    pub result: Result<(), Error>,
}

impl State {
    /// The state in which an interpreter starts on `program`, which it
    /// borrows or owns.
    pub open spec fn initial(program: Seq<u8>, borrowed: bool) -> State {
        State {
            program,
            pc: 0,
            ptr: 0,
            tape: zeros(DEFAULT_MEM_SIZE as nat),
            loops: Seq::empty(),
            pending: None,
            emitted: Seq::empty(),
            inline: borrowed,
        }
    }

    /// What every reachable state satisfies: the counter is in range, the
    /// pointer is the index of a cell, the open loops lie before the
    /// counter, outermost first, a pending skip has a depth of at least one,
    /// and a state that is still inline has the tape it started with and no
    /// more open loops than are stored inline.
    pub open spec fn wf(self) -> bool {
        &&& self.pc <= self.program.len()
        &&& self.ptr < self.tape.len()
        &&& self.inline ==> self.tape.len() == DEFAULT_MEM_SIZE && self.loops.len()
            <= DEFAULT_LOOP_STACK_SIZE
        &&& forall|i: int| 0 <= i < self.loops.len() ==> #[trigger] self.loops[i] < self.pc
        &&& forall|i: int, j: int|
            0 <= i < j < self.loops.len() ==> #[trigger] self.loops[i] < #[trigger] self.loops[j]
        &&& self.pending matches Some(depth) ==> 1 <= depth <= self.pc
    }

    /// The value of the current cell.
    pub open spec fn cell(self) -> u8 {
        self.tape[self.ptr as int]
    }

    /// Whether the pointer stands on the last cell of the tape.
    pub open spec fn at_last_cell(self) -> bool {
        self.ptr + 1 == self.tape.len()
    }

    /// The same state with the program in a buffer of its own.
    pub open spec fn owned(self) -> State {
        State { inline: false, ..self }
    }

    /// The same state on a program that goes on with `more`.
    pub open spec fn with_more(self, more: Seq<u8>) -> State {
        State { program: self.program + more, ..self }
    }

    /// The same state with `more` appended to the program, which is in a
    /// buffer of its own from then on.
    pub open spec fn appended(self, more: Seq<u8>) -> State {
        State { program: self.program + more, inline: false, ..self }
    }

    /// Skips forward for the end of a loop of which `depth` brackets are
    /// open. The skip either ends just past the matching `]`, or stops at
    /// the end of the program and leaves the depth it reached as pending.
    pub open spec fn skip(self, depth: nat) -> Outcome {
        let (pc, left) = scan(self.program, self.pc, depth);
        if left == 0 {
            Outcome { state: State { pc, pending: None, ..self }, result: Ok(()) }
        } else {
            Outcome {
                state: State { pc, pending: Some(left), ..self },
                result: Err(Error::OpenLoopsRemain),
            }
        }
    }

    /// Executes the instruction `ins`, which stands at the program counter.
    pub open spec fn execute(self, ins: u8, outside: Outside) -> Outcome {
        let next = State { pc: self.pc + 1, ..self };
        if ins == MOVE_RIGHT {
            if self.at_last_cell() {
                Outcome {
                    state: State {
                        ptr: self.ptr + 1,
                        tape: self.tape + zeros(TAPE_CHUNK as nat),
                        inline: false,
                        ..next
                    },
                    result: Ok(()),
                }
            } else {
                Outcome { state: State { ptr: self.ptr + 1, ..next }, result: Ok(()) }
            }
        } else if ins == MOVE_LEFT {
            let ptr = if self.ptr == 0 {
                (self.tape.len() - 1) as nat
            } else {
                (self.ptr - 1) as nat
            };
            Outcome { state: State { ptr, ..next }, result: Ok(()) }
        } else if ins == INCREMENT {
            let value = ((self.cell() + 1) % 256) as u8;
            Outcome {
                state: State { tape: self.tape.update(self.ptr as int, value), ..next },
                result: Ok(()),
            }
        } else if ins == DECREMENT {
            let value = ((self.cell() + 255) % 256) as u8;
            Outcome {
                state: State { tape: self.tape.update(self.ptr as int, value), ..next },
                result: Ok(()),
            }
        } else if ins == OUTPUT {
            if outside.accepted {
                Outcome {
                    state: State { emitted: self.emitted.push(self.cell()), ..next },
                    result: Ok(()),
                }
            } else {
                Outcome { state: self, result: Err(Error::Output) }
            }
        } else if ins == INPUT {
            let value = match outside.pulled {
                Some(byte) => byte,
                None => 0u8,
            };
            Outcome {
                state: State { tape: self.tape.update(self.ptr as int, value), ..next },
                result: Ok(()),
            }
        } else if ins == LOOP_OPEN {
            if self.cell() == 0 {
                next.skip(1)
            } else {
                Outcome {
                    state: State {
                        inline: self.inline && self.loops.len() < DEFAULT_LOOP_STACK_SIZE,
                        loops: self.loops.push(self.pc),
                        ..next
                    },
                    result: Ok(()),
                }
            }
        } else if ins == LOOP_CLOSE {
            if self.loops.len() == 0 {
                Outcome { state: next, result: Err(Error::MissingOpenLoop) }
            } else {
                let pc = if self.cell() != 0 {
                    self.loops.last()
                } else {
                    next.pc
                };
                Outcome {
                    state: State { pc, loops: self.loops.drop_last(), ..next },
                    result: Ok(()),
                }
            }
        } else if is_space(ins) {
            Outcome { state: next, result: Ok(()) }
        } else {
            Outcome { state: next, result: Err(Error::UnexpectedByte(ins)) }
        }
    }

    /// What the next step asks of the outside: input, if it executes `,`;
    /// to take the value of the current cell, if it executes `.`; and else
    /// nothing.
    pub open spec fn request(self) -> Request {
        if self.pending is Some || self.pc >= self.program.len() {
            Request::Nothing
        } else if self.program[self.pc as int] == INPUT {
            Request::Input
        } else if self.program[self.pc as int] == OUTPUT {
            Request::Output(self.cell())
        } else {
            Request::Nothing
        }
    }

    /// One step of the interpreter.
    ///
    /// A pending skip is resumed first. Otherwise, at the end of the program
    /// nothing happens, and the step succeeds exactly if no loop is open.
    /// Otherwise the instruction at the program counter is executed.
    pub open spec fn step(self, outside: Outside) -> Outcome {
        match self.pending {
            Some(depth) => State { pending: None, ..self }.skip(depth),
            None => if self.pc >= self.program.len() {
                Outcome {
                    state: self,
                    result: if self.loops.len() == 0 {
                        Ok(())
                    } else {
                        Err(Error::OpenLoopsRemain)
                    },
                }
            } else {
                self.execute(self.program[self.pc as int], outside)
            },
        }
    }

    /// What a run reports on a state in which it stops without an error from
    /// a step: that it ran out of steps, if instructions are left; else
    /// success, unless a loop is still open or a skip is pending.
    pub open spec fn settle(self) -> Result<(), Error> {
        if self.pc < self.program.len() {
            Err(Error::StepLimit)
        } else if self.pending is None && self.loops.len() == 0 {
            Ok(())
        } else {
            Err(Error::OpenLoopsRemain)
        }
    }

    /// The number of steps that a run makes: one for each element of
    /// `outside`, until the program counter is at the end of the program or
    /// a step fails.
    pub open spec fn steps(self, outside: Seq<Outside>) -> nat
        decreases outside.len(),
    {
        if outside.len() == 0 || self.pc >= self.program.len() {
            0
        } else {
            let first = self.step(outside[0]);
            if first.result is Err {
                1
            } else {
                1 + first.state.steps(outside.drop_first())
            }
        }
    }

    /// Whether the run that `outside` describes pulls its input from a
    /// source that has `input` left to yield: at each `,` the byte pulled is
    /// the next of what is left then, or none when nothing is left.
    pub open spec fn fed(self, outside: Seq<Outside>, input: Seq<u8>) -> bool
        decreases outside.len(),
    {
        if outside.len() == 0 || self.pc >= self.program.len() {
            true
        } else {
            let first = self.step(outside[0]);
            if self.request() == Request::Input {
                outside[0].pulled == next_of(input) && (first.result is Ok ==> first.state.fed(
                    outside.drop_first(),
                    rest_of(input),
                ))
            } else {
                first.result is Ok ==> first.state.fed(outside.drop_first(), input)
            }
        }
    }

    /// What a source that had `input` left to yield has left after the run
    /// that `outside` describes: it was asked once at each `,`.
    pub open spec fn unread(self, outside: Seq<Outside>, input: Seq<u8>) -> Seq<u8>
        decreases outside.len(),
    {
        if outside.len() == 0 || self.pc >= self.program.len() {
            input
        } else {
            let first = self.step(outside[0]);
            let left = if self.request() == Request::Input {
                rest_of(input)
            } else {
                input
            };
            if first.result is Err {
                left
            } else {
                first.state.unread(outside.drop_first(), left)
            }
        }
    }

    /// A run: one step for each element of `outside`, in order, until the
    /// program counter is at the end of the program or a step fails.
    pub open spec fn run(self, outside: Seq<Outside>) -> Outcome
        decreases outside.len(),
    {
        if outside.len() == 0 || self.pc >= self.program.len() {
            Outcome { state: self, result: self.settle() }
        } else {
            let first = self.step(outside[0]);
            if first.result is Err {
                first
            } else {
                first.state.run(outside.drop_first())
            }
        }
    }
}

} // verus!
