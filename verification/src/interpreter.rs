//! The executable engine: an [`Interpreter`] owns the tape, the program and
//! the open loops, pulls its input from an iterator and hands its output to a
//! [`Writer`].

use crate::error::Error;
use crate::laws::{run_goes_on, step_asks_what_it_requests, step_keeps_program_and_output};
use crate::machine::{
    all_accepted, is_space, next_of, rest_of, scan, zeros, Outcome, Outside, Request, State,
    DECREMENT, DEFAULT_LOOP_STACK_SIZE, DEFAULT_MEM_SIZE, DEFAULT_PROGRAM_SIZE, INCREMENT, INPUT, LOOP_CLOSE, LOOP_OPEN,
    MOVE_LEFT, MOVE_RIGHT, OUTPUT, TAPE_CHUNK,
};
use crate::storage::{
    loop_starts, loops_inline, loops_len, loops_lives_on_stack, loops_new, loops_pop, loops_push,
    program_as_slice, program_borrow, program_borrowed, program_bytes, program_extend,
    program_extend_from_slice, program_into_owned, program_is_borrowed, program_push, tape_as_slice,
    tape_cells, tape_extend, tape_inline, tape_lives_on_stack, tape_new, tape_resize, tape_set,
    LoopStack, Tape,
};
use crate::writer::Writer;
use core::iter::Empty;
use tiny_vec::Cow;
use vstd::prelude::*;
use vstd::std_specs::iter::IteratorSpec;

verus! {

/// `core::iter::Empty`: the iterator that yields nothing.
#[verifier::external_type_specification]
#[verifier::external_body]
#[verifier::reject_recursive_types(T)]
pub struct ExEmpty<T>(Empty<T>);

/// `core::iter::empty`: an iterator that yields nothing, and so keeps to
/// vstd's laws of iterators with nothing left to yield.
pub assume_specification<T>[ core::iter::empty::<T> ]() -> (source: Empty<T>)
    ensures
        source.obeys_prophetic_iter_laws(),
        source.remaining() == Seq::<T>::empty(),
;

/// The positions on a loop stack as numbers.
spec fn positions(starts: Seq<usize>) -> Seq<nat> {
    starts.map_values(|start: usize| start as nat)
}

/// Whether `byte` is ASCII whitespace.
fn is_whitespace(byte: u8) -> (r: bool)
    ensures
        r == is_space(byte),
{
    byte == 0x20 || byte == 0x09 || byte == 0x0a || byte == 0x0c || byte == 0x0d
}

/// Interpreter for a brainfuck program.
///
/// Its view is the [`State`] of the machine that it implements.
pub struct Interpreter<'prog, In, Out> where In: Iterator<Item = u8>, Out: Writer {
    memory: Tape,
    /// Index of the currently selected memory cell.
    ptr: usize,
    /// Index of the next instruction to execute.
    pc: usize,
    program: Cow<'prog, u8, DEFAULT_PROGRAM_SIZE>,
    input: In,
    output: Out,
    /// Currently open loops.
    open_loops: LoopStack,
    pending_skip: Option<usize>,
    /// The bytes that were emitted.
    emitted: Ghost<Seq<u8>>,
}

impl<'prog, In, Out> View for Interpreter<'prog, In, Out> where
    In: Iterator<Item = u8>,
    Out: Writer,
 {
    type V = State;

    closed spec fn view(&self) -> State {
        State {
            program: program_bytes(self.program),
            pc: self.pc as nat,
            ptr: self.ptr as nat,
            tape: tape_cells(self.memory),
            loops: positions(loop_starts(self.open_loops)),
            pending: match self.pending_skip {
                Some(depth) => Some(depth as nat),
                None => None,
            },
            emitted: self.emitted@,
            inline: tape_inline(self.memory) && loops_inline(self.open_loops) && program_borrowed(
                self.program,
            ),
        }
    }
}

impl<'prog, In, Out> Interpreter<'prog, In, Out> where In: Iterator<Item = u8>, Out: Writer {
    /// What holds of every interpreter that this crate hands out: its state
    /// is well formed, and the length of its tape fits a `usize`.
    pub closed spec fn wf(&self) -> bool {
        &&& self@.wf()
        &&& tape_cells(self.memory).len() <= usize::MAX
    }

    /// A well-formed interpreter has a well-formed state.
    pub proof fn wf_implies_state_wf(&self)
        requires
            self.wf(),
        ensures
            self@.wf(),
    {
    }

    /// The input source.
    pub closed spec fn source(&self) -> In {
        self.input
    }

    /// What the output sink holds, for a sink that keeps its bytes.
    pub closed spec fn sink(&self) -> Option<Seq<u8>> {
        self.output.held()
    }

    /// Whether the output sink takes every byte.
    pub closed spec fn sink_takes_all(&self) -> bool {
        self.output.takes_all()
    }

    /// Whether the output sink has gone along with what was emitted since
    /// `before`: a sink that keeps its bytes holds what it held then, and
    /// after it what was emitted since; a sink that took every byte then
    /// still does.
    pub open spec fn sink_follows(&self, before: &Interpreter<'_, In, Out>) -> bool {
        &&& before.sink() matches Some(held) ==> self.sink() == Some(
            held + self@.emitted.skip(before@.emitted.len() as int),
        )
        &&& before.sink_takes_all() ==> self.sink_takes_all()
    }

    /// A sink that has gone along from `start` to `mid` and from `mid` to
    /// here has gone along from `start` to here.
    proof fn sink_follows_on(&self, mid: &Interpreter<'_, In, Out>, start: &Interpreter<'_, In, Out>)
        requires
            mid.sink_follows(start),
            self.sink_follows(mid),
            start@.emitted.is_prefix_of(mid@.emitted),
            mid@.emitted.is_prefix_of(self@.emitted),
        ensures
            self.sink_follows(start),
    {
        let earlier = mid@.emitted.skip(start@.emitted.len() as int);
        let later = self@.emitted.skip(mid@.emitted.len() as int);
        assert(earlier + later =~= self@.emitted.skip(start@.emitted.len() as int));
        if let Some(held) = start.sink() {
            assert((held + earlier) + later =~= held + (earlier + later));
        }
    }

    /// A sink that held just what had been emitted, and has gone along
    /// since, holds just what has been emitted. This is so from the start
    /// for a sink that starts empty.
    pub proof fn sink_holds_what_was_emitted(&self, before: &Interpreter<'_, In, Out>)
        requires
            before.sink() == Some(before@.emitted),
            self.sink_follows(before),
            before@.emitted.is_prefix_of(self@.emitted),
        ensures
            self.sink() == Some(self@.emitted),
    {
        assert(before@.emitted + self@.emitted.skip(before@.emitted.len() as int)
            =~= self@.emitted);
    }

    /// Whether the input source and the output sink are as they are in
    /// `before`: neither was touched.
    pub open spec fn outside_as_in(&self, before: &Interpreter<'_, In, Out>) -> bool {
        &&& self.source() == before.source()
        &&& self.sink() == before.sink()
        &&& self.sink_takes_all() == before.sink_takes_all()
    }

    /// Builds a new interpreter for the given `program`, which it borrows.
    pub fn new(program: &'prog [u8], input: In, output: Out) -> (r: Self)
        ensures
            r@ == State::initial(program@, true),
            r.wf(),
            r.source() == input,
            r.sink() == output.held(),
            r.sink_takes_all() == output.takes_all(),
    {
        Interpreter::with_custom_stack(program_borrow(program), input, output)
    }

    /// Builds a new interpreter around a program buffer, which may be
    /// borrowed or owned. The inline sizes are fixed: [`DEFAULT_MEM_SIZE`]
    /// cells, [`DEFAULT_LOOP_STACK_SIZE`](crate::DEFAULT_LOOP_STACK_SIZE) open
    /// loops, and [`DEFAULT_PROGRAM_SIZE`] bytes of an owned program.
    pub fn with_custom_stack(
        program: Cow<'prog, u8, DEFAULT_PROGRAM_SIZE>,
        input: In,
        output: Out,
    ) -> (r: Self)
        ensures
            r@ == State::initial(program_bytes(program), program_borrowed(program)),
            r.wf(),
            r.source() == input,
            r.sink() == output.held(),
            r.sink_takes_all() == output.takes_all(),
    {
        let mut memory = tape_new();
        tape_resize(&mut memory, DEFAULT_MEM_SIZE, 0);
        let open_loops = loops_new();
        assert(tape_cells(memory) =~= zeros(DEFAULT_MEM_SIZE as nat));
        assert(positions(loop_starts(open_loops)) =~= Seq::<nat>::empty());
        Interpreter {
            pc: 0,
            memory,
            program,
            input,
            output,
            ptr: 0,
            open_loops,
            pending_skip: None,
            emitted: Ghost(Seq::empty()),
        }
    }

    /// Turns a borrowed program into an owned one, so that the interpreter
    /// no longer borrows from anyone. The machine is where it was.
    pub fn into_owned(self) -> (r: Interpreter<'static, In, Out>)
        requires
            self.wf(),
        ensures
            r@ == self@.owned(),
            r.wf(),
            r.outside_as_in(&self),
    {
        let Interpreter {
            memory,
            ptr,
            pc,
            program,
            input,
            output,
            open_loops,
            pending_skip,
            emitted,
        } = self;
        Interpreter {
            memory,
            program: program_into_owned(program),
            ptr,
            pc,
            input,
            output,
            open_loops,
            pending_skip,
            emitted,
        }
    }

    /// Pushes an instruction to the program. The machine is otherwise
    /// untouched: what was executed stays executed.
    pub fn push_instruction(&mut self, ins: u8)
        requires
            old(self).wf(),
        ensures
            final(self)@ == old(self)@.appended(seq![ins]),
            final(self).wf(),
            final(self).outside_as_in(old(self)),
    {
        program_push(&mut self.program, ins);
        assert(program_bytes(self.program) =~= old(self)@.program + seq![ins]);
    }

    /// Pushes the given instruction slice into the program. The machine is
    /// otherwise untouched.
    pub fn push_instruction_slice(&mut self, ins: &[u8])
        requires
            old(self).wf(),
        ensures
            final(self)@ == old(self)@.appended(ins@),
            final(self).wf(),
            final(self).outside_as_in(old(self)),
    {
        program_extend_from_slice(&mut self.program, ins);
    }

    /// Pushes all the elements yielded from `iterator` into the program. The
    /// machine is otherwise untouched.
    pub fn push_instructions_iter<I>(&mut self, iterator: I) where I: Iterator<Item = u8>
        requires
            old(self).wf(),
        ensures
            old(self)@.program.is_prefix_of(final(self)@.program),
            final(self)@ == old(self)@.appended(
                final(self)@.program.skip(old(self)@.program.len() as int),
            ),
            iterator.obeys_prophetic_iter_laws() ==> final(self)@ == old(self)@.appended(
                iterator.remaining(),
            ),
            final(self).wf(),
            final(self).outside_as_in(old(self)),
    {
        program_extend(&mut self.program, iterator);
        assert(program_bytes(self.program) =~= old(self)@.program + program_bytes(
            self.program,
        ).skip(old(self)@.program.len() as int));
    }

    /// Skips a loop that was opened when the current cell was 0, from the
    /// depth at which an earlier skip ran into the end of the program, or
    /// from depth 1.
    fn skip_loop(&mut self) -> (r: Result<(), Error>)
        requires
            old(self).wf(),
            old(self)@.pending is None ==> old(self)@.pc >= 1,
        ensures
            (Outcome { state: final(self)@, result: r }) == (State {
                pending: None,
                ..old(self)@
            }).skip(
                match old(self)@.pending {
                    Some(depth) => depth,
                    None => 1,
                },
            ),
            final(self).wf(),
            final(self).outside_as_in(old(self)),
    {
        let program = program_as_slice(&self.program);
        let len = program.len();
        let mut nest: usize = match self.pending_skip {
            Some(depth) => depth,
            None => 1,
        };
        let mut pc = self.pc;
        let ghost from = (pc as nat, nest as nat);
        while nest != 0 && pc < len
            invariant
                len == program@.len(),
                pc <= len,
                nest <= pc,
                old(self)@.pc <= pc,
                scan(program@, pc as nat, nest as nat) == scan(program@, from.0, from.1),
            decreases len - pc,
        {
            let ins = program[pc];
            if ins == LOOP_OPEN {
                nest += 1;
            }
            if ins == LOOP_CLOSE {
                nest -= 1;
            }
            pc += 1;
        }
        self.pc = pc;
        if nest == 0 {
            self.pending_skip = None;
            Ok(())
        } else {
            self.pending_skip = Some(nest);
            Err(Error::OpenLoopsRemain)
        }
    }

    /// Tells what the next step asks of the outside, without making it.
    pub fn request(&self) -> (asked: Request)
        requires
            self.wf(),
        ensures
            asked == self@.request(),
    {
        let program = program_as_slice(&self.program);
        if self.pending_skip.is_some() || self.pc >= program.len() {
            return Request::Nothing;
        }
        let ins = program[self.pc];
        if ins == INPUT {
            Request::Input
        } else if ins == OUTPUT {
            Request::Output(tape_as_slice(&self.memory)[self.ptr])
        } else {
            Request::Nothing
        }
    }

    /// Makes the next step of the machine, given what the outside answered
    /// to its request. Neither the input nor the output sink is touched.
    ///
    /// This is [`State::step`], for every state and every answer.
    pub fn apply(&mut self, outside: Outside) -> (r: Result<(), Error>)
        requires
            old(self).wf(),
        ensures
            old(self)@.step(outside) == (Outcome { state: final(self)@, result: r }),
            final(self).wf(),
            final(self).outside_as_in(old(self)),
    {
        /* If a skip was cut short because the program had no more
         * instructions, resume it. */
        if self.pending_skip.is_some() {
            return self.skip_loop();
        }
        let program = program_as_slice(&self.program);
        if self.pc >= program.len() {
            return if loops_len(&self.open_loops) == 0 {
                Ok(())
            } else {
                Err(Error::OpenLoopsRemain)
            };
        }
        let ins = program[self.pc];
        self.pc += 1;
        if ins == MOVE_RIGHT {
            if self.ptr + 1 == tape_as_slice(&self.memory).len() {
                let chunk = [0u8;TAPE_CHUNK];
                tape_extend(&mut self.memory, chunk.as_slice());
                assert(chunk@ =~= zeros(TAPE_CHUNK as nat));
            }
            self.ptr += 1;
        } else if ins == MOVE_LEFT {
            if self.ptr == 0 {
                self.ptr = tape_as_slice(&self.memory).len() - 1;
            } else {
                self.ptr -= 1;
            }
        } else if ins == INCREMENT {
            let value = tape_as_slice(&self.memory)[self.ptr];
            tape_set(&mut self.memory, self.ptr, value.wrapping_add(1));
        } else if ins == DECREMENT {
            let value = tape_as_slice(&self.memory)[self.ptr];
            tape_set(&mut self.memory, self.ptr, value.wrapping_sub(1));
        } else if ins == OUTPUT {
            if outside.accepted {
                let ghost value = tape_cells(self.memory)[self.ptr as int];
                self.emitted = Ghost(self.emitted@.push(value));
            } else {
                self.pc -= 1;
                return Err(Error::Output);
            }
        } else if ins == INPUT {
            let value = match outside.pulled {
                Some(byte) => byte,
                None => 0,
            };
            tape_set(&mut self.memory, self.ptr, value);
        } else if ins == LOOP_OPEN {
            if tape_as_slice(&self.memory)[self.ptr] == 0 {
                return self.skip_loop();
            } else {
                loops_push(&mut self.open_loops, self.pc - 1);
                assert(self@.loops =~= old(self)@.loops.push(old(self)@.pc));
            }
        } else if ins == LOOP_CLOSE {
            match loops_pop(&mut self.open_loops) {
                None => {
                    return Err(Error::MissingOpenLoop);
                },
                Some(start) => {
                    assert(self@.loops =~= old(self)@.loops.drop_last());
                    assert(start as nat == old(self)@.loops.last());
                            if tape_as_slice(&self.memory)[self.ptr] != 0 {
                        self.pc = start;
                    }
                },
            }
        } else if is_whitespace(ins) {
        } else {
            return Err(Error::UnexpectedByte(ins));
        }
        Ok(())
    }

    /// Makes the next step and tells what the outside answered to it.
    fn answered_step(&mut self) -> (done: (Outside, Result<(), Error>))
        requires
            old(self).wf(),
        ensures
            old(self)@.step(done.0) == (Outcome { state: final(self)@, result: done.1 }),
            old(self)@.request() == Request::Input && old(self).source().obeys_prophetic_iter_laws()
                ==> done.0.pulled == next_of(old(self).source().remaining())
                && final(self).source().remaining() == rest_of(old(self).source().remaining()),
            old(self)@.request() != Request::Input ==> final(self).source() == old(self).source(),
            final(self).source().obeys_prophetic_iter_laws()
                == old(self).source().obeys_prophetic_iter_laws(),
            final(self).wf(),
            final(self).sink_follows(old(self)),
            old(self).sink_takes_all() ==> done.0.accepted,
    {
        let outside = match self.request() {
            Request::Nothing => Outside { pulled: None, accepted: true },
            Request::Input => Outside { pulled: self.input.next(), accepted: true },
            Request::Output(byte) => Outside {
                pulled: None,
                accepted: self.output.push_byte(byte).is_ok(),
            },
        };
        let r = self.apply(outside);
        proof {
            step_asks_what_it_requests(old(self)@, outside);
            if old(self)@.request() is Output && outside.accepted {
                assert(self@.emitted.skip(old(self)@.emitted.len() as int) =~= seq![
                    old(self)@.cell(),
                ]);
            } else {
                assert(self@.emitted.skip(old(self)@.emitted.len() as int) =~= Seq::<u8>::empty());
            }
            assert(old(self).sink() matches Some(held) ==> self.sink() == Some(
                held + self@.emitted.skip(old(self)@.emitted.len() as int),
            ));
        }
        (outside, r)
    }

    /// Executes the next instruction.
    ///
    /// The step asks the outside what [`Interpreter::request`] says: it
    /// pulls a byte from the input for `,` and hands the current cell to the
    /// sink for `.`. It then is the step that [`State::step`] describes for
    /// the answer. A step that asks nothing is the same for every answer. An
    /// input that keeps to vstd's laws of iterators answers with the next
    /// byte that it has left, and has the rest left after that. A sink that
    /// keeps its bytes holds what it held, and after it the byte that this
    /// step emitted, if any.
    pub fn step(&mut self) -> (r: Result<(), Error>)
        requires
            old(self).wf(),
        ensures
            exists|outside: Outside| #[trigger]
                old(self)@.step(outside) == (Outcome { state: final(self)@, result: r }),
            old(self)@.request() == Request::Nothing ==> forall|outside: Outside| #[trigger]
                old(self)@.step(outside) == (Outcome { state: final(self)@, result: r }),
            old(self)@.request() == Request::Input && old(self).source().obeys_prophetic_iter_laws()
                ==> old(self)@.step(
                Outside { pulled: next_of(old(self).source().remaining()), accepted: true },
            ) == (Outcome { state: final(self)@, result: r }) && final(self).source().remaining()
                == rest_of(old(self).source().remaining()),
            old(self)@.request() != Request::Input ==> final(self).source() == old(self).source(),
            final(self).source().obeys_prophetic_iter_laws()
                == old(self).source().obeys_prophetic_iter_laws(),
            final(self).wf(),
            final(self).sink_follows(old(self)),
            old(self).sink_takes_all() ==> r != Err::<(), Error>(Error::Output),
    {
        let (outside, r) = self.answered_step();
        proof {
            step_asks_what_it_requests(old(self)@, outside);
        }
        r
    }

    /// Executes the program until the end is reached.
    ///
    /// This is [`Interpreter::run_steps`] with the largest allowance there
    /// is, `u64::MAX` steps.
    pub fn run(&mut self) -> (r: Result<(), Error>)
        requires
            old(self).wf(),
        ensures
            exists|outside: Seq<Outside>|
                {
                    &&& outside.len() <= u64::MAX
                    &&& old(self)@.steps(outside) == outside.len()
                    &&& #[trigger] old(self)@.run(outside) == (Outcome {
                        state: final(self)@,
                        result: r,
                    })
                    &&& r == Err::<(), Error>(Error::StepLimit) ==> outside.len() == u64::MAX
                    &&& old(self).source().obeys_prophetic_iter_laws() ==> old(self)@.fed(
                        outside,
                        old(self).source().remaining(),
                    ) && final(self).source().remaining() == old(self)@.unread(
                        outside,
                        old(self).source().remaining(),
                    )
                    &&& old(self).sink_takes_all() ==> all_accepted(outside)
                },
            final(self).source().obeys_prophetic_iter_laws()
                == old(self).source().obeys_prophetic_iter_laws(),
            final(self).wf(),
            final(self).sink_follows(old(self)),
    {
        self.run_steps(u64::MAX)
    }

    /// Executes the program until the end is reached, a step fails, or
    /// `max_steps` steps were made.
    ///
    /// The run is the one that [`State::run`] describes, for what the input
    /// yielded and what the sink answered at each of the steps that it
    /// made. It reports [`Error::StepLimit`] only after `max_steps` steps.
    /// An input that keeps to vstd's laws of iterators is pulled from as
    /// [`State::fed`] describes, and has left what [`State::unread`] says.
    /// A sink that keeps its bytes holds what it held, and after it what
    /// this run emitted; one that takes every byte has accepted at every
    /// step.
    pub fn run_steps(&mut self, max_steps: u64) -> (r: Result<(), Error>)
        requires
            old(self).wf(),
        ensures
            exists|outside: Seq<Outside>|
                {
                    &&& outside.len() <= max_steps
                    &&& old(self)@.steps(outside) == outside.len()
                    &&& #[trigger] old(self)@.run(outside) == (Outcome {
                        state: final(self)@,
                        result: r,
                    })
                    &&& r == Err::<(), Error>(Error::StepLimit) ==> outside.len() == max_steps
                    &&& old(self).source().obeys_prophetic_iter_laws() ==> old(self)@.fed(
                        outside,
                        old(self).source().remaining(),
                    ) && final(self).source().remaining() == old(self)@.unread(
                        outside,
                        old(self).source().remaining(),
                    )
                    &&& old(self).sink_takes_all() ==> all_accepted(outside)
                },
            final(self).source().obeys_prophetic_iter_laws()
                == old(self).source().obeys_prophetic_iter_laws(),
            final(self).wf(),
            final(self).sink_follows(old(self)),
    {
        let ghost mut trace: Seq<Outside> = Seq::empty();
        let mut left = max_steps;
        assert(self@.emitted.skip(old(self)@.emitted.len() as int) =~= Seq::<u8>::empty());
        while self.pc < program_as_slice(&self.program).len()
            invariant
                self.wf(),
                trace.len() + left == max_steps,
                old(self)@.steps(trace) == trace.len(),
                old(self)@.run(trace) == (Outcome { state: self@, result: self@.settle() }),
                old(self)@.emitted.is_prefix_of(self@.emitted),
                self.sink_follows(old(self)),
                old(self).sink_takes_all() ==> all_accepted(trace),
                self.source().obeys_prophetic_iter_laws()
                    == old(self).source().obeys_prophetic_iter_laws(),
                old(self).source().obeys_prophetic_iter_laws() ==> old(self)@.fed(
                    trace,
                    old(self).source().remaining(),
                ) && self.source().remaining() == old(self)@.unread(
                    trace,
                    old(self).source().remaining(),
                ),
            decreases left,
        {
            if left == 0 {
                return Err(Error::StepLimit);
            }
            left -= 1;
            let ghost before = *self;
            let (outside, r) = self.answered_step();
            proof {
                step_keeps_program_and_output(before@, outside);
                run_goes_on(old(self)@, trace, outside, old(self).source().remaining());
                trace = trace.push(outside);
                self.sink_follows_on(&before, &*old(self));
            }
            if r.is_err() {
                return r;
            }
        }
        if self.pending_skip.is_some() || loops_len(&self.open_loops) != 0 {
            Err(Error::OpenLoopsRemain)
        } else {
            Ok(())
        }
    }

    /// Gets the current state of the program's memory.
    pub fn get_memory(&self) -> (cells: &[u8])
        ensures
            cells@ == self@.tape,
    {
        tape_as_slice(&self.memory)
    }

    /// Returns true if this interpreter has not moved anything to the heap:
    /// the tape and the stack of open loops are in their inline storage and
    /// the program is still borrowed. The tape then has the cells it started
    /// with, and no more loops are open than are stored inline.
    pub fn lives_on_stack(&self) -> (r: bool)
        requires
            self.wf(),
        ensures
            r == self@.inline,
            r ==> self@.tape.len() == DEFAULT_MEM_SIZE && self@.loops.len()
                <= DEFAULT_LOOP_STACK_SIZE,
    {
        tape_lives_on_stack(&self.memory) && loops_lives_on_stack(&self.open_loops)
            && program_is_borrowed(&self.program)
    }
}

impl<'prog, In> Interpreter<'prog, In, Vec<u8>> where In: Iterator<Item = u8> {
    /// Creates a new interpreter that collects its output in a `Vec`.
    pub fn vec_output(program: &'prog [u8], input: In) -> (r: Self)
        ensures
            r@ == State::initial(program@, true),
            r.wf(),
            r.source() == input,
            r.sink() == Some(Seq::<u8>::empty()),
            r.sink_takes_all(),
    {
        Interpreter::new(program, input, Vec::new())
    }

    /// Gets the output collected so far.
    pub fn get_output(&self) -> (bytes: &[u8])
        ensures
            self.sink() == Some(bytes@),
    {
        self.output.as_slice()
    }
}

impl<'prog, Out> Interpreter<'prog, Empty<u8>, Out> where Out: Writer {
    /// Creates a new interpreter with an empty input.
    pub fn empty_input(program: &'prog [u8], output: Out) -> (r: Self)
        ensures
            r@ == State::initial(program@, true),
            r.wf(),
            r.source().obeys_prophetic_iter_laws(),
            r.source().remaining() == Seq::<u8>::empty(),
            r.sink() == output.held(),
            r.sink_takes_all() == output.takes_all(),
    {
        Interpreter::new(program, core::iter::empty(), output)
    }
}

impl<'prog> Interpreter<'prog, Empty<u8>, Vec<u8>> {
    /// Creates a new interpreter with an empty input that collects its
    /// output in a `Vec`.
    pub fn vec_output_empty_input(program: &'prog [u8]) -> (r: Self)
        ensures
            r@ == State::initial(program@, true),
            r.wf(),
            r.source().obeys_prophetic_iter_laws(),
            r.source().remaining() == Seq::<u8>::empty(),
            r.sink() == Some(Seq::<u8>::empty()),
            r.sink_takes_all(),
    {
        Interpreter::new(program, core::iter::empty(), Vec::new())
    }
}

} // verus!
