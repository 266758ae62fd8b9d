//! What is proved of single steps and of runs.

use crate::error::Error;
use crate::machine::{
    all_accepted, next_of, rest_of, scan, Outcome, Outside, Request, State, DECREMENT,
    DEFAULT_LOOP_STACK_SIZE, DEFAULT_MEM_SIZE, INCREMENT, INPUT, LOOP_CLOSE, LOOP_OPEN,
    MOVE_RIGHT, OUTPUT, TAPE_CHUNK,
};
use vstd::prelude::*;

verus! {

/// A step leaves the program as it is, and adds at most one byte to what
/// was emitted.
pub proof fn step_keeps_program_and_output(s: State, outside: Outside)
    ensures
        s.step(outside).state.program == s.program,
        s.emitted.is_prefix_of(s.step(outside).state.emitted),
        s.step(outside).state.emitted.len() <= s.emitted.len() + 1,
        s.step(outside).result != Err::<(), Error>(Error::StepLimit),
{
}

/// A scan moves forward only, stays within the program, never counts more
/// open brackets than it has passed bytes, and stops with brackets still
/// open only at the end of the program.
pub proof fn scan_stays_in_range(program: Seq<u8>, pc: nat, depth: nat)
    requires
        pc <= program.len(),
        depth <= pc,
    ensures
        pc <= scan(program, pc, depth).0 <= program.len(),
        scan(program, pc, depth).1 <= scan(program, pc, depth).0,
        scan(program, pc, depth).1 != 0 ==> scan(program, pc, depth).0 == program.len(),
    decreases program.len() - pc,
{
    if depth != 0 && pc < program.len() {
        let next = if program[pc as int] == LOOP_OPEN {
            depth + 1
        } else if program[pc as int] == LOOP_CLOSE {
            (depth - 1) as nat
        } else {
            depth
        };
        scan_stays_in_range(program, pc + 1, next);
    }
}

/// A step takes a well-formed state to a well-formed state.
pub proof fn step_keeps_wf(s: State, outside: Outside)
    requires
        s.wf(),
    ensures
        s.step(outside).state.wf(),
{
    match s.pending {
        Some(depth) => {
            scan_stays_in_range(s.program, s.pc, depth);
        },
        None => {
            if s.pc < s.program.len() {
                scan_stays_in_range(s.program, s.pc + 1, 1);
            }
        },
    }
}

/// A step looks at the outside only for what it requests: a step that asks
/// for nothing is the same whatever the outside, a step that asks for input
/// does not depend on the sink, and a step that asks for output does not
/// depend on the input. Only a step that asks for output emits, and what
/// it emits is the byte that it asked to be taken.
pub proof fn step_asks_what_it_requests(s: State, outside: Outside)
    ensures
        s.request() == Request::Nothing ==> forall|other: Outside| #[trigger]
            s.step(other) == s.step(outside),
        s.request() == Request::Input ==> forall|other: Outside|
            other.pulled == outside.pulled ==> #[trigger] s.step(other) == s.step(outside),
        s.request() is Output ==> forall|other: Outside|
            other.accepted == outside.accepted ==> #[trigger] s.step(other) == s.step(outside),
        s.request() matches Request::Output(byte) ==> s.step(outside).state.emitted == (
        if outside.accepted {
            s.emitted.push(byte)
        } else {
            s.emitted
        }),
        !(s.request() is Output) ==> s.step(outside).state.emitted == s.emitted,
{
}

/// Cell arithmetic is modulo 256 in both directions. `+` turns 255 into 0
/// and any other value into the next; `-` turns 0 into 255 and any other
/// value into the one before. The pointer stays where it is, and no other
/// cell changes.
pub proof fn cell_arithmetic_wraps(s: State, outside: Outside)
    requires
        s.wf(),
        s.pending is None,
        s.pc < s.program.len(),
        s.program[s.pc as int] == INCREMENT || s.program[s.pc as int] == DECREMENT,
    ensures
        s.step(outside).result is Ok,
        s.step(outside).state.ptr == s.ptr,
        s.program[s.pc as int] == INCREMENT ==> s.step(outside).state.cell() == (if s.cell()
            == 255 {
            0
        } else {
            s.cell() + 1
        }),
        s.program[s.pc as int] == DECREMENT ==> s.step(outside).state.cell() == (if s.cell() == 0 {
            255
        } else {
            s.cell() - 1
        }),
        forall|i: int|
            0 <= i < s.tape.len() && i != s.ptr ==> #[trigger] s.step(outside).state.tape[i]
                == s.tape[i],
{
}

/// Moving right from the last cell grows the tape by exactly one chunk in
/// that very step, so that the pointer is the index of a cell again. The
/// cells that were there keep their values, and every new cell holds zero.
pub proof fn advancing_past_the_end_grows_the_tape(s: State, outside: Outside)
    requires
        s.wf(),
        s.pending is None,
        s.pc < s.program.len(),
        s.program[s.pc as int] == MOVE_RIGHT,
        s.ptr + 1 == s.tape.len(),
    ensures
        s.step(outside).result is Ok,
        s.step(outside).state.ptr == s.ptr + 1,
        s.step(outside).state.tape.len() == s.tape.len() + TAPE_CHUNK,
        s.step(outside).state.ptr < s.step(outside).state.tape.len(),
        !s.step(outside).state.inline,
        forall|i: int| 0 <= i < s.tape.len() ==> #[trigger] s.step(outside).state.tape[i] == s.tape[i],
        forall|i: int|
            s.tape.len() <= i < s.tape.len() + TAPE_CHUNK ==> #[trigger] s.step(
                outside,
            ).state.tape[i] == 0,
{
}

/// No step discards a cell, and only one step lengthens the tape: a `>`
/// from the last cell, which adds one chunk of zero cells. Every other step
/// leaves the tape as long as it is. Every cell but the current one keeps
/// its value, and the current one changes only by `+`, `-` and `,`.
pub proof fn step_keeps_the_tape(s: State, outside: Outside)
    requires
        s.wf(),
    ensures
        s.step(outside).state.tape.len() == (if s.pending is None && s.pc < s.program.len()
            && s.program[s.pc as int] == MOVE_RIGHT && s.ptr + 1 == s.tape.len() {
            s.tape.len() + TAPE_CHUNK
        } else {
            s.tape.len() as int
        }),
        forall|i: int|
            0 <= i < s.tape.len() && i != s.ptr ==> #[trigger] s.step(outside).state.tape[i]
                == s.tape[i],
        forall|i: int|
            s.tape.len() <= i < s.step(outside).state.tape.len() ==> #[trigger] s.step(
                outside,
            ).state.tape[i] == 0,
        s.step(outside).state.cell() != s.cell() && s.step(outside).state.ptr == s.ptr ==> s.pc
            < s.program.len() && (s.program[s.pc as int] == INCREMENT || s.program[s.pc as int]
            == DECREMENT || s.program[s.pc as int] == INPUT),
{
}

/// A state that has left its inline storage never comes back to it: not by
/// a step, and not by appending to the program or taking it over, which
/// both leave it. A state that is still inline after a step has the tape it
/// started with and no more open loops than are stored inline.
pub proof fn inline_never_comes_back(s: State, outside: Outside, more: Seq<u8>)
    requires
        s.wf(),
    ensures
        s.step(outside).state.inline ==> s.inline,
        s.step(outside).state.inline ==> s.step(outside).state.tape.len() == DEFAULT_MEM_SIZE
            && s.step(outside).state.loops.len() <= DEFAULT_LOOP_STACK_SIZE,
        !s.appended(more).inline,
        !s.owned().inline,
{
    step_keeps_wf(s, outside);
}

/// `,` on an exhausted input stores zero in the current cell and succeeds.
pub proof fn exhausted_input_reads_zero(s: State, outside: Outside)
    requires
        s.wf(),
        s.pending is None,
        s.pc < s.program.len(),
        s.program[s.pc as int] == INPUT,
        outside.pulled is None,
    ensures
        s.step(outside).result is Ok,
        s.step(outside).state.cell() == 0,
        s.step(outside).state.pc == s.pc + 1,
{
}

/// `,` never fails: it stores the byte that the input yielded.
pub proof fn input_never_fails(s: State, outside: Outside)
    requires
        s.wf(),
        s.pending is None,
        s.pc < s.program.len(),
        s.program[s.pc as int] == INPUT,
    ensures
        s.step(outside).result is Ok,
        outside.pulled matches Some(byte) ==> s.step(outside).state.cell() == byte,
{
}

/// `.` on a sink that refuses the byte reports the output error, leaves the
/// program counter on the `.`, and emits nothing.
pub proof fn refused_output_stays_on_the_instruction(s: State, outside: Outside)
    requires
        s.wf(),
        s.pending is None,
        s.pc < s.program.len(),
        s.program[s.pc as int] == OUTPUT,
        !outside.accepted,
    ensures
        s.step(outside).result == Err::<(), Error>(Error::Output),
        s.step(outside).state.pc == s.pc,
        s.step(outside).state.emitted == s.emitted,
        s.step(outside).state.cell() == s.cell(),
{
}

/// `.` on a sink that takes the byte emits the current cell and moves on.
/// No other instruction emits anything, and only a refusing sink makes a
/// step report the output error.
pub proof fn output_emits_the_current_cell(s: State, outside: Outside)
    requires
        s.wf(),
    ensures
        s.pending is None && s.pc < s.program.len() && s.program[s.pc as int] == OUTPUT
            && outside.accepted ==> s.step(outside).result is Ok && s.step(outside).state.emitted
            == s.emitted.push(s.cell()) && s.step(outside).state.pc == s.pc + 1,
        !(s.pending is None && s.pc < s.program.len() && s.program[s.pc as int] == OUTPUT
            && outside.accepted) ==> s.step(outside).state.emitted == s.emitted,
        s.step(outside).result == Err::<(), Error>(Error::Output) ==> !outside.accepted,
{
}

/// A skip is pending after a step exactly if the step skipped and ran into
/// the end of the program. The step then reports open loops, and the next
/// step asks nothing of the outside: it resumes the skip.
pub proof fn skip_is_pending_only_at_the_end(s: State, outside: Outside)
    requires
        s.wf(),
    ensures
        s.step(outside).state.pending is Some ==> s.step(outside).state.pc == s.program.len()
            && s.step(outside).result == Err::<(), Error>(Error::OpenLoopsRemain) && s.step(
            outside,
        ).state.request() == Request::Nothing,
        s.step(outside).state.pending is Some ==> s.pending is Some || (s.pc < s.program.len()
            && s.program[s.pc as int] == LOOP_OPEN && s.cell() == 0),
        s.step(outside).result is Ok ==> s.step(outside).state.pending is None,
{
    match s.pending {
        Some(depth) => {
            scan_stays_in_range(s.program, s.pc, depth);
        },
        None => {
            if s.pc < s.program.len() {
                scan_stays_in_range(s.program, s.pc + 1, 1);
            }
        },
    }
}

/// The program counter goes back only by the jump from a `]` to the start
/// of the innermost open loop. Every other step leaves it or moves it
/// forward.
pub proof fn counter_goes_back_only_to_an_open_loop(s: State, outside: Outside)
    requires
        s.wf(),
    ensures
        s.step(outside).state.pc >= s.pc || (s.pending is None && s.program[s.pc as int]
            == LOOP_CLOSE && s.loops.len() > 0 && s.step(outside).state.pc == s.loops.last()),
{
    match s.pending {
        Some(depth) => {
            scan_stays_in_range(s.program, s.pc, depth);
        },
        None => {
            if s.pc < s.program.len() {
                scan_stays_in_range(s.program, s.pc + 1, 1);
            }
        },
    }
}

/// Appending to the program leaves what was executed as it is: the bytes
/// that were there, the program counter, the pointer, the tape, the open
/// loops, a pending skip and the output. The state stays well formed.
pub proof fn appending_keeps_what_was_executed(s: State, more: Seq<u8>)
    requires
        s.wf(),
    ensures
        s.appended(more).wf(),
        s.appended(more) == (State { program: s.program + more, inline: false, ..s }),
        s.program.is_prefix_of(s.appended(more).program),
        forall|i: int| 0 <= i < s.pc ==> #[trigger] s.appended(more).program[i] == s.program[i],
{
}

/// A run that stopped only because it had no steps left goes on, given one
/// more step, with that step: it ends there if the step fails, and else
/// stops again. If it had made a step for each element it was given, so has
/// the longer run. The longer run pulls from the same input, and once more
/// if its last step asks for input.
pub proof fn run_goes_on(s: State, outside: Seq<Outside>, next: Outside, input: Seq<u8>)
    requires
        s.run(outside).result == Err::<(), Error>(Error::StepLimit),
    ensures
        s.run(outside.push(next)) == ({
            let last = s.run(outside).state.step(next);
            if last.result is Err {
                last
            } else {
                Outcome { state: last.state, result: last.state.settle() }
            }
        }),
        s.steps(outside) == outside.len() ==> s.steps(outside.push(next)) == outside.len() + 1,
        s.fed(outside.push(next), input) == (s.fed(outside, input) && (s.run(
            outside,
        ).state.request() == Request::Input ==> next.pulled == next_of(s.unread(outside, input)))),
        s.unread(outside.push(next), input) == (if s.run(outside).state.request()
            == Request::Input {
            rest_of(s.unread(outside, input))
        } else {
            s.unread(outside, input)
        }),
    decreases outside.len(),
{
    let longer = outside.push(next);
    step_keeps_program_and_output(s, longer[0]);
    let first = s.step(longer[0]);
    if outside.len() == 0 {
        assert(longer.drop_first() =~= Seq::<Outside>::empty());
        assert(first.state.run(longer.drop_first()) == Outcome {
            state: first.state,
            result: first.state.settle(),
        });
        assert(first.state.steps(longer.drop_first()) == 0);
        assert(first.state.fed(longer.drop_first(), input));
        assert(first.state.fed(longer.drop_first(), rest_of(input)));
        assert(first.state.unread(longer.drop_first(), input) == input);
        assert(first.state.unread(longer.drop_first(), rest_of(input)) == rest_of(input));
    } else {
        assert(longer[0] == outside[0]);
        assert(longer.drop_first() =~= outside.drop_first().push(next));
        let left = if s.request() == Request::Input {
            rest_of(input)
        } else {
            input
        };
        run_goes_on(first.state, outside.drop_first(), next, left);
    }
}

/// Two runs from one state are one run if they pull from the same input,
/// the sink takes every byte in both, and both come to an end: they reach
/// the same state with the same result after as many steps, and leave the
/// same of the input.
pub proof fn runs_fed_alike_are_one(
    s: State,
    one: Seq<Outside>,
    other: Seq<Outside>,
    input: Seq<u8>,
)
    requires
        s.fed(one, input),
        s.fed(other, input),
        all_accepted(one),
        all_accepted(other),
        s.run(one).result != Err::<(), Error>(Error::StepLimit),
        s.run(other).result != Err::<(), Error>(Error::StepLimit),
    ensures
        s.run(one) == s.run(other),
        s.steps(one) == s.steps(other),
        s.unread(one, input) == s.unread(other, input),
    decreases one.len(),
{
    if s.pc < s.program.len() {
        assert(one.len() > 0 && other.len() > 0);
        assert(one[0].accepted && other[0].accepted);
        step_asks_what_it_requests(s, one[0]);
        assert(s.step(one[0]) == s.step(other[0]));
        if s.step(one[0]).result is Ok {
            let left = if s.request() == Request::Input {
                rest_of(input)
            } else {
                input
            };
            assert forall|k: int| 0 <= k < one.drop_first().len() implies (
            #[trigger] one.drop_first()[k]).accepted by {
                assert(one.drop_first()[k] == one[k + 1]);
            }
            assert forall|k: int| 0 <= k < other.drop_first().len() implies (
            #[trigger] other.drop_first()[k]).accepted by {
                assert(other.drop_first()[k] == other[k + 1]);
            }
            runs_fed_alike_are_one(s.step(one[0]).state, one.drop_first(), other.drop_first(), left);
        }
    }
}

/// A run keeps the state well formed, the program as it is, and what was
/// emitted in front of what it emits. It never brings a state back into
/// its inline storage. It succeeds only at the end of the
/// program, with no loop open and no skip pending. It reports open loops
/// only at the end of the program, with a loop open or a skip pending. It
/// reports that it ran out of steps only before the end of the program,
/// after a step for each element of `outside`.
pub proof fn run_ends_where_it_says(s: State, outside: Seq<Outside>)
    requires
        s.wf(),
    ensures
        s.run(outside).state.wf(),
        s.run(outside).state.program == s.program,
        s.emitted.is_prefix_of(s.run(outside).state.emitted),
        s.run(outside).state.inline ==> s.inline,
        s.steps(outside) <= outside.len(),
        s.run(outside).result is Ok ==> s.run(outside).state.pc == s.program.len() && s.run(
            outside,
        ).state.loops.len() == 0 && s.run(outside).state.pending is None,
        s.run(outside).result == Err::<(), Error>(Error::OpenLoopsRemain) ==> s.run(
            outside,
        ).state.pc == s.program.len() && (s.run(outside).state.loops.len() > 0 || s.run(
            outside,
        ).state.pending is Some),
        s.run(outside).result == Err::<(), Error>(Error::StepLimit) ==> s.run(outside).state.pc
            < s.program.len() && s.steps(outside) == outside.len(),
    decreases outside.len(),
{
    if outside.len() == 0 || s.pc >= s.program.len() {
    } else {
        let first = s.step(outside[0]);
        step_keeps_wf(s, outside[0]);
        step_keeps_program_and_output(s, outside[0]);
        inline_never_comes_back(s, outside[0], Seq::empty());
        if first.result is Err {
            match s.pending {
                Some(depth) => {
                    scan_stays_in_range(s.program, s.pc, depth);
                },
                None => {
                    scan_stays_in_range(s.program, s.pc + 1, 1);
                },
            }
        } else {
            run_ends_where_it_says(first.state, outside.drop_first());
        }
    }
}

} // verus!
