//! Running a program in two parts: a run of the first part, more
//! instructions appended, and a second run, come to what one run of the
//! whole program comes to.

use crate::error::Error;
use crate::laws::{
    run_ends_where_it_says, runs_fed_alike_are_one, scan_stays_in_range,
    step_keeps_program_and_output, step_keeps_wf,
};
use crate::machine::{
    all_accepted, rest_of, scan, Outcome, Outside, Request, State, LOOP_CLOSE, LOOP_OPEN,
};
use vstd::prelude::*;

verus! {

/// The steps of a run in two parts, as one run of the whole program makes
/// them: those of the first run, then those of the second. Where the first
/// run ended in a skip that ran into the end of its part, the whole run does
/// not make the step that resumes it, as it skips the loop in one step.
pub open spec fn joined(s: State, first: Seq<Outside>, second: Seq<Outside>) -> Seq<Outside> {
    if first.len() > 0 && s.run(first).state.pending is Some && second.len() > 0 {
        first + second.drop_first()
    } else {
        first + second
    }
}

/// A scan of a program that goes on with `more` is the scan of the program
/// without it, resumed at the end of the program if it ran into it.
pub proof fn scan_of_longer_program(program: Seq<u8>, more: Seq<u8>, pc: nat, depth: nat)
    requires
        pc <= program.len(),
    ensures
        scan(program + more, pc, depth) == (if scan(program, pc, depth).1 == 0 {
            scan(program, pc, depth)
        } else {
            scan(program + more, program.len(), scan(program, pc, depth).1)
        }),
    decreases program.len() - pc,
{
    if depth != 0 && pc < program.len() {
        let next = if program[pc as int] == LOOP_OPEN {
            depth + 1
        } else if program[pc as int] == LOOP_CLOSE {
            (depth - 1) as nat
        } else {
            depth
        };
        assert((program + more)[pc as int] == program[pc as int]);
        assert(scan(program, pc, depth) == scan(program, pc + 1, next));
        assert(scan(program + more, pc, depth) == scan(program + more, pc + 1, next));
        scan_of_longer_program(program, more, pc + 1, next);
    }
}

/// A step does the same on a program that goes on with `more`, unless it
/// is a skip that runs into the end of the program: on the longer program
/// that skip goes on as the step does that resumes it.
pub proof fn step_of_longer_program(s: State, more: Seq<u8>, outside: Outside, resumed: Outside)
    requires
        s.wf(),
        s.pc < s.program.len() || s.pending is Some,
    ensures
        s.step(outside).state.pending is None ==> s.with_more(more).step(outside) == (Outcome {
            state: s.step(outside).state.with_more(more),
            result: s.step(outside).result,
        }),
        s.step(outside).state.pending is Some ==> s.with_more(more).step(outside) == s.step(
            outside,
        ).state.with_more(more).step(resumed),
        s.step(outside).state.pending is Some ==> s.step(outside).result == Err::<(), Error>(
            Error::OpenLoopsRemain,
        ) && s.step(outside).state.pc == s.program.len() && s.request() == Request::Nothing,
        s.with_more(more).request() == s.request(),
{
    match s.pending {
        Some(depth) => {
            scan_of_longer_program(s.program, more, s.pc, depth);
            scan_stays_in_range(s.program, s.pc, depth);
        },
        None => {
            assert((s.program + more)[s.pc as int] == s.program[s.pc as int]);
            scan_of_longer_program(s.program, more, s.pc + 1, 1);
            scan_stays_in_range(s.program, s.pc + 1, 1);
        },
    }
}

/// A step never looks at whether the state is inline: from the same state
/// with a program that is owned it does the same, and ends in a state with
/// a program that is owned.
pub proof fn step_of_owned_program(s: State, outside: Outside)
    ensures
        s.owned().step(outside) == (Outcome {
            state: s.step(outside).state.owned(),
            result: s.step(outside).result,
        }),
        s.owned().request() == s.request(),
{
}

/// A run never looks at whether the state is inline: from the same state
/// with a program that is owned it makes the same steps, pulls the same
/// input, and ends in the same state with a program that is owned.
pub proof fn run_of_owned_program(s: State, outside: Seq<Outside>, input: Seq<u8>)
    ensures
        s.owned().run(outside) == (Outcome {
            state: s.run(outside).state.owned(),
            result: s.run(outside).result,
        }),
        s.owned().steps(outside) == s.steps(outside),
        s.owned().fed(outside, input) == s.fed(outside, input),
        s.owned().unread(outside, input) == s.unread(outside, input),
    decreases outside.len(),
{
    if outside.len() == 0 || s.pc >= s.program.len() {
    } else {
        step_of_owned_program(s, outside[0]);
        if s.step(outside[0]).result is Ok {
            let left = if s.request() == Request::Input {
                rest_of(input)
            } else {
                input
            };
            run_of_owned_program(s.step(outside[0]).state, outside.drop_first(), left);
        }
    }
}

/// A run in two parts on the whole program: what the second run comes to
/// on the longer program, the whole run comes to from the start, and it
/// pulls the same input on the way.
proof fn resumed_run_is_whole_run(
    s: State,
    more: Seq<u8>,
    first: Seq<Outside>,
    second: Seq<Outside>,
    input: Seq<u8>,
)
    requires
        s.wf(),
        s.steps(first) == first.len(),
        s.run(first).result is Ok || s.run(first).result == Err::<(), Error>(
            Error::OpenLoopsRemain,
        ),
        s.run(first).state.with_more(more).run(second).result != Err::<(), Error>(
            Error::StepLimit,
        ),
    ensures
        s.with_more(more).run(joined(s, first, second)) == s.run(first).state.with_more(more).run(
            second,
        ),
        s.with_more(more).fed(joined(s, first, second), input) == (s.fed(first, input) && s.run(
            first,
        ).state.with_more(more).fed(second, s.unread(first, input))),
        s.with_more(more).unread(joined(s, first, second), input) == s.run(
            first,
        ).state.with_more(more).unread(second, s.unread(first, input)),
    decreases first.len(),
{
    let whole = s.with_more(more);
    let all = joined(s, first, second);
    if first.len() == 0 {
        assert(all =~= second);
    } else {
        let one = s.step(first[0]);
        let rest = first.drop_first();
        let resumed = if second.len() > 0 {
            second[0]
        } else {
            first[0]
        };
        step_keeps_wf(s, first[0]);
        step_keeps_program_and_output(s, first[0]);
        step_of_longer_program(s, more, first[0], resumed);
        assert(all[0] == first[0]);
        if one.result is Err {
            let mid = one.state;
            assert(rest.len() == 0) by {
                assert(s.steps(first) == 1);
            }
            assert(mid.pending is Some);
            if second.len() > 0 {
                assert(all.drop_first() =~= second.drop_first());
                if more.len() == 0 {
                    assert(s.program + more =~= s.program);
                }
            } else {
                assert(more.len() == 0);
                assert(s.program + more =~= s.program);
                assert(all =~= first);
            }
        } else {
            assert(one.state.pending is None);
            assert(s.run(first) == one.state.run(rest));
            assert(one.state.steps(rest) == rest.len());
            let left = if s.request() == Request::Input {
                rest_of(input)
            } else {
                input
            };
            resumed_run_is_whole_run(one.state, more, rest, second, left);
            assert(all.drop_first() =~= joined(one.state, rest, second));
        }
    }
}

/// Splitting a program changes nothing.
///
/// Take a first run that uses every step it is given and reaches the end
/// of the program as far as it is there: it succeeds or reports open
/// loops. Append `more`, and run again with steps enough. The result and
/// the state, with all of the output, are those of one run on the whole
/// program from where the first run started, but that the program is no
/// longer borrowed. The split may fall anywhere: outside every loop, in a
/// loop that is being executed, or in one that is being skipped.
pub proof fn split_run_is_whole_run(
    s: State,
    more: Seq<u8>,
    first: Seq<Outside>,
    second: Seq<Outside>,
)
    requires
        s.wf(),
        s.steps(first) == first.len(),
        s.run(first).result is Ok || s.run(first).result == Err::<(), Error>(
            Error::OpenLoopsRemain,
        ),
        s.run(first).state.appended(more).run(second).result != Err::<(), Error>(
            Error::StepLimit,
        ),
    ensures
        s.run(first).state.appended(more).run(second) == (Outcome {
            state: s.with_more(more).run(joined(s, first, second)).state.owned(),
            result: s.with_more(more).run(joined(s, first, second)).result,
        }),
{
    let mid = s.run(first).state;
    assert(mid.appended(more) == mid.with_more(more).owned());
    run_of_owned_program(mid.with_more(more), second, Seq::empty());
    resumed_run_is_whole_run(s, more, first, second, Seq::empty());
}

/// Splitting a program changes nothing in what is read.
///
/// For the two runs of [`split_run_is_whole_run`]: if the first run pulls
/// its input from a source, and the second run from what the first has left
/// of it, then the whole run pulls its input from that source, and leaves
/// of it what the second run leaves. If the sink takes every byte in both
/// runs, it does in the whole run.
pub proof fn split_run_reads_as_whole_run(
    s: State,
    more: Seq<u8>,
    first: Seq<Outside>,
    second: Seq<Outside>,
    input: Seq<u8>,
)
    requires
        s.wf(),
        s.steps(first) == first.len(),
        s.run(first).result is Ok || s.run(first).result == Err::<(), Error>(
            Error::OpenLoopsRemain,
        ),
        s.run(first).state.appended(more).run(second).result != Err::<(), Error>(
            Error::StepLimit,
        ),
        s.fed(first, input),
        s.run(first).state.appended(more).fed(second, s.unread(first, input)),
    ensures
        s.with_more(more).fed(joined(s, first, second), input),
        s.with_more(more).unread(joined(s, first, second), input) == s.run(first).state.appended(
            more,
        ).unread(second, s.unread(first, input)),
        all_accepted(first) && all_accepted(second) ==> all_accepted(joined(s, first, second)),
{
    let mid = s.run(first).state;
    assert(mid.appended(more) == mid.with_more(more).owned());
    run_of_owned_program(mid.with_more(more), second, s.unread(first, input));
    resumed_run_is_whole_run(s, more, first, second, input);
    if all_accepted(first) && all_accepted(second) {
        let all = joined(s, first, second);
        assert forall|k: int| 0 <= k < all.len() implies (#[trigger] all[k]).accepted by {
            if k < first.len() {
                assert(all[k] == first[k]);
            } else if all.len() == first.len() + second.len() {
                assert(all[k] == second[k - first.len()]);
            } else {
                assert(all[k] == second[k - first.len() + 1]);
            }
        }
    }
}

/// An interpreter that starts on a whole program starts where one that
/// starts on its first part does, on the program that goes on with the rest.
pub proof fn start_on_whole_program(part: Seq<u8>, more: Seq<u8>, borrowed: bool)
    ensures
        State::initial(part + more, borrowed) == State::initial(part, borrowed).with_more(more),
        State::initial(part, borrowed).wf(),
{
}

/// Splitting a program changes nothing, whatever steps the run of the
/// whole program makes.
///
/// Take the two runs of [`split_run_is_whole_run`], on a sink that takes
/// every byte, the first pulling from `input` and the second from what the
/// first leaves of it. Take any run of the whole program from where the
/// first run started that pulls from `input`, on a sink that takes every
/// byte, and comes to an end. Then the second run ends with the result of
/// that run and in its state, with all of the output, the tape and the
/// pointer, but that the program is no longer borrowed; and both leave the
/// same of the input.
pub proof fn split_run_is_the_unsplit_run(
    s: State,
    more: Seq<u8>,
    first: Seq<Outside>,
    second: Seq<Outside>,
    whole: Seq<Outside>,
    input: Seq<u8>,
)
    requires
        s.wf(),
        s.steps(first) == first.len(),
        s.run(first).result is Ok || s.run(first).result == Err::<(), Error>(
            Error::OpenLoopsRemain,
        ),
        s.run(first).state.appended(more).run(second).result != Err::<(), Error>(
            Error::StepLimit,
        ),
        s.fed(first, input),
        s.run(first).state.appended(more).fed(second, s.unread(first, input)),
        all_accepted(first),
        all_accepted(second),
        s.with_more(more).fed(whole, input),
        all_accepted(whole),
        s.with_more(more).run(whole).result != Err::<(), Error>(Error::StepLimit),
    ensures
        s.run(first).state.appended(more).run(second) == (Outcome {
            state: s.with_more(more).run(whole).state.owned(),
            result: s.with_more(more).run(whole).result,
        }),
        s.run(first).state.appended(more).unread(second, s.unread(first, input)) == s.with_more(
            more,
        ).unread(whole, input),
{
    split_run_is_whole_run(s, more, first, second);
    split_run_reads_as_whole_run(s, more, first, second, input);
    runs_fed_alike_are_one(s.with_more(more), joined(s, first, second), whole, input);
}

/// The state `t`, which is on a program of its own, as it is behind
/// `before`: on the program that has `before` in front, with the program
/// counter and the open loops that much further on.
pub open spec fn behind(t: State, before: Seq<u8>) -> State {
    State {
        program: before + t.program,
        pc: t.pc + before.len(),
        loops: Seq::new(t.loops.len(), |i: int| t.loops[i] + before.len()),
        ..t
    }
}

/// A scan behind `before` is the scan of the program alone, that much
/// further on.
pub proof fn scan_behind(before: Seq<u8>, program: Seq<u8>, pc: nat, depth: nat)
    requires
        pc <= program.len(),
    ensures
        scan(before + program, pc + before.len(), depth) == (
            scan(program, pc, depth).0 + before.len(),
            scan(program, pc, depth).1,
        ),
    decreases program.len() - pc,
{
    if depth != 0 && pc < program.len() {
        let next = if program[pc as int] == LOOP_OPEN {
            depth + 1
        } else if program[pc as int] == LOOP_CLOSE {
            (depth - 1) as nat
        } else {
            depth
        };
        assert((before + program)[(pc + before.len()) as int] == program[pc as int]);
        assert(scan(program, pc, depth) == scan(program, pc + 1, next));
        assert(scan(before + program, pc + before.len(), depth) == scan(
            before + program,
            pc + 1 + before.len(),
            next,
        ));
        scan_behind(before, program, pc + 1, next);
    }
}

/// A step behind `before` is the step on the program alone: it never looks
/// at what stands in front.
pub proof fn step_behind(t: State, before: Seq<u8>, outside: Outside)
    requires
        t.wf(),
    ensures
        behind(t, before).step(outside) == (Outcome {
            state: behind(t.step(outside).state, before),
            result: t.step(outside).result,
        }),
        behind(t, before).request() == t.request(),
        behind(t, before).settle() == t.settle(),
{
    let far = behind(t, before);
    let after = t.step(outside).state;
    let got = far.step(outside).state;
    match t.pending {
        Some(depth) => {
            scan_behind(before, t.program, t.pc, depth);
        },
        None => {
            if t.pc < t.program.len() {
                assert(far.program[far.pc as int] == t.program[t.pc as int]);
                scan_behind(before, t.program, t.pc + 1, 1);
                if t.loops.len() > 0 {
                    assert(far.loops.last() == t.loops.last() + before.len());
                }
            }
        },
    }
    assert(got.loops =~= behind(after, before).loops);
}

/// A run behind `before` is the run on the program alone.
pub proof fn run_behind(t: State, before: Seq<u8>, outside: Seq<Outside>, input: Seq<u8>)
    requires
        t.wf(),
    ensures
        behind(t, before).run(outside) == (Outcome {
            state: behind(t.run(outside).state, before),
            result: t.run(outside).result,
        }),
        behind(t, before).steps(outside) == t.steps(outside),
        behind(t, before).fed(outside, input) == t.fed(outside, input),
        behind(t, before).unread(outside, input) == t.unread(outside, input),
    decreases outside.len(),
{
    if outside.len() > 0 {
        step_behind(t, before, outside[0]);
    } else {
        step_behind(t, before, Outside { pulled: None, accepted: true });
    }
    if outside.len() == 0 || t.pc >= t.program.len() {
    } else {
        step_keeps_wf(t, outside[0]);
        if t.step(outside[0]).result is Ok {
            let left = if t.request() == Request::Input {
                rest_of(input)
            } else {
                input
            };
            run_behind(t.step(outside[0]).state, before, outside.drop_first(), left);
        }
    }
}

/// After a run that reached the end of the program with no loop open,
/// what is appended runs as if it were a program of its own on the tape,
/// the pointer and the output as they were left: nothing of what was
/// executed is executed again. The program counter starts at the first
/// appended byte, and the run ends in the state of the run of the appended
/// bytes alone, seen behind what was there.
pub proof fn appended_bytes_run_alone(s: State, more: Seq<u8>, outside: Seq<Outside>)
    requires
        s.wf(),
        s.pc == s.program.len(),
        s.loops.len() == 0,
        s.pending is None,
    ensures
        s.appended(more).pc == s.program.len(),
        s.appended(more).run(outside) == (Outcome {
            state: behind(
                (State { program: more, pc: 0, inline: false, ..s }).run(outside).state,
                s.program,
            ),
            result: (State { program: more, pc: 0, inline: false, ..s }).run(outside).result,
        }),
        s.emitted.is_prefix_of(s.appended(more).run(outside).state.emitted),
{
    let alone = State { program: more, pc: 0, inline: false, ..s };
    assert(behind(alone, s.program).loops =~= s.loops);
    assert(s.appended(more) == behind(alone, s.program));
    run_behind(alone, s.program, outside, Seq::empty());
    run_ends_where_it_says(alone, outside);
}

} // verus!
