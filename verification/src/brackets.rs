//! Brackets: what it means for a program to be balanced, and what the result
//! of a run says about it.

use crate::error::Error;
use crate::laws::step_keeps_wf;
use crate::machine::{
    all_accepted, is_instruction, is_space, scan, Outside, State, LOOP_CLOSE, LOOP_OPEN,
};
use vstd::prelude::*;

verus! {

/// What a byte adds to the nesting depth: one for `[`, minus one for `]`.
pub open spec fn bracket(byte: u8) -> int {
    if byte == LOOP_OPEN {
        1
    } else if byte == LOOP_CLOSE {
        -1
    } else {
        0
    }
}

/// The nesting depth after the first `n` bytes of `program`: the number of
/// `[` among them less the number of `]`.
pub open spec fn depth(program: Seq<u8>, n: nat) -> int
    decreases n,
{
    if n == 0 {
        0
    } else {
        depth(program, (n - 1) as nat) + bracket(program[n - 1])
    }
}

/// A program is balanced and properly nested if no `]` comes without a `[`
/// open before it, and no `[` is left open at the end.
pub open spec fn balanced(program: Seq<u8>) -> bool {
    &&& forall|n: nat| n <= program.len() ==> #[trigger] depth(program, n) >= 0
    &&& depth(program, program.len()) == 0
}

/// A program of instructions and whitespace only.
pub open spec fn clean(program: Seq<u8>) -> bool {
    forall|i: int|
        0 <= i < program.len() ==> is_instruction(#[trigger] program[i]) || is_space(program[i])
}

/// The depth that a pending skip still has to close.
pub open spec fn pending_depth(s: State) -> nat {
    match s.pending {
        Some(depth) => depth,
        None => 0,
    }
}

/// The state accounts for every bracket before the program counter: none of
/// them is a `]` without its `[`, the open loops together with a pending
/// skip are as many as the brackets that are open there, and each open loop
/// is the `[` that opened its level.
///
/// This holds when an interpreter starts, and every step keeps it but one
/// that reports a `]` without its `[`.
pub open spec fn tracks_brackets(s: State) -> bool {
    &&& forall|n: nat| n <= s.pc ==> #[trigger] depth(s.program, n) >= 0
    &&& depth(s.program, s.pc) == s.loops.len() + pending_depth(s)
    &&& forall|i: int|
        0 <= i < s.loops.len() ==> s.program[s.loops[i] as int] == LOOP_OPEN && depth(
            s.program,
            #[trigger] s.loops[i],
        ) == i
}

/// Appending to a program does not change the depth of what was there.
pub proof fn depth_ignores_what_follows(program: Seq<u8>, more: Seq<u8>, n: nat)
    requires
        n <= program.len(),
    ensures
        depth(program + more, n) == depth(program, n),
    decreases n,
{
    if n > 0 {
        depth_ignores_what_follows(program, more, (n - 1) as nat);
    }
}

/// A scan counts as the depth does: between its start and its end the depth
/// of the program changes as the count of open brackets does, and never
/// falls below the level on which the loop was opened.
pub proof fn scan_follows_depth(program: Seq<u8>, pc: nat, open: nat)
    requires
        pc <= program.len(),
    ensures
        depth(program, scan(program, pc, open).0) - scan(program, pc, open).1 == depth(program, pc)
            - open,
        forall|n: nat|
            pc <= n <= scan(program, pc, open).0 ==> #[trigger] depth(program, n) >= depth(
                program,
                pc,
            ) - open,
        pc <= scan(program, pc, open).0 <= program.len(),
        scan(program, pc, open).1 != 0 ==> scan(program, pc, open).0 == program.len(),
    decreases program.len() - pc,
{
    if open != 0 && pc < program.len() {
        let next = (open + bracket(program[pc as int])) as nat;
        assert(scan(program, pc, open) == scan(program, pc + 1, next));
        assert(depth(program, pc + 1) == depth(program, pc) + bracket(program[pc as int]));
        scan_follows_depth(program, pc + 1, next);
    }
}

/// A skip finds the bracket that matches. It ends just past the first `]`
/// that brings the depth back to the level on which the loop was opened;
/// everywhere before, the depth is above that level. If there is no such
/// `]`, the skip ends at the end of the program, and the depth that is left
/// is the number of brackets that are open there above that level.
pub proof fn skip_ends_at_the_matching_bracket(program: Seq<u8>, pc: nat, open: nat)
    requires
        pc <= program.len(),
        open >= 1,
    ensures
        forall|n: nat|
            pc <= n < scan(program, pc, open).0 ==> #[trigger] depth(program, n) > depth(
                program,
                pc,
            ) - open,
        scan(program, pc, open).1 == 0 ==> pc < scan(program, pc, open).0 <= program.len()
            && program[scan(program, pc, open).0 - 1] == LOOP_CLOSE && depth(
            program,
            scan(program, pc, open).0,
        ) == depth(program, pc) - open,
        scan(program, pc, open).1 != 0 ==> scan(program, pc, open).0 == program.len() && depth(
            program,
            program.len(),
        ) == depth(program, pc) - open + scan(program, pc, open).1,
    decreases program.len() - pc,
{
    if pc < program.len() {
        let next = (open + bracket(program[pc as int])) as nat;
        assert(scan(program, pc, open) == scan(program, pc + 1, next));
        assert(depth(program, pc + 1) == depth(program, pc) + bracket(program[pc as int]));
        if next >= 1 {
            skip_ends_at_the_matching_bracket(program, pc + 1, next);
        }
    }
}

/// An interpreter starts in a state that accounts for every bracket.
pub proof fn initial_state_tracks_brackets(program: Seq<u8>, borrowed: bool)
    ensures
        tracks_brackets(State::initial(program, borrowed)),
        State::initial(program, borrowed).wf(),
{
}

/// Appending to the program keeps the account of the brackets.
pub proof fn appending_keeps_track_of_brackets(s: State, more: Seq<u8>)
    requires
        s.wf(),
        tracks_brackets(s),
    ensures
        tracks_brackets(s.appended(more)),
{
    let t = s.appended(more);
    assert forall|n: nat| n <= t.pc implies #[trigger] depth(t.program, n) >= 0 by {
        depth_ignores_what_follows(s.program, more, n);
    }
    depth_ignores_what_follows(s.program, more, s.pc);
    assert forall|i: int| 0 <= i < t.loops.len() implies t.program[t.loops[i] as int] == LOOP_OPEN
        && depth(t.program, #[trigger] t.loops[i]) == i by {
        depth_ignores_what_follows(s.program, more, s.loops[i]);
    }
}

/// A `]` that is reached while no loop is open is reported as such, whatever
/// the outside does, and the program is not balanced: the `]` has no `[`.
pub proof fn unmatched_close_is_reported(s: State, outside: Outside)
    requires
        s.wf(),
        tracks_brackets(s),
        s.pending is None,
        s.pc < s.program.len(),
        s.program[s.pc as int] == LOOP_CLOSE,
        s.loops.len() == 0,
    ensures
        s.step(outside).result == Err::<(), Error>(Error::MissingOpenLoop),
        depth(s.program, s.pc + 1) < 0,
        !balanced(s.program),
{
    assert(depth(s.program, s.pc + 1) == depth(s.program, s.pc) + bracket(s.program[s.pc as int]));
}

/// A step reports a `]` without its `[` only where there is one.
pub proof fn missing_open_loop_means_unmatched_close(s: State, outside: Outside)
    requires
        s.wf(),
        tracks_brackets(s),
        s.step(outside).result == Err::<(), Error>(Error::MissingOpenLoop),
    ensures
        s.pc < s.program.len(),
        s.program[s.pc as int] == LOOP_CLOSE,
        depth(s.program, s.pc + 1) < 0,
        !balanced(s.program),
{
    assert(depth(s.program, s.pc + 1) == depth(s.program, s.pc) + bracket(s.program[s.pc as int]));
}

/// Every step keeps the account of the brackets, but one that reports a `]`
/// without its `[`.
pub proof fn step_keeps_track_of_brackets(s: State, outside: Outside)
    requires
        s.wf(),
        tracks_brackets(s),
        s.step(outside).result != Err::<(), Error>(Error::MissingOpenLoop),
    ensures
        tracks_brackets(s.step(outside).state),
{
    let t = s.step(outside).state;
    match s.pending {
        Some(open) => {
            scan_follows_depth(s.program, s.pc, open);
        },
        None => {
            if s.pc < s.program.len() {
                let ins = s.program[s.pc as int];
                assert(depth(s.program, s.pc + 1) == depth(s.program, s.pc) + bracket(ins));
                if ins == LOOP_OPEN && s.cell() == 0 {
                    scan_follows_depth(s.program, s.pc + 1, 1);
                }
            }
        },
    }
}

/// At the end of the program, with no loop open and no skip pending, the
/// program is balanced. With a loop open or a skip pending, it is not: a `[`
/// was left open.
pub proof fn end_of_program_tells_balance(s: State)
    requires
        s.wf(),
        tracks_brackets(s),
        s.pc == s.program.len(),
    ensures
        s.settle() is Ok <==> balanced(s.program),
        s.settle() is Ok || s.settle() == Err::<(), Error>(Error::OpenLoopsRemain),
        s.settle() is Err ==> depth(s.program, s.program.len()) > 0,
{
}

/// What a run reports tells whether the brackets of the program balance.
///
/// A run that succeeds has run a balanced program. A run that reports open
/// loops has a `[` without its `]`, and one that reports a missing open loop
/// a `]` without its `[`: neither program is balanced. The state after any
/// other run still accounts for every bracket.
pub proof fn run_result_tells_balance(s: State, outside: Seq<Outside>)
    requires
        s.wf(),
        tracks_brackets(s),
    ensures
        s.run(outside).state.wf(),
        s.run(outside).state.program == s.program,
        s.run(outside).result is Ok ==> balanced(s.program),
        s.run(outside).result == Err::<(), Error>(Error::OpenLoopsRemain) ==> !balanced(s.program),
        s.run(outside).result == Err::<(), Error>(Error::MissingOpenLoop) ==> !balanced(s.program),
        s.run(outside).result != Err::<(), Error>(Error::MissingOpenLoop) ==> tracks_brackets(
            s.run(outside).state,
        ),
    decreases outside.len(),
{
    if outside.len() == 0 || s.pc >= s.program.len() {
        if s.pc >= s.program.len() {
            end_of_program_tells_balance(s);
        }
    } else {
        let first = s.step(outside[0]);
        step_keeps_wf(s, outside[0]);
        if first.result == Err::<(), Error>(Error::MissingOpenLoop) {
            missing_open_loop_means_unmatched_close(s, outside[0]);
        } else {
            step_keeps_track_of_brackets(s, outside[0]);
            if first.result is Err {
                if first.result == Err::<(), Error>(Error::OpenLoopsRemain) {
                    assert(first.state.pc == first.state.program.len()) by {
                        match s.pending {
                            Some(open) => {
                                scan_follows_depth(s.program, s.pc, open);
                            },
                            None => {
                                scan_follows_depth(s.program, s.pc + 1, 1);
                            },
                        }
                    }
                    end_of_program_tells_balance(first.state);
                }
            } else {
                run_result_tells_balance(first.state, outside.drop_first());
            }
        }
    }
}

/// A run of a clean program on a sink that takes every byte fails only on
/// its brackets, or for want of steps.
pub proof fn clean_run_fails_only_on_brackets(s: State, outside: Seq<Outside>)
    requires
        s.wf(),
        clean(s.program),
        all_accepted(outside),
    ensures
        s.run(outside).result is Ok || s.run(outside).result == Err::<(), Error>(
            Error::OpenLoopsRemain,
        ) || s.run(outside).result == Err::<(), Error>(Error::MissingOpenLoop) || s.run(
            outside,
        ).result == Err::<(), Error>(Error::StepLimit),
    decreases outside.len(),
{
    if outside.len() == 0 || s.pc >= s.program.len() {
    } else {
        let first = s.step(outside[0]);
        step_keeps_wf(s, outside[0]);
        if first.result is Ok {
            let rest = outside.drop_first();
            assert forall|k: int| 0 <= k < rest.len() implies (#[trigger] rest[k]).accepted by {
                assert(rest[k] == outside[k + 1]);
            }
            assert(all_accepted(rest));
            clean_run_fails_only_on_brackets(first.state, rest);
        }
    }
}

/// A clean program, run from the start on a sink that takes every byte and
/// with steps enough to reach an end, succeeds if and only if its brackets
/// are balanced and properly nested. If they are not, the run reports the
/// `]` without its `[` that it reaches, or the `[` that is left open at the
/// end of the program.
pub proof fn clean_run_succeeds_iff_balanced(
    program: Seq<u8>,
    borrowed: bool,
    outside: Seq<Outside>,
)
    requires
        clean(program),
        all_accepted(outside),
        State::initial(program, borrowed).run(outside).result != Err::<(), Error>(
            Error::StepLimit,
        ),
    ensures
        State::initial(program, borrowed).run(outside).result is Ok <==> balanced(program),
        !balanced(program) ==> State::initial(program, borrowed).run(outside).result == Err::<
            (),
            Error,
        >(Error::MissingOpenLoop) || State::initial(program, borrowed).run(outside).result == Err::<
            (),
            Error,
        >(Error::OpenLoopsRemain),
{
    let s = State::initial(program, borrowed);
    initial_state_tracks_brackets(program, borrowed);
    run_result_tells_balance(s, outside);
    clean_run_fails_only_on_brackets(s, outside);
}

} // verus!
