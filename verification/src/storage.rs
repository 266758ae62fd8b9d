//! The three growable buffers of the interpreter, all kept by the `tiny_vec`
//! crate: the tape, the stack of open loops, and the copy-on-write program.
//!
//! Nothing in this module is proved. Each function below makes one call into
//! `tiny_vec`, after `Cow::to_mut` where it changes the program, and states
//! over the names declared here what that call does according to the
//! crate's source. As with std's `Vec`, running out of memory is left out:
//! a buffer that cannot grow ends the program.

use crate::machine::{DEFAULT_LOOP_STACK_SIZE, DEFAULT_MEM_SIZE, DEFAULT_PROGRAM_SIZE};
use tiny_vec::{Cow, TinyVec};
use vstd::prelude::*;
use vstd::std_specs::iter::IteratorSpec;

verus! {

/// The tape's cells: a `TinyVec` of bytes.
#[verifier::external_body]
pub struct Tape {
    cells: TinyVec<u8, DEFAULT_MEM_SIZE>,
}

/// The start positions of the loops that are open: a `TinyVec` of indices.
#[verifier::external_body]
pub struct LoopStack {
    starts: TinyVec<usize, DEFAULT_LOOP_STACK_SIZE>,
}

/// `tiny_vec::Cow`: a borrowed slice, or an owned `TinyVec`.
#[verifier::external_type_specification]
#[verifier::external_body]
#[verifier::reject_recursive_types(T)]
pub struct ExCow<'borrow, T, const N: usize>(Cow<'borrow, T, N>);

/// The cells of a tape, first to last.
pub uninterp spec fn tape_cells(t: Tape) -> Seq<u8>;

/// Whether a tape still lives in its inline storage. A `TinyVec` leaves it
/// when it is asked to hold more than its inline size, and this crate never
/// asks it to go back.
pub uninterp spec fn tape_inline(t: Tape) -> bool;

/// The positions on a loop stack, bottom to top.
pub uninterp spec fn loop_starts(s: LoopStack) -> Seq<usize>;

/// Whether a loop stack still lives in its inline storage.
pub uninterp spec fn loops_inline(s: LoopStack) -> bool;

/// The bytes of a program buffer, whichever variant holds them.
pub uninterp spec fn program_bytes(c: Cow<'_, u8, DEFAULT_PROGRAM_SIZE>) -> Seq<u8>;

/// Whether a program buffer is still the `Borrowed` variant.
pub uninterp spec fn program_borrowed(c: Cow<'_, u8, DEFAULT_PROGRAM_SIZE>) -> bool;

/// `TinyVec::new`: an empty vector in inline storage.
#[verifier::external_body]
pub(crate) fn tape_new() -> (t: Tape)
    ensures
        tape_cells(t) == Seq::<u8>::empty(),
        tape_inline(t),
{
    Tape { cells: TinyVec::new() }
}

/// `TinyVec::resize`, for a vector in inline storage that is not to shrink:
/// `fill` is appended until the length is `new_len`. The vector stays inline
/// exactly if `new_len` is within the inline size.
#[verifier::external_body]
pub(crate) fn tape_resize(t: &mut Tape, new_len: usize, fill: u8)
    requires
        tape_inline(*old(t)),
        tape_cells(*old(t)).len() <= new_len,
    ensures
        tape_cells(*final(t)) == tape_cells(*old(t)) + Seq::new(
            (new_len - tape_cells(*old(t)).len()) as nat,
            |i: int| fill,
        ),
        tape_inline(*final(t)) == (new_len <= DEFAULT_MEM_SIZE),
{
    t.cells.resize(new_len, fill)
}

/// `TinyVec::extend_from_slice`: the slice is appended, and the new length
/// is one that a `usize` holds. The vector stays inline exactly if it was
/// inline and the new length is within the inline size.
#[verifier::external_body]
pub(crate) fn tape_extend(t: &mut Tape, more: &[u8])
    ensures
        tape_cells(*final(t)) == tape_cells(*old(t)) + more@,
        tape_cells(*final(t)).len() <= usize::MAX,
        tape_inline(*final(t)) == (tape_inline(*old(t)) && tape_cells(*old(t)).len() + more@.len()
            <= DEFAULT_MEM_SIZE),
{
    t.cells.extend_from_slice(more)
}

/// `TinyVec::as_slice`: the cells as a slice.
#[verifier::external_body]
pub(crate) fn tape_as_slice(t: &Tape) -> (s: &[u8])
    ensures
        s@ == tape_cells(*t),
{
    t.cells.as_slice()
}

/// `TinyVec::as_mut_slice`, to overwrite the cell at `at`. Nothing else
/// changes.
#[verifier::external_body]
pub(crate) fn tape_set(t: &mut Tape, at: usize, value: u8)
    requires
        at < tape_cells(*old(t)).len(),
    ensures
        tape_cells(*final(t)) == tape_cells(*old(t)).update(at as int, value),
        tape_inline(*final(t)) == tape_inline(*old(t)),
{
    t.cells.as_mut_slice()[at] = value
}

/// `TinyVec::lives_on_stack`.
#[verifier::external_body]
pub(crate) fn tape_lives_on_stack(t: &Tape) -> (r: bool)
    ensures
        r == tape_inline(*t),
{
    t.cells.lives_on_stack()
}

/// `TinyVec::new`: an empty vector in inline storage.
#[verifier::external_body]
pub(crate) fn loops_new() -> (s: LoopStack)
    ensures
        loop_starts(s) == Seq::<usize>::empty(),
        loops_inline(s),
{
    LoopStack { starts: TinyVec::new() }
}

/// `TinyVec::push`: `start` goes on top. The vector stays inline exactly if
/// it was inline and had room for one more.
#[verifier::external_body]
pub(crate) fn loops_push(s: &mut LoopStack, start: usize)
    ensures
        loop_starts(*final(s)) == loop_starts(*old(s)).push(start),
        loops_inline(*final(s)) == (loops_inline(*old(s)) && loop_starts(*old(s)).len()
            < DEFAULT_LOOP_STACK_SIZE),
{
    s.starts.push(start)
}

/// `TinyVec::pop`: takes the top off, or returns `None` on an empty vector
/// and leaves it as it was. A vector on the heap stays there.
#[verifier::external_body]
pub(crate) fn loops_pop(s: &mut LoopStack) -> (top: Option<usize>)
    ensures
        loops_inline(*final(s)) == loops_inline(*old(s)),
        loop_starts(*old(s)).len() == 0 ==> top is None && loop_starts(*final(s)) == loop_starts(
            *old(s),
        ),
        loop_starts(*old(s)).len() > 0 ==> top == Some(loop_starts(*old(s)).last())
            && loop_starts(*final(s)) == loop_starts(*old(s)).drop_last(),
{
    s.starts.pop()
}

/// `TinyVec::len`.
#[verifier::external_body]
pub(crate) fn loops_len(s: &LoopStack) -> (n: usize)
    ensures
        n == loop_starts(*s).len(),
{
    s.starts.len()
}

/// `TinyVec::lives_on_stack`.
#[verifier::external_body]
pub(crate) fn loops_lives_on_stack(s: &LoopStack) -> (r: bool)
    ensures
        r == loops_inline(*s),
{
    s.starts.lives_on_stack()
}

/// `Cow::from` on a slice: the `Borrowed` variant over that slice.
#[verifier::external_body]
pub(crate) fn program_borrow<'a>(bytes: &'a [u8]) -> (c: Cow<'a, u8, DEFAULT_PROGRAM_SIZE>)
    ensures
        program_bytes(c) == bytes@,
        program_borrowed(c),
{
    Cow::from(bytes)
}

/// `Cow::as_slice`: the bytes of either variant.
#[verifier::external_body]
pub(crate) fn program_as_slice<'a>(c: &'a Cow<'_, u8, DEFAULT_PROGRAM_SIZE>) -> (s: &'a [u8])
    ensures
        s@ == program_bytes(*c),
{
    c.as_slice()
}

/// `Cow::is_borrowed`.
#[verifier::external_body]
pub(crate) fn program_is_borrowed(c: &Cow<'_, u8, DEFAULT_PROGRAM_SIZE>) -> (r: bool)
    ensures
        r == program_borrowed(*c),
{
    c.is_borrowed()
}

/// `Cow::to_mut`, then `TinyVec::push`: a borrowed buffer is first copied
/// into an owned one, then the byte is appended.
#[verifier::external_body]
pub(crate) fn program_push(c: &mut Cow<'_, u8, DEFAULT_PROGRAM_SIZE>, byte: u8)
    ensures
        program_bytes(*final(c)) == program_bytes(*old(c)).push(byte),
        !program_borrowed(*final(c)),
{
    c.to_mut().push(byte)
}

/// `Cow::to_mut`, then `TinyVec::extend_from_slice`: a borrowed buffer is
/// first copied into an owned one, then the slice is appended.
#[verifier::external_body]
pub(crate) fn program_extend_from_slice(c: &mut Cow<'_, u8, DEFAULT_PROGRAM_SIZE>, more: &[u8])
    ensures
        program_bytes(*final(c)) == program_bytes(*old(c)) + more@,
        !program_borrowed(*final(c)),
{
    c.to_mut().extend_from_slice(more)
}

/// `Cow::to_mut`, then `TinyVec::extend`: a borrowed buffer is first copied
/// into an owned one, then every item that the iterator yields is appended.
/// What was there stays in front. For an iterator that keeps to vstd's laws,
/// what is appended is what it had left to yield.
#[verifier::external_body]
pub(crate) fn program_extend<I: Iterator<Item = u8>>(
    c: &mut Cow<'_, u8, DEFAULT_PROGRAM_SIZE>,
    more: I,
)
    ensures
        program_bytes(*old(c)).is_prefix_of(program_bytes(*final(c))),
        more.obeys_prophetic_iter_laws() ==> program_bytes(*final(c)) == program_bytes(*old(c))
            + more.remaining(),
        !program_borrowed(*final(c)),
{
    c.to_mut().extend(more)
}

/// `Cow::into_owned`, wrapped again as the `Owned` variant: the same bytes,
/// no longer borrowed from anyone.
#[verifier::external_body]
pub(crate) fn program_into_owned(c: Cow<'_, u8, DEFAULT_PROGRAM_SIZE>) -> (owned: Cow<
    'static,
    u8,
    DEFAULT_PROGRAM_SIZE,
>)
    ensures
        program_bytes(owned) == program_bytes(c),
        !program_borrowed(owned),
{
    Cow::Owned(c.into_owned())
}

} // verus!
