use brainfck::{
    Error, Interpreter, NoOutput, Outside, Request, Writer, DEFAULT_MEM_SIZE, TAPE_CHUNK,
};
use tiny_vec::Cow;

/// A sink that refuses its first `refusals` bytes and keeps the rest.
struct Stubborn {
    refusals: usize,
    kept: Vec<u8>,
}

impl Writer for Stubborn {
    type Error = ();

    fn push_byte(&mut self, byte: u8) -> Result<(), ()> {
        if self.refusals > 0 {
            self.refusals -= 1;
            Err(())
        } else {
            self.kept.push(byte);
            Ok(())
        }
    }
}

const IDLE: Outside = Outside { pulled: None, accepted: true };

#[test]
fn starts_with_sixteen_zero_cells_inline() {
    let inter = Interpreter::vec_output_empty_input(b"+");
    assert_eq!(DEFAULT_MEM_SIZE, 16);
    assert_eq!(inter.get_memory(), &[0u8; 16]);
    assert!(inter.lives_on_stack());
    assert_eq!(inter.get_output(), b"");
}

#[test]
fn increment_wraps_from_255_to_0() {
    let mut inter = Interpreter::vec_output_empty_input(b"-+");
    inter.step().unwrap();
    assert_eq!(inter.get_memory()[0], 255);
    inter.step().unwrap();
    assert_eq!(inter.get_memory()[0], 0);
}

#[test]
fn decrement_wraps_from_0_to_255() {
    let mut inter = Interpreter::vec_output_empty_input(b"-.-.");
    inter.run().unwrap();
    assert_eq!(inter.get_output(), [255, 254]);
}

#[test]
fn two_hundred_fifty_six_increments_come_back_to_zero() {
    let prog = [b'+'; 256];
    let mut inter = Interpreter::vec_output_empty_input(&prog);
    for n in 1..=255u8 {
        inter.step().unwrap();
        assert_eq!(inter.get_memory()[0], n);
    }
    inter.step().unwrap();
    assert_eq!(inter.get_memory()[0], 0);
}

#[test]
fn moving_right_from_the_last_cell_grows_the_tape_by_a_chunk() {
    assert_eq!(TAPE_CHUNK, 100);
    let mut prog = vec![b'+'];
    prog.extend_from_slice(&[b'>'; 15]);
    prog.push(b'-');
    prog.push(b'>');
    prog.push(b'+');
    let mut inter = Interpreter::vec_output_empty_input(&prog);
    for _ in 0..17 {
        inter.step().unwrap();
    }
    // The pointer stands on the last cell, and the tape has not grown.
    assert_eq!(inter.get_memory().len(), 16);
    assert!(inter.lives_on_stack());
    assert_eq!(inter.step(), Ok(()));
    {
        let memory = inter.get_memory();
        assert_eq!(memory.len(), 116);
        assert_eq!(memory[0], 1);
        assert_eq!(memory[15], 255);
        assert!(memory[1..15].iter().all(|cell| *cell == 0));
        assert!(memory[16..].iter().all(|cell| *cell == 0));
    }
    assert!(!inter.lives_on_stack());
    // The pointer stands on the first of the new cells.
    inter.step().unwrap();
    assert_eq!(inter.get_memory().len(), 116);
    assert_eq!(inter.get_memory()[16], 1);
}

#[test]
fn fifteen_moves_stay_on_the_inline_tape() {
    let prog = [b'>'; 15];
    let mut inter = Interpreter::vec_output_empty_input(&prog);
    inter.run().unwrap();
    assert_eq!(inter.get_memory().len(), 16);
    assert!(inter.lives_on_stack());
}

#[test]
fn only_moving_right_grows_the_tape() {
    let mut prog = vec![b'>'; 15];
    prog.extend_from_slice(b"+-.,[-]+[-]");
    let mut inter = Interpreter::vec_output_empty_input(&prog);
    inter.run().unwrap();
    // The pointer stood on the last cell all the while.
    assert_eq!(inter.get_memory().len(), 16);
    assert!(inter.lives_on_stack());
    inter.push_instruction_slice(b">+.");
    inter.step().unwrap();
    assert_eq!(inter.get_memory().len(), 116);
    inter.run().unwrap();
    assert_eq!(inter.get_memory().len(), 116);
    assert_eq!(inter.get_output(), [0, 1]);
}

#[test]
fn left_then_right_on_the_last_cell_grows_the_tape() {
    let mut inter = Interpreter::vec_output_empty_input(b"<>+");
    inter.step().unwrap();
    assert_eq!(inter.get_memory().len(), 16);
    inter.step().unwrap();
    assert_eq!(inter.get_memory().len(), 116);
    assert!(!inter.lives_on_stack());
    inter.step().unwrap();
    assert_eq!(inter.get_memory()[16], 1);
}

#[test]
fn tape_grows_a_second_time() {
    let prog = vec![b'>'; 118];
    let mut inter = Interpreter::vec_output_empty_input(&prog);
    for _ in 0..115 {
        inter.step().unwrap();
    }
    assert_eq!(inter.get_memory().len(), 116);
    inter.step().unwrap();
    assert_eq!(inter.get_memory().len(), 216);
    inter.step().unwrap();
    assert_eq!(inter.get_memory().len(), 216);
}

#[test]
fn moving_left_from_cell_zero_goes_to_the_last_cell() {
    let mut inter = Interpreter::vec_output_empty_input(b"<+<++");
    inter.run().unwrap();
    let memory = inter.get_memory();
    assert_eq!(memory.len(), 16);
    assert_eq!(memory[15], 1);
    assert_eq!(memory[14], 2);
    assert_eq!(memory[0], 0);
}

#[test]
fn moving_left_goes_one_cell_back() {
    let mut inter = Interpreter::vec_output_empty_input(b">>+<++<+++");
    inter.run().unwrap();
    assert_eq!(&inter.get_memory()[..3], &[3, 2, 1]);
}

#[test]
fn input_is_stored_and_exhausted_input_reads_zero() {
    let input = [7u8, 9];
    let mut inter = Interpreter::vec_output(b",.>,.>+,.", input.iter().copied());
    inter.run().unwrap();
    assert_eq!(inter.get_output(), [7, 9, 0]);
    assert_eq!(&inter.get_memory()[..3], &[7, 9, 0]);
}

#[test]
fn empty_input_reads_zero() {
    let mut inter = Interpreter::empty_input(b"+++,.", Vec::new());
    inter.run().unwrap();
    assert_eq!(inter.get_output(), [0]);
}

#[test]
fn refused_output_is_reported_and_can_be_retried() {
    let sink = Stubborn { refusals: 2, kept: Vec::new() };
    let mut inter = Interpreter::empty_input(b"+++.+.", sink);
    assert_eq!(inter.run(), Err(Error::Output));
    assert_eq!(inter.request(), Request::Output(3));
    assert_eq!(inter.step(), Err(Error::Output));
    // The program counter still stands on the first `.`.
    assert_eq!(inter.request(), Request::Output(3));
    assert_eq!(inter.run(), Ok(()));
    assert_eq!(inter.get_memory()[0], 4);
    let mut inter = Interpreter::empty_input(b"+++.+.", Stubborn { refusals: 0, kept: Vec::new() });
    inter.run().unwrap();
}

#[test]
fn stubborn_sink_keeps_what_it_accepted() {
    let mut sink = Stubborn { refusals: 1, kept: Vec::new() };
    {
        let mut inter = Interpreter::empty_input(b"+.+.", &mut sink);
        assert_eq!(inter.run(), Err(Error::Output));
        assert_eq!(inter.run(), Ok(()));
    }
    assert_eq!(sink.kept, [1, 2]);
}

#[test]
fn unmatched_close_is_reported() {
    let mut inter = Interpreter::vec_output_empty_input(b"+.]+.");
    assert_eq!(inter.run(), Err(Error::MissingOpenLoop));
    assert_eq!(inter.get_output(), [1]);
}

#[test]
fn unmatched_close_after_a_loop_is_reported() {
    let mut inter = Interpreter::vec_output_empty_input(b"[]]");
    assert_eq!(inter.run(), Err(Error::MissingOpenLoop));
}

#[test]
fn unexpected_byte_is_reported() {
    let mut inter = Interpreter::vec_output_empty_input(b"+x+");
    assert_eq!(inter.run(), Err(Error::UnexpectedByte(b'x')));
    assert_eq!(inter.get_memory()[0], 1);
}

#[test]
fn whitespace_is_passed_over() {
    let mut inter = Interpreter::vec_output_empty_input(b"+ \t\n\x0c\r+.");
    inter.run().unwrap();
    assert_eq!(inter.get_output(), [2]);
}

#[test]
fn vertical_tab_is_not_whitespace() {
    let mut inter = Interpreter::vec_output_empty_input(b"+\x0b+");
    assert_eq!(inter.run(), Err(Error::UnexpectedByte(0x0b)));
}

#[test]
fn skipped_loop_is_not_validated() {
    let mut inter = Interpreter::vec_output_empty_input(b"[x[y]z.]+.");
    inter.run().unwrap();
    assert_eq!(inter.get_output(), [1]);
}

#[test]
fn trailing_open_loop_is_incomplete() {
    let mut inter = Interpreter::vec_output_empty_input(b"+[");
    assert_eq!(inter.run(), Err(Error::OpenLoopsRemain));
    // Nothing changes while no instruction is appended.
    assert_eq!(inter.step(), Err(Error::OpenLoopsRemain));
    assert_eq!(inter.run(), Err(Error::OpenLoopsRemain));
    inter.push_instruction_slice(b"-]+.");
    assert_eq!(inter.run(), Ok(()));
    assert_eq!(inter.get_output(), [1]);
}

#[test]
fn pending_skip_is_incomplete_until_the_loop_is_closed() {
    let mut inter = Interpreter::vec_output_empty_input(b"[[+.");
    assert_eq!(inter.run(), Err(Error::OpenLoopsRemain));
    assert_eq!(inter.run(), Err(Error::OpenLoopsRemain));
    inter.push_instruction(b']');
    // One of the two brackets is closed: the skip goes on.
    assert_eq!(inter.run(), Err(Error::OpenLoopsRemain));
    inter.push_instruction_slice(b"+.]");
    assert_eq!(inter.run(), Ok(()));
    inter.push_instruction_slice(b"++.");
    assert_eq!(inter.run(), Ok(()));
    assert_eq!(inter.get_output(), [2]);
}

#[test]
fn step_at_the_end_of_the_program_does_nothing() {
    let mut inter = Interpreter::vec_output_empty_input(b"+");
    assert_eq!(inter.step(), Ok(()));
    assert_eq!(inter.step(), Ok(()));
    assert_eq!(inter.step(), Ok(()));
    assert_eq!(inter.get_memory()[0], 1);
    assert_eq!(inter.run(), Ok(()));
}

#[test]
fn empty_program_succeeds() {
    let mut inter = Interpreter::vec_output_empty_input(b"");
    assert_eq!(inter.run(), Ok(()));
    assert_eq!(inter.get_output(), b"");
}

#[test]
fn endless_loop_runs_out_of_steps() {
    let mut inter = Interpreter::vec_output_empty_input(b"+[]");
    assert_eq!(inter.run_steps(1000), Err(Error::StepLimit));
    assert_eq!(inter.run_steps(0), Err(Error::StepLimit));
    assert_eq!(inter.get_memory()[0], 1);
}

#[test]
fn bounded_runs_add_up() {
    let mut inter = Interpreter::vec_output_empty_input(b"++++[>+<-]>.");
    assert_eq!(inter.run_steps(3), Err(Error::StepLimit));
    assert_eq!(inter.get_memory()[0], 3);
    assert_eq!(inter.run_steps(2), Err(Error::StepLimit));
    assert_eq!(inter.get_memory()[0], 4);
    assert_eq!(inter.run_steps(7), Err(Error::StepLimit));
    assert_eq!(&inter.get_memory()[..2], &[3, 1]);
    assert_eq!(inter.run_steps(1000), Ok(()));
    assert_eq!(inter.get_output(), [4]);
}

#[test]
fn loop_is_repeated_while_the_cell_is_not_zero() {
    let mut inter = Interpreter::vec_output_empty_input(b"+++[>++<-]>.");
    inter.run().unwrap();
    assert_eq!(inter.get_output(), [6]);
}

#[test]
fn nested_loops_multiply() {
    let mut inter = Interpreter::vec_output_empty_input(b"++[>+++[>++++<-]<-]>>.");
    inter.run().unwrap();
    assert_eq!(inter.get_output(), [24]);
}

#[test]
fn loop_stack_stays_on_the_heap_once_it_moved_there() {
    let mut inter = Interpreter::vec_output_empty_input(b"+[[[-]]]+");
    inter.run().unwrap();
    assert!(!inter.lives_on_stack());
    assert_eq!(inter.get_memory().len(), 16);
}

#[test]
fn two_open_loops_stay_inline() {
    let mut inter = Interpreter::vec_output_empty_input(b"+[[-]]+");
    inter.run().unwrap();
    assert!(inter.lives_on_stack());
}

#[test]
fn into_owned_keeps_the_machine_and_owns_the_program() {
    let inter = {
        let prog = b"++[>+".to_vec();
        let mut inter = Interpreter::vec_output_empty_input(&prog);
        assert_eq!(inter.run(), Err(Error::OpenLoopsRemain));
        assert!(inter.lives_on_stack());
        inter.into_owned()
    };
    let mut inter: Interpreter<'static, _, _> = inter;
    assert!(!inter.lives_on_stack());
    assert_eq!(&inter.get_memory()[..2], &[2, 1]);
    inter.push_instruction_slice(b"<-]>.");
    assert_eq!(inter.run(), Ok(()));
    assert_eq!(inter.get_output(), [2]);
}

#[test]
fn owned_program_is_not_inline() {
    let mut inter = Interpreter::with_custom_stack(
        Cow::from(b"++.".to_vec()),
        core::iter::empty(),
        Vec::new(),
    );
    assert!(!inter.lives_on_stack());
    inter.run().unwrap();
    assert_eq!(inter.get_output(), [2]);
    let inter = Interpreter::with_custom_stack(Cow::from(&b"++."[..]), core::iter::empty(), NoOutput);
    assert!(inter.lives_on_stack());
}

#[test]
fn appended_instructions_run_after_what_was_executed() {
    let mut inter = Interpreter::vec_output_empty_input(b"+.");
    inter.run().unwrap();
    inter.push_instruction(b'+');
    inter.push_instruction(b'.');
    inter.run().unwrap();
    inter.push_instructions_iter(b"+.".iter().copied());
    inter.run().unwrap();
    inter.push_instruction_slice(b"");
    inter.run().unwrap();
    assert_eq!(inter.get_output(), [1, 2, 3]);
}

#[test]
fn split_at_every_position_gives_the_same_output() {
    let whole = b"++>+++[<+>-]<[->+>[-]<<]>.[[-]..]<<+.[,.]>>>++[>++[>++<-]<-]>>.";
    let mut unsplit = Interpreter::vec_output_empty_input(whole);
    unsplit.run().unwrap();
    let expected = unsplit.get_output().to_vec();
    assert_eq!(expected, [5, 0, 0, 1, 0, 8]);
    for at in 0..=whole.len() {
        let mut split = Interpreter::vec_output_empty_input(&whole[..at]);
        match split.run() {
            Ok(()) | Err(Error::OpenLoopsRemain) => {},
            other => panic!("split at {}: {:?}", at, other),
        }
        split.push_instruction_slice(&whole[at..]);
        assert_eq!(split.run(), Ok(()));
        assert_eq!(split.get_output(), expected);
        assert_eq!(split.get_memory(), unsplit.get_memory());
    }
}

#[test]
fn request_tells_what_the_next_step_asks() {
    let mut inter = Interpreter::vec_output_empty_input(b"+,.[.]");
    assert_eq!(inter.request(), Request::Nothing);
    inter.apply(IDLE).unwrap();
    assert_eq!(inter.request(), Request::Input);
    inter.apply(Outside { pulled: Some(0), accepted: true }).unwrap();
    assert_eq!(inter.request(), Request::Output(0));
    inter.apply(IDLE).unwrap();
    assert_eq!(inter.request(), Request::Nothing);
    inter.apply(IDLE).unwrap();
    assert_eq!(inter.request(), Request::Nothing);
    assert_eq!(inter.apply(IDLE), Ok(()));
}

#[test]
fn request_reads_the_cell_under_the_pointer() {
    let mut prog = vec![b'>'; 16];
    prog.extend_from_slice(b".++.");
    let mut inter = Interpreter::vec_output_empty_input(&prog);
    for _ in 0..16 {
        inter.step().unwrap();
    }
    assert_eq!(inter.get_memory().len(), 116);
    assert_eq!(inter.request(), Request::Output(0));
    for _ in 0..3 {
        inter.step().unwrap();
    }
    assert_eq!(inter.request(), Request::Output(2));
    assert_eq!(inter.get_memory().len(), 116);
}

#[test]
fn apply_stores_what_was_pulled() {
    let mut inter = Interpreter::vec_output_empty_input(b",>,>+,");
    assert_eq!(inter.apply(Outside { pulled: Some(200), accepted: false }), Ok(()));
    inter.apply(IDLE).unwrap();
    assert_eq!(inter.apply(Outside { pulled: Some(1), accepted: true }), Ok(()));
    inter.apply(IDLE).unwrap();
    inter.apply(IDLE).unwrap();
    assert_eq!(&inter.get_memory()[..3], &[200, 1, 1]);
    assert_eq!(inter.apply(Outside { pulled: None, accepted: true }), Ok(()));
    assert_eq!(&inter.get_memory()[..3], &[200, 1, 0]);
}

#[test]
fn apply_does_not_touch_the_sink() {
    let mut inter = Interpreter::vec_output_empty_input(b"+.+.");
    inter.apply(IDLE).unwrap();
    assert_eq!(inter.apply(Outside { pulled: None, accepted: false }), Err(Error::Output));
    assert_eq!(inter.apply(Outside { pulled: None, accepted: true }), Ok(()));
    assert_eq!(inter.get_output(), b"");
    inter.run().unwrap();
    assert_eq!(inter.get_output(), [2]);
}

#[test]
fn no_output_takes_every_byte() {
    let mut sink = NoOutput;
    for byte in 0..=255u8 {
        assert!(sink.push_byte(byte).is_ok());
    }
    let mut inter = Interpreter::empty_input(b"+.[.+]", NoOutput);
    assert_eq!(inter.run(), Ok(()));
}

#[test]
fn vec_sink_keeps_every_byte() {
    let mut sink: Vec<u8> = vec![9];
    sink.push_byte(1).unwrap();
    {
        let mut by_reference = &mut sink;
        by_reference.push_byte(2).unwrap();
    }
    assert_eq!(sink, [9, 1, 2]);
    {
        let mut inter = Interpreter::empty_input(b"+++.", &mut sink);
        inter.run().unwrap();
    }
    assert_eq!(sink, [9, 1, 2, 3]);
}

#[test]
fn messages_describe_the_errors() {
    assert_eq!(Error::Output.message(), "Error writing to output");
    assert_eq!(Error::MissingOpenLoop.message(), "Missing open '[' for ']'");
    assert_eq!(Error::OpenLoopsRemain.message(), "EOF reached with loops still open");
    assert_eq!(Error::StepLimit.message(), "Step limit reached with instructions left");
}

#[test]
fn message_shows_the_unexpected_byte_as_character_and_number() {
    assert_eq!(Error::UnexpectedByte(b'x').message(), "Got unexpected instruction 'x' (120)");
    assert_eq!(Error::UnexpectedByte(b'7').message(), "Got unexpected instruction '7' (55)");
    assert_eq!(Error::UnexpectedByte(0).message(), "Got unexpected instruction '\0' (0)");
    assert_eq!(Error::UnexpectedByte(9).message(), "Got unexpected instruction '\t' (9)");
    assert_eq!(Error::UnexpectedByte(10).message(), "Got unexpected instruction '\n' (10)");
    assert_eq!(Error::UnexpectedByte(100).message(), "Got unexpected instruction 'd' (100)");
    assert_eq!(Error::UnexpectedByte(255).message(), "Got unexpected instruction '\u{ff}' (255)");
}
