use brainfck::{
    Interpreter, NoOutput, Writer, DEFAULT_LOOP_STACK_SIZE, DEFAULT_MEM_SIZE, DEFAULT_PROGRAM_SIZE,
};
use tiny_vec::{n_elements_for_stack, Cow, TinyVec};

const OPEN_LOOPS_TINY_SIZE: usize = DEFAULT_LOOP_STACK_SIZE;

/// A sink that keeps its bytes in a `TinyVec` with ten inline slots.
struct TinySink(TinyVec<u8, 10>);

impl Writer for TinySink {
    type Error = core::convert::Infallible;

    fn push_byte(&mut self, byte: u8) -> Result<(), Self::Error> {
        self.0.push(byte);
        Ok(())
    }
}

#[test]
fn no_std_test() {
    let ins = b"++++[>+<-]>.";

    let mut out = TinySink(TinyVec::<_, 10>::new());
    let mut interpre = Interpreter::new(&[], [].iter().copied(), &mut out);

    interpre.push_instructions_iter(ins.iter().copied());
    interpre.run().unwrap();

    assert_eq!(out.0, [4]);
}

#[test]
fn custom_size_no_panic() {
    let ins = b"++++[>+<-]>.>>>>>>>>>>>>>>>>>>>>>>>>>>>>>>>>>>>>>>>>>>>>>>>>>>>>>>>>>>>>>>>>>>>>>>>>>>>>>>>>>>>>>>>>>>>>>>>>>>>";

    let mut out = TinySink(TinyVec::<_, 10>::new());
    let mut interpre =
        Interpreter::with_custom_stack(Cow::from(&[][..]), [].iter().copied(), &mut out);

    interpre.push_instructions_iter(ins.iter().copied());
    interpre.run().unwrap();

    assert_eq!(out.0, [4]);
}

#[test]
fn test_no_std_tiny_vec_test_loops() {
    let prog = b"+[[[[[-]]]]]";

    let mut inter =
        Interpreter::with_custom_stack(Cow::from(&prog[..]), [].iter().copied(), NoOutput);

    inter.step().unwrap(); // the '+'
    for _ in 0..OPEN_LOOPS_TINY_SIZE {
        inter.step().unwrap();
    }
}

#[test]
fn inline_sizes_cost_no_more_than_a_vector_on_the_heap() {
    assert_eq!(DEFAULT_MEM_SIZE, n_elements_for_stack::<u8>());
    assert_eq!(DEFAULT_PROGRAM_SIZE, n_elements_for_stack::<u8>());
    assert_eq!(DEFAULT_LOOP_STACK_SIZE, n_elements_for_stack::<usize>());
}
