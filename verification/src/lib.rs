//! An interpreter for the eight-instruction tape language known as brainfuck.
//!
//! The program is held in a copy-on-write buffer that may be extended between
//! runs, even while the interpreter is in the middle of skipping a loop. The
//! tape and the stack of open loops start in fixed inline storage and move to
//! the heap only when they outgrow it.
//!
//! [`machine`] holds the mathematical model of the interpreter: its state, one
//! step, and a run. [`Interpreter`] is the executable engine, verified against
//! that model. [`laws`], [`brackets`] and [`resume`] hold what is proved of
//! the model. [`storage`] is the boundary to the `tiny_vec` crate, which
//! keeps the tape, the open loops and the program.
//!
//! # Example
//! ```
//! use brainfck::Interpreter;
//!
//! let hello_world = b">+++++++++[<++++++++>-]<.>+++++++[<++++>-]<+.+++++++..+++.[-]
//! >++++++++[<++++>-] <.>+++++++++++[<++++++++>-]<-.--------.+++
//! .------.--------.[-]>++++++++[<++++>- ]<+.[-]++++++++++.";
//!
//! let mut interpreter = Interpreter::vec_output_empty_input(hello_world);
//! interpreter.run().unwrap();
//!
//! assert_eq!(interpreter.get_output(), b"Hello world!\n");
//! ```
//!
//! A program may come in parts. A run that reaches the end of what is there
//! with a loop open reports [`Error::OpenLoopsRemain`]; more instructions
//! are appended, and the next run goes on from there.
//! ```
//! use brainfck::{Error, Interpreter};
//!
//! let mut interpreter = Interpreter::vec_output_empty_input(b"++[>+++");
//! assert_eq!(interpreter.run(), Err(Error::OpenLoopsRemain));
//! interpreter.push_instruction_slice(b"<-]>.");
//! assert_eq!(interpreter.run(), Ok(()));
//! assert_eq!(interpreter.get_output(), [6]);
//! ```

pub mod brackets;
pub mod error;
pub mod interpreter;
pub mod laws;
pub mod machine;
pub mod resume;

pub mod storage;
pub mod writer;

pub use error::Error;
pub use interpreter::Interpreter;

pub use machine::{
    Outside, Request, DEFAULT_LOOP_STACK_SIZE, DEFAULT_MEM_SIZE, DEFAULT_PROGRAM_SIZE, TAPE_CHUNK,
};
pub use writer::{NoOutput, Writer};
