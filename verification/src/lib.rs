//! Runs brainfuck programs non-interactively.
//!
//! A program is checked for unmatched brackets, folded into a sequence of
//! [`bf::Instruction`]s and then either interpreted on a bounded byte tape or
//! rendered as Rust source text for a native build. The entry point is the
//! [`Exec`] builder.

use vstd::prelude::*;
use vstd::string::*;
use vstd::utf8::encode_utf8;
use std::path::PathBuf;
use std::time::Duration;
use crate::bf::interpreter::{input_bytes, runs_as};
use crate::bf::transpiler::rust_source;
use crate::bf::{fold, COMMA};
use crate::brackets::{of_bytes, verdict};
use crate::text::{chars, decimal, push_decimal};

pub mod bf;
pub mod brackets;
pub mod clock;
pub mod laws;
pub mod text;

verus! {

/// Possible runtime errors encountered while running the program.
#[derive(Debug, PartialEq, Eq, Structural, Clone, Copy)]
pub enum RuntimeError {
    /// The data pointer was moved outside the tape.
    OutOfMemoryBounds,
    /// A read was executed with no input byte left.
    InputTooShort,
    /// The native executable ended without an exit code.
    Signal,
}

/// Possible errors encountered while running the program.
#[derive(Debug)]
pub enum Error {
    /// The compiler rejected the generated source; holds its diagnostics.
    Compile(String),
    /// The program itself failed while running.
    Runtime(RuntimeError),
    /// The process layer failed.
    Subprocess(subprocess::PopenError),
    /// Unmatched bracket at this index.
    Syntax(usize),
    /// The configured deadline elapsed before the program finished.
    Timeout,
}

/// Makes the error type of the `subprocess` crate known to the verifier. It is
/// carried through as an opaque value; nothing is claimed of its contents.
#[verifier::external_type_specification]
#[verifier::external_body]
pub struct ExPopenError(subprocess::PopenError);

/// Makes `std::path::PathBuf` known to the verifier, as an opaque value.
#[verifier::external_type_specification]
#[verifier::external_body]
pub struct ExPathBuf(PathBuf);

/// The words of an error of the process layer. Wraps the `Display` of
/// `subprocess::PopenError`, through `to_string`; nothing is claimed of the
/// text.
#[verifier::external_body]
fn describe(e: &subprocess::PopenError) -> String {
    e.to_string()
}

impl RuntimeError {
    /// The words for this error.
    pub open spec fn words(self) -> Seq<char> {
        match self {
            RuntimeError::OutOfMemoryBounds => "access memory out of bounds"@,
            RuntimeError::InputTooShort => "input was not long enough"@,
            RuntimeError::Signal => "executable was probably killed by a signal"@,
        }
    }

    /// A message for the user.
    pub fn message(&self) -> (s: String)
        ensures
            s@ == self.words(),
    {
        match self {
            RuntimeError::OutOfMemoryBounds => String::from_str("access memory out of bounds"),
            RuntimeError::InputTooShort => String::from_str("input was not long enough"),
            RuntimeError::Signal => String::from_str("executable was probably killed by a signal"),
        }
    }
}

/// What every message begins with.
pub open spec fn preamble() -> Seq<char> {
    "Error, I didn't quite get that.\n"@
}

impl Error {
    /// A message for the user: the preamble, then what went wrong. The
    /// message of a process-layer error ends with that layer's own words for
    /// it, whatever they are.
    pub fn message(&self) -> (s: String)
        ensures
            match *self {
                Error::Compile(d) => s@ == preamble() + "rustc error: "@ + d@,
                Error::Runtime(e) => s@ == preamble() + "Runtime error: "@ + e.words(),
                Error::Subprocess(_) => exists|detail: Seq<char>|
                    s@ == preamble() + "rustc error: "@ + detail,
                Error::Syntax(p) => s@ == preamble() + "Unmatched bracket at "@ + decimal(p as nat)
                    + "."@,
                Error::Timeout => s@ == preamble() + "Executable timed out."@,
            },
    {
        let mut s = String::from_str("Error, I didn't quite get that.\n");
        match self {
            Error::Compile(d) => {
                s.append("rustc error: ");
                s.append(d.as_str());
            },
            Error::Runtime(e) => {
                s.append("Runtime error: ");
                let words = e.message();
                s.append(words.as_str());
            },
            Error::Subprocess(e) => {
                s.append("rustc error: ");
                let detail = describe(e);
                s.append(detail.as_str());
                assert(s@ =~= preamble() + "rustc error: "@ + detail@);
            },
            Error::Syntax(p) => {
                s.append("Unmatched bracket at ");
                push_decimal(&mut s, *p as u128);
                s.append(".");
            },
            Error::Timeout => {
                s.append("Executable timed out.");
            },
        }
        s
    }
}

/// Looks for unmatched brackets.
///
/// Fails with the index of the first `]` that closes nothing, or, when every
/// `]` is matched, with the index of the innermost `[` left open.
pub fn check_brackets(prog: &str) -> (r: Result<(), Error>)
    ensures
        match verdict(of_bytes(prog.spec_bytes())) {
            Some(i) => r matches Err(Error::Syntax(p)) && p == i,
            None => r is Ok,
        },
{
    let bytes = prog.as_bytes();
    match brackets::check_bytes(bytes) {
        Some(i) => Err(Error::Syntax(i)),
        None => Ok(()),
    }
}

/// Checks if the program will try to read user input: whether its text
/// holds a `,`.
pub fn wants_input(program: &str) -> (r: bool)
    ensures
        r <==> program.spec_bytes().contains(COMMA),
{
    let bytes = program.as_bytes();
    let mut i: usize = 0;
    while i < bytes.len()
        invariant
            i <= bytes.len(),
            bytes@ == program.spec_bytes(),
            forall|k: int| 0 <= k < i ==> bytes[k] != COMMA,
        decreases bytes.len() - i,
    {
        if bytes[i] == COMMA {
            return true;
        }
        i += 1;
    }
    false
}

/// Interface for running brainfuck code.
///
/// `prog` returns an instance with the default options: no input, no
/// timeout, no temporary directory. `input`, `timeout` and `tmpdir` change
/// them; the program is then run by `interpret`, or rendered by `translate`.
pub struct Exec {
    program: String,
    input: Option<String>,
    time: Option<Duration>,
    tmp_path: Option<PathBuf>,
}

impl Exec {
    /// The source text to run.
    pub closed spec fn source(&self) -> Seq<char> {
        self.program@
    }

    /// The bytes of the source text.
    pub open spec fn source_bytes(&self) -> Seq<u8> {
        encode_utf8(self.source())
    }

    /// The input that the program will read, if any.
    pub closed spec fn given(&self) -> Option<Seq<char>> {
        chars(self.input)
    }

    /// The time that a run may take, if it is limited.
    pub closed spec fn limit(&self) -> Option<Duration> {
        self.time
    }

    /// The directory for the files of a native build, if one is set.
    pub closed spec fn dir(&self) -> Option<PathBuf> {
        self.tmp_path
    }

    /// Constructs a new `Exec`, configured to run `prog`. By default it will
    /// be run without input, timeout or temporary directory.
    pub fn prog(prog: &str) -> (e: Exec)
        ensures
            e.source() == prog@,
            e.given() is None,
            e.limit() is None,
            e.dir() is None,
    {
        Exec { program: String::from_str(prog), input: None, time: None, tmp_path: None }
    }

    /// Sets the input for the program.
    pub fn input(self, input: Option<String>) -> (e: Exec)
        ensures
            e.given() == chars(input),
            e.source() == self.source(),
            e.limit() == self.limit(),
            e.dir() == self.dir(),
    {
        Exec { input, ..self }
    }

    /// Sets the timeout for the program.
    pub fn timeout(self, time: Option<Duration>) -> (e: Exec)
        ensures
            e.limit() == time,
            e.source() == self.source(),
            e.given() == self.given(),
            e.dir() == self.dir(),
    {
        Exec { time, ..self }
    }

    /// Sets the temporary file path for a native build.
    pub fn tmpdir(self, tmp_path: Option<PathBuf>) -> (e: Exec)
        ensures
            e.dir() == tmp_path,
            e.source() == self.source(),
            e.given() == self.given(),
            e.limit() == self.limit(),
    {
        Exec { tmp_path, ..self }
    }

    /// Takes the configuration apart: source text, input, timeout and
    /// temporary directory.
    pub fn into_parts(self) -> (parts: (String, Option<String>, Option<Duration>, Option<PathBuf>))
        ensures
            parts.0@ == self.source(),
            chars(parts.1) == self.given(),
            parts.2 == self.limit(),
            parts.3 == self.dir(),
    {
        (self.program, self.input, self.time, self.tmp_path)
    }

    /// Runs the program with the interpreter, returning the output or an
    /// `Error`.
    ///
    /// A text with an unmatched bracket is refused with the index that
    /// `check_brackets` reports. Any other text is folded and run on the
    /// input: the result is what the program printed, or the runtime error
    /// at which it stopped. With a timeout set, a run that gets as far as
    /// executing an instruction may instead end as `Error::Timeout`.
    pub fn interpret(self) -> (r: Result<String, Error>)
        ensures
            match verdict(of_bytes(self.source_bytes())) {
                Some(i) => r matches Err(Error::Syntax(p)) && p == i,
                None => runs_as(
                    r,
                    fold(self.source_bytes()),
                    input_bytes(self.given()),
                    self.limit() is Some,
                ),
            },
    {
        bf::interpreter::run(self.program.as_str(), self.input, self.time)
    }

    /// Translates the program to Rust code.
    ///
    /// A text with an unmatched bracket is refused with the index that
    /// `check_brackets` reports; every other text is rendered, together with
    /// the input.
    pub fn translate(&self) -> (r: Result<String, Error>)
        ensures
            match verdict(of_bytes(self.source_bytes())) {
                Some(i) => r matches Err(Error::Syntax(p)) && p == i,
                None => r matches Ok(code) && code@ == rust_source(
                    fold(self.source_bytes()),
                    self.given(),
                ),
            },
    {
        let input = match &self.input {
            Some(text) => Some(text.clone()),
            None => None,
        };
        bf::transpiler::translate(self.program.as_str(), input)
    }
}

} // verus!
