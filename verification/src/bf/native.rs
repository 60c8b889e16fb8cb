//! The decisions of a native build: which files it uses, what is done in
//! which order, and what the end of the executable means.
//!
//! Nothing here touches a file or a process. A caller performs each
//! [`Command`] and reports back with an [`Event`]; [`Driver::next`] says what
//! comes next. Whatever happens on the way, the files of the build are
//! removed before a result is returned.

use vstd::prelude::*;
use vstd::pervasive::unreached;
use vstd::string::*;
use rand::distributions::Alphanumeric;
use rand::Rng;
use std::time::Duration;
use crate::bf::fold;
use crate::bf::transpiler::{rust_source, translate};
use crate::brackets::{of_bytes, verdict};
use crate::text::{chars, push_char};
use crate::{Error, RuntimeError};

verus! {

/// The exit code by which a generated program says that its input ran out.
pub const EXIT_INPUT: u32 = 10;

/// How many random characters a temporary name ends with.
pub const SUFFIX_LEN: usize = 14;

/// A digit or an unaccented Latin letter.
pub open spec fn is_alphanumeric(c: char) -> bool {
    ('0' <= c && c <= '9') || ('A' <= c && c <= 'Z') || ('a' <= c && c <= 'z')
}

/// One random character.
///
/// Wraps `Rng::sample` of the `rand` crate, on the generator that
/// `rand::thread_rng` hands out, with the `Alphanumeric` distribution, which
/// draws from the 62 characters `A`-`Z`, `a`-`z` and `0`-`9`. Which of them
/// comes is left open. It is taken for granted that the operating system can
/// seed the generator.
#[verifier::external_body]
fn sample_alphanumeric() -> (c: char)
    ensures
        is_alphanumeric(c),
{
    rand::thread_rng().sample(Alphanumeric)
}

/// A temporary name: `bf`, then `SUFFIX_LEN` digits or letters.
pub open spec fn is_temp_name(name: Seq<char>) -> bool {
    &&& name.len() == 2 + SUFFIX_LEN
    &&& name[0] == 'b'
    &&& name[1] == 'f'
    &&& forall|i: int| 2 <= i < name.len() ==> is_alphanumeric(#[trigger] name[i])
}

/// Draws a temporary name.
pub fn temp_name() -> (name: String)
    ensures
        is_temp_name(name@),
{
    let mut name = String::new();
    push_char(&mut name, 'b');
    push_char(&mut name, 'f');
    let mut k: usize = 0;
    while k < SUFFIX_LEN
        invariant
            k <= SUFFIX_LEN,
            name@.len() == 2 + k,
            name@[0] == 'b',
            name@[1] == 'f',
            forall|i: int| 2 <= i < name@.len() ==> is_alphanumeric(#[trigger] name@[i]),
        decreases SUFFIX_LEN - k,
    {
        push_char(&mut name, sample_alphanumeric());
        k += 1;
    }
    name
}

/// The file that holds the generated source: the name, then `.rs`.
pub open spec fn source_file(name: Seq<char>) -> Seq<char> {
    name + ".rs"@
}

/// The path by which the executable is launched and removed: the name in the
/// current directory, on Windows with `.exe` behind it.
pub open spec fn executable(name: Seq<char>, windows: bool) -> Seq<char> {
    if windows {
        ".\\"@ + name + ".exe"@
    } else {
        "./"@ + name
    }
}

/// The compiler's first argument: build optimized.
pub open spec fn optimize() -> Seq<char> {
    "-Copt-level=3"@
}

/// A character that counts as whitespace at the end of the output.
pub open spec fn is_space(c: char) -> bool {
    let u = c as u32;
    (0x09 <= u && u <= 0x0d) || u == 0x20 || u == 0x85 || u == 0xa0 || u == 0x1680 || (0x2000 <= u
        && u <= 0x200a) || u == 0x2028 || u == 0x2029 || u == 0x202f || u == 0x205f || u == 0x3000
}

/// A text without the whitespace at its end.
pub open spec fn trimmed(text: Seq<char>) -> Seq<char>
    decreases text.len(),
{
    if text.len() > 0 && is_space(text.last()) {
        trimmed(text.drop_last())
    } else {
        text
    }
}

/// Whether `c` counts as whitespace.
pub fn space(c: char) -> (r: bool)
    ensures
        r == is_space(c),
{
    let u: u32 = c as u32;
    (0x09 <= u && u <= 0x0d) || u == 0x20 || u == 0x85 || u == 0xa0 || u == 0x1680 || (0x2000 <= u
        && u <= 0x200a) || u == 0x2028 || u == 0x2029 || u == 0x202f || u == 0x205f || u == 0x3000
}

/// Removes the whitespace at the end of a text.
pub fn trim_end(text: &str) -> (r: String)
    ensures
        r@ == trimmed(text@),
{
    let mut kept = String::new();
    let mut held = String::new();
    for c in it: text.chars()
        invariant
            it.seq() == text@,
            kept@ + held@ == text@.take(it.index() as int),
            kept@ == trimmed(text@.take(it.index() as int)),
            forall|i: int| 0 <= i < held@.len() ==> is_space(#[trigger] held@[i]),
            kept@.len() > 0 ==> !is_space(kept@.last()),
    {
        let ghost k = it.index() as int;
        proof {
            assert(text@.take(k + 1).drop_last() =~= text@.take(k));
        }
        if space(c) {
            push_char(&mut held, c);
        } else {
            kept.append(held.as_str());
            push_char(&mut kept, c);
            held = String::new();
        }
    }
    proof {
        assert(text@.take(text@.len() as int) =~= text@);
    }
    kept
}

/// The result `r` is what exit code `code` means after `stdout` was written.
pub open spec fn exit_means(code: u32, stdout: Seq<char>, r: Result<String, Error>) -> bool {
    if code == 0 {
        r matches Ok(text) && text@ == trimmed(stdout)
    } else if code == EXIT_INPUT {
        r matches Err(Error::Runtime(RuntimeError::InputTooShort))
    } else {
        r matches Err(Error::Runtime(RuntimeError::OutOfMemoryBounds))
    }
}

/// What the end of the executable means: exit code 0 is success, and the
/// result is what it wrote, without the whitespace at the end; `EXIT_INPUT`
/// says that the input ran out; any other code, that the data pointer left
/// the tape.
pub fn classify(code: u32, stdout: &str) -> (r: Result<String, Error>)
    ensures
        exit_means(code, stdout@, r),
{
    if code == 0 {
        Ok(trim_end(stdout))
    } else if code == EXIT_INPUT {
        Err(Error::Runtime(RuntimeError::InputTooShort))
    } else {
        Err(Error::Runtime(RuntimeError::OutOfMemoryBounds))
    }
}

/// What the caller reports back.
pub enum Event {
    /// The source file was written.
    Written,
    /// The compiler has ended; `diagnostics` is what it wrote to its error
    /// stream.
    Compiled { success: bool, diagnostics: String },
    /// The executable has ended with an exit code; `stdout` is what it wrote.
    Exited { code: u32, stdout: String },
    /// The executable has ended without an exit code.
    Killed,
    /// The time limit has passed and the executable still runs.
    Overdue,
    /// The executable was terminated.
    Stopped,
    /// The files were removed.
    Removed,
    /// The command could not be carried out.
    Failed(subprocess::PopenError),
}

/// What the caller is to do.
pub enum Command {
    /// Write `text` to the file `file`.
    Write { file: String, text: String },
    /// Call the compiler with these arguments.
    Compile { args: Vec<String> },
    /// Launch the executable, and wait for its end no longer than `limit`.
    Launch { exe: String, limit: Option<Duration> },
    /// Terminate the executable.
    Terminate,
    /// Remove the source file and the executable.
    Remove { source: String, exe: String },
}

/// The command that the driver waits on.
pub enum Stage {
    /// The source file is being written.
    Writing,
    /// The compiler runs.
    Compiling,
    /// The executable runs.
    Running,
    /// The executable is being terminated: its time was up.
    Stopping,
    /// The files are being removed; the run has ended with this result.
    Removing(Result<String, Error>),
}

/// A native build under way.
pub struct Driver {
    /// The temporary name that the files of the build go by.
    pub name: String,
    /// Whether executables are named as on Windows.
    pub windows: bool,
    /// The time that the executable may take, if it is limited.
    pub limit: Option<Duration>,
    /// What is being done.
    pub stage: Stage,
}

/// What `Driver::next` decides.
pub enum Turn {
    /// The build goes on with this command.
    Do(Driver, Command),
    /// The build is over.
    Return(Result<String, Error>),
}

/// The events that a stage waits for.
pub open spec fn awaits(stage: Stage, event: Event) -> bool {
    match stage {
        Stage::Writing => event is Written || event is Failed,
        Stage::Compiling => event is Compiled || event is Failed,
        Stage::Running => event is Exited || event is Killed || event is Overdue || event
            is Failed,
        Stage::Stopping => event is Stopped || event is Failed,
        Stage::Removing(_) => event is Removed || event is Failed,
    }
}

/// How many commands a stage is from the end, at most.
pub open spec fn rank(stage: Stage) -> nat {
    match stage {
        Stage::Writing => 5,
        Stage::Compiling => 4,
        Stage::Running => 3,
        Stage::Stopping => 2,
        Stage::Removing(_) => 1,
    }
}

/// The command asks for the removal of the files of `name`.
pub open spec fn removes(c: Command, name: Seq<char>, windows: bool) -> bool {
    c matches Command::Remove { source, exe } && source@ == source_file(name) && exe@
        == executable(name, windows)
}

/// The driver `d` goes on under the name and the settings of `from`, in
/// stage `stage`.
pub open spec fn goes_on(d: Driver, from: Driver, stage: Stage) -> bool {
    d.name@ == from.name@ && d.windows == from.windows && d.limit == from.limit && d.stage == stage
}

/// The turn ends the run with `result`: it removes the files and remembers
/// the result for the time when they are gone.
pub open spec fn ends_with(t: Turn, from: Driver, result: Result<String, Error>) -> bool {
    t matches Turn::Do(d, c) && goes_on(d, from, Stage::Removing(result)) && removes(
        c,
        from.name@,
        from.windows,
    )
}

/// The result that a turn has put by for the time when the files are gone.
pub open spec fn recorded(t: Turn) -> Option<Result<String, Error>> {
    match t {
        Turn::Do(d, _) => match d.stage {
            Stage::Removing(result) => Some(result),
            _ => None,
        },
        Turn::Return(_) => None,
    }
}

/// The command asks for `text` to be written to the source file of `name`.
pub open spec fn writes(c: Command, name: Seq<char>, text: Seq<char>) -> bool {
    c matches Command::Write { file, text: t } && file@ == source_file(name) && t@ == text
}

impl Driver {
    /// The file name of the generated source.
    pub fn source_file(&self) -> (file: String)
        ensures
            file@ == source_file(self.name@),
    {
        let mut file = self.name.clone();
        file.append(".rs");
        file
    }

    /// The path of the executable.
    pub fn executable(&self) -> (exe: String)
        ensures
            exe@ == executable(self.name@, self.windows),
    {
        if self.windows {
            let mut exe = String::from_str(".\\");
            exe.append(self.name.as_str());
            exe.append(".exe");
            exe
        } else {
            let mut exe = String::from_str("./");
            exe.append(self.name.as_str());
            exe
        }
    }

    /// Whether the driver waits for `event`.
    pub fn accepts(&self, event: &Event) -> (r: bool)
        ensures
            r == awaits(self.stage, *event),
    {
        match (&self.stage, event) {
            (_, Event::Failed(_)) => true,
            (Stage::Writing, Event::Written) => true,
            (Stage::Compiling, Event::Compiled { .. }) => true,
            (Stage::Running, Event::Exited { .. }) => true,
            (Stage::Running, Event::Killed) => true,
            (Stage::Running, Event::Overdue) => true,
            (Stage::Stopping, Event::Stopped) => true,
            (Stage::Removing(_), Event::Removed) => true,
            _ => false,
        }
    }

    /// Begins a build of `code` under `name`: the first command writes the
    /// source file.
    pub fn begin(code: String, name: String, windows: bool, limit: Option<Duration>) -> (r: (
        Driver,
        Command,
    ))
        ensures
            r.0.name@ == name@,
            r.0.windows == windows,
            r.0.limit == limit,
            r.0.stage is Writing,
            writes(r.1, name@, code@),
    {
        let d = Driver { name, windows, limit, stage: Stage::Writing };
        let file = d.source_file();
        (d, Command::Write { file, text: code })
    }

    /// Closes the run with `result`: the files are removed next.
    fn finish(self, result: Result<String, Error>) -> (t: Turn)
        ensures
            ends_with(t, self, result),
    {
        let source = self.source_file();
        let exe = self.executable();
        let d = Driver {
            name: self.name,
            windows: self.windows,
            limit: self.limit,
            stage: Stage::Removing(result),
        };
        Turn::Do(d, Command::Remove { source, exe })
    }

    /// Decides what follows `event`.
    ///
    /// After the source is written the compiler is called, with the
    /// optimizing flag and the source file. If it fails, the run ends with
    /// its diagnostics as a compile error; else the executable is launched.
    /// Its exit code is read as `classify` says; an end without an exit code
    /// is a signal error. Where the time limit passes first, the executable
    /// is terminated and the run ends as timed out. A command that could not
    /// be carried out ends the run with the error of the process layer.
    ///
    /// However the run ends, the files are removed before the result is
    /// returned. If that fails, the failure is returned in place of a
    /// success, and a failure that the run had already ended with stays.
    pub fn next(self, event: Event) -> (t: Turn)
        requires
            awaits(self.stage, event),
        ensures
            t is Return <==> self.stage is Removing,
            t matches Turn::Do(d, c) ==> rank(d.stage) < rank(self.stage) && (d.stage is Removing
                <==> c is Remove),
            match (self.stage, event) {
                (Stage::Writing, Event::Written) => t matches Turn::Do(d, Command::Compile { args })
                    && goes_on(d, self, Stage::Compiling) && args@.len() == 2 && args@[0]@
                    == optimize() && args@[1]@ == source_file(self.name@),
                (Stage::Compiling, Event::Compiled { success, diagnostics }) => if success {
                    t matches Turn::Do(d, Command::Launch { exe, limit }) && goes_on(
                        d,
                        self,
                        Stage::Running,
                    ) && exe@ == executable(self.name@, self.windows) && limit == self.limit
                } else {
                    ends_with(t, self, Err(Error::Compile(diagnostics)))
                },
                (Stage::Running, Event::Exited { code, stdout }) => recorded(t) matches Some(result)
                    && ends_with(t, self, result) && exit_means(code, stdout@, result),
                (Stage::Running, Event::Killed) => ends_with(
                    t,
                    self,
                    Err(Error::Runtime(RuntimeError::Signal)),
                ),
                (Stage::Running, Event::Overdue) => t matches Turn::Do(d, Command::Terminate)
                    && goes_on(d, self, Stage::Stopping),
                (Stage::Stopping, _) => ends_with(t, self, Err(Error::Timeout)),
                (Stage::Removing(result), Event::Removed) => t == Turn::Return(result),
                (Stage::Removing(result), Event::Failed(e)) => t == Turn::Return(
                    if result is Ok {
                        Err(Error::Subprocess(e))
                    } else {
                        result
                    },
                ),
                (_, Event::Failed(e)) => ends_with(t, self, Err(Error::Subprocess(e))),
                _ => true,
            },
    {
        match self.stage {
            Stage::Removing(result) => match event {
                Event::Failed(e) => match result {
                    Ok(_) => Turn::Return(Err(Error::Subprocess(e))),
                    Err(first) => Turn::Return(Err(first)),
                },
                _ => Turn::Return(result),
            },
            Stage::Stopping => self.finish(Err(Error::Timeout)),
            Stage::Writing => match event {
                Event::Failed(e) => self.finish(Err(Error::Subprocess(e))),
                _ => {
                    let mut args: Vec<String> = Vec::new();
                    args.push(String::from_str("-Copt-level=3"));
                    args.push(self.source_file());
                    let d = Driver {
                        name: self.name,
                        windows: self.windows,
                        limit: self.limit,
                        stage: Stage::Compiling,
                    };
                    Turn::Do(d, Command::Compile { args })
                },
            },
            Stage::Compiling => match event {
                Event::Compiled { success, diagnostics } => {
                    if success {
                        let exe = self.executable();
                        let limit = self.limit;
                        let d = Driver {
                            name: self.name,
                            windows: self.windows,
                            limit: self.limit,
                            stage: Stage::Running,
                        };
                        Turn::Do(d, Command::Launch { exe, limit })
                    } else {
                        self.finish(Err(Error::Compile(diagnostics)))
                    }
                },
                Event::Failed(e) => self.finish(Err(Error::Subprocess(e))),
                _ => unreached(),
            },
            Stage::Running => match event {
                Event::Exited { code, stdout } => {
                    let result = classify(code, stdout.as_str());
                    self.finish(result)
                },
                Event::Killed => self.finish(Err(Error::Runtime(RuntimeError::Signal))),
                Event::Overdue => {
                    let d = Driver {
                        name: self.name,
                        windows: self.windows,
                        limit: self.limit,
                        stage: Stage::Stopping,
                    };
                    Turn::Do(d, Command::Terminate)
                },
                Event::Failed(e) => self.finish(Err(Error::Subprocess(e))),
                _ => unreached(),
            },
        }
    }
}

/// Prepares the native build of a source text: checks and folds it, renders
/// it as Rust source, draws a temporary name, and asks for the source file
/// to be written.
///
/// A text with an unmatched bracket is refused with the index that
/// `check_brackets` reports, before any file is named.
pub fn prepare(program: &str, input: Option<String>, time: Option<Duration>, windows: bool) -> (r:
    Result<(Driver, Command), Error>)
    ensures
        match verdict(of_bytes(program.spec_bytes())) {
            Some(i) => r matches Err(Error::Syntax(p)) && p == i,
            None => r matches Ok((d, c)) && is_temp_name(d.name@) && d.windows == windows
                && d.limit == time && d.stage is Writing && writes(
                c,
                d.name@,
                rust_source(fold(program.spec_bytes()), chars(input)),
            ),
        },
{
    match translate(program, input) {
        Ok(code) => Ok(Driver::begin(code, temp_name(), windows, time)),
        Err(e) => Err(e),
    }
}

} // verus!
