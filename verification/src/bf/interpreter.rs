//! The jump table and the tape interpreter.

use vstd::prelude::*;
use vstd::string::*;
use vstd::utf8::encode_utf8;
use std::collections::HashMap;
use std::time::Duration;
use crate::bf::{firstpass, fold, Instruction};
use crate::brackets::{
    indices, lemma_pairs_matched, lemma_stray_stays, of_bytes, of_insts, pairs, scan, verdict, Scan,
};
use crate::clock;
use crate::laws::lemma_validator_agrees_with_jump_table;
use crate::text::{chars, chars_of, text_of};
use crate::{check_brackets, Error, RuntimeError};

verus! {

broadcast use vstd::std_specs::hash::group_hash_axioms;

/// The number of cells on the tape.
pub const TAPE_LEN: usize = 30000;

/// The number of instructions after which a run is given up as timed out.
/// No machine gets that far; the bound is what lets every run be shown to end.
pub const STEP_LIMIT: u64 = 0xffff_ffff_ffff_ffff;

/// The interpreter between two instructions.
pub struct State {
    /// The tape, `TAPE_LEN` cells.
    pub tape: Seq<u8>,
    /// The data pointer.
    pub cell: int,
    /// The instruction pointer.
    pub at: int,
    /// How many input bytes have been consumed.
    pub taken: int,
    /// What has been printed so far.
    pub printed: Seq<u8>,
}

/// What one instruction leads to.
pub enum Step {
    /// The run goes on from this state.
    Next(State),
    /// The instruction pointer has left the program: the run is over.
    Done,
    /// The run has failed.
    Fault(RuntimeError),
}

/// The state in which every run begins: a tape of zeros, both pointers at
/// zero, nothing consumed, nothing printed.
pub open spec fn start() -> State {
    State {
        tape: Seq::new(TAPE_LEN as nat, |i: int| 0u8),
        cell: 0,
        at: 0,
        taken: 0,
        printed: Seq::empty(),
    }
}

/// A cell after `d` has been added to it, modulo 256.
pub open spec fn wrap(cell: u8, d: int) -> u8 {
    ((cell + d) % 256) as u8
}

/// One instruction of `insts`, taken in state `s`.
pub open spec fn step(
    insts: Seq<Instruction>,
    jumps: Map<usize, usize>,
    input: Seq<u8>,
    s: State,
) -> Step {
    if !(0 <= s.at < insts.len()) {
        Step::Done
    } else {
        match insts[s.at] {
            Instruction::Move(d) => if 0 <= s.cell + d < TAPE_LEN {
                Step::Next(State { cell: s.cell + d, at: s.at + 1, ..s })
            } else {
                Step::Fault(RuntimeError::OutOfMemoryBounds)
            },
            Instruction::Add(d) => Step::Next(
                State { tape: s.tape.update(s.cell, wrap(s.tape[s.cell], d as int)), at: s.at + 1, ..s },
            ),
            Instruction::Print => Step::Next(
                State { printed: s.printed.push(s.tape[s.cell]), at: s.at + 1, ..s },
            ),
            Instruction::Read => if 0 <= s.taken < input.len() {
                Step::Next(
                    State {
                        tape: s.tape.update(s.cell, input[s.taken]),
                        taken: s.taken + 1,
                        at: s.at + 1,
                        ..s
                    },
                )
            } else {
                Step::Fault(RuntimeError::InputTooShort)
            },
            Instruction::LoopStart => if s.tape[s.cell] == 0 {
                Step::Next(State { at: jumps[s.at as usize] + 1, ..s })
            } else {
                Step::Next(State { at: s.at + 1, ..s })
            },
            Instruction::LoopEnd => if s.tape[s.cell] != 0 {
                Step::Next(State { at: jumps[s.at as usize] + 1, ..s })
            } else {
                Step::Next(State { at: s.at + 1, ..s })
            },
        }
    }
}

/// How a run from `s` ends when it may take `fuel` more instructions: with
/// what was printed, with a fault, or, where the fuel runs out first, not at
/// all.
pub open spec fn run_from(
    insts: Seq<Instruction>,
    jumps: Map<usize, usize>,
    input: Seq<u8>,
    s: State,
    fuel: nat,
) -> Option<Result<Seq<u8>, RuntimeError>>
    decreases fuel,
{
    match step(insts, jumps, input, s) {
        Step::Done => Some(Ok(s.printed)),
        Step::Fault(e) => Some(Err(e)),
        Step::Next(t) => if fuel == 0 {
            None
        } else {
            run_from(insts, jumps, input, t, (fuel - 1) as nat)
        },
    }
}

/// The tape has its full length and the data pointer is on it.
pub open spec fn on_tape(s: State) -> bool {
    s.tape.len() == TAPE_LEN && 0 <= s.cell < TAPE_LEN
}

/// The jump table has, for every loop instruction, an entry that lies inside
/// the program.
pub open spec fn covers(insts: Seq<Instruction>, jumps: Map<usize, usize>) -> bool {
    forall|p: int|
        0 <= p < insts.len() && (insts[p] == Instruction::LoopStart || insts[p]
            == Instruction::LoopEnd) ==> jumps.contains_key(p as usize) && #[trigger] jumps[p as usize]
            < insts.len()
}

/// The bytes that a run may read: those of the input text, or none.
pub open spec fn input_bytes(input: Option<Seq<char>>) -> Seq<u8> {
    match input {
        Some(text) => encode_utf8(text),
        None => Seq::empty(),
    }
}

/// How the run of a program from the start state ends within `STEP_LIMIT`
/// instructions.
pub open spec fn outcome(
    insts: Seq<Instruction>,
    jumps: Map<usize, usize>,
    input: Seq<u8>,
) -> Option<Result<Seq<u8>, RuntimeError>> {
    run_from(insts, jumps, input, start(), STEP_LIMIT as nat)
}

/// The run is over before it has executed one instruction: there is none,
/// or the first one fails.
pub open spec fn ends_at_once(
    insts: Seq<Instruction>,
    jumps: Map<usize, usize>,
    input: Seq<u8>,
) -> bool {
    !(step(insts, jumps, input, start()) is Next)
}

/// The result `r` reports the outcome `o`: the printed bytes as text, each
/// byte read as a character code; the fault as a runtime error; a run that
/// did not end as a timeout.
pub open spec fn reports(r: Result<String, Error>, o: Option<Result<Seq<u8>, RuntimeError>>) -> bool {
    match o {
        Some(Ok(printed)) => r matches Ok(text) && text@ == chars_of(printed),
        Some(Err(e)) => r matches Err(Error::Runtime(x)) && x == e,
        None => r matches Err(Error::Timeout),
    }
}

/// The result `r` is that of interpreting `insts` on `input`: what the run
/// leads to, or, where the time is limited and the run is not over before
/// its first instruction, a timeout.
pub open spec fn runs_as(
    r: Result<String, Error>,
    insts: Seq<Instruction>,
    input: Seq<u8>,
    limited: bool,
) -> bool {
    let jumps = pairs(of_insts(insts));
    ||| reports(r, outcome(insts, jumps, input))
    ||| limited && !ends_at_once(insts, jumps, input) && r matches Err(Error::Timeout)
}

/// Builds the jump table of an instruction sequence: each `LoopStart` is
/// mapped to its `LoopEnd` and each `LoopEnd` back to its `LoopStart`.
///
/// Fails with the index of the first `LoopEnd` that closes nothing, or, when
/// every `LoopEnd` is matched, with that of the innermost `LoopStart` left
/// open.
pub fn maploops(insts: &Vec<Instruction>) -> (r: Result<HashMap<usize, usize>, Error>)
    ensures
        match verdict(of_insts(insts@)) {
            Some(i) => r matches Err(Error::Syntax(p)) && p == i,
            None => r matches Ok(m) && m@ == pairs(of_insts(insts@)) && covers(insts@, m@),
        },
{
    let mut map: HashMap<usize, usize> = HashMap::new();
    let mut open: Vec<usize> = Vec::new();
    let mut i: usize = 0;
    while i < insts.len()
        invariant
            i <= insts.len(),
            scan(of_insts(insts@).take(i as int)) matches Scan::Open(s) && s =~= indices(open@),
            map@ =~= pairs(of_insts(insts@).take(i as int)),
            forall|k: int| 0 <= k < open.len() ==> open[k] < i,
        decreases insts.len() - i,
    {
        let ghost marks = of_insts(insts@);
        let ghost before = indices(open@);
        proof {
            assert(marks.take(i + 1).drop_last() =~= marks.take(i as int));
        }
        match insts[i] {
            Instruction::LoopStart => {
                open.push(i);
                proof {
                    assert(indices(open@) =~= before.push(i as int));
                }
            },
            Instruction::LoopEnd => {
                if open.len() == 0 {
                    proof {
                        lemma_stray_stays(marks, i + 1);
                    }
                    return Err(Error::Syntax(i));
                }
                let last = open[open.len() - 1];
                open.pop();
                map.insert(last, i);
                map.insert(i, last);
            },
            _ => {},
        }
        i += 1;
    }
    proof {
        assert(of_insts(insts@).take(i as int) =~= of_insts(insts@));
    }
    if open.len() != 0 {
        let last = open[open.len() - 1];
        Err(Error::Syntax(last))
    } else {
        proof {
            lemma_pairs_cover(insts@);
        }
        Ok(map)
    }
}

/// The jump table of a program without unmatched brackets covers it.
pub proof fn lemma_pairs_cover(insts: Seq<Instruction>)
    requires
        insts.len() <= usize::MAX,
        verdict(of_insts(insts)) is None,
    ensures
        covers(insts, pairs(of_insts(insts))),
{
    let marks = of_insts(insts);
    let table = pairs(marks);
    lemma_pairs_matched(marks);
    assert forall|p: int|
        0 <= p < insts.len() && (insts[p] == Instruction::LoopStart || insts[p]
            == Instruction::LoopEnd) implies table.contains_key(p as usize) && #[trigger] table[p as usize]
        < insts.len() by {
        assert(table.contains_key(p as usize));
        assert(table.contains_key(table[p as usize]));
    }
}

/// Adds `d` to a cell, modulo 256.
pub fn wrapped(cell: u8, d: i128) -> (r: u8)
    ensures
        r == wrap(cell, d as int),
{
    let rest: i128 = d % 256;
    let sum: i128 = (cell as i128 + rest + 256) % 256;
    sum as u8
}

/// The interpreter's registers.
pub struct Machine {
    /// The tape.
    pub mem: Vec<u8>,
    /// The data pointer.
    pub i: usize,
    /// The instruction pointer.
    pub p: usize,
    /// The input cursor.
    pub b: usize,
    /// What has been printed so far.
    pub output: Vec<u8>,
}

impl View for Machine {
    type V = State;

    open spec fn view(&self) -> State {
        State {
            tape: self.mem@,
            cell: self.i as int,
            at: self.p as int,
            taken: self.b as int,
            printed: self.output@,
        }
    }
}

/// What `Machine::step` reports.
pub enum Progress {
    /// An instruction was executed.
    Going,
    /// There was no instruction left to execute.
    Halted,
    /// The instruction failed; the machine is as it was.
    Failed(RuntimeError),
}

impl Machine {
    /// The tape has its full length and the data pointer is on it.
    pub open spec fn well_formed(&self) -> bool {
        on_tape(self@)
    }

    /// A machine in the start state.
    pub fn new() -> (m: Machine)
        ensures
            m.well_formed(),
            m@ == start(),
    {
        let m = Machine { mem: vec![0u8; TAPE_LEN], i: 0, p: 0, b: 0, output: Vec::new() };
        assert(m@.tape =~= start().tape);
        m
    }

    /// Executes the instruction under the instruction pointer.
    pub fn step(
        &mut self,
        insts: &Vec<Instruction>,
        map: &HashMap<usize, usize>,
        input: &[u8],
    ) -> (r: Progress)
        requires
            old(self).well_formed(),
            covers(insts@, map@),
        ensures
            final(self).well_formed(),
            match step(insts@, map@, input@, old(self)@) {
                Step::Next(t) => r is Going && final(self)@ == t,
                Step::Done => r is Halted && *final(self) == *old(self),
                Step::Fault(e) => r == Progress::Failed(e) && *final(self) == *old(self),
            },
    {
        if self.p >= insts.len() {
            return Progress::Halted;
        }
        match insts[self.p] {
            Instruction::Move(d) => {
                let here: i128 = self.i as i128;
                if d < -here || d >= TAPE_LEN as i128 - here {
                    return Progress::Failed(RuntimeError::OutOfMemoryBounds);
                }
                self.i = (here + d) as usize;
            },
            Instruction::Add(d) => {
                let cell: u8 = self.mem[self.i];
                self.mem.set(self.i, wrapped(cell, d));
            },
            Instruction::Print => {
                let cell: u8 = self.mem[self.i];
                self.output.push(cell);
            },
            Instruction::Read => {
                if self.b >= input.len() {
                    return Progress::Failed(RuntimeError::InputTooShort);
                }
                self.mem.set(self.i, input[self.b]);
                self.b += 1;
            },
            Instruction::LoopStart => {
                if self.mem[self.i] == 0 {
                    self.p = *map.get(&self.p).unwrap();
                }
            },
            Instruction::LoopEnd => {
                if self.mem[self.i] != 0 {
                    self.p = *map.get(&self.p).unwrap();
                }
            },
        }
        self.p += 1;
        Progress::Going
    }
}

/// The bytes of an optional input text.
fn bytes_of(input: &Option<String>) -> (bytes: Vec<u8>)
    ensures
        bytes@ == input_bytes(chars(*input)),
{
    match input {
        Some(text) => text.as_str().as_bytes_vec(),
        None => Vec::new(),
    }
}

/// Runs a program to its end.
///
/// Returns what the program printed, or the runtime error at which it
/// stopped. A run of more than `STEP_LIMIT` instructions is reported as a
/// timeout.
pub fn exec(insts: Vec<Instruction>, map: HashMap<usize, usize>, input: Option<String>) -> (r:
    Result<String, Error>)
    requires
        covers(insts@, map@),
    ensures
        reports(r, outcome(insts@, map@, input_bytes(chars(input)))),
{
    let bytes = bytes_of(&input);
    let mut m = Machine::new();
    let mut left: u64 = STEP_LIMIT;
    loop
        invariant
            m.well_formed(),
            covers(insts@, map@),
            bytes@ == input_bytes(chars(input)),
            run_from(insts@, map@, bytes@, m@, left as nat) == outcome(insts@, map@, bytes@),
        decreases left,
    {
        match m.step(&insts, &map, bytes.as_slice()) {
            Progress::Halted => {
                return Ok(text_of(&m.output));
            },
            Progress::Failed(e) => {
                return Err(Error::Runtime(e));
            },
            Progress::Going => {
                if left == 0 {
                    return Err(Error::Timeout);
                }
                left -= 1;
            },
        }
    }
}

/// Whether a run that has taken `spent` nanoseconds has used up the
/// `allowed` ones.
pub fn expired(spent: u128, allowed: u128) -> (r: bool)
    ensures
        r == (spent >= allowed),
{
    spent >= allowed
}

/// Runs a program until it ends or `limit` has passed, whichever is first.
///
/// The clock is read after every instruction that was executed. Once it
/// shows that `limit` has passed the run is dropped, and with it what was
/// printed so far. A run that is not dropped ends as `exec` says; one that
/// is over before its first instruction is never dropped.
pub fn exec_timeout(
    insts: Vec<Instruction>,
    map: HashMap<usize, usize>,
    input: Option<String>,
    limit: Duration,
) -> (r: Result<String, Error>)
    requires
        covers(insts@, map@),
    ensures
        r matches Err(Error::Timeout) || reports(r, outcome(insts@, map@, input_bytes(chars(input)))),
        ends_at_once(insts@, map@, input_bytes(chars(input))) ==> reports(
            r,
            outcome(insts@, map@, input_bytes(chars(input))),
        ),
{
    let bytes = bytes_of(&input);
    let mut m = Machine::new();
    let mut left: u64 = STEP_LIMIT;
    let begun = clock::now();
    let allowed: u128 = clock::nanos(&limit);
    loop
        invariant
            m.well_formed(),
            covers(insts@, map@),
            bytes@ == input_bytes(chars(input)),
            run_from(insts@, map@, bytes@, m@, left as nat) == outcome(insts@, map@, bytes@),
            left == STEP_LIMIT ==> m@ == start(),
            left < STEP_LIMIT ==> !ends_at_once(insts@, map@, bytes@),
        decreases left,
    {
        match m.step(&insts, &map, bytes.as_slice()) {
            Progress::Halted => {
                return Ok(text_of(&m.output));
            },
            Progress::Failed(e) => {
                return Err(Error::Runtime(e));
            },
            Progress::Going => {
                let spent = clock::since(&begun);
                if left == 0 || expired(clock::nanos(&spent), allowed) {
                    return Err(Error::Timeout);
                }
                left -= 1;
            },
        }
    }
}

/// Checks, folds and interprets a source text.
///
/// A text with an unmatched bracket is refused before anything runs, with
/// the index that `check_brackets` reports. Any other text is run on
/// `input`: without a time limit as `exec` says, with one as `exec_timeout`
/// says.
pub fn run(prog: &str, input: Option<String>, time: Option<Duration>) -> (r: Result<String, Error>)
    ensures
        match verdict(of_bytes(prog.spec_bytes())) {
            Some(i) => r matches Err(Error::Syntax(p)) && p == i,
            None => runs_as(r, fold(prog.spec_bytes()), input_bytes(chars(input)), time is Some),
        },
{
    match check_brackets(prog) {
        Err(e) => {
            return Err(e);
        },
        Ok(_) => {},
    }
    let insts = match firstpass(prog.as_bytes()) {
        Ok(v) => v,
        Err(e) => {
            return Err(e);
        },
    };
    proof {
        lemma_validator_agrees_with_jump_table(prog.spec_bytes());
    }
    let loops = match maploops(&insts) {
        Ok(m) => m,
        Err(e) => {
            return Err(e);
        },
    };
    match time {
        Some(t) => exec_timeout(insts, loops, input, t),
        None => exec(insts, loops, input),
    }
}

} // verus!
