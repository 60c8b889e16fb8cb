//! The instruction set and the folding of source bytes into instructions.

use vstd::prelude::*;
use crate::text::size_of;
use crate::Error;

pub mod interpreter;
pub mod native;
pub mod transpiler;

verus! {

/// The byte `>`: one cell to the right.
pub const RIGHT: u8 = 0x3e;

/// The byte `<`: one cell to the left.
pub const LEFT: u8 = 0x3c;

/// The byte `+`: one more in the current cell.
pub const PLUS: u8 = 0x2b;

/// The byte `-`: one less in the current cell.
pub const MINUS: u8 = 0x2d;

/// The byte `.`: print the current cell.
pub const DOT: u8 = 0x2e;

/// The byte `,`: read into the current cell.
pub const COMMA: u8 = 0x2c;

/// The byte `[`: open a loop.
pub const OPEN: u8 = 0x5b;

/// The byte `]`: close a loop.
pub const CLOSE: u8 = 0x5d;

/// One folded instruction.
#[derive(Debug, PartialEq, Eq, Structural, Clone, Copy)]
pub enum Instruction {
    /// Moves the data pointer by the net count of a run of `>` and `<`.
    Move(i128),
    /// Adds the net count of a run of `+` and `-` to the current cell.
    Add(i128),
    /// Appends the current cell to the output.
    Print,
    /// Stores the next input byte in the current cell.
    Read,
    /// Opens a loop that runs while the current cell is not zero.
    LoopStart,
    /// Closes the innermost open loop.
    LoopEnd,
}

/// The run that the folder is still adding to.
pub enum Pending {
    /// No run is open.
    Nothing,
    /// A run of `>` and `<` with this net count.
    Move(int),
    /// A run of `+` and `-` with this net count.
    Add(int),
}

/// The folder between two source bytes: what it has emitted, and the run it
/// has not emitted yet.
pub struct Folding {
    /// The instructions emitted so far.
    pub done: Seq<Instruction>,
    /// The run that is still open.
    pub pending: Pending,
}

/// What has been emitted once the pending run is closed. A run is emitted
/// with whatever net count it has reached, zero included.
pub open spec fn flush(f: Folding) -> Seq<Instruction> {
    match f.pending {
        Pending::Nothing => f.done,
        Pending::Move(c) => f.done.push(Instruction::Move(c as i128)),
        Pending::Add(c) => f.done.push(Instruction::Add(c as i128)),
    }
}

/// A pointer step of `d`: joins a pending move, else closes what is pending
/// and opens a move.
pub open spec fn shift(f: Folding, d: int) -> Folding {
    match f.pending {
        Pending::Move(c) => Folding { done: f.done, pending: Pending::Move(c + d) },
        _ => Folding { done: flush(f), pending: Pending::Move(d) },
    }
}

/// A cell step of `d`: joins a pending add, else closes what is pending and
/// opens an add.
pub open spec fn bump(f: Folding, d: int) -> Folding {
    match f.pending {
        Pending::Add(c) => Folding { done: f.done, pending: Pending::Add(c + d) },
        _ => Folding { done: flush(f), pending: Pending::Add(d) },
    }
}

/// The instruction that a byte stands for by itself, if it is one of the four
/// markers that are never folded.
pub open spec fn marker(b: u8) -> Option<Instruction> {
    if b == DOT {
        Some(Instruction::Print)
    } else if b == COMMA {
        Some(Instruction::Read)
    } else if b == OPEN {
        Some(Instruction::LoopStart)
    } else if b == CLOSE {
        Some(Instruction::LoopEnd)
    } else {
        None
    }
}

/// The folder after one more source byte. Bytes that are none of the eight
/// markers leave it as it was.
pub open spec fn feed(f: Folding, b: u8) -> Folding {
    if b == RIGHT {
        shift(f, 1)
    } else if b == LEFT {
        shift(f, -1)
    } else if b == PLUS {
        bump(f, 1)
    } else if b == MINUS {
        bump(f, -1)
    } else {
        match marker(b) {
            Some(i) => Folding { done: flush(f).push(i), pending: Pending::Nothing },
            None => f,
        }
    }
}

/// The folder after all of `bytes`.
pub open spec fn folding(bytes: Seq<u8>) -> Folding
    decreases bytes.len(),
{
    if bytes.len() == 0 {
        Folding { done: Seq::empty(), pending: Pending::Nothing }
    } else {
        feed(folding(bytes.drop_last()), bytes.last())
    }
}

/// The instruction sequence of a source text.
pub open spec fn fold(bytes: Seq<u8>) -> Seq<Instruction> {
    flush(folding(bytes))
}

/// The net count of the pending run, zero where none is open.
pub open spec fn pending_count(p: Pending) -> int {
    match p {
        Pending::Nothing => 0,
        Pending::Move(c) => c,
        Pending::Add(c) => c,
    }
}

/// A net count is never larger than the text it was counted in.
pub proof fn lemma_pending_bounded(bytes: Seq<u8>)
    ensures
        -bytes.len() <= pending_count(folding(bytes).pending) <= bytes.len(),
    decreases bytes.len(),
{
    if bytes.len() > 0 {
        lemma_pending_bounded(bytes.drop_last());
    }
}

/// The pending run as the executable folder holds it.
pub open spec fn pending_of(run: Option<Instruction>) -> Pending {
    match run {
        Some(Instruction::Move(c)) => Pending::Move(c as int),
        Some(Instruction::Add(c)) => Pending::Add(c as int),
        _ => Pending::Nothing,
    }
}

/// Emits the pending run, if there is one.
fn close_run(inst: &mut Vec<Instruction>, run: Option<Instruction>)
    ensures
        final(inst)@ == flush(Folding { done: old(inst)@, pending: pending_of(run) }),
{
    match run {
        Some(Instruction::Move(c)) => inst.push(Instruction::Move(c)),
        Some(Instruction::Add(c)) => inst.push(Instruction::Add(c)),
        _ => {},
    }
}

/// Folds source bytes into instructions.
///
/// Bytes other than the eight markers are skipped. A run of `>` and `<`
/// becomes one `Move` with the run's net count, a run of `+` and `-` one
/// `Add`; a run ends at the first marker of another kind, and is emitted even
/// when its net count is zero. Never fails.
pub fn firstpass(bytes: &[u8]) -> (r: Result<Vec<Instruction>, Error>)
    ensures
        r matches Ok(v) && v@ == fold(bytes@),
{
    let mut inst: Vec<Instruction> = Vec::new();
    let mut run: Option<Instruction> = None;
    let mut i: usize = 0;
    while i < bytes.len()
        invariant
            i <= bytes.len(),
            folding(bytes@.take(i as int)) == (Folding { done: inst@, pending: pending_of(run) }),
            -(i as int) <= pending_count(pending_of(run)) <= i,
        decreases bytes.len() - i,
    {
        proof {
            assert(bytes@.take(i + 1).drop_last() =~= bytes@.take(i as int));
        }
        let b = bytes[i];
        if b == RIGHT || b == LEFT {
            let d: i128 = if b == RIGHT { 1 } else { -1 };
            match run {
                Some(Instruction::Move(c)) => {
                    run = Some(Instruction::Move(c + d));
                },
                _ => {
                    close_run(&mut inst, run);
                    run = Some(Instruction::Move(d));
                },
            }
        } else if b == PLUS || b == MINUS {
            let d: i128 = if b == PLUS { 1 } else { -1 };
            match run {
                Some(Instruction::Add(c)) => {
                    run = Some(Instruction::Add(c + d));
                },
                _ => {
                    close_run(&mut inst, run);
                    run = Some(Instruction::Add(d));
                },
            }
        } else if b == DOT || b == COMMA || b == OPEN || b == CLOSE {
            close_run(&mut inst, run);
            run = None;
            if b == DOT {
                inst.push(Instruction::Print);
            } else if b == COMMA {
                inst.push(Instruction::Read);
            } else if b == OPEN {
                inst.push(Instruction::LoopStart);
            } else {
                inst.push(Instruction::LoopEnd);
            }
        }
        i += 1;
    }
    proof {
        assert(bytes@.take(i as int) =~= bytes@);
    }
    close_run(&mut inst, run);
    Ok(inst)
}

/// The text of `k` bytes `b`.
pub open spec fn repeat(b: u8, k: nat) -> Seq<u8> {
    Seq::new(k, |i: int| b)
}

/// The shortest source text of one instruction: a run of as many `>` or `<`,
/// `+` or `-` as its count says, or its one marker.
pub open spec fn spell(i: Instruction) -> Seq<u8> {
    match i {
        Instruction::Move(c) => if c >= 0 {
            repeat(RIGHT, c as nat)
        } else {
            repeat(LEFT, (-c) as nat)
        },
        Instruction::Add(c) => if c >= 0 {
            repeat(PLUS, c as nat)
        } else {
            repeat(MINUS, (-c) as nat)
        },
        Instruction::Print => seq![DOT],
        Instruction::Read => seq![COMMA],
        Instruction::LoopStart => seq![OPEN],
        Instruction::LoopEnd => seq![CLOSE],
    }
}

/// The source text of an instruction sequence: each instruction spelled out,
/// in order.
pub open spec fn unfold(insts: Seq<Instruction>) -> Seq<u8>
    decreases insts.len(),
{
    if insts.len() == 0 {
        Seq::empty()
    } else {
        unfold(insts.drop_last()) + spell(insts.last())
    }
}

/// Appends `n` bytes `b`.
fn push_run(out: &mut Vec<u8>, b: u8, n: u128)
    ensures
        final(out)@ == old(out)@ + repeat(b, n as nat),
{
    let mut k: u128 = 0;
    while k < n
        invariant
            k <= n,
            out@ == old(out)@ + repeat(b, k as nat),
        decreases n - k,
    {
        out.push(b);
        k += 1;
    }
}

/// Writes instructions back as source text.
pub fn to_source(insts: &Vec<Instruction>) -> (out: Vec<u8>)
    ensures
        out@ == unfold(insts@),
{
    let mut out: Vec<u8> = Vec::new();
    let mut k: usize = 0;
    while k < insts.len()
        invariant
            k <= insts.len(),
            out@ == unfold(insts@.take(k as int)),
        decreases insts.len() - k,
    {
        proof {
            assert(insts@.take(k + 1).drop_last() =~= insts@.take(k as int));
        }
        match insts[k] {
            Instruction::Move(c) => push_run(&mut out, if c >= 0 { RIGHT } else { LEFT }, size_of(c)),
            Instruction::Add(c) => push_run(&mut out, if c >= 0 { PLUS } else { MINUS }, size_of(c)),
            Instruction::Print => out.push(DOT),
            Instruction::Read => out.push(COMMA),
            Instruction::LoopStart => out.push(OPEN),
            Instruction::LoopEnd => out.push(CLOSE),
        }
        k += 1;
    }
    assert(insts@.take(k as int) =~= insts@);
    out
}

/// Which way a program is run.
#[derive(Debug, PartialEq, Eq, Structural, Clone, Copy)]
pub enum Backend {
    /// Rendered as Rust source, compiled and launched.
    Native,
    /// Interpreted on the tape.
    Interpreter,
}

/// Chooses the native backend where the compiler answered the probe, the
/// interpreter where it did not.
pub fn backend_for(compiler_found: bool) -> (b: Backend)
    ensures
        b == if compiler_found {
            Backend::Native
        } else {
            Backend::Interpreter
        },
{
    if compiler_found {
        Backend::Native
    } else {
        Backend::Interpreter
    }
}

} // verus!
