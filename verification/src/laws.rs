//! Laws of the library: what holds of the validator, the folder, the jump
//! table, the interpreter and the text that is built, beyond what each
//! function states of its own result.

use vstd::prelude::*;
use crate::bf::interpreter::{on_tape, run_from, step, State, Step};
use crate::bf::native::{is_space, trimmed};
use crate::bf::transpiler::{escaped, quoted};
use crate::bf::{
    bump, flush, fold, folding, marker, repeat, shift, spell, unfold, Folding, Instruction, Pending,
    COMMA, LEFT, MINUS, PLUS, RIGHT,
};
use crate::text::{decimal, digit};
use crate::brackets::{
    lemma_scan_push, mark_of_byte, mark_of_inst, of_bytes, of_insts, scan, verdict, Mark, Scan,
};

verus! {

/// Two scans are of one shape: both have met a stray `Close`, or neither has
/// and as many brackets are open in the one as in the other.
pub open spec fn same_shape(a: Scan, b: Scan) -> bool {
    match (a, b) {
        (Scan::Stray(_), Scan::Stray(_)) => true,
        (Scan::Open(x), Scan::Open(y)) => x.len() == y.len(),
        _ => false,
    }
}

/// Closing the pending run adds no bracket.
proof fn lemma_flush_keeps_shape(f: Folding)
    ensures
        same_shape(scan(of_insts(f.done)), scan(of_insts(flush(f)))),
{
    match f.pending {
        Pending::Nothing => {},
        Pending::Move(c) => {
            let i = Instruction::Move(c as i128);
            assert(of_insts(f.done.push(i)) =~= of_insts(f.done).push(Mark::Other));
            lemma_scan_push(of_insts(f.done), Mark::Other);
        },
        Pending::Add(c) => {
            let i = Instruction::Add(c as i128);
            assert(of_insts(f.done.push(i)) =~= of_insts(f.done).push(Mark::Other));
            lemma_scan_push(of_insts(f.done), Mark::Other);
        },
    }
}

/// The brackets of a source text and those of what the folder has emitted
/// for it nest alike.
proof fn lemma_folding_keeps_shape(bytes: Seq<u8>)
    ensures
        same_shape(scan(of_bytes(bytes)), scan(of_insts(folding(bytes).done))),
    decreases bytes.len(),
{
    if bytes.len() > 0 {
        let before = bytes.drop_last();
        let b = bytes.last();
        let f = folding(before);
        lemma_folding_keeps_shape(before);
        lemma_flush_keeps_shape(f);
        assert(of_bytes(bytes) =~= of_bytes(before).push(mark_of_byte(b)));
        lemma_scan_push(of_bytes(before), mark_of_byte(b));
        match marker(b) {
            Some(i) => {
                assert(of_insts(flush(f).push(i)) =~= of_insts(flush(f)).push(mark_of_inst(i)));
                lemma_scan_push(of_insts(flush(f)), mark_of_inst(i));
            },
            None => {},
        }
    }
}

/// The validator and the jump table agree: a source text has no unmatched
/// bracket exactly if its instructions have none, which is when the jump
/// table can be built.
pub proof fn lemma_validator_agrees_with_jump_table(bytes: Seq<u8>)
    ensures
        verdict(of_bytes(bytes)) is None <==> verdict(of_insts(fold(bytes))) is None,
{
    lemma_folding_keeps_shape(bytes);
    lemma_flush_keeps_shape(folding(bytes));
}

/// What a run of `k` bytes `b` does to the folder: a run of `>` or `<`
/// shifts it by the run's length, a run of `+` or `-` bumps it.
pub open spec fn after_run(f: Folding, b: u8, k: nat) -> Folding {
    if b == RIGHT {
        shift(f, k as int)
    } else if b == LEFT {
        shift(f, -(k as int))
    } else if b == PLUS {
        bump(f, k as int)
    } else {
        bump(f, -(k as int))
    }
}

/// A run of one of the four foldable bytes, behind any text, is folded into
/// one count.
pub proof fn lemma_folding_run(text: Seq<u8>, b: u8, k: nat)
    requires
        k >= 1,
        b == RIGHT || b == LEFT || b == PLUS || b == MINUS,
    ensures
        folding(text + repeat(b, k)) == after_run(folding(text), b, k),
    decreases k,
{
    assert((text + repeat(b, k)).drop_last() =~= text + repeat(b, (k - 1) as nat));
    if k > 1 {
        lemma_folding_run(text, b, (k - 1) as nat);
    }
}

/// A run of `k` bytes `+` folds to the one instruction `Add(k)`, and a run
/// of `k` bytes `-` to `Add(-k)`.
pub proof fn lemma_fold_add_run(k: nat)
    requires
        k >= 1,
    ensures
        fold(repeat(PLUS, k)) == seq![Instruction::Add(k as i128)],
        fold(repeat(MINUS, k)) == seq![Instruction::Add((-(k as int)) as i128)],
{
    let none = Seq::<u8>::empty();
    lemma_folding_run(none, PLUS, k);
    lemma_folding_run(none, MINUS, k);
}

/// A run of `k` bytes `>` folds to the one instruction `Move(k)`, and a run
/// of `k` bytes `<` to `Move(-k)`.
pub proof fn lemma_fold_move_run(k: nat)
    requires
        k >= 1,
    ensures
        fold(repeat(RIGHT, k)) == seq![Instruction::Move(k as i128)],
        fold(repeat(LEFT, k)) == seq![Instruction::Move((-(k as int)) as i128)],
{
    let none = Seq::<u8>::empty();
    lemma_folding_run(none, RIGHT, k);
    lemma_folding_run(none, LEFT, k);
}

/// A run of `j` bytes `+` followed by a run of `k` bytes `>` folds to exactly
/// two instructions, in that order.
pub proof fn lemma_fold_add_then_move(j: nat, k: nat)
    requires
        j >= 1,
        k >= 1,
    ensures
        fold(repeat(PLUS, j) + repeat(RIGHT, k)) == seq![
            Instruction::Add(j as i128),
            Instruction::Move(k as i128),
        ],
{
    let none = Seq::<u8>::empty();
    lemma_folding_run(none, PLUS, j);
    lemma_folding_run(repeat(PLUS, j), RIGHT, k);
    assert(fold(repeat(PLUS, j) + repeat(RIGHT, k)) =~= seq![
        Instruction::Add(j as i128),
        Instruction::Move(k as i128),
    ]);
}

/// Two instructions are of one foldable kind: both moves, or both adds.
pub open spec fn same_run(a: Instruction, b: Instruction) -> bool {
    (a is Move && b is Move) || (a is Add && b is Add)
}

/// No two neighbours are both moves or both adds.
pub open spec fn alternates(insts: Seq<Instruction>) -> bool {
    forall|i: int| 0 <= i < insts.len() - 1 ==> !same_run(#[trigger] insts[i], insts[i + 1])
}

/// What has been emitted alternates, and the pending run is of another kind
/// than the instruction it will follow; where no run is pending, what was
/// emitted last is a marker.
pub open spec fn tidy(f: Folding) -> bool {
    &&& alternates(f.done)
    &&& f.done.len() > 0 ==> match f.pending {
        Pending::Nothing => !(f.done.last() is Move) && !(f.done.last() is Add),
        Pending::Move(_) => !(f.done.last() is Move),
        Pending::Add(_) => !(f.done.last() is Add),
    }
}

/// The folder is tidy after every text.
proof fn lemma_folding_tidy(bytes: Seq<u8>)
    ensures
        tidy(folding(bytes)),
    decreases bytes.len(),
{
    if bytes.len() > 0 {
        lemma_folding_tidy(bytes.drop_last());
    }
}

/// After folding, no two adjacent instructions are both moves or both adds.
pub proof fn lemma_fold_alternates(bytes: Seq<u8>)
    ensures
        alternates(fold(bytes)),
{
    lemma_folding_tidy(bytes);
}

/// No instruction has a count of zero.
pub open spec fn no_zero_count(insts: Seq<Instruction>) -> bool {
    forall|i: int| 0 <= i < insts.len() ==> #[trigger] insts[i] != Instruction::Move(0) && insts[i]
        != Instruction::Add(0)
}

/// The folder that has read the source text of `insts`, if that folds back
/// to `insts`: a last move or add is still pending, all else is emitted.
pub open spec fn parked(insts: Seq<Instruction>) -> Folding {
    if insts.len() == 0 {
        Folding { done: insts, pending: Pending::Nothing }
    } else {
        match insts.last() {
            Instruction::Move(c) => Folding { done: insts.drop_last(), pending: Pending::Move(c as int) },
            Instruction::Add(c) => Folding { done: insts.drop_last(), pending: Pending::Add(c as int) },
            _ => Folding { done: insts, pending: Pending::Nothing },
        }
    }
}

/// Instructions that alternate and hold no zero count are what their own
/// source text folds to.
pub proof fn lemma_unfold_then_fold(insts: Seq<Instruction>)
    requires
        alternates(insts),
        no_zero_count(insts),
    ensures
        folding(unfold(insts)) == parked(insts),
        fold(unfold(insts)) == insts,
    decreases insts.len(),
{
    if insts.len() > 0 {
        let before = insts.drop_last();
        let x = insts.last();
        lemma_unfold_then_fold(before);
        match x {
            Instruction::Move(c) => {
                if c >= 0 {
                    lemma_folding_run(unfold(before), RIGHT, c as nat);
                } else {
                    lemma_folding_run(unfold(before), LEFT, (-c) as nat);
                }
            },
            Instruction::Add(c) => {
                if c >= 0 {
                    lemma_folding_run(unfold(before), PLUS, c as nat);
                } else {
                    lemma_folding_run(unfold(before), MINUS, (-c) as nat);
                }
            },
            _ => {
                assert((unfold(before) + spell(x)).drop_last() =~= unfold(before));
                assert(before.push(x) =~= insts);
            },
        }
    } else {
        assert(insts =~= Seq::<Instruction>::empty());
    }
}

/// Folding is idempotent: where the instructions of a text hold no count of
/// zero, their own source text folds to the same instructions again.
///
/// An instruction with a count of zero, such as the `Add(0)` of `+-`, is
/// spelled with no byte at all and so cannot come back.
pub proof fn lemma_fold_idempotent(bytes: Seq<u8>)
    requires
        no_zero_count(fold(bytes)),
    ensures
        fold(unfold(fold(bytes))) == fold(bytes),
{
    lemma_fold_alternates(bytes);
    lemma_unfold_then_fold(fold(bytes));
}

/// How many of the instructions are spelled with at least one byte.
pub open spec fn spelled(insts: Seq<Instruction>) -> nat
    decreases insts.len(),
{
    if insts.len() == 0 {
        0
    } else if spell(insts.last()).len() > 0 {
        spelled(insts.drop_last()) + 1
    } else {
        spelled(insts.drop_last())
    }
}

/// The source text of instructions folds to no more instructions than were
/// spelled with a byte.
proof fn lemma_refold_is_no_longer(insts: Seq<Instruction>)
    ensures
        fold(unfold(insts)).len() <= spelled(insts),
    decreases insts.len(),
{
    if insts.len() > 0 {
        let before = insts.drop_last();
        let x = insts.last();
        lemma_refold_is_no_longer(before);
        if spell(x).len() > 0 {
            match x {
                Instruction::Move(c) => {
                    if c >= 0 {
                        lemma_folding_run(unfold(before), RIGHT, c as nat);
                    } else {
                        lemma_folding_run(unfold(before), LEFT, (-c) as nat);
                    }
                },
                Instruction::Add(c) => {
                    if c >= 0 {
                        lemma_folding_run(unfold(before), PLUS, c as nat);
                    } else {
                        lemma_folding_run(unfold(before), MINUS, (-c) as nat);
                    }
                },
                _ => {
                    assert((unfold(before) + spell(x)).drop_last() =~= unfold(before));
                },
            }
        }
    }
}

/// Not every instruction is spelled with a byte where one of them has a
/// count of zero.
proof fn lemma_zero_count_is_not_spelled(insts: Seq<Instruction>)
    ensures
        spelled(insts) <= insts.len(),
        !no_zero_count(insts) ==> spelled(insts) < insts.len(),
    decreases insts.len(),
{
    if insts.len() > 0 {
        let before = insts.drop_last();
        lemma_zero_count_is_not_spelled(before);
        if !no_zero_count(insts) {
            let i = choose|i: int|
                0 <= i < insts.len() && (#[trigger] insts[i] == Instruction::Move(0) || insts[i]
                    == Instruction::Add(0));
            if i < before.len() {
                assert(before[i] == insts[i]);
            }
        }
    }
}

/// The idempotence of folding fails wherever an instruction has a count of
/// zero: the source text of such instructions folds to fewer of them.
pub proof fn lemma_zero_count_does_not_come_back(bytes: Seq<u8>)
    requires
        !no_zero_count(fold(bytes)),
    ensures
        fold(unfold(fold(bytes))) != fold(bytes),
{
    lemma_refold_is_no_longer(fold(bytes));
    lemma_zero_count_is_not_spelled(fold(bytes));
}

/// A text holds a `,` exactly if its instructions hold a `Read`: that is
/// what `wants_input` looks for.
pub proof fn lemma_comma_means_read(bytes: Seq<u8>)
    ensures
        bytes.contains(COMMA) <==> fold(bytes).contains(Instruction::Read),
{
    lemma_comma_means_read_so_far(bytes);
    let f = folding(bytes);
    if f.done.contains(Instruction::Read) {
        let k = choose|k: int| 0 <= k < f.done.len() && f.done[k] == Instruction::Read;
        assert(flush(f)[k] == Instruction::Read);
    }
}

/// A text holds a `,` exactly if the folder has emitted a `Read` for it.
proof fn lemma_comma_means_read_so_far(bytes: Seq<u8>)
    ensures
        bytes.contains(COMMA) <==> folding(bytes).done.contains(Instruction::Read),
    decreases bytes.len(),
{
    if bytes.len() > 0 {
        let before = bytes.drop_last();
        let b = bytes.last();
        let f = folding(before);
        let g = folding(bytes);
        lemma_comma_means_read_so_far(before);
        if bytes.contains(COMMA) {
            let k = choose|k: int| 0 <= k < bytes.len() && bytes[k] == COMMA;
            if k < before.len() {
                assert(before[k] == COMMA);
                let j = choose|j: int| 0 <= j < f.done.len() && f.done[j] == Instruction::Read;
                assert(g.done[j] == Instruction::Read);
            } else {
                assert(g.done[g.done.len() - 1] == Instruction::Read);
            }
        }
    }
}

/// A run that ends within some number of instructions ends the same way
/// when it is allowed more.
pub proof fn lemma_more_fuel(
    insts: Seq<Instruction>,
    jumps: Map<usize, usize>,
    input: Seq<u8>,
    s: State,
    fuel: nat,
    more: nat,
)
    requires
        run_from(insts, jumps, input, s, fuel) is Some,
    ensures
        run_from(insts, jumps, input, s, fuel + more) == run_from(insts, jumps, input, s, fuel),
    decreases fuel,
{
    if let Step::Next(t) = step(insts, jumps, input, s) {
        if fuel > 0 {
            lemma_more_fuel(insts, jumps, input, t, (fuel - 1) as nat, more);
        }
    }
}

/// Every step keeps the data pointer on the tape, and takes back nothing
/// that was printed or read: the output after the step begins with the
/// output before it, and the input cursor has moved on by one byte or not at
/// all.
pub proof fn lemma_step_keeps_history(
    insts: Seq<Instruction>,
    jumps: Map<usize, usize>,
    input: Seq<u8>,
    s: State,
)
    requires
        on_tape(s),
    ensures
        step(insts, jumps, input, s) matches Step::Next(t) ==> {
            &&& on_tape(t)
            &&& s.printed.is_prefix_of(t.printed)
            &&& s.taken <= t.taken <= s.taken + 1
        },
{
}

/// A text is the inside of a string literal: it is made of characters other
/// than the backslash, the double quote and the carriage return, and of
/// escapes, each a backslash with one of `\\`, `"`, `n`, `r` and `t` behind
/// it.
pub open spec fn is_literal_body(lit: Seq<char>) -> bool
    decreases lit.len(),
{
    if lit.len() == 0 {
        true
    } else if lit[0] == '\\' {
        lit.len() >= 2 && (lit[1] == '\\' || lit[1] == '"' || lit[1] == 'n' || lit[1] == 'r'
            || lit[1] == 't') && is_literal_body(lit.skip(2))
    } else {
        lit[0] != '"' && lit[0] != '\r' && is_literal_body(lit.skip(1))
    }
}

/// The text that the inside of a string literal stands for.
pub open spec fn unquoted(lit: Seq<char>) -> Seq<char>
    decreases lit.len(),
{
    if lit.len() == 0 {
        Seq::empty()
    } else if lit[0] == '\\' && lit.len() >= 2 {
        let c = if lit[1] == 'n' {
            '\n'
        } else if lit[1] == 'r' {
            '\r'
        } else if lit[1] == 't' {
            '\t'
        } else {
            lit[1]
        };
        seq![c] + unquoted(lit.skip(2))
    } else {
        seq![lit[0]] + unquoted(lit.skip(1))
    }
}

/// A quoted text begins with its first character, escaped.
proof fn lemma_quoted_from_the_left(text: Seq<char>)
    requires
        text.len() > 0,
    ensures
        quoted(text) == escaped(text[0]) + quoted(text.drop_first()),
    decreases text.len(),
{
    if text.len() == 1 {
        assert(text.drop_last() =~= Seq::<char>::empty());
        assert(text.drop_first() =~= Seq::<char>::empty());
    } else {
        lemma_quoted_from_the_left(text.drop_last());
        assert(text.drop_last().drop_first() =~= text.drop_first().drop_last());
    }
}

/// Escaping is sound: a quoted text is the inside of a string literal, and
/// stands for the text that was quoted.
pub proof fn lemma_quoted_is_literal(text: Seq<char>)
    ensures
        is_literal_body(quoted(text)),
        unquoted(quoted(text)) == text,
    decreases text.len(),
{
    if text.len() > 0 {
        let c = text[0];
        let rest = text.drop_first();
        lemma_quoted_from_the_left(text);
        lemma_quoted_is_literal(rest);
        assert(quoted(text).skip(escaped(c).len() as int) =~= quoted(rest));
    }
}

/// Trimming cuts off whitespace and nothing else: what is left is the
/// beginning of the text, all that was cut off is whitespace, and what is
/// left does not end in whitespace.
pub proof fn lemma_trimmed_is_the_text_without_its_end(text: Seq<char>)
    ensures
        trimmed(text).is_prefix_of(text),
        forall|i: int| trimmed(text).len() <= i < text.len() ==> is_space(#[trigger] text[i]),
        trimmed(text).len() > 0 ==> !is_space(trimmed(text).last()),
    decreases text.len(),
{
    if text.len() > 0 && is_space(text.last()) {
        let before = text.drop_last();
        lemma_trimmed_is_the_text_without_its_end(before);
        assert forall|i: int| trimmed(text).len() <= i < text.len() implies is_space(
            #[trigger] text[i],
        ) by {
            if i < before.len() {
                assert(text[i] == before[i]);
            }
        }
    }
}

/// The line end that a generated program writes behind its output does not
/// show in the result: an output that does not itself end in whitespace
/// comes back as it was printed.
pub proof fn lemma_line_end_is_trimmed(text: Seq<char>)
    requires
        text.len() > 0 ==> !is_space(text.last()),
    ensures
        trimmed(text.push('\n')) == text,
{
    assert(text.push('\n').drop_last() =~= text);
    assert(is_space('\n'));
    assert(trimmed(text) == text);
}

/// The number that a decimal numeral stands for.
pub open spec fn value(numeral: Seq<char>) -> nat
    decreases numeral.len(),
{
    if numeral.len() == 0 {
        0
    } else {
        (value(numeral.drop_last()) * 10 + (numeral.last() as u8 - 0x30)) as nat
    }
}

/// The decimal numeral of a number is made of digits, stands for that
/// number, and begins with a zero only where the number is zero.
pub proof fn lemma_decimal_stands_for_its_number(n: nat)
    ensures
        value(decimal(n)) == n,
        decimal(n).len() >= 1,
        forall|i: int| 0 <= i < decimal(n).len() ==> '0' <= #[trigger] decimal(n)[i] <= '9',
        n > 0 ==> decimal(n)[0] != '0',
    decreases n,
{
    let d = digit(n % 10);
    assert(d as u8 == 0x30 + n % 10);
    assert(decimal(n).last() == d);
    if n < 10 {
        assert(decimal(n).drop_last() =~= Seq::<char>::empty());
        assert(value(decimal(n).drop_last()) == 0);
    } else {
        lemma_decimal_stands_for_its_number(n / 10);
        assert(decimal(n).drop_last() =~= decimal(n / 10));
        assert(decimal(n)[0] == decimal(n / 10)[0]);
    }
}

} // verus!
