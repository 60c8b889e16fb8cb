//! Bracket matching over any sequence of markers.
//!
//! Source bytes and folded instructions are both reduced to a sequence of
//! [`Mark`]s, so that one definition of "matched" serves the validator and
//! the jump table.

use vstd::prelude::*;
use crate::bf::{Instruction, CLOSE, OPEN};

verus! {

/// What a position means to bracket matching.
#[derive(Debug, PartialEq, Eq, Structural, Clone, Copy)]
pub enum Mark {
    /// A bracket that opens a loop.
    Open,
    /// A bracket that closes a loop.
    Close,
    /// Anything else.
    Other,
}

/// The state of a left-to-right scan: the indices of the brackets still open,
/// innermost last, or the index of the first `Close` that found none open.
pub enum Scan {
    /// No `Close` was stray so far; these are the indices of the brackets
    /// still open.
    Open(Seq<int>),
    /// The `Close` at this index found no bracket open.
    Stray(int),
}

/// The scan state after all of `marks` has been read.
pub open spec fn scan(marks: Seq<Mark>) -> Scan
    decreases marks.len(),
{
    if marks.len() == 0 {
        Scan::Open(Seq::empty())
    } else {
        let at = marks.len() - 1;
        match scan(marks.drop_last()) {
            Scan::Stray(i) => Scan::Stray(i),
            Scan::Open(open) => match marks.last() {
                Mark::Open => Scan::Open(open.push(at)),
                Mark::Close => if open.len() == 0 {
                    Scan::Stray(at)
                } else {
                    Scan::Open(open.drop_last())
                },
                Mark::Other => Scan::Open(open),
            },
        }
    }
}

/// The index reported for `marks`: that of the first stray `Close`, else that
/// of the innermost `Open` never closed, else nothing.
pub open spec fn verdict(marks: Seq<Mark>) -> Option<usize> {
    match scan(marks) {
        Scan::Stray(i) => Some(i as usize),
        Scan::Open(open) => if open.len() > 0 {
            Some(open.last() as usize)
        } else {
            None
        },
    }
}

/// The mark of one source byte.
pub open spec fn mark_of_byte(b: u8) -> Mark {
    if b == OPEN {
        Mark::Open
    } else if b == CLOSE {
        Mark::Close
    } else {
        Mark::Other
    }
}

/// The marks of a source text.
pub open spec fn of_bytes(bytes: Seq<u8>) -> Seq<Mark> {
    Seq::new(bytes.len(), |i: int| mark_of_byte(bytes[i]))
}

/// The mark of one instruction.
pub open spec fn mark_of_inst(i: Instruction) -> Mark {
    match i {
        Instruction::LoopStart => Mark::Open,
        Instruction::LoopEnd => Mark::Close,
        _ => Mark::Other,
    }
}

/// The marks of an instruction sequence.
pub open spec fn of_insts(insts: Seq<Instruction>) -> Seq<Mark> {
    Seq::new(insts.len(), |i: int| mark_of_inst(insts[i]))
}

/// The pairs that a left-to-right scan of `marks` has matched, each entered
/// in both directions: from the `Open` to its `Close` and back.
pub open spec fn pairs(marks: Seq<Mark>) -> Map<usize, usize>
    decreases marks.len(),
{
    if marks.len() == 0 {
        Map::empty()
    } else {
        let at = (marks.len() - 1) as usize;
        let before = pairs(marks.drop_last());
        match scan(marks.drop_last()) {
            Scan::Open(open) => if marks.last() == Mark::Close && open.len() > 0 {
                before.insert(open.last() as usize, at).insert(at, open.last() as usize)
            } else {
                before
            },
            Scan::Stray(_) => before,
        }
    }
}

/// A stack of machine indices as the scan holds it.
pub open spec fn indices(open: Seq<usize>) -> Seq<int> {
    Seq::new(open.len(), |k: int| open[k] as int)
}

/// Scans source bytes for an unmatched bracket.
pub fn check_bytes(bytes: &[u8]) -> (r: Option<usize>)
    ensures
        r == verdict(of_bytes(bytes@)),
{
    let mut open: Vec<usize> = Vec::new();
    let mut i: usize = 0;
    while i < bytes.len()
        invariant
            i <= bytes.len(),
            scan(of_bytes(bytes@).take(i as int)) matches Scan::Open(s) && s =~= indices(open@),
            forall|k: int| 0 <= k < open.len() ==> open[k] < i,
        decreases bytes.len() - i,
    {
        let ghost marks = of_bytes(bytes@);
        proof {
            assert(marks.take(i + 1).drop_last() =~= marks.take(i as int));
        }
        let b = bytes[i];
        if b == OPEN {
            open.push(i);
        } else if b == CLOSE {
            if open.len() == 0 {
                proof {
                    lemma_stray_stays(marks, i + 1);
                }
                return Some(i);
            }
            open.pop();
        }
        i += 1;
    }
    proof {
        assert(of_bytes(bytes@).take(i as int) =~= of_bytes(bytes@));
    }
    if open.len() != 0 {
        let last = open[open.len() - 1];
        Some(last)
    } else {
        None
    }
}

/// The scan after one more mark.
pub proof fn lemma_scan_push(marks: Seq<Mark>, m: Mark)
    ensures
        scan(marks.push(m)) == match scan(marks) {
            Scan::Stray(i) => Scan::Stray(i),
            Scan::Open(open) => match m {
                Mark::Open => Scan::Open(open.push(marks.len() as int)),
                Mark::Close => if open.len() == 0 {
                    Scan::Stray(marks.len() as int)
                } else {
                    Scan::Open(open.drop_last())
                },
                Mark::Other => Scan::Open(open),
            },
        },
{
    assert(marks.push(m).drop_last() =~= marks);
}

/// Once a prefix has a stray `Close`, every longer text reports the same one.
pub proof fn lemma_stray_stays(marks: Seq<Mark>, n: int)
    requires
        0 <= n <= marks.len(),
        scan(marks.take(n)) is Stray,
    ensures
        scan(marks) == scan(marks.take(n)),
    decreases marks.len() - n,
{
    if n < marks.len() {
        assert(marks.take(n + 1).drop_last() =~= marks.take(n));
        lemma_stray_stays(marks, n + 1);
    } else {
        assert(marks.take(n) =~= marks);
    }
}

/// Every index held by a scan lies inside the text scanned.
pub proof fn lemma_scan_in_range(marks: Seq<Mark>)
    ensures
        match scan(marks) {
            Scan::Stray(i) => 0 <= i < marks.len(),
            Scan::Open(open) => open.len() <= marks.len() && forall|k: int|
                0 <= k < open.len() ==> 0 <= #[trigger] open[k] < marks.len(),
        },
    decreases marks.len(),
{
    if marks.len() > 0 {
        lemma_scan_in_range(marks.drop_last());
    }
}

/// How many more `Open` than `Close` marks there are.
pub open spec fn depth(marks: Seq<Mark>) -> int
    decreases marks.len(),
{
    if marks.len() == 0 {
        0
    } else {
        depth(marks.drop_last()) + match marks.last() {
            Mark::Open => 1int,
            Mark::Close => -1int,
            Mark::Other => 0int,
        }
    }
}

/// No part of the text from its start has more `Close` than `Open` marks.
pub open spec fn never_below(marks: Seq<Mark>) -> bool {
    forall|n: int| 0 <= n <= marks.len() ==> depth(#[trigger] marks.take(n)) >= 0
}

/// The brackets are balanced: as many `Close` as `Open` in all, and never
/// more `Close` than `Open` up to any point.
pub open spec fn balanced(marks: Seq<Mark>) -> bool {
    depth(marks) == 0 && never_below(marks)
}

/// What a scan knows: while nothing is stray, as many brackets are open as
/// the depth says, and the depth was never below zero; a stray `Close` is at
/// the first point where the depth falls below zero.
pub proof fn lemma_scan_counts(marks: Seq<Mark>)
    ensures
        match scan(marks) {
            Scan::Open(open) => open.len() == depth(marks) && never_below(marks),
            Scan::Stray(i) => 0 <= i < marks.len() && depth(marks.take(i + 1)) < 0 && never_below(
                marks.take(i),
            ),
        },
    decreases marks.len(),
{
    if marks.len() > 0 {
        let before = marks.drop_last();
        lemma_scan_counts(before);
        assert(marks.take(marks.len() as int) =~= marks);
        assert(marks.take(marks.len() - 1) =~= before);
        match scan(before) {
            Scan::Open(_) => {
                assert forall|n: int| 0 <= n < marks.len() implies depth(#[trigger] marks.take(n))
                    >= 0 by {
                    assert(marks.take(n) =~= before.take(n));
                }
            },
            Scan::Stray(i) => {
                assert(marks.take(i + 1) =~= before.take(i + 1));
                assert(marks.take(i) =~= before.take(i));
            },
        }
    } else {
        assert forall|n: int| 0 <= n <= marks.len() implies depth(#[trigger] marks.take(n)) >= 0 by {
            assert(marks.take(n) =~= marks);
        }
    }
}

/// A text is accepted exactly if its brackets are balanced.
pub proof fn lemma_accepted_means_balanced(marks: Seq<Mark>)
    ensures
        verdict(marks) is None <==> balanced(marks),
{
    lemma_scan_counts(marks);
}

/// The `Open` at `j` is never closed: from there on the depth does not fall
/// back to what it was before `j`.
pub open spec fn unclosed(marks: Seq<Mark>, j: int) -> bool {
    &&& 0 <= j < marks.len()
    &&& marks[j] == Mark::Open
    &&& forall|n: int|
        j < n <= marks.len() ==> depth(#[trigger] marks.take(n)) >= depth(marks.take(j + 1))
}

/// The brackets that a scan holds open are the unclosed ones, in rising
/// order, each one level deeper than the one before it.
pub open spec fn holds_unclosed(marks: Seq<Mark>, open: Seq<int>) -> bool {
    &&& forall|j: int| unclosed(marks, j) <==> open.contains(j)
    &&& forall|a: int, b: int| 0 <= a < b < open.len() ==> open[a] < open[b]
    &&& forall|k: int| 0 <= k < open.len() ==> depth(marks.take(#[trigger] open[k] + 1)) == k + 1
}

/// While nothing is stray, a scan holds open exactly the unclosed brackets.
pub proof fn lemma_scan_holds_unclosed(marks: Seq<Mark>)
    ensures
        scan(marks) matches Scan::Open(open) ==> holds_unclosed(marks, open),
    decreases marks.len(),
{
    if marks.len() > 0 {
        let before = marks.drop_last();
        let at = marks.len() - 1;
        lemma_scan_holds_unclosed(before);
        lemma_scan_counts(before);
        lemma_scan_in_range(before);
        if let Scan::Open(was) = scan(before) {
            assert(marks.take(marks.len() as int) =~= marks);
            assert forall|n: int| 0 <= n <= at implies #[trigger] marks.take(n) == before.take(n) by {
                assert(marks.take(n) =~= before.take(n));
            }
            if let Scan::Open(open) = scan(marks) {
                assert forall|j: int| unclosed(marks, j) <==> open.contains(j) by {
                    if j == at {
                        if marks.last() == Mark::Open {
                            assert(open[was.len() as int] == at);
                        } else if open.contains(j) {
                            let k = choose|k: int| 0 <= k < open.len() && open[k] == j;
                            assert(was[k] == j);
                        }
                    } else if 0 <= j < at {
                        if unclosed(marks, j) {
                            assert forall|n: int| j < n <= before.len() implies depth(
                                #[trigger] before.take(n),
                            ) >= depth(before.take(j + 1)) by {
                                assert(marks.take(n) == before.take(n));
                            }
                            assert(unclosed(before, j));
                            let k = choose|k: int| 0 <= k < was.len() && was[k] == j;
                            if marks.last() == Mark::Close {
                                assert(k < was.len() - 1) by {
                                    assert(depth(marks.take(marks.len() as int)) >= depth(
                                        marks.take(j + 1),
                                    ));
                                }
                            }
                            assert(open[k] == j);
                        }
                        if open.contains(j) {
                            let k = choose|k: int| 0 <= k < open.len() && open[k] == j;
                            assert(was[k] == j);
                            assert(was.contains(j));
                            assert(unclosed(before, j));
                            assert forall|n: int| j < n <= marks.len() implies depth(
                                #[trigger] marks.take(n),
                            ) >= depth(marks.take(j + 1)) by {
                                if n <= at {
                                    assert(marks.take(n) == before.take(n));
                                    assert(depth(before.take(n)) >= depth(before.take(j + 1)));
                                }
                            }
                        }
                    } else if open.contains(j) {
                        let k = choose|k: int| 0 <= k < open.len() && open[k] == j;
                        assert(0 <= open[k] < marks.len());
                    }
                }
                assert forall|k: int| 0 <= k < open.len() implies depth(
                    marks.take(#[trigger] open[k] + 1),
                ) == k + 1 by {
                    if k < was.len() {
                        assert(was[k] == open[k]);
                        assert(marks.take(was[k] + 1) == before.take(was[k] + 1));
                    }
                }
            }
        }
    } else {
        assert forall|j: int| unclosed(marks, j) <==> Seq::<int>::empty().contains(j) by {}
    }
}

/// Where no `Close` is stray and a bracket is reported, it is the innermost
/// unclosed one: it is unclosed, and no bracket behind it is.
pub proof fn lemma_reported_open_is_innermost(marks: Seq<Mark>)
    requires
        marks.len() <= usize::MAX,
    ensures
        scan(marks) is Open ==> match verdict(marks) {
            Some(j) => unclosed(marks, j as int) && forall|i: int| j < i ==> !unclosed(marks, i),
            None => forall|i: int| !unclosed(marks, i),
        },
{
    lemma_scan_holds_unclosed(marks);
    lemma_scan_in_range(marks);
    if let Scan::Open(open) = scan(marks) {
        if open.len() > 0 {
            let j = open.last();
            assert(open.contains(j));
            assert forall|i: int| j < i implies !unclosed(marks, i) by {
                if unclosed(marks, i) {
                    let k = choose|k: int| 0 <= k < open.len() && open[k] == i;
                    assert(open[k] <= open[open.len() - 1]);
                }
            }
        } else {
            assert forall|i: int| !unclosed(marks, i) by {
                if unclosed(marks, i) {
                    assert(open.contains(i));
                }
            }
        }
    }
}

/// What holds of the pairs matched so far, given the brackets still open:
/// the open ones are `Open` marks in rising order; an index has an entry
/// exactly if it is a `Close`, or an `Open` no longer open; and each entry
/// leads from an `Open` forward to a `Close`, or from a `Close` back to an
/// `Open`, whose own entry leads back.
pub open spec fn matched(marks: Seq<Mark>, table: Map<usize, usize>, open: Seq<int>) -> bool {
    &&& forall|k: int|
        0 <= k < open.len() ==> 0 <= #[trigger] open[k] < marks.len() && marks[open[k]]
            == Mark::Open
    &&& forall|j: int, k: int| 0 <= j < k < open.len() ==> open[j] < open[k]
    &&& forall|i: usize| #[trigger] table.contains_key(i) ==> i < marks.len()
    &&& forall|i: int|
        0 <= i < marks.len() ==> (#[trigger] table.contains_key(i as usize) <==> marks[i]
            == Mark::Close || (marks[i] == Mark::Open && !open.contains(i)))
    &&& forall|i: usize| #[trigger]
        table.contains_key(i) ==> {
            &&& table.contains_key(table[i])
            &&& table[table[i]] == i
            &&& marks[i as int] == Mark::Open ==> marks[table[i] as int] == Mark::Close && i
                < table[i]
            &&& marks[i as int] == Mark::Close ==> marks[table[i] as int] == Mark::Open
                && table[i] < i
        }
}

/// As long as no `Close` is stray, the pairs matched so far are `matched`.
pub proof fn lemma_pairs_matched(marks: Seq<Mark>)
    requires
        marks.len() <= usize::MAX,
    ensures
        scan(marks) matches Scan::Open(open) ==> matched(marks, pairs(marks), open),
    decreases marks.len(),
{
    if marks.len() > 0 {
        let before = marks.drop_last();
        let at = (marks.len() - 1) as usize;
        lemma_pairs_matched(before);
        if let Scan::Open(was) = scan(before) {
            let table = pairs(before);
            match marks.last() {
                Mark::Open => {
                    let open = was.push(at as int);
                    assert forall|i: int| 0 <= i < marks.len() implies (#[trigger] table.contains_key(
                        i as usize,
                    ) <==> marks[i] == Mark::Close || (marks[i] == Mark::Open && !open.contains(i))) by {
                        if i == at {
                            assert(open[was.len() as int] == i);
                        } else if was.contains(i) {
                            let k = choose|k: int| 0 <= k < was.len() && was[k] == i;
                            assert(open[k] == i);
                        }
                    }
                },
                Mark::Close => {
                    if was.len() > 0 {
                        let o = was.last() as usize;
                        let open = was.drop_last();
                        let now = table.insert(o, at).insert(at, o);
                        assert(was.contains(o as int));
                        assert forall|i: int| 0 <= i < marks.len() implies (#[trigger] now.contains_key(
                            i as usize,
                        ) <==> marks[i] == Mark::Close || (marks[i] == Mark::Open && !open.contains(
                            i,
                        ))) by {
                            if i != at && i != o && was.contains(i) {
                                let k = choose|k: int| 0 <= k < was.len() && was[k] == i;
                                assert(open[k] == i);
                            }
                        }
                    }
                },
                Mark::Other => {},
            }
        }
    }
}

/// The `Close` at `j` is the one that closes the `Open` at `i`: it is the
/// first place behind `i` where the depth is back to what it was before `i`.
pub open spec fn closes(marks: Seq<Mark>, i: int, j: int) -> bool {
    &&& 0 <= i < j < marks.len()
    &&& depth(marks.take(j + 1)) == depth(marks.take(i))
    &&& forall|n: int| i < n <= j ==> depth(#[trigger] marks.take(n)) > depth(marks.take(i))
}

/// Every pair that was matched is an `Open` with the `Close` that closes it.
pub open spec fn pairs_close(marks: Seq<Mark>, table: Map<usize, usize>) -> bool {
    forall|i: usize| #[trigger]
        table.contains_key(i) && marks[i as int] == Mark::Open ==> closes(
            marks,
            i as int,
            table[i] as int,
        )
}

/// As long as no `Close` is stray, each `Open` that has an entry is paired
/// with the `Close` that closes it.
pub proof fn lemma_pairs_close(marks: Seq<Mark>)
    requires
        marks.len() <= usize::MAX,
    ensures
        scan(marks) is Open ==> pairs_close(marks, pairs(marks)),
    decreases marks.len(),
{
    if marks.len() > 0 {
        let before = marks.drop_last();
        let at = (marks.len() - 1) as usize;
        lemma_pairs_close(before);
        lemma_pairs_matched(before);
        lemma_scan_holds_unclosed(before);
        if let Scan::Open(was) = scan(before) {
            let table = pairs(before);
            let now = pairs(marks);
            assert(marks.take(marks.len() as int) =~= marks);
            assert forall|n: int| 0 <= n <= at implies #[trigger] marks.take(n) == before.take(n) by {
                assert(marks.take(n) =~= before.take(n));
            }
            assert(before.take(at as int) =~= before);
            if scan(marks) is Open {
                assert forall|i: usize| #[trigger]
                    now.contains_key(i) && marks[i as int] == Mark::Open implies closes(
                    marks,
                    i as int,
                    now[i] as int,
                ) by {
                    if marks.last() == Mark::Close && i == was.last() {
                        let k = was.len() - 1;
                        assert(was[k] == i);
                        assert(was.contains(i as int));
                        assert(unclosed(before, i as int));
                        assert(depth(before.take(was[k] + 1)) == k + 1);
                        lemma_scan_counts(before);
                        assert(before.take(i + 1).drop_last() =~= before.take(i as int));
                        assert forall|n: int| i < n <= at implies depth(#[trigger] marks.take(n))
                            > depth(marks.take(i as int)) by {
                            assert(marks.take(n) == before.take(n));
                            assert(depth(before.take(n)) >= depth(before.take(i + 1)));
                        }
                    } else {
                        assert(table.contains_key(i));
                        assert(closes(before, i as int, table[i] as int));
                        let j = table[i] as int;
                        assert forall|n: int| i < n <= j implies depth(#[trigger] marks.take(n))
                            > depth(marks.take(i as int)) by {
                            assert(marks.take(n) == before.take(n));
                            assert(depth(before.take(n)) > depth(before.take(i as int)));
                        }
                    }
                }
            }
        }
    }
}

} // verus!
