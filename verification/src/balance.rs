//! Loop-bracket structure of a program: nesting depth, the balance
//! predicate, the up-front balance check, and the run-time linear scans
//! that find a bracket's match.

use vstd::prelude::*;
use crate::command::Command;

verus! {

/// How one command changes the loop nesting depth.
pub open spec fn nesting_delta(cmd: Command) -> int {
    match cmd {
        Command::LoopStart => 1,
        Command::LoopEnd => -1,
        _ => 0,
    }
}

/// The loop nesting depth just before position `i`: the number of
/// `LoopStart`s minus the number of `LoopEnd`s among the first `i` commands.
pub open spec fn depth(p: Seq<Command>, i: int) -> int
    decreases i,
{
    if i <= 0 {
        0
    } else {
        depth(p, i - 1) + nesting_delta(p[i - 1])
    }
}

/// A program is well-formed when its brackets are properly nested and
/// balanced: the depth never dips below zero and ends at zero.
pub open spec fn balanced(p: Seq<Command>) -> bool {
    &&& depth(p, p.len() as int) == 0
    &&& forall|i: int| 0 <= i <= p.len() ==> depth(p, i) >= 0
}

/// `p[i]` is a `LoopStart` and `p[j]` is exactly its matching `LoopEnd`:
/// the depth returns to its pre-`i` value just past `j` and stays strictly
/// above it everywhere in between.
pub open spec fn is_match_pair(p: Seq<Command>, i: int, j: int) -> bool {
    &&& 0 <= i < j < p.len()
    &&& p[i] == Command::LoopStart
    &&& p[j] == Command::LoopEnd
    &&& depth(p, j + 1) == depth(p, i)
    &&& forall|k: int| i < k <= j ==> depth(p, k) > depth(p, i)
}

/// The position of the `LoopEnd` matching the `LoopStart` at `i`.
pub open spec fn match_end_of(p: Seq<Command>, i: int) -> int {
    choose|j: int| is_match_pair(p, i, j)
}

/// The position of the `LoopStart` matching the `LoopEnd` at `j`.
pub open spec fn match_start_of(p: Seq<Command>, j: int) -> int {
    choose|i: int| is_match_pair(p, i, j)
}

/// A `LoopStart` has at most one matching `LoopEnd`.
pub proof fn lemma_match_end_unique(p: Seq<Command>, i: int, j1: int, j2: int)
    requires
        is_match_pair(p, i, j1),
        is_match_pair(p, i, j2),
    ensures
        j1 == j2,
{
    if j1 < j2 {
        assert(depth(p, j1 + 1) > depth(p, i));
    }
    if j2 < j1 {
        assert(depth(p, j2 + 1) > depth(p, i));
    }
}

/// A `LoopEnd` has at most one matching `LoopStart`.
pub proof fn lemma_match_start_unique(p: Seq<Command>, i1: int, i2: int, j: int)
    requires
        is_match_pair(p, i1, j),
        is_match_pair(p, i2, j),
    ensures
        i1 == i2,
{
    if i1 < i2 {
        assert(depth(p, i2) > depth(p, i1));
        assert(depth(p, j + 1) == depth(p, i1));
        assert(depth(p, j + 1) == depth(p, i2));
    }
    if i2 < i1 {
        assert(depth(p, i1) > depth(p, i2));
        assert(depth(p, j + 1) == depth(p, i2));
        assert(depth(p, j + 1) == depth(p, i1));
    }
}

/// `match_end_of` picks the one matching `LoopEnd` once a witness is known.
pub proof fn lemma_match_end_of(p: Seq<Command>, i: int, j: int)
    requires
        is_match_pair(p, i, j),
    ensures
        match_end_of(p, i) == j,
{
    let j2 = match_end_of(p, i);
    assert(is_match_pair(p, i, j2));
    lemma_match_end_unique(p, i, j, j2);
}

/// `match_start_of` picks the one matching `LoopStart` once a witness is known.
pub proof fn lemma_match_start_of(p: Seq<Command>, i: int, j: int)
    requires
        is_match_pair(p, i, j),
    ensures
        match_start_of(p, j) == i,
{
    let i2 = match_start_of(p, j);
    assert(is_match_pair(p, i2, j));
    lemma_match_start_unique(p, i, i2, j);
}

/// The depth over `i` commands lies between `-i` and `i`.
pub proof fn lemma_depth_bounds(p: Seq<Command>, i: int)
    requires
        0 <= i,
    ensures
        -i <= depth(p, i) <= i,
    decreases i,
{
    if i > 0 {
        lemma_depth_bounds(p, i - 1);
    }
}

/// A positive depth over an all-nonnegative prefix is reached only by
/// crossing a `LoopStart` standing at depth exactly zero.
proof fn lemma_positive_depth_has_open_at_zero(p: Seq<Command>, k: int)
    requires
        0 <= k <= p.len(),
        depth(p, k) > 0,
    ensures
        exists|j: int|
            0 <= j < k && p[j] == Command::LoopStart && #[trigger] depth(p, j) == 0,
    decreases k,
{
    if depth(p, k - 1) > 0 {
        lemma_positive_depth_has_open_at_zero(p, k - 1);
    } else {
        assert(p[k - 1] == Command::LoopStart && depth(p, k - 1) == 0);
    }
}

/// The offending position reported for an unbalanced program: the first
/// `LoopEnd` with no earlier unmatched `LoopStart` to close, or — when every
/// `LoopEnd` is matched — the last `LoopStart` at depth zero, which is the
/// first one left unclosed.
pub open spec fn unbalanced_at(p: Seq<Command>, i: int) -> bool {
    if exists|j: int| 0 <= j < p.len() && p[j] == Command::LoopEnd && #[trigger] depth(p, j) == 0 {
        &&& 0 <= i < p.len()
        &&& p[i] == Command::LoopEnd
        &&& depth(p, i) == 0
        &&& forall|j: int|
            0 <= j < i ==> !(p[j] == Command::LoopEnd && #[trigger] depth(p, j) == 0)
    } else {
        &&& depth(p, p.len() as int) > 0
        &&& 0 <= i < p.len()
        &&& p[i] == Command::LoopStart
        &&& depth(p, i) == 0
        &&& forall|j: int|
            i < j < p.len() ==> !(p[j] == Command::LoopStart && #[trigger] depth(p, j) == 0)
    }
}

/// Decides whether a program's brackets are properly nested and balanced.
/// Returns `None` exactly for balanced programs; otherwise reports the
/// position of the offending bracket: the first unmatched `LoopEnd` if one
/// exists, else the first unclosed `LoopStart`.
pub fn check_balanced(program: &Vec<Command>) -> (r: Option<usize>)
    ensures
        match r {
            None => balanced(program@),
            Some(i) => !balanced(program@) && unbalanced_at(program@, i as int),
        },
{
    let ghost p = program@;
    let n: usize = program.len();
    let mut d: usize = 0;
    let mut open0: usize = 0;
    let mut seen_open0: bool = false;
    let mut i: usize = 0;
    while i < n
        invariant
            p == program@,
            n == p.len(),
            i <= n,
            d == depth(p, i as int),
            forall|k: int| 0 <= k <= i ==> depth(p, k) >= 0,
            forall|j: int| 0 <= j < i ==> !(p[j] == Command::LoopEnd && #[trigger] depth(p, j) == 0),
            seen_open0 ==> open0 < i && p[open0 as int] == Command::LoopStart
                && depth(p, open0 as int) == 0
                && forall|j: int|
                    open0 < j < i ==> !(p[j] == Command::LoopStart && #[trigger] depth(p, j) == 0),
            !seen_open0 ==> forall|j: int|
                0 <= j < i ==> !(p[j] == Command::LoopStart && #[trigger] depth(p, j) == 0),
        decreases n - i,
    {
        proof {
            lemma_depth_bounds(p, i as int);
        }
        let cmd = program[i];
        match cmd {
            Command::LoopStart => {
                if d == 0 {
                    open0 = i;
                    seen_open0 = true;
                }
                d = d + 1;
            }
            Command::LoopEnd => {
                if d == 0 {
                    proof {
                        assert(depth(p, i + 1) < 0);
                        assert(!balanced(p));
                    }
                    return Some(i);
                }
                d = d - 1;
            }
            _ => {}
        }
        i += 1;
    }
    if d > 0 {
        proof {
            if !seen_open0 {
                lemma_positive_depth_has_open_at_zero(p, n as int);
                assert(false);
            }
        }
        return Some(open0);
    }
    None
}

/// Finds the `LoopEnd` matching the `LoopStart` at `start` by the forward
/// linear scan: a nesting counter starts at one, rises on `LoopStart`, falls
/// on `LoopEnd`, and the scan stops where it reaches zero. Balance keeps the
/// scan inside the program.
pub fn find_loop_end(program: &Vec<Command>, start: usize) -> (r: usize)
    requires
        balanced(program@),
        start < program@.len(),
        program@[start as int] == Command::LoopStart,
    ensures
        is_match_pair(program@, start as int, r as int),
{
    let ghost p = program@;
    let n: usize = program.len();
    let mut k: usize = start;
    let mut jc: usize = 1;
    loop
        invariant
            balanced(p),
            p == program@,
            n == p.len(),
            start < n,
            p[start as int] == Command::LoopStart,
            0 <= depth(p, start as int),
            start <= k < n,
            jc == depth(p, k + 1) - depth(p, start as int),
            jc >= 1,
            forall|m: int| start < m <= k ==> depth(p, m) > depth(p, start as int),
        decreases n - k,
    {
        proof {
            if k + 1 == n {
                assert(depth(p, k + 1) == 0);
                assert(false);
            }
        }
        k = k + 1;
        let cmd = program[k];
        proof {
            lemma_depth_bounds(p, k as int);
        }
        match cmd {
            Command::LoopStart => {
                jc = jc + 1;
            }
            Command::LoopEnd => {
                jc = jc - 1;
                if jc == 0 {
                    proof {
                        assert(depth(p, k + 1) == depth(p, start as int));
                    }
                    return k;
                }
            }
            _ => {}
        }
    }
}

/// Finds the `LoopStart` matching the `LoopEnd` at `end` by the backward
/// linear scan: a nesting counter starts at one, rises on `LoopEnd`, falls
/// on `LoopStart`, and the scan stops where it reaches zero. Balance keeps
/// the scan inside the program.
pub fn find_loop_start(program: &Vec<Command>, end: usize) -> (r: usize)
    requires
        balanced(program@),
        end < program@.len(),
        program@[end as int] == Command::LoopEnd,
    ensures
        is_match_pair(program@, r as int, end as int),
{
    let ghost p = program@;
    let n: usize = program.len();
    let mut k: usize = end;
    let mut jc: usize = 1;
    proof {
        assert(depth(p, end + 1) == depth(p, end as int) - 1);
        assert(depth(p, end as int) >= 1);
    }
    loop
        invariant
            balanced(p),
            p == program@,
            n == p.len(),
            end < n,
            p[end as int] == Command::LoopEnd,
            depth(p, end as int) >= 1,
            k <= end,
            jc == 1 + depth(p, k as int) - depth(p, end as int),
            jc >= 1,
            forall|m: int| k <= m <= end ==> depth(p, m) >= depth(p, end as int),
        decreases k,
    {
        proof {
            if k == 0 {
                assert(depth(p, 0) == 0);
                assert(false);
            }
        }
        k = k - 1;
        let cmd = program[k];
        proof {
            lemma_depth_bounds(p, k as int);
        }
        match cmd {
            Command::LoopEnd => {
                jc = jc + 1;
            }
            Command::LoopStart => {
                jc = jc - 1;
                if jc == 0 {
                    proof {
                        assert(depth(p, k as int) == depth(p, end as int) - 1);
                        assert(depth(p, end + 1) == depth(p, k as int));
                        assert(forall|m: int|
                            k < m <= end ==> depth(p, m) > depth(p, k as int));
                    }
                    return k;
                }
            }
            _ => {}
        }
    }
}

} // verus!
