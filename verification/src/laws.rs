//! Laws the engine obeys on every run, stated and proved once for all
//! inputs: the wraparound of cell arithmetic, the circularity of the tape,
//! and how loop brackets steer the command cursor.

use vstd::prelude::*;
use vstd::arithmetic::div_mod::{lemma_add_mod_noop, lemma_mod_multiples_vanish};
use crate::balance::{is_match_pair, lemma_match_end_of, lemma_match_start_of};
use crate::command::Command;
use crate::machine::{
    dec_byte, inc_byte, left_of, right_of, state_wf, step_spec, Config, State, TAPE_LEN,
};

verus! {

/// A cell's value after `n` Increments.
pub open spec fn inc_iter(v: u8, n: nat) -> u8
    decreases n,
{
    if n == 0 {
        v
    } else {
        inc_byte(inc_iter(v, (n - 1) as nat))
    }
}

/// A cell's value after `n` Decrements.
pub open spec fn dec_iter(v: u8, n: nat) -> u8
    decreases n,
{
    if n == 0 {
        v
    } else {
        dec_byte(dec_iter(v, (n - 1) as nat))
    }
}

/// The tape cursor after `n` MoveRights.
pub open spec fn right_iter(i: int, n: nat) -> int
    decreases n,
{
    if n == 0 {
        i
    } else {
        right_of(right_iter(i, (n - 1) as nat))
    }
}

/// The tape cursor after `n` MoveLefts.
pub open spec fn left_iter(i: int, n: nat) -> int
    decreases n,
{
    if n == 0 {
        i
    } else {
        left_of(left_iter(i, (n - 1) as nat))
    }
}

proof fn lemma_inc_iter_formula(v: u8, n: nat)
    ensures
        inc_iter(v, n) == ((v + n) % 256) as u8,
    decreases n,
{
    if n == 0 {
        assert(v as int % 256 == v as int);
    } else {
        lemma_inc_iter_formula(v, (n - 1) as nat);
        let w = (v + (n - 1)) % 256;
        lemma_add_mod_noop((v + n - 1) as int, 1, 256);
        assert((v + n) % 256 == (w + 1) % 256);
        if w == 255 {
            assert((w + 1) % 256 == 0);
        } else {
            assert((w + 1) % 256 == w + 1);
        }
    }
}

proof fn lemma_dec_iter_formula(v: u8, n: nat)
    ensures
        dec_iter(v, n) == ((v + 255 * n) % 256) as u8,
    decreases n,
{
    if n == 0 {
        assert(v as int % 256 == v as int);
    } else {
        lemma_dec_iter_formula(v, (n - 1) as nat);
        let w = (v + 255 * (n - 1)) % 256;
        lemma_add_mod_noop((v + 255 * (n - 1)) as int, 255, 256);
        assert((v + 255 * n) % 256 == (w + 255) % 256);
        if w == 0 {
            assert((w + 255) % 256 == 255);
        } else {
            lemma_mod_multiples_vanish(1, w - 1, 256);
            assert((w + 255) % 256 == (w - 1) % 256);
            assert((w - 1) % 256 == w - 1);
        }
    }
}

/// Wraparound law of cell arithmetic: 256 Increments return a cell to its
/// original value, and so do 256 Decrements.
pub proof fn lemma_cell_wraparound(v: u8)
    ensures
        inc_iter(v, 256) == v,
        dec_iter(v, 256) == v,
{
    lemma_inc_iter_formula(v, 256);
    lemma_mod_multiples_vanish(1, v as int, 256);
    lemma_dec_iter_formula(v, 256);
    lemma_mod_multiples_vanish(255, v as int, 256);
}

proof fn lemma_right_iter_formula(i: int, n: nat)
    requires
        0 <= i < TAPE_LEN,
    ensures
        right_iter(i, n) == (i + n) % (TAPE_LEN as int),
    decreases n,
{
    let m = TAPE_LEN as int;
    if n == 0 {
        assert(i % m == i);
    } else {
        lemma_right_iter_formula(i, (n - 1) as nat);
        let w = (i + (n - 1)) % m;
        lemma_add_mod_noop((i + n - 1) as int, 1, m);
        assert((i + n) % m == (w + 1) % m);
        if w == m - 1 {
            lemma_mod_multiples_vanish(1, 0, m);
            assert((w + 1) % m == 0);
        } else {
            assert((w + 1) % m == w + 1);
        }
    }
}

proof fn lemma_left_iter_formula(i: int, n: nat)
    requires
        0 <= i < TAPE_LEN,
    ensures
        left_iter(i, n) == (i + (TAPE_LEN - 1) * n) % (TAPE_LEN as int),
    decreases n,
{
    let m = TAPE_LEN as int;
    if n == 0 {
        assert(i % m == i);
    } else {
        lemma_left_iter_formula(i, (n - 1) as nat);
        let w = (i + (m - 1) * (n - 1)) % m;
        lemma_add_mod_noop((i + (m - 1) * (n - 1)) as int, m - 1, m);
        assert((i + (m - 1) * n) % m == (w + m - 1) % m);
        if w == 0 {
            lemma_mod_multiples_vanish(0, m - 1, m);
            assert((w + m - 1) % m == m - 1);
        } else {
            lemma_mod_multiples_vanish(1, w - 1, m);
            assert((w + m - 1) % m == (w - 1) % m);
            assert((w - 1) % m == w - 1);
        }
    }
}

/// Circular law of the tape: 30,000 MoveRights return the tape cursor to
/// its starting position, and so do 30,000 MoveLefts.
pub proof fn lemma_tape_circular(i: int)
    requires
        0 <= i < TAPE_LEN,
    ensures
        right_iter(i, TAPE_LEN as nat) == i,
        left_iter(i, TAPE_LEN as nat) == i,
{
    let m = TAPE_LEN as int;
    lemma_right_iter_formula(i, TAPE_LEN as nat);
    lemma_mod_multiples_vanish(1, i, m);
    lemma_left_iter_formula(i, TAPE_LEN as nat);
    assert(i + (m - 1) * m == m * (m - 1) + i);
    lemma_mod_multiples_vanish(m - 1, i, m);
}

/// A LoopStart seen with a non-zero current cell only advances the command
/// cursor by one: tape, tape cursor and both channels are untouched, and
/// the cursor does not jump.
pub proof fn lemma_loop_start_nonzero(c: Config, s: State)
    requires
        state_wf(c, s),
        0 <= s.command_index < c.program.len(),
        c.program[s.command_index] == Command::LoopStart,
        s.tape[s.tape_index] != 0,
    ensures
        step_spec(c, s) == (State { command_index: s.command_index + 1, ..s }),
{
    assert(step_spec(c, s) =~= (State { command_index: s.command_index + 1, ..s }));
}

/// How a balanced loop steers the command cursor, so that the body runs
/// repeatedly until the current cell is zero: a zero cell at the LoopStart
/// skips just past the matching LoopEnd; a non-zero cell at the LoopEnd
/// returns to the matching LoopStart, whose test runs again; a zero cell
/// at the LoopEnd proceeds just past it.
pub proof fn lemma_loop_control(c: Config, s: State, i: int, j: int)
    requires
        is_match_pair(c.program, i, j),
    ensures
        s.command_index == i && s.tape[s.tape_index] == 0 ==> step_spec(c, s).command_index == j
            + 1,
        s.command_index == j && s.tape[s.tape_index] != 0 ==> step_spec(c, s).command_index == i,
        s.command_index == j && s.tape[s.tape_index] == 0 ==> step_spec(c, s).command_index == s.command_index + 1,
{
    if s.command_index == i && s.tape[s.tape_index] == 0 {
        lemma_match_end_of(c.program, i, j);
    }
    if s.command_index == j && s.tape[s.tape_index] != 0 {
        lemma_match_start_of(c.program, i, j);
    }
}

/// After a LoopEnd sees a non-zero current cell, the body begins again:
/// the jump back to the matching LoopStart writes nothing, so the
/// LoopStart's re-test sees the same non-zero cell and steps into the
/// body, with tape, tape cursor and both channels exactly as they were.
pub proof fn lemma_loop_end_reenters_body(c: Config, s: State, i: int, j: int)
    requires
        is_match_pair(c.program, i, j),
        s.command_index == j,
        s.tape[s.tape_index] != 0,
    ensures
        step_spec(c, s) == (State { command_index: i, ..s }),
        step_spec(c, step_spec(c, s)) == (State { command_index: i + 1, ..s }),
{
    lemma_match_start_of(c.program, i, j);
    assert(step_spec(c, s) =~= (State { command_index: i, ..s }));
    assert(step_spec(c, step_spec(c, s)) =~= (State { command_index: i + 1, ..s }));
}

} // verus!
