//! The execution engine: a fetch-execute loop over a fixed 30,000-cell
//! circular tape of wrapping bytes, with run-time bracket matching, an
//! injected input channel of text lines, and an output channel of
//! characters rendered in ASCII or numeric mode.

use vstd::prelude::*;
use crate::balance::{
    balanced, check_balanced, find_loop_end, find_loop_start, is_match_pair, lemma_match_end_of,
    lemma_match_start_of, match_end_of, match_start_of, unbalanced_at,
};
use crate::command::{lex, lex_spec, Command};
use crate::text::{decimal_chars, decimal_spec, parse_byte_spec, parse_input_line, trim_spec};

verus! {

/// The number of cells on the tape.
pub const TAPE_LEN: usize = 30000;

/// Why a program is rejected before anything runs.
#[derive(Clone, Copy, PartialEq, Eq, Structural, Debug)]
pub enum InterpError {
    /// The program's loop brackets are not properly nested and balanced;
    /// `position` is the first offending bracket in the command sequence.
    UnbalancedLoop { position: usize },
}

/// How a call to [`Machine::run`] ended.
#[derive(Clone, Copy, PartialEq, Eq, Structural, Debug)]
pub enum RunEnd {
    /// The command cursor ran past the end of the program: normal
    /// termination.
    Finished,
    /// An Input command found the input channel exhausted. As for any
    /// other failure to read input, the run ends abnormally.
    InputExhausted,
    /// The step budget ran out before the program ended; the machine can
    /// run further.
    StepLimit,
}

/// The fixed context of one run: the program, the output mode, and the
/// lines on the input channel.
#[verifier::ext_equal]
pub struct Config {
    pub program: Seq<Command>,
    pub ascii_mode: bool,
    pub inputs: Seq<Seq<char>>,
}

/// The changing state of one run: the tape, the two cursors, how much of
/// the input channel is consumed, everything output so far, and how many
/// input lines failed to parse (each such failure is one diagnostic).
#[verifier::ext_equal]
pub struct State {
    pub tape: Seq<u8>,
    pub tape_index: int,
    pub command_index: int,
    pub input_index: int,
    pub output: Seq<char>,
    pub input_failures: int,
}

/// One Increment: add one to a cell, wrapping 255 around to 0.
pub open spec fn inc_byte(v: u8) -> u8 {
    if v == 255 {
        0
    } else {
        (v + 1) as u8
    }
}

/// One Decrement: subtract one from a cell, wrapping 0 around to 255.
pub open spec fn dec_byte(v: u8) -> u8 {
    if v == 0 {
        255
    } else {
        (v - 1) as u8
    }
}

/// One MoveRight of the tape cursor, wrapping the last cell to the first.
pub open spec fn right_of(i: int) -> int {
    if i == TAPE_LEN - 1 {
        0
    } else {
        i + 1
    }
}

/// One MoveLeft of the tape cursor, wrapping the first cell to the last.
pub open spec fn left_of(i: int) -> int {
    if i == 0 {
        TAPE_LEN - 1
    } else {
        i - 1
    }
}

/// The character whose code point is the byte's value.
pub open spec fn byte_char(b: u8) -> char {
    b as char
}

/// What one Output command emits: the cell's character in ASCII mode, its
/// decimal text in numeric mode.
pub open spec fn rendered(ascii_mode: bool, b: u8) -> Seq<char> {
    if ascii_mode {
        seq![byte_char(b)]
    } else {
        decimal_spec(b)
    }
}

/// A state that fits its context: the tape has exactly `TAPE_LEN` cells,
/// both cursors are in range, and the input channel is consumed in order.
pub open spec fn state_wf(c: Config, s: State) -> bool {
    &&& s.tape.len() == TAPE_LEN
    &&& 0 <= s.tape_index < TAPE_LEN
    &&& 0 <= s.command_index <= c.program.len()
    &&& 0 <= s.input_failures <= s.input_index <= c.inputs.len()
}

/// Whether the next command can execute: the command cursor has not run
/// past the program, and an Input command still has a line to read.
pub open spec fn step_enabled(c: Config, s: State) -> bool {
    &&& 0 <= s.command_index < c.program.len()
    &&& (c.program[s.command_index] == Command::Input ==> s.input_index < c.inputs.len())
}

/// One step of the engine: fetch the command under the command cursor,
/// execute it, and advance the cursor — or jump it, for a loop bracket
/// whose test fires.
pub open spec fn step_spec(c: Config, s: State) -> State
    recommends
        state_wf(c, s),
        step_enabled(c, s),
{
    let cell = s.tape[s.tape_index];
    match c.program[s.command_index] {
        Command::MoveRight => State {
            tape_index: right_of(s.tape_index),
            command_index: s.command_index + 1,
            ..s
        },
        Command::MoveLeft => State {
            tape_index: left_of(s.tape_index),
            command_index: s.command_index + 1,
            ..s
        },
        Command::Increment => State {
            tape: s.tape.update(s.tape_index, inc_byte(cell)),
            command_index: s.command_index + 1,
            ..s
        },
        Command::Decrement => State {
            tape: s.tape.update(s.tape_index, dec_byte(cell)),
            command_index: s.command_index + 1,
            ..s
        },
        Command::Output => State {
            output: s.output + rendered(c.ascii_mode, cell),
            command_index: s.command_index + 1,
            ..s
        },
        Command::Input => (match parse_byte_spec(trim_spec(c.inputs[s.input_index])) {
            Some(v) => State {
                tape: s.tape.update(s.tape_index, v),
                input_index: s.input_index + 1,
                command_index: s.command_index + 1,
                ..s
            },
            None => State {
                tape: s.tape.update(s.tape_index, 0),
                input_index: s.input_index + 1,
                input_failures: s.input_failures + 1,
                command_index: s.command_index + 1,
                ..s
            },
        }),
        Command::LoopStart => if cell == 0 {
            State { command_index: match_end_of(c.program, s.command_index) + 1, ..s }
        } else {
            State { command_index: s.command_index + 1, ..s }
        },
        Command::LoopEnd => if cell != 0 {
            State { command_index: match_start_of(c.program, s.command_index), ..s }
        } else {
            State { command_index: s.command_index + 1, ..s }
        },
    }
}

/// `s2` arises from `s1` by exactly `n` engine steps, each of them enabled.
pub open spec fn reaches_n(c: Config, s1: State, s2: State, n: nat) -> bool
    decreases n,
{
    if n == 0 {
        s1 == s2
    } else {
        step_enabled(c, s1) && reaches_n(c, step_spec(c, s1), s2, (n - 1) as nat)
    }
}

/// `s2` arises from `s1` by zero or more engine steps.
pub open spec fn reaches(c: Config, s1: State, s2: State) -> bool {
    exists|n: nat| reaches_n(c, s1, s2, n)
}

proof fn lemma_reaches_n_extend(c: Config, s1: State, s2: State, n: nat)
    requires
        reaches_n(c, s1, s2, n),
        step_enabled(c, s2),
    ensures
        reaches_n(c, s1, step_spec(c, s2), n + 1),
    decreases n,
{
    if n == 0 {
        assert(s1 == s2);
        assert(reaches_n(c, step_spec(c, s1), step_spec(c, s2), 0));
        assert(reaches_n(c, s1, step_spec(c, s2), 1));
    } else {
        lemma_reaches_n_extend(c, step_spec(c, s1), s2, (n - 1) as nat);
        assert(reaches_n(c, s1, step_spec(c, s2), n + 1));
    }
}

proof fn lemma_halted_reachable_unique_n(c: Config, s: State, t1: State, t2: State, n1: nat, n2: nat)
    requires
        reaches_n(c, s, t1, n1),
        reaches_n(c, s, t2, n2),
        !step_enabled(c, t1),
        !step_enabled(c, t2),
    ensures
        t1 == t2,
    decreases n1,
{
    if n1 == 0 {
        assert(s == t1);
        if n2 != 0 {
            assert(step_enabled(c, s));
            assert(false);
        }
    } else {
        if n2 == 0 {
            assert(s == t2);
            assert(step_enabled(c, s));
            assert(false);
        } else {
            lemma_halted_reachable_unique_n(
                c,
                step_spec(c, s),
                t1,
                t2,
                (n1 - 1) as nat,
                (n2 - 1) as nat,
            );
        }
    }
}

/// The engine is deterministic: from one starting state, every reachable
/// state in which no step can execute is the same one. A contract that
/// names a reachable halted state therefore pins that state uniquely.
pub proof fn lemma_halted_reachable_unique(c: Config, s: State, t1: State, t2: State)
    requires
        reaches(c, s, t1),
        reaches(c, s, t2),
        !step_enabled(c, t1),
        !step_enabled(c, t2),
    ensures
        t1 == t2,
{
    let n1 = choose|n: nat| reaches_n(c, s, t1, n);
    let n2 = choose|n: nat| reaches_n(c, s, t2, n);
    lemma_halted_reachable_unique_n(c, s, t1, t2, n1, n2);
}

/// The state every run starts from: an all-zero tape, both cursors and the
/// input cursor at zero, nothing output, no diagnostics.
pub open spec fn init_state() -> State {
    State {
        tape: Seq::new(TAPE_LEN as nat, |i: int| 0u8),
        tape_index: 0,
        command_index: 0,
        input_index: 0,
        output: Seq::empty(),
        input_failures: 0,
    }
}

/// The execution engine. It exclusively owns its tape, cursors and
/// channels; the input channel is the injected list of lines that Input
/// commands consume in order, and the output channel collects what Output
/// commands emit.
pub struct Machine {
    pub program: Vec<Command>,
    pub ascii_mode: bool,
    pub inputs: Vec<String>,
    pub tape: Vec<u8>,
    pub tape_index: usize,
    pub command_index: usize,
    pub input_index: usize,
    pub output: Vec<char>,
    pub input_failures: usize,
}

impl Machine {
    /// The fixed context of this machine's run.
    pub open spec fn config(self) -> Config {
        Config {
            program: self.program@,
            ascii_mode: self.ascii_mode,
            inputs: self.inputs@.map_values(|line: String| line@),
        }
    }

    /// The changing state of this machine's run.
    pub open spec fn state(self) -> State {
        State {
            tape: self.tape@,
            tape_index: self.tape_index as int,
            command_index: self.command_index as int,
            input_index: self.input_index as int,
            output: self.output@,
            input_failures: self.input_failures as int,
        }
    }

    /// A machine the engine can run: its program is balanced and its state
    /// fits its context.
    pub open spec fn wf(self) -> bool {
        &&& balanced(self.program@)
        &&& state_wf(self.config(), self.state())
    }

    /// Builds a machine in the starting state for a program, validating
    /// loop-bracket balance up front: an unbalanced program is rejected
    /// with the position of its first offending bracket, before anything
    /// runs.
    pub fn new(program: Vec<Command>, ascii_mode: bool, inputs: Vec<String>) -> (r: Result<
        Machine,
        InterpError,
    >)
        ensures
            match r {
                Ok(m) => {
                    &&& balanced(program@)
                    &&& m.wf()
                    &&& m.config() == (Config {
                        program: program@,
                        ascii_mode,
                        inputs: inputs@.map_values(|line: String| line@),
                    })
                    &&& m.state() == init_state()
                },
                Err(e) => {
                    &&& !balanced(program@)
                    &&& e matches InterpError::UnbalancedLoop { position }
                    &&& unbalanced_at(program@, (e->UnbalancedLoop_position) as int)
                },
            },
    {
        match check_balanced(&program) {
            Some(position) => Err(InterpError::UnbalancedLoop { position }),
            None => {
                let mut tape: Vec<u8> = Vec::new();
                while tape.len() < TAPE_LEN
                    invariant
                        tape@.len() <= TAPE_LEN,
                        forall|i: int| 0 <= i < tape@.len() ==> tape@[i] == 0u8,
                    decreases TAPE_LEN - tape@.len(),
                {
                    tape.push(0u8);
                }
                let m = Machine {
                    program,
                    ascii_mode,
                    inputs,
                    tape,
                    tape_index: 0,
                    command_index: 0,
                    input_index: 0,
                    output: Vec::new(),
                    input_failures: 0,
                };
                proof {
                    assert(m.state().tape =~= init_state().tape);
                    assert(m.state() =~= init_state());
                }
                Ok(m)
            }
        }
    }

    /// Executes exactly one command: fetch the command under the command
    /// cursor, execute it, advance or jump the cursor.
    pub fn step(&mut self)
        requires
            old(self).wf(),
            step_enabled(old(self).config(), old(self).state()),
        ensures
            final(self).wf(),
            final(self).config() == old(self).config(),
            final(self).state() == step_spec(old(self).config(), old(self).state()),
    {
        let ghost c = old(self).config();
        let ghost s0 = old(self).state();
        let n: usize = self.program.len();
        let cmd = self.program[self.command_index];
        match cmd {
            Command::MoveRight => {
                if self.tape_index == TAPE_LEN - 1 {
                    self.tape_index = 0;
                } else {
                    self.tape_index += 1;
                }
                self.command_index += 1;
            }
            Command::MoveLeft => {
                if self.tape_index == 0 {
                    self.tape_index = TAPE_LEN - 1;
                } else {
                    self.tape_index -= 1;
                }
                self.command_index += 1;
            }
            Command::Increment => {
                let v = self.tape[self.tape_index];
                let nv: u8 = if v == 255 {
                    0
                } else {
                    v + 1
                };
                self.tape[self.tape_index] = nv;
                self.command_index += 1;
            }
            Command::Decrement => {
                let v = self.tape[self.tape_index];
                let nv: u8 = if v == 0 {
                    255
                } else {
                    v - 1
                };
                self.tape[self.tape_index] = nv;
                self.command_index += 1;
            }
            Command::Output => {
                let b = self.tape[self.tape_index];
                if self.ascii_mode {
                    self.output.push(byte_char_of(b));
                } else {
                    let mut digits = decimal_chars(b);
                    self.output.append(&mut digits);
                }
                self.command_index += 1;
            }
            Command::Input => {
                let _available: usize = self.inputs.len();
                let parsed = parse_input_line(self.inputs[self.input_index].as_str());
                match parsed {
                    Some(v) => {
                        self.tape[self.tape_index] = v;
                    }
                    None => {
                        self.tape[self.tape_index] = 0;
                        self.input_failures += 1;
                    }
                }
                self.input_index += 1;
                self.command_index += 1;
            }
            Command::LoopStart => {
                if self.tape[self.tape_index] == 0 {
                    let j = find_loop_end(&self.program, self.command_index);
                    proof {
                        lemma_match_end_of(self.program@, self.command_index as int, j as int);
                    }
                    self.command_index = j + 1;
                } else {
                    self.command_index += 1;
                }
            }
            Command::LoopEnd => {
                if self.tape[self.tape_index] != 0 {
                    let i0 = find_loop_start(&self.program, self.command_index);
                    proof {
                        lemma_match_start_of(self.program@, i0 as int, self.command_index as int);
                    }
                    self.command_index = i0;
                } else {
                    self.command_index += 1;
                }
            }
        }
        proof {
            assert(self.config() =~= c);
            assert(self.state() =~= step_spec(c, s0));
        }
    }

    /// Runs the fetch-execute loop until the command cursor runs past the
    /// end of the program (normal termination), an Input command finds the
    /// input channel exhausted (abnormal termination), or `max_steps`
    /// commands have executed, whichever comes first. The language has no
    /// halt instruction and a program may legitimately loop forever; the
    /// step budget keeps one call finite, and on `StepLimit` the machine
    /// stands ready to run further. Everything the run did remains
    /// readable on the machine.
    pub fn run(&mut self, max_steps: usize) -> (r: RunEnd)
        requires
            old(self).wf(),
        ensures
            final(self).wf(),
            final(self).config() == old(self).config(),
            reaches(old(self).config(), old(self).state(), final(self).state()),
            match r {
                RunEnd::Finished => final(self).state().command_index
                    == final(self).config().program.len(),
                RunEnd::InputExhausted => {
                    &&& 0 <= final(self).state().command_index
                        < final(self).config().program.len()
                    &&& final(self).config().program[final(self).state().command_index]
                        == Command::Input
                    &&& final(self).state().input_index >= final(self).config().inputs.len()
                },
                RunEnd::StepLimit => {
                    &&& reaches_n(
                        old(self).config(),
                        old(self).state(),
                        final(self).state(),
                        max_steps as nat,
                    )
                    &&& final(self).state().command_index < final(self).config().program.len()
                },
            },
    {
        let ghost c = old(self).config();
        let ghost s0 = old(self).state();
        let mut steps: usize = 0;
        loop
            invariant
                c == old(self).config(),
                s0 == old(self).state(),
                self.wf(),
                self.config() == c,
                steps <= max_steps,
                reaches_n(c, s0, self.state(), steps as nat),
            decreases max_steps - steps,
        {
            proof {
                assert(reaches(c, s0, self.state()));
            }
            if self.command_index >= self.program.len() {
                return RunEnd::Finished;
            }
            let cmd = self.program[self.command_index];
            if cmd == Command::Input && self.input_index >= self.inputs.len() {
                return RunEnd::InputExhausted;
            }
            if steps >= max_steps {
                return RunEnd::StepLimit;
            }
            let ghost pre = self.state();
            proof {
                assert(step_enabled(c, pre));
            }
            self.step();
            steps += 1;
            proof {
                lemma_reaches_n_extend(c, s0, pre, (steps - 1) as nat);
            }
        }
    }
}

/// The character whose code point is the byte's value, as ASCII-mode
/// output emits it.
fn byte_char_of(b: u8) -> (c: char)
    ensures
        c == byte_char(b),
{
    b as char
}

/// Lexes a source text and runs it with the given output mode against the
/// given input lines, from a fresh machine, for at most `max_steps`
/// commands. An unbalanced program is rejected before anything runs;
/// otherwise everything the run output comes back, with how the run ended.
pub fn interpret(source: &str, ascii_mode: bool, inputs: Vec<String>, max_steps: usize) -> (r:
    Result<(Vec<char>, RunEnd), InterpError>)
    ensures
        ({
            let prog = lex_spec(source@);
            let cfg = Config {
                program: prog,
                ascii_mode,
                inputs: inputs@.map_values(|line: String| line@),
            };
            match r {
                Ok(pair) => {
                    &&& balanced(prog)
                    &&& exists|t: State|
                        {
                            &&& #[trigger] reaches(cfg, init_state(), t)
                            &&& t.output == pair.0@
                            &&& match pair.1 {
                                RunEnd::Finished => t.command_index == prog.len(),
                                RunEnd::InputExhausted => {
                                    &&& 0 <= t.command_index < prog.len()
                                    &&& prog[t.command_index] == Command::Input
                                    &&& t.input_index >= cfg.inputs.len()
                                },
                                RunEnd::StepLimit => {
                                    &&& reaches_n(cfg, init_state(), t, max_steps as nat)
                                    &&& t.command_index < prog.len()
                                },
                            }
                        }
                },
                Err(e) => {
                    &&& !balanced(prog)
                    &&& e matches InterpError::UnbalancedLoop { position }
                    &&& unbalanced_at(prog, (e->UnbalancedLoop_position) as int)
                },
            }
        }),
{
    let program = lex(source);
    match Machine::new(program, ascii_mode, inputs) {
        Err(e) => Err(e),
        Ok(mut m) => {
            let ghost cfg = m.config();
            let end = m.run(max_steps);
            proof {
                let t = m.state();
                assert(reaches(cfg, init_state(), t) && t.output == m.output@);
            }
            Ok((m.output, end))
        }
    }
}

} // verus!
