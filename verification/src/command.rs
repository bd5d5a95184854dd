//! The command alphabet and the lexer: source text becomes an ordered
//! sequence of commands, every unrecognized character silently skipped.

use vstd::prelude::*;

verus! {

/// One instruction of the eight-symbol tape language.
#[derive(Clone, Copy, PartialEq, Eq, Structural, Debug)]
pub enum Command {
    /// `>`: move the tape cursor one cell to the right, wrapping at the end.
    MoveRight,
    /// `<`: move the tape cursor one cell to the left, wrapping at the start.
    MoveLeft,
    /// `+`: add one to the current cell, wrapping 255 to 0.
    Increment,
    /// `-`: subtract one from the current cell, wrapping 0 to 255.
    Decrement,
    /// `.`: emit the current cell on the output channel.
    Output,
    /// `,`: read one line from the input channel into the current cell.
    Input,
    /// `[`: enter the loop when the current cell is non-zero, else skip past
    /// the matching `]`.
    LoopStart,
    /// `]`: return to the matching `[` when the current cell is non-zero.
    LoopEnd,
}

/// The command a source character denotes, if any.
pub open spec fn command_of_char(c: char) -> Option<Command> {
    match c {
        '>' => Some(Command::MoveRight),
        '<' => Some(Command::MoveLeft),
        '+' => Some(Command::Increment),
        '-' => Some(Command::Decrement),
        '.' => Some(Command::Output),
        ',' => Some(Command::Input),
        '[' => Some(Command::LoopStart),
        ']' => Some(Command::LoopEnd),
        _ => None,
    }
}

/// Whether a source character is one of the eight recognized symbols.
pub open spec fn is_command_char(c: char) -> bool {
    command_of_char(c) is Some
}

/// The source character that denotes a command.
pub open spec fn char_of_command(cmd: Command) -> char {
    match cmd {
        Command::MoveRight => '>',
        Command::MoveLeft => '<',
        Command::Increment => '+',
        Command::Decrement => '-',
        Command::Output => '.',
        Command::Input => ',',
        Command::LoopStart => '[',
        Command::LoopEnd => ']',
    }
}

/// The command sequence a source text denotes: the recognized characters in
/// their original relative order, each mapped to its command; every other
/// character contributes nothing.
pub open spec fn lex_spec(s: Seq<char>) -> Seq<Command>
    decreases s.len(),
{
    if s.len() == 0 {
        Seq::empty()
    } else {
        lex_spec(s.drop_last()) + (match command_of_char(s.last()) {
            Some(cmd) => seq![cmd],
            None => Seq::empty(),
        })
    }
}

/// Turns source text into the command sequence it denotes, preserving the
/// relative order of recognized characters and skipping all others. Total:
/// it never fails, whatever the text holds.
pub fn lex(source: &str) -> (r: Vec<Command>)
    ensures
        r@ == lex_spec(source@),
{
    let n: usize = source.unicode_len();
    let mut commands: Vec<Command> = Vec::new();
    let mut i: usize = 0;
    while i < n
        invariant
            n == source@.len(),
            i <= n,
            commands@ == lex_spec(source@.subrange(0, i as int)),
        decreases n - i,
    {
        let c = source.get_char(i);
        let parsed: Option<Command> = match c {
            '>' => Some(Command::MoveRight),
            '<' => Some(Command::MoveLeft),
            '+' => Some(Command::Increment),
            '-' => Some(Command::Decrement),
            '.' => Some(Command::Output),
            ',' => Some(Command::Input),
            '[' => Some(Command::LoopStart),
            ']' => Some(Command::LoopEnd),
            _ => None,
        };
        proof {
            let pre = source@.subrange(0, i as int);
            let ext = source@.subrange(0, i + 1);
            assert(ext.drop_last() =~= pre);
            assert(ext.last() == source@[i as int]);
        }
        if let Some(cmd) = parsed {
            commands.push(cmd);
            proof {
                let pre = source@.subrange(0, i as int);
                assert(commands@ =~= lex_spec(pre) + seq![cmd]);
            }
        }
        i += 1;
    }
    proof {
        assert(source@.subrange(0, n as int) =~= source@);
    }
    commands
}

impl Command {
    /// The source character this command is written as.
    pub fn symbol(&self) -> (c: char)
        ensures
            c == char_of_command(*self),
    {
        match self {
            Command::MoveRight => '>',
            Command::MoveLeft => '<',
            Command::Increment => '+',
            Command::Decrement => '-',
            Command::Output => '.',
            Command::Input => ',',
            Command::LoopStart => '[',
            Command::LoopEnd => ']',
        }
    }
}

/// The lexer keeps exactly the recognized characters: its output is the
/// recognized subsequence of the source, in order, mapped to commands, so in
/// particular its length is the count of recognized characters in the source.
pub proof fn lemma_lex_recognized(s: Seq<char>)
    ensures
        lex_spec(s) == s.filter(|c: char| is_command_char(c)).map_values(
            |c: char| command_of_char(c).unwrap(),
        ),
        lex_spec(s).len() == s.filter(|c: char| is_command_char(c)).len(),
    decreases s.len(),
{
    reveal(Seq::filter);
    let pred = |c: char| is_command_char(c);
    let f = |c: char| command_of_char(c).unwrap();
    if s.len() == 0 {
        assert(lex_spec(s) =~= s.filter(pred).map_values(f));
    } else {
        lemma_lex_recognized(s.drop_last());
        if pred(s.last()) {
            assert(s.filter(pred) == s.drop_last().filter(pred).push(s.last()));
            assert(lex_spec(s) =~= s.filter(pred).map_values(f));
        } else {
            assert(s.filter(pred) == s.drop_last().filter(pred));
            assert(lex_spec(s) =~= s.filter(pred).map_values(f));
        }
    }
}

} // verus!
