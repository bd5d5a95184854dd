use bf_interpreter::command::{lex, Command};
use bf_interpreter::machine::{interpret, InterpError, Machine, RunEnd};

fn output_of(source: &str, ascii_mode: bool) -> String {
    let (out, end) = interpret(source, ascii_mode, Vec::new(), 50_000_000).unwrap();
    assert!(matches!(end, RunEnd::Finished));
    out.into_iter().collect()
}

#[test]
fn simple_instructions() {
    assert_eq!(output_of("++.", false), "2");
}

#[test]
fn loop_test() {
    assert_eq!(output_of("+++[-]--.", false), "254");
}

#[test]
fn hello_world() {
    let src = "++++++++[>++++[>++>+++>+++>+<<<<-]>+>+>->>+[<]<-]>>.>---.+++++++..+++.>>.<-.<.+++.------.--------.>>+.>++.";
    assert_eq!(output_of(src, false), "7210110810811132871111141081003310");
    assert_eq!(output_of(src, true), "Hello World!\n");
}

#[test]
fn hello_world_complex() {
    let src = "++++++++++[>+++++++>++++++++++>+++>+<<<<-]>++.>+.+++++++..+++.>++.<<+++++++++++++++.>.+++.------.--------.>+.>.";
    assert_eq!(output_of(src, false), "7210110810811132871111141081003310");
    assert_eq!(output_of(src, true), "Hello World!\n");
}

#[test]
fn hello_world_other() {
    let src = "++++++++++[>+++++++>++++++++++>+++>+<<<<-]>++.>+.+++++++..+++.>++++++++++++++.------------.<<+++++++++++++++.>.+++.------.--------.>+.";
    assert_eq!(output_of(src, false), "7210110810811144328711111410810033");
    assert_eq!(output_of(src, true), "Hello, World!");
}

#[test]
fn shortest_hw() {
    let src = "+++++++++++++[>++++++>++++++++>+++>++<<<<-]>------.>---.+++++++..+++.>+++++.------------.<<+++++++++++++++.>.+++.------.--------.>+.";
    assert_eq!(output_of(src, false), "7210110810811144328711111410810033");
    assert_eq!(output_of(src, true), "Hello, World!");
}

#[test]
fn lexer_keeps_recognized_symbols_in_order() {
    let program = lex("a > b < c + d - e . f , g [ h ] i");
    assert_eq!(
        program,
        vec![
            Command::MoveRight,
            Command::MoveLeft,
            Command::Increment,
            Command::Decrement,
            Command::Output,
            Command::Input,
            Command::LoopStart,
            Command::LoopEnd,
        ]
    );
    assert_eq!(lex("no commands here").len(), 0);
    assert_eq!(lex("no commands, here").len(), 1);
    assert_eq!(lex(""), vec![]);
}

#[test]
fn command_symbols_round_trip() {
    assert_eq!(Command::MoveRight.symbol(), '>');
    assert_eq!(Command::MoveLeft.symbol(), '<');
    assert_eq!(Command::Increment.symbol(), '+');
    assert_eq!(Command::Decrement.symbol(), '-');
    assert_eq!(Command::Output.symbol(), '.');
    assert_eq!(Command::Input.symbol(), ',');
    assert_eq!(Command::LoopStart.symbol(), '[');
    assert_eq!(Command::LoopEnd.symbol(), ']');
}

#[test]
fn numeric_rendering_edges() {
    assert_eq!(output_of(".", false), "0");
    assert_eq!(output_of("-.", false), "255");
    let hundred = "+".repeat(100);
    assert_eq!(output_of(&format!("{}.", hundred), false), "100");
    assert_eq!(output_of("..", false), "00");
}

#[test]
fn ascii_rendering_uses_code_points() {
    assert_eq!(output_of("++++++++++.", true), "\n");
    let two_hundred = "+".repeat(200);
    assert_eq!(output_of(&format!("{}.", two_hundred), true), "\u{c8}");
}

#[test]
fn decrement_loop_terminates_silently() {
    let (out, end) = interpret("+[-]", false, Vec::new(), 1_000).unwrap();
    assert!(matches!(end, RunEnd::Finished));
    assert_eq!(out.len(), 0);
}

#[test]
fn tape_is_circular_to_the_right() {
    let src = format!("+++++{}.", ">".repeat(30_000));
    assert_eq!(output_of(&src, false), "5");
}

#[test]
fn tape_is_circular_to_the_left() {
    assert_eq!(output_of("<-.", false), "255");
    let src = format!("+++++{}.", "<".repeat(30_000));
    assert_eq!(output_of(&src, false), "5");
}

#[test]
fn cell_wraps_after_256_steps() {
    let src = format!("+++{}.", "+".repeat(256));
    assert_eq!(output_of(&src, false), "3");
    let src = format!("+++{}.", "-".repeat(256));
    assert_eq!(output_of(&src, false), "3");
}

#[test]
fn input_stores_parsed_value() {
    let mut m = Machine::new(lex(","), false, vec!["5".to_string()]).unwrap();
    let end = m.run(1_000);
    assert!(matches!(end, RunEnd::Finished));
    assert_eq!(m.tape[m.tape_index], 5);
    assert_eq!(m.input_failures, 0);
}

#[test]
fn input_is_trimmed_before_parsing() {
    let mut m = Machine::new(lex(","), false, vec![" 200 \n".to_string()]).unwrap();
    let end = m.run(1_000);
    assert!(matches!(end, RunEnd::Finished));
    assert_eq!(m.tape[m.tape_index], 200);
    assert_eq!(m.input_failures, 0);
}

#[test]
fn unparseable_input_stores_zero_with_diagnostic() {
    let mut m = Machine::new(
        lex("+++,"),
        false,
        vec!["abc".to_string()],
    )
    .unwrap();
    let end = m.run(1_000);
    assert!(matches!(end, RunEnd::Finished));
    assert_eq!(m.tape[m.tape_index], 0);
    assert_eq!(m.input_failures, 1);
}

#[test]
fn out_of_range_input_stores_zero_with_diagnostic() {
    let mut m = Machine::new(lex(","), false, vec!["256".to_string()]).unwrap();
    let end = m.run(1_000);
    assert!(matches!(end, RunEnd::Finished));
    assert_eq!(m.tape[m.tape_index], 0);
    assert_eq!(m.input_failures, 1);
}

#[test]
fn empty_input_line_stores_zero_with_diagnostic() {
    let mut m = Machine::new(lex(","), false, vec!["\n".to_string()]).unwrap();
    let end = m.run(1_000);
    assert!(matches!(end, RunEnd::Finished));
    assert_eq!(m.tape[m.tape_index], 0);
    assert_eq!(m.input_failures, 1);
}

#[test]
fn exhausted_input_channel_ends_the_run() {
    let (out, end) = interpret(",", false, Vec::new(), 1_000).unwrap();
    assert!(matches!(end, RunEnd::InputExhausted));
    assert_eq!(out.len(), 0);
}

#[test]
fn unmatched_loop_end_is_rejected() {
    let r = interpret("]", false, Vec::new(), 1_000);
    assert!(matches!(r, Err(InterpError::UnbalancedLoop { position: 0 })));
    let r = interpret("+]](", false, Vec::new(), 1_000);
    assert!(matches!(r, Err(InterpError::UnbalancedLoop { position: 1 })));
    let r = interpret("[]]", false, Vec::new(), 1_000);
    assert!(matches!(r, Err(InterpError::UnbalancedLoop { position: 2 })));
}

#[test]
fn unclosed_loop_start_is_rejected() {
    let r = interpret("[", false, Vec::new(), 1_000);
    assert!(matches!(r, Err(InterpError::UnbalancedLoop { position: 0 })));
    let r = interpret("+[[]", false, Vec::new(), 1_000);
    assert!(matches!(r, Err(InterpError::UnbalancedLoop { position: 1 })));
    let r = interpret("[][", false, Vec::new(), 1_000);
    assert!(matches!(r, Err(InterpError::UnbalancedLoop { position: 2 })));
}

#[test]
fn step_budget_pauses_an_endless_loop() {
    let (out, end) = interpret("+[]", false, Vec::new(), 1_000).unwrap();
    assert!(matches!(end, RunEnd::StepLimit));
    assert_eq!(out.len(), 0);
}
