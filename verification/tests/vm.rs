use rob::apply_short_ook_mapping;
use rob::brainfuck_to_bytecode;
use rob::ook_to_bytecode;
use rob::parse_short_ook_commands;
use rob::Intepreter;
use rob::Opcode;
use rob::RunError;

const HELLO_WORLD_BF: &str = "++++++++[>++++[>++>+++>+++>+<<<<-]>+>+>->>+[<]<-]>>.>---.+++++++..+++.>>.<-.<.+++.------.--------.>>+.>++.";

fn ook_text_of_brainfuck(bf: &str) -> String {
    let mut out = String::new();
    for c in bf.chars() {
        let pair = match c {
            '>' => "Ook. Ook? ",
            '<' => "Ook? Ook. ",
            '+' => "Ook. Ook. ",
            '-' => "Ook! Ook! ",
            '.' => "Ook! Ook. ",
            ',' => "Ook. Ook! ",
            '[' => "Ook! Ook? ",
            ']' => "Ook? Ook! ",
            _ => "",
        };
        out.push_str(pair);
    }
    out
}

fn short_ook_text_of_brainfuck(bf: &str) -> String {
    let mut out = String::new();
    for c in bf.chars() {
        let pair = match c {
            '>' => ".?",
            '<' => "?.",
            '+' => "..",
            '-' => "!!",
            '.' => "!.",
            ',' => ".!",
            '[' => "!?",
            ']' => "?!",
            _ => "",
        };
        out.push_str(pair);
    }
    out
}

#[test]
fn test_brainfuck_to_bytecode() {
    let code = HELLO_WORLD_BF;
    let expected = "Hello World!\n";
    let bytecode = brainfuck_to_bytecode(code);
    let mut interpreter = Intepreter::new(bytecode, 50000, 50000);
    let output = interpreter.run().unwrap();
    assert_eq!(output, expected);
}

#[test]
fn hello_world_with_minimum_recommended_tape() {
    let bytecode = brainfuck_to_bytecode(HELLO_WORLD_BF);
    let mut interpreter = Intepreter::new(bytecode, 30000, 10000);
    assert_eq!(interpreter.run(), Ok("Hello World!\n".to_string()));
}

#[test]
fn brainfuck_foreign_only_is_empty() {
    assert_eq!(brainfuck_to_bytecode("hello world 123 (* ~~ *)"), vec![]);
    assert_eq!(brainfuck_to_bytecode(""), vec![]);
}

#[test]
fn ook_foreign_only_is_empty() {
    assert_eq!(ook_to_bytecode("hello world these are no tokens"), vec![]);
    assert_eq!(ook_to_bytecode("Ook Ook Ook Ook"), vec![]);
    assert_eq!(ook_to_bytecode(""), vec![]);
}

#[test]
fn short_ook_foreign_only_is_empty() {
    assert_eq!(parse_short_ook_commands("hello world 123"), vec![]);
    assert_eq!(parse_short_ook_commands(""), vec![]);
}

#[test]
fn brainfuck_symbols_map_one_for_one() {
    assert_eq!(
        brainfuck_to_bytecode("><+-.,[]"),
        vec![
            Opcode::MoveRight,
            Opcode::MoveLeft,
            Opcode::Increment,
            Opcode::Decrement,
            Opcode::Output,
            Opcode::Input,
            Opcode::LoopOpen,
            Opcode::LoopClose,
        ]
    );
}

#[test]
fn ook_pairs_map_to_opcodes() {
    assert_eq!(
        ook_to_bytecode("Ook. Ook? Ook! Ook!"),
        vec![Opcode::MoveRight, Opcode::Decrement]
    );
    assert_eq!(
        ook_to_bytecode("Ook!\tOok?\nOok? Ook!"),
        vec![Opcode::LoopOpen, Opcode::LoopClose]
    );
}

#[test]
fn ook_trailing_token_is_dropped() {
    assert_eq!(ook_to_bytecode("Ook. Ook? Ook."), vec![Opcode::MoveRight]);
}

#[test]
fn ook_unrecognized_pair_is_skipped() {
    assert_eq!(
        ook_to_bytecode("Ook? Ook? Ook. Ook."),
        vec![Opcode::Increment]
    );
}

#[test]
fn short_ook_pairs_map_to_opcodes() {
    assert_eq!(
        parse_short_ook_commands(".? !! .."),
        vec![Opcode::MoveRight, Opcode::Decrement, Opcode::Increment]
    );
}

#[test]
fn short_ook_trailing_symbol_is_dropped() {
    assert_eq!(parse_short_ook_commands(".?."), vec![Opcode::MoveRight]);
}

#[test]
fn translators_agree_on_hello_world() {
    let from_bf = brainfuck_to_bytecode(HELLO_WORLD_BF);
    let from_ook = ook_to_bytecode(&ook_text_of_brainfuck(HELLO_WORLD_BF));
    let from_short = parse_short_ook_commands(&short_ook_text_of_brainfuck(HELLO_WORLD_BF));
    assert_eq!(from_bf, from_ook);
    assert_eq!(from_bf, from_short);

    let mut interpreter = Intepreter::new(from_ook, 50000, 50000);
    assert_eq!(interpreter.run(), Ok("Hello World!\n".to_string()));
}

#[test]
fn short_ook_mapping_substitutes_onto_canonical_alphabet() {
    assert_eq!(apply_short_ook_mapping("abc ba", 'a', 'b', 'c'), ".?! ?.");
    // Characters outside the remap and the alphabet pass through unchanged.
    assert_eq!(apply_short_ook_mapping("xyz.?!", 'a', 'b', 'c'), "xyz.?!");
    // A remapped program parses like the canonical text it maps onto.
    let direct = parse_short_ook_commands(".? !! ..");
    let remapped = apply_short_ook_mapping("DQ BB DD", 'D', 'Q', 'B');
    assert_eq!(parse_short_ook_commands(&remapped), direct);
}

#[test]
fn empty_program_outputs_nothing() {
    let mut interpreter = Intepreter::new(vec![], 10, 10);
    assert_eq!(interpreter.run(), Ok(String::new()));
}

#[test]
fn moves_only_program_outputs_nothing() {
    let mut interpreter = Intepreter::new(brainfuck_to_bytecode("><><>><<"), 10, 10);
    assert_eq!(interpreter.run(), Ok(String::new()));
    let mut wide = Intepreter::new(brainfuck_to_bytecode("><><>><<"), 30000, 10);
    assert_eq!(wide.run(), Ok(String::new()));
}

#[test]
fn increment_wraps_around_after_256_steps() {
    // 256 increments return the cell to 0; the output is the NUL character.
    let mut program = "+".repeat(256);
    program.push('.');
    let mut interpreter = Intepreter::new(brainfuck_to_bytecode(&program), 10, 10);
    assert_eq!(interpreter.run(), Ok("\u{0}".to_string()));
}

#[test]
fn decrement_wraps_below_zero() {
    // 0 - 1 = 255 under the wraparound policy.
    let mut interpreter = Intepreter::new(brainfuck_to_bytecode("-."), 10, 10);
    assert_eq!(interpreter.run(), Ok("\u{FF}".to_string()));
}

#[test]
fn single_unmatched_open_is_constructible() {
    // The matcher tolerates the unbalanced bracket; the fault surfaces only
    // when the opcode's jump is actually taken.
    let mut interpreter = Intepreter::new(brainfuck_to_bytecode("["), 10, 10);
    assert_eq!(interpreter.run(), Err(RunError::UnbalancedLoop));
}

#[test]
fn single_unmatched_close_is_constructible() {
    // With the cell at 0 the close falls through and the program halts.
    let mut interpreter = Intepreter::new(brainfuck_to_bytecode("]"), 10, 10);
    assert_eq!(interpreter.run(), Ok(String::new()));
    // With the cell nonzero its jump is taken, which is the fault.
    let mut looping = Intepreter::new(brainfuck_to_bytecode("+]"), 10, 10);
    assert_eq!(looping.run(), Err(RunError::UnbalancedLoop));
}

#[test]
fn unmatched_open_with_nonzero_cell_falls_through() {
    let mut interpreter = Intepreter::new(brainfuck_to_bytecode("+[."), 10, 10);
    assert_eq!(interpreter.run(), Ok("\u{1}".to_string()));
}

#[test]
fn jump_table_pairs_are_mutual_and_ordered() {
    let table = rob::matcher::build_jump_table(&brainfuck_to_bytecode("[[-]]"));
    assert_eq!(table, vec![4, 3, 0, 1, 0]);
}

#[test]
fn jump_table_of_unbalanced_program_keeps_sentinel() {
    assert_eq!(rob::matcher::build_jump_table(&brainfuck_to_bytecode("[")), vec![0]);
    assert_eq!(rob::matcher::build_jump_table(&brainfuck_to_bytecode("]")), vec![0]);
    assert_eq!(
        rob::matcher::build_jump_table(&brainfuck_to_bytecode("][")),
        vec![0, 0]
    );
}

#[test]
fn moving_left_off_the_tape_fails() {
    // One cell: the data cursor starts at 0 and may not move left.
    let mut interpreter = Intepreter::new(brainfuck_to_bytecode("<"), 1, 10);
    assert_eq!(interpreter.run(), Err(RunError::TapeOutOfBounds));
}

#[test]
fn moving_right_off_the_tape_fails() {
    let mut interpreter = Intepreter::new(brainfuck_to_bytecode(">"), 1, 10);
    assert_eq!(interpreter.run(), Err(RunError::TapeOutOfBounds));
}

#[test]
fn input_opcode_is_a_fault_in_batch_mode() {
    let mut interpreter = Intepreter::new(brainfuck_to_bytecode(","), 10, 10);
    assert_eq!(interpreter.run(), Err(RunError::InputUnsupported));
}

#[test]
fn loops_run_until_the_cell_reaches_zero() {
    // Three down-counted outputs: 3, 2, 1.
    let mut interpreter = Intepreter::new(brainfuck_to_bytecode("+++[.-]"), 10, 10);
    assert_eq!(
        interpreter.run(),
        Ok("\u{3}\u{2}\u{1}".to_string())
    );
}
