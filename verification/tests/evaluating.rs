use jbi::lexer::lex;
use jbi::parser::{parse, Node};
use jbi::runtime::{eval, Error, Halt, Io, State, TAPE_LEN};
use jbi::Location;

fn run_source(src: &str, input: Vec<u8>, fuel: u64) -> (State, Io, Result<(), Halt>) {
    let toks = lex(src, "t").unwrap();
    let tree = parse(&toks).unwrap();
    let mut state = State::default();
    let mut io = Io::new(input);
    let r = eval(&mut state, &tree, &mut io, fuel);
    (state, io, r)
}

fn here() -> Location {
    Location { file: String::from("t"), line: String::from(""), lineno: 1, range: (0, 1) }
}

#[test]
fn increments_and_decrements_change_the_cell() {
    let (state, _, r) = run_source("+++--", vec![], 1000);
    assert!(r.is_ok());
    assert_eq!(state.nodes[0], 1);
    assert_eq!(state.head_index, 0);
}

#[test]
fn cell_overflows_on_the_256th_increment() {
    // 255 increments fill the cell ...
    let almost = "+".repeat(255);
    let (state, _, r) = run_source(&almost, vec![], 1000);
    assert!(r.is_ok());
    assert_eq!(state.nodes[0], 255);
    // ... and one more faults, naming the 256th instruction.
    let over = "+".repeat(256);
    let (state, _, r) = run_source(&over, vec![], 1000);
    match r {
        Err(Halt::Fault(Error::NodeOverflow(cell, l))) => {
            assert_eq!(cell, 1);
            assert_eq!(l.range, (255, 256));
        }
        _ => panic!("expected a cell overflow"),
    }
    assert_eq!(state.nodes[0], 255);
}

#[test]
fn cell_underflows_on_the_first_decrement() {
    let (state, _, r) = run_source("-", vec![], 1000);
    match r {
        Err(Halt::Fault(Error::NodeUnderflow(cell, l))) => {
            assert_eq!(cell, 1);
            assert_eq!(l.range, (0, 1));
        }
        _ => panic!("expected a cell underflow"),
    }
    assert_eq!(state.nodes[0], 0);
}

#[test]
fn cursor_walks_to_the_last_cell_and_no_further() {
    // capacity - 1 moves from cell 0 end on the last valid index ...
    let mut children = Vec::new();
    for _ in 0..TAPE_LEN - 1 {
        children.push(Node::MoveRight { loc: here() });
    }
    let mut state = State::default();
    let mut io = Io::new(vec![]);
    let r = eval(&mut state, &Node::Root { children }, &mut io, 1000);
    assert!(r.is_ok());
    assert_eq!(state.head_index, TAPE_LEN - 1);
    // ... and one more move right faults.
    let r = eval(&mut state, &Node::MoveRight { loc: here() }, &mut io, 1000);
    assert!(matches!(r, Err(Halt::Fault(Error::HeadOverflow(_)))));
    assert_eq!(state.head_index, TAPE_LEN - 1);
}

#[test]
fn cursor_underflows_on_move_left_from_cell_zero() {
    let (state, _, r) = run_source("<", vec![], 1000);
    assert!(matches!(r, Err(Halt::Fault(Error::HeadUnderflow(_)))));
    assert_eq!(state.head_index, 0);
}

#[test]
fn print_emits_the_cell_as_one_byte() {
    let (_, io, r) = run_source("+++.", vec![], 1000);
    assert!(r.is_ok());
    assert_eq!(io.output, vec![3]);
}

#[test]
fn read_fills_the_cell_from_the_input() {
    let (state, io, r) = run_source(",.>,.", vec![65, 66], 1000);
    assert!(r.is_ok());
    assert_eq!(io.output, vec![65, 66]);
    assert_eq!(state.nodes[0], 65);
    assert_eq!(state.nodes[1], 66);
    assert_eq!(io.read_pos, 2);
}

#[test]
fn read_faults_when_the_input_is_exhausted() {
    let (_, _, r) = run_source(",", vec![], 1000);
    assert!(matches!(r, Err(Halt::Fault(Error::ReadFailure(_)))));
}

#[test]
fn loops_run_while_the_cell_is_non_zero() {
    let (state, _, r) = run_source("++[-]", vec![], 1000);
    assert!(r.is_ok());
    assert_eq!(state.nodes[0], 0);

    let (state, _, r) = run_source("+++[>++<-]", vec![], 1000);
    assert!(r.is_ok());
    assert_eq!(state.nodes[0], 0);
    assert_eq!(state.nodes[1], 6);
}

#[test]
fn loop_over_a_zero_cell_is_skipped() {
    let (state, _, r) = run_source("[+]", vec![], 1000);
    assert!(r.is_ok());
    assert_eq!(state.nodes[0], 0);
}

#[test]
fn hello_program_prints_h_first() {
    let src = "++++++++[>++++[>++>+++>+++>+<<<<-]>+>+>->>+[<]<-]>>.>---.+++++++..+++.";
    let (_, io, r) = run_source(src, vec![], 1_000_000);
    assert!(r.is_ok());
    assert!(!io.output.is_empty());
    assert_eq!(io.output[0], b'H');
    assert_eq!(io.output, b"Hello".to_vec());
}

#[test]
fn runaway_loop_is_interrupted_by_the_fuel_budget() {
    // `+[]` loops forever: the cell stays 1 and the empty body never
    // changes it, so only the budget stops the run.
    let (state, io, r) = run_source("+[]", vec![], 1000);
    assert!(matches!(r, Err(Halt::Interrupted)));
    assert_eq!(state.nodes[0], 1);
    assert!(io.output.is_empty());
}

#[test]
fn partial_output_stays_valid_after_a_fault() {
    let (_, io, r) = run_source(".-", vec![], 1000);
    assert!(matches!(r, Err(Halt::Fault(Error::NodeUnderflow(..)))));
    assert_eq!(io.output, vec![0]);
}

#[test]
fn a_tape_can_serve_several_runs() {
    // A host that keeps one tape across lines accumulates state.
    let mut state = State::default();
    let mut io = Io::new(vec![]);
    let first = parse(&lex("+++", "t").unwrap()).unwrap();
    assert!(eval(&mut state, &first, &mut io, 1000).is_ok());
    let second = parse(&lex("--", "t").unwrap()).unwrap();
    assert!(eval(&mut state, &second, &mut io, 1000).is_ok());
    assert_eq!(state.nodes[0], 1);
}

#[test]
fn fresh_tape_is_all_zero_with_cursor_at_home() {
    let state = State::default();
    assert_eq!(state.head_index, 0);
    assert_eq!(state.nodes.len(), TAPE_LEN);
    assert!(state.nodes.iter().all(|c| *c == 0));
}
