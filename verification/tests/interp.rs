use sateko::ast::AST;
use sateko::interp::{exec_ops, execute, ErrorKind, IoBuffer, Progress, RuntimeError, Tape};
use sateko::token::{tokenize, InputPosition};

fn parse(src: &str) -> AST {
    AST::from_tokens(&tokenize(src)).unwrap()
}

#[test]
fn fresh_tape_is_zeroed() {
    let t = Tape::with_size(5);
    assert_eq!(t.cells, vec![0, 0, 0, 0, 0]);
    assert_eq!(t.pos, 0);
}

#[test]
fn increment_wraps_to_zero() {
    let ast = parse(&"+".repeat(255));
    let (res, tape, _, _) = execute(&ast, 1, vec![], 1000);
    assert_eq!(res, Ok(Progress::Completed));
    assert_eq!(tape.cells[0], 255);

    let ast = parse(&"+".repeat(256));
    let (res, tape, _, _) = execute(&ast, 1, vec![], 1000);
    assert_eq!(res, Ok(Progress::Completed));
    assert_eq!(tape.cells[0], 0);
}

#[test]
fn decrement_wraps_to_255() {
    let ast = parse("-");
    let (res, tape, _, _) = execute(&ast, 1, vec![], 1000);
    assert_eq!(res, Ok(Progress::Completed));
    assert_eq!(tape.cells[0], 255);
}

#[test]
fn move_off_tape_end_fails_without_moving() {
    let ast = parse(">");
    let (res, tape, _, _) = execute(&ast, 1, vec![], 1000);
    assert_eq!(
        res,
        Err(RuntimeError {
            kind: ErrorKind::OffTapeEnd(1),
            pos: InputPosition { line: 1, pos: 1 },
        })
    );
    assert_eq!(tape.pos, 0);
}

#[test]
fn move_off_tape_start_fails_without_moving() {
    let ast = parse("<");
    let (res, tape, _, _) = execute(&ast, 3, vec![], 1000);
    assert_eq!(
        res,
        Err(RuntimeError {
            kind: ErrorKind::OffTapeStart,
            pos: InputPosition { line: 1, pos: 1 },
        })
    );
    assert_eq!(tape.pos, 0);
}

#[test]
fn error_carries_position_of_offending_move() {
    let ast = parse("+>\n><");
    let (res, _, _, _) = execute(&ast, 2, vec![], 1000);
    assert_eq!(
        res,
        Err(RuntimeError {
            kind: ErrorKind::OffTapeEnd(2),
            pos: InputPosition { line: 2, pos: 1 },
        })
    );
}

#[test]
fn loop_runs_until_cell_is_zero() {
    // cell 0 starts at 21; each iteration adds 2 to cell 1 and subtracts 1
    // from cell 0; the condition is re-read before every iteration.
    let ast = parse("[>++<-]");
    let mut tape = Tape { cells: vec![21, 0], pos: 0 };
    let mut io = IoBuffer::new(vec![]);
    let mut fuel: u64 = 1_000_000;
    let res = exec_ops(&ast.0, &mut tape, &mut io, &mut fuel);
    assert_eq!(res, Ok(Progress::Completed));
    assert_eq!(tape.cells, vec![0, 42]);
    assert_eq!(tape.pos, 0);
    assert_eq!(io.output, vec![]);
}

#[test]
fn zero_iteration_loop_does_nothing() {
    let ast = parse("[-]");
    let mut tape = Tape::with_size(1);
    let mut io = IoBuffer::new(vec![7]);
    let mut fuel: u64 = 1000;
    let res = exec_ops(&ast.0, &mut tape, &mut io, &mut fuel);
    assert_eq!(res, Ok(Progress::Completed));
    assert_eq!(tape.cells, vec![0]);
    assert_eq!(tape.pos, 0);
    assert_eq!(io.cursor, 0);
    assert_eq!(io.output, vec![]);
    assert_eq!(fuel, 1000);
}

#[test]
fn write_emits_current_cell() {
    let ast = parse("+++.");
    let (res, _, io, _) = execute(&ast, 1, vec![], 1000);
    assert_eq!(res, Ok(Progress::Completed));
    assert_eq!(io.output, vec![3]);
}

#[test]
fn read_consumes_one_byte() {
    let ast = parse(",.,.");
    let (res, _, io, _) = execute(&ast, 1, vec![65, 66], 1000);
    assert_eq!(res, Ok(Progress::Completed));
    assert_eq!(io.output, vec![65, 66]);
    assert_eq!(io.cursor, 2);
}

#[test]
fn read_at_end_of_input_leaves_cell_unchanged() {
    let ast = parse("+++,.");
    let (res, tape, io, _) = execute(&ast, 1, vec![], 1000);
    assert_eq!(res, Ok(Progress::Completed));
    assert_eq!(tape.cells[0], 3);
    assert_eq!(io.output, vec![3]);
}

#[test]
fn diverging_loop_runs_out_of_fuel() {
    let ast = parse("+[]");
    let (res, _, _, fuel) = execute(&ast, 1, vec![], 100);
    assert_eq!(res, Ok(Progress::OutOfFuel));
    assert_eq!(fuel, 0);
}

#[test]
fn multiply_program() {
    // 8 * 8 + 1 = 65: the letter 'A'.
    let ast = parse("++++++++[>++++++++<-]>+.");
    let (res, _, io, _) = execute(&ast, 2, vec![], 1_000_000);
    assert_eq!(res, Ok(Progress::Completed));
    assert_eq!(io.output, vec![65]);
}

#[test]
fn error_descriptions() {
    let e = RuntimeError { kind: ErrorKind::OffTapeStart, pos: InputPosition { line: 1, pos: 1 } };
    assert_eq!(e.description(), "Tried to move past tape beginning");
    let e = RuntimeError {
        kind: ErrorKind::OffTapeEnd(30000),
        pos: InputPosition { line: 1, pos: 1 },
    };
    assert_eq!(e.description(), "Tried to move past end of tape");
    let e = RuntimeError { kind: ErrorKind::IOError, pos: InputPosition { line: 1, pos: 1 } };
    assert_eq!(e.description(), "I/O failure");
}
