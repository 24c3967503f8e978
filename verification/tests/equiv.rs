use sateko::ast::AST;
use sateko::equiv::{run_module, MachineStatus};
use sateko::interp::{execute, Progress};
use sateko::lower::lower_program;
use sateko::token::tokenize;

fn parse(src: &str) -> AST {
    AST::from_tokens(&tokenize(src)).unwrap()
}

#[test]
fn backends_agree_on_multiply() {
    let ast = parse("++++++++[>++++++++<-]>+.");
    let (res, tape, io, _) = execute(&ast, 2, vec![], 1_000_000);
    assert_eq!(res, Ok(Progress::Completed));

    let m = lower_program(&ast, 2);
    let (status, gtape, gio) = run_module(&m, vec![], 1_000_000);
    assert_eq!(status, MachineStatus::Returned);
    assert_eq!(gio.output, io.output);
    assert_eq!(gtape.cells, tape.cells);
    assert_eq!(gtape.pos, tape.pos);
}

#[test]
fn backends_agree_on_io_echo() {
    let ast = parse(",[.,]");
    let input = vec![104, 105, 33, 0];
    let (res, tape, io, _) = execute(&ast, 4, input.clone(), 1_000_000);
    assert_eq!(res, Ok(Progress::Completed));
    assert_eq!(io.output, vec![104, 105, 33]);

    let m = lower_program(&ast, 4);
    let (status, gtape, gio) = run_module(&m, input, 1_000_000);
    assert_eq!(status, MachineStatus::Returned);
    assert_eq!(gio.output, io.output);
    assert_eq!(gio.cursor, io.cursor);
    assert_eq!(gtape.cells, tape.cells);
    assert_eq!(gtape.pos, tape.pos);
}

#[test]
fn graph_run_gets_stuck_where_interpreter_errors() {
    let ast = parse("><");
    let m = lower_program(&ast, 1);
    let (status, _, _) = run_module(&m, vec![], 1_000_000);
    assert_eq!(status, MachineStatus::Stuck);
}

#[test]
fn graph_run_out_of_fuel_on_diverging_loop() {
    let ast = parse("+[]");
    let m = lower_program(&ast, 1);
    let (status, _, _) = run_module(&m, vec![], 100);
    assert_eq!(status, MachineStatus::OutOfFuel);
}

#[test]
fn graph_run_of_empty_program_returns_at_once() {
    let ast = parse("");
    let m = lower_program(&ast, 3);
    let (status, gtape, gio) = run_module(&m, vec![9], 0);
    assert_eq!(status, MachineStatus::Returned);
    assert_eq!(gtape.cells, vec![0, 0, 0]);
    assert_eq!(gio.output, vec![]);
    assert_eq!(gio.cursor, 0);
}
