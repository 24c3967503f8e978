use sateko::ast::AST;
use sateko::lower::{lower_program, Instr, IrBuilder, Terminator};
use sateko::token::tokenize;

fn parse(src: &str) -> AST {
    AST::from_tokens(&tokenize(src)).unwrap()
}

#[test]
fn empty_program_is_one_returning_block() {
    let m = lower_program(&parse(""), 30000);
    assert_eq!(m.tape_len, 30000);
    assert_eq!(m.blocks.len(), 1);
    assert_eq!(m.blocks[0].instrs, vec![]);
    assert_eq!(m.blocks[0].term, Terminator::Ret);
}

#[test]
fn scalars_never_open_a_block() {
    let m = lower_program(&parse("><+-,."), 4);
    assert_eq!(m.blocks.len(), 1);
    assert_eq!(
        m.blocks[0].instrs,
        vec![
            Instr::PtrAdd(1),
            Instr::PtrAdd(-1),
            Instr::Load,
            Instr::Add(1),
            Instr::Store,
            Instr::Load,
            Instr::Add(-1),
            Instr::Store,
            Instr::CallRead,
            Instr::Load,
            Instr::CallWrite,
        ]
    );
    assert_eq!(m.blocks[0].term, Terminator::Ret);
}

#[test]
fn empty_loop_lowers_to_exactly_three_blocks() {
    let m = lower_program(&parse("[]"), 1);
    assert_eq!(m.blocks.len(), 4);
    // entry jumps into the header
    assert_eq!(m.blocks[0].instrs, vec![]);
    assert_eq!(m.blocks[0].term, Terminator::Jump(1));
    // the header holds no instructions and branches on the cell
    assert_eq!(m.blocks[1].instrs, vec![]);
    assert_eq!(m.blocks[1].term, Terminator::Branch(2, 3));
    // the empty body jumps straight back to the header
    assert_eq!(m.blocks[2].instrs, vec![]);
    assert_eq!(m.blocks[2].term, Terminator::Jump(1));
    // the exit returns
    assert_eq!(m.blocks[3].instrs, vec![]);
    assert_eq!(m.blocks[3].term, Terminator::Ret);
}

#[test]
fn loop_wiring_with_body() {
    let m = lower_program(&parse("+[-]."), 1);
    assert_eq!(m.blocks.len(), 4);
    assert_eq!(m.blocks[0].instrs, vec![Instr::Load, Instr::Add(1), Instr::Store]);
    assert_eq!(m.blocks[0].term, Terminator::Jump(1));
    assert_eq!(m.blocks[1].instrs, vec![]);
    assert_eq!(m.blocks[1].term, Terminator::Branch(2, 3));
    assert_eq!(m.blocks[2].instrs, vec![Instr::Load, Instr::Add(-1), Instr::Store]);
    assert_eq!(m.blocks[2].term, Terminator::Jump(1));
    assert_eq!(m.blocks[3].instrs, vec![Instr::Load, Instr::CallWrite]);
    assert_eq!(m.blocks[3].term, Terminator::Ret);
}

#[test]
fn nested_loop_lowers_to_three_blocks_each() {
    let m = lower_program(&parse("[[]]"), 1);
    assert_eq!(m.blocks.len(), 7);
    // outer loop: entry -> header 1, body entry 2, exit 6
    assert_eq!(m.blocks[0].term, Terminator::Jump(1));
    assert_eq!(m.blocks[1].term, Terminator::Branch(2, 6));
    // inner loop: body entry 2 -> header 3, body entry 4, exit 5
    assert_eq!(m.blocks[2].term, Terminator::Jump(3));
    assert_eq!(m.blocks[3].term, Terminator::Branch(4, 5));
    assert_eq!(m.blocks[4].term, Terminator::Jump(3));
    // the inner exit is the last block of the outer body: it closes the
    // outer loop
    assert_eq!(m.blocks[5].term, Terminator::Jump(1));
    assert_eq!(m.blocks[6].term, Terminator::Ret);
}

#[test]
fn builder_steps_match_single_call() {
    let ast = parse("+[>]");
    let mut b = IrBuilder::create(7);
    b.build_from_ast(&ast);
    let m = b.get_module();
    let whole = lower_program(&ast, 7);
    assert_eq!(*m, whole);
}
