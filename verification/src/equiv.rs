//! Backend equivalence: a reference small-step semantics for the
//! basic-block graph, and the proof that executing a lowered program on it
//! produces exactly the machine state the tree interpreter produces.
//!
//! The graph machine is the tree interpreter's state plus one scratch
//! register for the load/add/store instruction triples. A pointer move or
//! memory access that leaves the tape leaves the machine stuck; the
//! equivalence therefore speaks of the runs on which the tree interpreter
//! succeeds — on those the pointer never leaves the tape, and the graph run
//! returns with the same tape, pointer, remaining input and output,
//! whatever the scratch register held at entry.

use vstd::prelude::*;

use crate::ast::{ASTNodeKind, NodeV};
use crate::interp::{initial_state, interp_node, interp_seq, state_of, step_scalar, wrap_dec,
    wrap_inc, IResult, IoBuffer, MState, Tape};
use crate::lower::{chunk, code_end, lowered_program, Instr, Module, ModuleV, Terminator};

verus! {

/// The pointer rests on a tape cell.
pub open spec fn state_inv(s: MState) -> bool {
    0 <= s.pos < s.tape.len()
}

/// The graph machine's state: the observable machine state plus the
/// scratch register.
#[verifier::ext_equal]
pub struct CState {
    pub s: MState,
    pub acc: u8,
}

/// 8-bit modular addition of a signed literal to a register.
pub open spec fn acc_add(x: u8, d: i8) -> u8 {
    let v = x as int + d as int;
    if v < 0 {
        (v + 256) as u8
    } else if v > 255 {
        (v - 256) as u8
    } else {
        v as u8
    }
}

/// One instruction of the graph machine, or `None` when the pointer would
/// leave the tape. The lowered code carries no bounds checks of its own;
/// how an off-tape pointer behaves is the downstream target's affair, and
/// this reference machine simply refuses to go on.
pub open spec fn run_instr(ins: Instr, c: CState) -> Option<CState> {
    match ins {
        Instr::PtrAdd(d) => if 0 <= c.s.pos + (d as int) && c.s.pos + (d as int) < c.s.tape.len() {
            Option::Some(CState { s: MState { pos: c.s.pos + (d as int), ..c.s }, acc: c.acc })
        } else {
            Option::None
        },
        Instr::Load => if state_inv(c.s) {
            Option::Some(CState { s: c.s, acc: c.s.tape[c.s.pos] })
        } else {
            Option::None
        },
        Instr::Add(d) => Option::Some(CState { s: c.s, acc: acc_add(c.acc, d) }),
        Instr::Store => if state_inv(c.s) {
            Option::Some(
                CState { s: MState { tape: c.s.tape.update(c.s.pos, c.acc), ..c.s }, acc: c.acc },
            )
        } else {
            Option::None
        },
        Instr::CallRead => if state_inv(c.s) {
            if c.s.input.len() > 0 {
                Option::Some(
                    CState {
                        s: MState {
                            tape: c.s.tape.update(c.s.pos, c.s.input[0]),
                            input: c.s.input.drop_first(),
                            ..c.s
                        },
                        acc: c.acc,
                    },
                )
            } else {
                Option::Some(c)
            }
        } else {
            Option::None
        },
        Instr::CallWrite => Option::Some(
            CState { s: MState { output: c.s.output.push(c.acc), ..c.s }, acc: c.acc },
        ),
    }
}

/// Run the instructions of one block from offset `j` to its end.
pub open spec fn run_instrs(ins: Seq<Instr>, j: int, c: CState) -> Option<CState>
    decreases ins.len() - j,
{
    if !(0 <= j <= ins.len()) {
        Option::None
    } else if j == ins.len() {
        Option::Some(c)
    } else {
        match run_instr(ins[j], c) {
            Option::Some(c2) => run_instrs(ins, j + 1, c2),
            Option::None => Option::None,
        }
    }
}

/// The outcome of a graph run: returned with a final observable state, got
/// stuck on a bad block index or memory access, or ran out of fuel.
#[verifier::ext_equal]
pub enum CResult {
    Done { state: MState },
    Stuck,
    Out,
}

/// From instruction offset `j` of block `b`, the graph run returns with
/// observable state `fin` within `fc` control transfers, whatever the
/// scratch register holds at entry.
pub open spec fn runs_to(m: ModuleV, b: int, j: int, s: MState, fc: nat, fin: MState) -> bool {
    forall|a: u8|
        #[trigger] run_at(m, b, j, CState { s, acc: a }, fc) == (CResult::Done { state: fin })
}

/// Run the graph from instruction offset `j` of block `b`, spending one
/// unit of fuel per control transfer. A conditional branch reads the cell
/// under the pointer: first target when nonzero, second when zero.
pub open spec fn run_at(m: ModuleV, b: int, j: int, c: CState, fuel: nat) -> CResult
    decreases fuel,
{
    if !(0 <= b < m.blocks.len()) {
        CResult::Stuck
    } else {
        match run_instrs(m.blocks[b].instrs, j, c) {
            Option::None => CResult::Stuck,
            Option::Some(c2) => match m.blocks[b].term {
                Terminator::Ret => CResult::Done { state: c2.s },
                Terminator::Jump(t) => if fuel == 0 {
                    CResult::Out
                } else {
                    run_at(m, t as int, 0, c2, (fuel - 1) as nat)
                },
                Terminator::Branch(bt, bf) => if !state_inv(c2.s) {
                    CResult::Stuck
                } else if fuel == 0 {
                    CResult::Out
                } else if c2.s.tape[c2.s.pos] != 0 {
                    run_at(m, bt as int, 0, c2, (fuel - 1) as nat)
                } else {
                    run_at(m, bf as int, 0, c2, (fuel - 1) as nat)
                },
            },
        }
    }
}

/// A successful interpreter step keeps the pointer on the tape, keeps the
/// tape length, and never hands back more fuel than it got.
pub proof fn lemma_interp_node_preserves(n: NodeV, s: MState, fuel: nat)
    requires
        state_inv(s),
    ensures
        match interp_node(n, s, fuel) {
            IResult::Done { state: s2, fuel: f2 } => state_inv(s2) && s2.tape.len() == s.tape.len()
                && f2 <= fuel,
            _ => true,
        },
    decreases fuel, n, 0nat,
{
    if n.kind == ASTNodeKind::Loop {
        if s.tape[s.pos] != 0 && fuel > 0 {
            lemma_interp_seq_preserves(n.children, s, (fuel - 1) as nat);
            match interp_seq(n.children, s, (fuel - 1) as nat) {
                IResult::Done { state: s1, fuel: f1 } => {
                    lemma_interp_node_preserves(n, s1, f1);
                },
                _ => {},
            }
        }
    }
}

/// A successful interpreter run over a node sequence keeps the pointer on
/// the tape, keeps the tape length, and never hands back more fuel than it
/// got.
pub proof fn lemma_interp_seq_preserves(ns: Seq<NodeV>, s: MState, fuel: nat)
    requires
        state_inv(s),
    ensures
        match interp_seq(ns, s, fuel) {
            IResult::Done { state: s2, fuel: f2 } => state_inv(s2) && s2.tape.len() == s.tape.len()
                && f2 <= fuel,
            _ => true,
        },
    decreases fuel, ns, 1nat,
{
    if ns.len() > 0 {
        lemma_interp_node_preserves(ns[0], s, fuel);
        match interp_node(ns[0], s, fuel) {
            IResult::Done { state: s1, fuel: f1 } => {
                lemma_interp_seq_preserves(ns.drop_first(), s1, f1);
            },
            _ => {},
        }
    }
}

/// Running a scalar node's chunk from offset `j` takes the machine to the
/// chunk's end with the state the interpreter's step gives, for some value
/// of the scratch register.
proof fn lemma_run_chunk(ins: Seq<Instr>, j: int, n: NodeV, c: CState, s1: MState)
    requires
        n.kind != ASTNodeKind::Loop,
        0 <= j,
        j + chunk(n.kind).len() <= ins.len(),
        ins.subrange(j, j + chunk(n.kind).len()) == chunk(n.kind),
        state_inv(c.s),
        step_scalar(n.kind, n.pos, c.s) == Result::<MState, crate::interp::RuntimeError>::Ok(s1),
    ensures
        exists|a2: u8|
            run_instrs(ins, j, c) == run_instrs(
                ins,
                j + chunk(n.kind).len(),
                CState { s: s1, acc: a2 },
            ),
{
    reveal_with_fuel(run_instrs, 4);
    let ch = chunk(n.kind);
    match n.kind {
        ASTNodeKind::IncTape => {
            assert(ins[j] == ch[0]) by {
                assert(ins.subrange(j, j + ch.len())[0] == ins[j]);
            }
            let c2 = CState { s: s1, acc: c.acc };
            assert(run_instr(ins[j], c) == Option::Some(c2));
            assert(run_instrs(ins, j, c) == run_instrs(ins, j + 1, c2));
        },
        ASTNodeKind::DecTape => {
            assert(ins[j] == ch[0]) by {
                assert(ins.subrange(j, j + ch.len())[0] == ins[j]);
            }
            let c2 = CState { s: s1, acc: c.acc };
            assert(run_instr(ins[j], c) == Option::Some(c2));
            assert(run_instrs(ins, j, c) == run_instrs(ins, j + 1, c2));
        },
        ASTNodeKind::IncVal => {
            assert(ins[j] == ch[0] && ins[j + 1] == ch[1] && ins[j + 2] == ch[2]) by {
                assert(ins.subrange(j, j + ch.len())[0] == ins[j]);
                assert(ins.subrange(j, j + ch.len())[1] == ins[j + 1]);
                assert(ins.subrange(j, j + ch.len())[2] == ins[j + 2]);
            }
            let x = c.s.tape[c.s.pos];
            assert(acc_add(x, 1i8) == wrap_inc(x));
            let ca = CState { s: c.s, acc: x };
            let cb = CState { s: c.s, acc: wrap_inc(x) };
            let c2 = CState { s: s1, acc: wrap_inc(x) };
            assert(run_instr(ins[j], c) == Option::Some(ca));
            assert(run_instr(ins[j + 1], ca) == Option::Some(cb));
            assert(run_instr(ins[j + 2], cb) == Option::Some(c2)) by {
                assert(s1 =~~= (MState { tape: c.s.tape.update(c.s.pos, wrap_inc(x)), ..c.s }));
            }
            assert(run_instrs(ins, j, c) == run_instrs(ins, j + 3, c2));
        },
        ASTNodeKind::DecVal => {
            assert(ins[j] == ch[0] && ins[j + 1] == ch[1] && ins[j + 2] == ch[2]) by {
                assert(ins.subrange(j, j + ch.len())[0] == ins[j]);
                assert(ins.subrange(j, j + ch.len())[1] == ins[j + 1]);
                assert(ins.subrange(j, j + ch.len())[2] == ins[j + 2]);
            }
            let x = c.s.tape[c.s.pos];
            assert(acc_add(x, -1i8) == wrap_dec(x));
            let ca = CState { s: c.s, acc: x };
            let cb = CState { s: c.s, acc: wrap_dec(x) };
            let c2 = CState { s: s1, acc: wrap_dec(x) };
            assert(run_instr(ins[j], c) == Option::Some(ca));
            assert(run_instr(ins[j + 1], ca) == Option::Some(cb));
            assert(run_instr(ins[j + 2], cb) == Option::Some(c2)) by {
                assert(s1 =~~= (MState { tape: c.s.tape.update(c.s.pos, wrap_dec(x)), ..c.s }));
            }
            assert(run_instrs(ins, j, c) == run_instrs(ins, j + 3, c2));
        },
        ASTNodeKind::Read => {
            assert(ins[j] == ch[0]) by {
                assert(ins.subrange(j, j + ch.len())[0] == ins[j]);
            }
            let c2 = CState { s: s1, acc: c.acc };
            assert(run_instr(ins[j], c) == Option::Some(c2)) by {
                if c.s.input.len() > 0 {
                    assert(s1 =~~= (MState {
                        tape: c.s.tape.update(c.s.pos, c.s.input[0]),
                        input: c.s.input.drop_first(),
                        ..c.s
                    }));
                }
            }
            assert(run_instrs(ins, j, c) == run_instrs(ins, j + 1, c2));
        },
        ASTNodeKind::Write => {
            assert(ins[j] == ch[0] && ins[j + 1] == ch[1]) by {
                assert(ins.subrange(j, j + ch.len())[0] == ins[j]);
                assert(ins.subrange(j, j + ch.len())[1] == ins[j + 1]);
            }
            let x = c.s.tape[c.s.pos];
            let ca = CState { s: c.s, acc: x };
            let c2 = CState { s: s1, acc: x };
            assert(run_instr(ins[j], c) == Option::Some(ca));
            assert(run_instr(ins[j + 1], ca) == Option::Some(c2)) by {
                assert(s1 =~~= (MState { output: c.s.output.push(x), ..c.s }));
            }
            assert(run_instrs(ins, j, c) == run_instrs(ins, j + 2, c2));
        },
        ASTNodeKind::Loop => {},
    }
}

/// Simulation, one node: when the interpreter finishes `n` and the graph
/// run from the node's code end reaches `Done(fin)` whatever the register
/// holds, the graph run from the node's code start does too.
proof fn sim_node(
    m: ModuleV,
    n: NodeV,
    b: int,
    i: int,
    be: int,
    ie: int,
    s: MState,
    fi: nat,
    s2: MState,
    f2: nat,
    fin: MState,
    fc_end: nat,
)
    requires
        state_inv(s),
        code_end(m, b, i, seq![n]) == Option::Some((be, ie)),
        interp_node(n, s, fi) == (IResult::Done { state: s2, fuel: f2 }),
        runs_to(m, be, ie, s2, fc_end, fin),
    ensures
        exists|fc: nat| runs_to(m, b, i, s, fc, fin),
    decreases fi, n, 0nat,
{
    reveal_with_fuel(code_end, 2);
    assert(seq![n][0] == n);
    assert(seq![n].drop_first() =~= Seq::<NodeV>::empty());
    if n.kind != ASTNodeKind::Loop {
        let ch = chunk(n.kind);
        assert(be == b && ie == i + ch.len());
        assert(step_scalar(n.kind, n.pos, s) == Result::<
            MState,
            crate::interp::RuntimeError,
        >::Ok(s2));
        assert forall|a: u8|
            #[trigger] run_at(m, b, i, CState { s, acc: a }, fc_end) == (CResult::Done {
                state: fin,
            }) by {
            lemma_run_chunk(m.blocks[b].instrs, i, n, CState { s, acc: a }, s2);
            let a2 = choose|a2: u8|
                run_instrs(m.blocks[b].instrs, i, CState { s, acc: a }) == run_instrs(
                    m.blocks[b].instrs,
                    ie,
                    CState { s: s2, acc: a2 },
                );
            assert(run_at(m, b, i, CState { s, acc: a }, fc_end) == run_at(
                m,
                b,
                ie,
                CState { s: s2, acc: a2 },
                fc_end,
            ));
        }
        assert(runs_to(m, b, i, s, fc_end, fin));
    } else {
        let h = b + 1;
        let bodyb = b + 2;
        let lp = code_end(m, bodyb, 0, n.children).unwrap();
        let lb = lp.0;
        let li = lp.1;
        let xb = lb + 1;
        assert(be == xb && ie == 0);
        if s.tape[s.pos] == 0 {
            assert(s2 == s && f2 == fi);
            let fc: nat = fc_end + 2;
            assert forall|a: u8|
                #[trigger] run_at(m, b, i, CState { s, acc: a }, fc) == (CResult::Done {
                    state: fin,
                }) by {
                let c = CState { s, acc: a };
                assert(run_instrs(m.blocks[b].instrs, i, c) == Option::Some(c));
                assert(run_at(m, b, i, c, fc) == run_at(m, h, 0, c, fc_end + 1));
                assert(run_instrs(m.blocks[h].instrs, 0, c) == Option::Some(c));
                assert(run_at(m, h, 0, c, fc_end + 1) == run_at(m, xb, 0, c, fc_end));
            }
            assert(runs_to(m, b, i, s, fc, fin));
        } else {
            assert(fi > 0);
            lemma_interp_seq_preserves(n.children, s, (fi - 1) as nat);
            match interp_seq(n.children, s, (fi - 1) as nat) {
                IResult::Done { state: s1, fuel: f1 } => {
                    assert(f1 <= fi - 1);
                    assert(interp_node(n, s1, f1) == (IResult::Done { state: s2, fuel: f2 }));
                    sim_node(m, n, b, i, be, ie, s1, f1, s2, f2, fin, fc_end);
                    let fc_l = choose|fc: nat| runs_to(m, b, i, s1, fc, fin);
                    assert(runs_to(m, b, i, s1, fc_l, fin));
                    assert(fc_l > 0) by {
                        if fc_l == 0 {
                            let c = CState { s: s1, acc: 0u8 };
                            assert(run_instrs(m.blocks[b].instrs, i, c) == Option::Some(c));
                            assert(run_at(m, b, i, c, 0) == CResult::Out);
                        }
                    }
                    assert forall|a: u8|
                        #[trigger] run_at(m, lb, li, CState { s: s1, acc: a }, fc_l) == (CResult::Done {
                            state: fin,
                        }) by {
                        let c = CState { s: s1, acc: a };
                        assert(run_instrs(m.blocks[lb].instrs, li, c) == Option::Some(c));
                        assert(run_at(m, lb, li, c, fc_l) == run_at(
                            m,
                            h,
                            0,
                            c,
                            (fc_l - 1) as nat,
                        ));
                        assert(run_instrs(m.blocks[b].instrs, i, c) == Option::Some(c));
                        assert(run_at(m, b, i, c, fc_l) == run_at(m, h, 0, c, (fc_l - 1) as nat));
                    }
                    assert(runs_to(m, lb, li, s1, fc_l, fin));
                    sim_seq(m, n.children, bodyb, 0, lb, li, s, (fi - 1) as nat, s1, f1, fin, fc_l);
                    let fc_b = choose|fc: nat| runs_to(m, bodyb, 0, s, fc, fin);
                    assert(runs_to(m, bodyb, 0, s, fc_b, fin));
                    let fc: nat = fc_b + 2;
                    assert forall|a: u8|
                        #[trigger] run_at(m, b, i, CState { s, acc: a }, fc) == (CResult::Done {
                            state: fin,
                        }) by {
                        let c = CState { s, acc: a };
                        assert(run_instrs(m.blocks[b].instrs, i, c) == Option::Some(c));
                        assert(run_at(m, b, i, c, fc) == run_at(m, h, 0, c, fc_b + 1));
                        assert(run_instrs(m.blocks[h].instrs, 0, c) == Option::Some(c));
                        assert(run_at(m, h, 0, c, fc_b + 1) == run_at(m, bodyb, 0, c, fc_b));
                    }
                    assert(runs_to(m, b, i, s, fc, fin));
                },
                _ => {
                    assert(false);
                },
            }
        }
    }
}

/// Simulation, a node sequence: when the interpreter finishes `ns` and the
/// graph run from the end of their code reaches `Done(fin)` whatever the
/// register holds, the graph run from the start of their code does too.
proof fn sim_seq(
    m: ModuleV,
    ns: Seq<NodeV>,
    b: int,
    i: int,
    be: int,
    ie: int,
    s: MState,
    fi: nat,
    s2: MState,
    f2: nat,
    fin: MState,
    fc_end: nat,
)
    requires
        state_inv(s),
        code_end(m, b, i, ns) == Option::Some((be, ie)),
        interp_seq(ns, s, fi) == (IResult::Done { state: s2, fuel: f2 }),
        runs_to(m, be, ie, s2, fc_end, fin),
    ensures
        exists|fc: nat| runs_to(m, b, i, s, fc, fin),
    decreases fi, ns, 1nat,
{
    if ns.len() == 0 {
        assert(be == b && ie == i && s2 == s);
        assert(runs_to(m, b, i, s, fc_end, fin));
    } else {
        let n = ns[0];
        let rest = ns.drop_first();
        assert(ns =~= seq![n] + rest);
        crate::lower::lemma_code_end_app(m, b, i, seq![n], rest);
        let mid = code_end(m, b, i, seq![n]).unwrap();
        lemma_interp_node_preserves(n, s, fi);
        match interp_node(n, s, fi) {
            IResult::Done { state: s1, fuel: f1 } => {
                assert(f1 <= fi);
                assert(interp_seq(rest, s1, f1) == (IResult::Done { state: s2, fuel: f2 }));
                sim_seq(m, rest, mid.0, mid.1, be, ie, s1, f1, s2, f2, fin, fc_end);
                let fc_1 = choose|fc: nat| runs_to(m, mid.0, mid.1, s1, fc, fin);
                assert(runs_to(m, mid.0, mid.1, s1, fc_1, fin));
                sim_node(m, n, b, i, mid.0, mid.1, s, fi, s1, f1, fin, fc_1);
            },
            _ => {
                assert(false);
            },
        }
    }
}

/// Law: backend equivalence. On every run where the tree interpreter
/// finishes a program, executing the lowered graph from its entry block on
/// the same starting state returns — for some fuel, whatever the scratch
/// register held — with exactly the interpreter's final machine state:
/// same tape, same pointer, same remaining input, same output.
pub proof fn lemma_backend_equivalence(
    m: ModuleV,
    prog: Seq<NodeV>,
    be: int,
    ie: int,
    s: MState,
    fi: nat,
    s2: MState,
    f2: nat,
)
    requires
        lowered_program(m, prog, be, ie),
        state_inv(s),
        interp_seq(prog, s, fi) == (IResult::Done { state: s2, fuel: f2 }),
    ensures
        exists|fc: nat| runs_to(m, 0, 0, s, fc, s2),
{
    assert forall|a: u8|
        #[trigger] run_at(m, be, ie, CState { s: s2, acc: a }, 0) == (CResult::Done {
            state: s2,
        }) by {
        let c = CState { s: s2, acc: a };
        assert(run_instrs(m.blocks[be].instrs, ie, c) == Option::Some(c));
    }
    assert(runs_to(m, be, ie, s2, 0, s2));
    sim_seq(m, prog, 0, 0, be, ie, s, fi, s2, f2, s2, 0);
}



/// A graph run that finishes (returns or gets stuck) finishes the same way
/// with any larger fuel.
pub proof fn lemma_run_at_fuel_mono(m: ModuleV, b: int, j: int, c: CState, f: nat, g: nat)
    requires
        f <= g,
        !(run_at(m, b, j, c, f) is Out),
    ensures
        run_at(m, b, j, c, g) == run_at(m, b, j, c, f),
    decreases f,
{
    if 0 <= b < m.blocks.len() {
        match run_instrs(m.blocks[b].instrs, j, c) {
            Option::Some(c2) => {
                match m.blocks[b].term {
                    Terminator::Jump(t) => {
                        lemma_run_at_fuel_mono(m, t as int, 0, c2, (f - 1) as nat, (g - 1) as nat);
                    },
                    Terminator::Branch(bt, bf) => {
                        if state_inv(c2.s) {
                            if c2.s.tape[c2.s.pos] != 0 {
                                lemma_run_at_fuel_mono(
                                    m,
                                    bt as int,
                                    0,
                                    c2,
                                    (f - 1) as nat,
                                    (g - 1) as nat,
                                );
                            } else {
                                lemma_run_at_fuel_mono(
                                    m,
                                    bf as int,
                                    0,
                                    c2,
                                    (f - 1) as nat,
                                    (g - 1) as nat,
                                );
                            }
                        }
                    },
                    Terminator::Ret => {},
                }
            },
            Option::None => {},
        }
    }
}

/// A run that returns with `fin` within `fc` transfers also does within any
/// larger budget.
pub proof fn lemma_runs_to_fuel_mono(
    m: ModuleV,
    b: int,
    j: int,
    s: MState,
    fc: nat,
    fc2: nat,
    fin: MState,
)
    requires
        runs_to(m, b, j, s, fc, fin),
        fc <= fc2,
    ensures
        runs_to(m, b, j, s, fc2, fin),
{
    assert forall|a: u8|
        #[trigger] run_at(m, b, j, CState { s, acc: a }, fc2) == (CResult::Done {
            state: fin,
        }) by {
        assert(run_at(m, b, j, CState { s, acc: a }, fc) == (CResult::Done { state: fin }));
        lemma_run_at_fuel_mono(m, b, j, CState { s, acc: a }, fc, fc2);
    }
}

/// How a reference run of the graph ended.
#[derive(Clone, Copy, Debug, PartialEq, Eq, Structural)]
pub enum MachineStatus {
    /// The run reached a return.
    Returned,
    /// The pointer left the tape, or a control transfer named no block.
    Stuck,
    /// The step budget ran out before a return.
    OutOfFuel,
}

/// Reference execution of a lowered module: run the graph from its entry
/// block against a fresh zero-initialized tape of the module's length,
/// reading from `input`, within `fuel` control transfers. Returns how the
/// run ended together with the final tape and streams.
pub fn run_module(m: &Module, input: Vec<u8>, fuel: u64) -> (r: (MachineStatus, Tape, IoBuffer))
    ensures
        ({
            let cres = run_at(
                m@,
                0,
                0,
                CState { s: initial_state(m@.tape_len, input@), acc: 0 },
                fuel as nat,
            );
            match r.0 {
                MachineStatus::Returned => cres == (CResult::Done { state: state_of(r.1, r.2) }),
                MachineStatus::Stuck => cres == CResult::Stuck,
                MachineStatus::OutOfFuel => cres == CResult::Out,
            }
        }),
{
    let mut tape = Tape { cells: vec![0u8; m.tape_len], pos: 0 };
    let mut io = IoBuffer::new(input);
    let mut acc: u8 = 0;
    let mut f = fuel;
    let mut bid: usize = 0;
    let mut iid: usize = 0;
    proof {
        assert(state_of(tape, io) =~~= initial_state(m@.tape_len, io.input@));
    }
    let ghost c0 = CState { s: state_of(tape, io), acc: 0 };
    if m.blocks.len() == 0 {
        return (MachineStatus::Stuck, tape, io);
    }
    loop
        invariant
            c0 == (CState { s: initial_state(m@.tape_len, input@), acc: 0u8 }),
            io.cursor <= io.input@.len(),
            bid < m.blocks@.len(),
            iid <= m@.blocks[bid as int].instrs.len(),
            run_at(m@, 0, 0, c0, fuel as nat) == run_at(
                m@,
                bid as int,
                iid as int,
                CState { s: state_of(tape, io), acc },
                f as nat,
            ),
        decreases f, m@.blocks[bid as int].instrs.len() - iid,
    {
        let blk = &m.blocks[bid];
        let ghost c_pre = CState { s: state_of(tape, io), acc };
        if iid < blk.instrs.len() {
            match blk.instrs[iid] {
                Instr::PtrAdd(d) => {
                    let target: i128 = tape.pos as i128 + d as i128;
                    if 0 <= target && target < tape.cells.len() as i128 {
                        tape.pos = target as usize;
                    } else {
                        proof {
                            assert(run_instrs(m@.blocks[bid as int].instrs, iid as int, c_pre)
                                == Option::<CState>::None);
                        }
                        return (MachineStatus::Stuck, tape, io);
                    }
                },
                Instr::Load => {
                    if tape.pos < tape.cells.len() {
                        acc = tape.cells[tape.pos];
                    } else {
                        proof {
                            assert(run_instrs(m@.blocks[bid as int].instrs, iid as int, c_pre)
                                == Option::<CState>::None);
                        }
                        return (MachineStatus::Stuck, tape, io);
                    }
                },
                Instr::Add(d) => {
                    let v: i32 = acc as i32 + d as i32;
                    let w: i32 = if v < 0 {
                        v + 256
                    } else if v > 255 {
                        v - 256
                    } else {
                        v
                    };
                    acc = w as u8;
                },
                Instr::Store => {
                    if tape.pos < tape.cells.len() {
                        tape.cells[tape.pos] = acc;
                    } else {
                        proof {
                            assert(run_instrs(m@.blocks[bid as int].instrs, iid as int, c_pre)
                                == Option::<CState>::None);
                        }
                        return (MachineStatus::Stuck, tape, io);
                    }
                },
                Instr::CallRead => {
                    if tape.pos < tape.cells.len() {
                        if io.cursor < io.input.len() {
                            let b = io.input[io.cursor];
                            proof {
                                assert(c_pre.s.input[0] == b);
                            }
                            tape.cells[tape.pos] = b;
                            io.cursor = io.cursor + 1;
                            proof {
                                assert(io.input@.skip(io.cursor as int) =~= c_pre.s.input.drop_first());
                            }
                        }
                    } else {
                        proof {
                            assert(run_instrs(m@.blocks[bid as int].instrs, iid as int, c_pre)
                                == Option::<CState>::None);
                        }
                        return (MachineStatus::Stuck, tape, io);
                    }
                },
                Instr::CallWrite => {
                    io.output.push(acc);
                },
            }
            proof {
                let c_post = CState { s: state_of(tape, io), acc };
                assert(run_instr(m@.blocks[bid as int].instrs[iid as int], c_pre)
                    == Option::Some(c_post)) by {
                    match m@.blocks[bid as int].instrs[iid as int] {
                        Instr::PtrAdd(d) => {
                            assert(c_post =~~= (CState {
                                s: MState { pos: c_pre.s.pos + (d as int), ..c_pre.s },
                                acc: c_pre.acc,
                            }));
                        },
                        Instr::Load => {
                            assert(c_post =~~= (CState { s: c_pre.s, acc: c_pre.s.tape[c_pre.s.pos] }));
                        },
                        Instr::Add(d) => {
                            assert(c_post =~~= (CState {
                                s: c_pre.s,
                                acc: acc_add(c_pre.acc, d),
                            }));
                        },
                        Instr::Store => {
                            assert(c_post =~~= (CState {
                                s: MState {
                                    tape: c_pre.s.tape.update(c_pre.s.pos, c_pre.acc),
                                    ..c_pre.s
                                },
                                acc: c_pre.acc,
                            }));
                        },
                        Instr::CallRead => {
                            if c_pre.s.input.len() > 0 {
                                assert(c_post =~~= (CState {
                                    s: MState {
                                        tape: c_pre.s.tape.update(c_pre.s.pos, c_pre.s.input[0]),
                                        input: c_pre.s.input.drop_first(),
                                        ..c_pre.s
                                    },
                                    acc: c_pre.acc,
                                }));
                            } else {
                                assert(c_post =~~= c_pre);
                            }
                        },
                        Instr::CallWrite => {
                            assert(c_post =~~= (CState {
                                s: MState { output: c_pre.s.output.push(c_pre.acc), ..c_pre.s },
                                acc: c_pre.acc,
                            }));
                        },
                    }
                }
            }
            iid = iid + 1;
        } else {
            proof {
                assert(run_instrs(m@.blocks[bid as int].instrs, iid as int, c_pre)
                    == Option::Some(c_pre));
            }
            match blk.term {
                Terminator::Ret => {
                    return (MachineStatus::Returned, tape, io);
                },
                Terminator::Jump(t) => {
                    if f == 0 {
                        return (MachineStatus::OutOfFuel, tape, io);
                    }
                    f = f - 1;
                    if t < m.blocks.len() {
                        bid = t;
                        iid = 0;
                    } else {
                        proof {
                            assert(run_at(m@, t as int, 0, c_pre, f as nat) == CResult::Stuck);
                        }
                        return (MachineStatus::Stuck, tape, io);
                    }
                },
                Terminator::Branch(bt, bf) => {
                    if tape.pos < tape.cells.len() {
                        let nonzero = tape.cells[tape.pos] != 0;
                        if f == 0 {
                            return (MachineStatus::OutOfFuel, tape, io);
                        }
                        f = f - 1;
                        let t = if nonzero {
                            bt
                        } else {
                            bf
                        };
                        if t < m.blocks.len() {
                            bid = t;
                            iid = 0;
                        } else {
                            proof {
                                assert(run_at(m@, t as int, 0, c_pre, f as nat) == CResult::Stuck);
                            }
                            return (MachineStatus::Stuck, tape, io);
                        }
                    } else {
                        return (MachineStatus::Stuck, tape, io);
                    }
                },
            }
        }
    }
}

} // verus!
