//! Tree interpreter: walks the syntax tree directly against a bounded byte
//! tape, depth first and in order. A loop re-reads the cell under the
//! pointer before every iteration of its body, the very first included.
//!
//! Input and output are in-memory byte buffers: reading consumes the next
//! input byte (at end of input the cell is left unchanged), writing appends
//! the current cell to the output. Every executable function carries a step
//! budget (`fuel`), spent one unit per loop iteration, so that a diverging
//! program comes back with `Progress::OutOfFuel` instead of never; the
//! fuel-indexed specification [`interp_node`] pins the outcome exactly.

use vstd::prelude::*;

use crate::ast::{lemma_nodes_view_len, lemma_wf_nodes_index, nodes_view, wf_node, wf_nodes, AST,
    ASTNode, ASTNodeKind, NodeV};
use crate::token::InputPosition;

verus! {

/// The fixed-length byte tape and the pointer into it.
#[derive(Debug, PartialEq)]
pub struct Tape {
    pub cells: Vec<u8>,
    pub pos: usize,
}

/// The tape's pointer rests on a valid cell.
pub open spec fn wf_tape(t: Tape) -> bool {
    t.pos < t.cells@.len()
}

impl Tape {
    /// A fresh tape of `size` zeroed cells with the pointer on cell 0.
    pub fn with_size(size: usize) -> (t: Tape)
        ensures
            t.cells@ == Seq::new(size as nat, |i: int| 0u8),
            t.pos == 0,
    {
        let t = Tape { cells: vec![0u8; size], pos: 0 };
        proof {
            assert(t.cells@ =~= Seq::new(size as nat, |i: int| 0u8));
        }
        t
    }
}

/// An execution error, tagged with the position of the offending
/// instruction.
#[derive(Debug, PartialEq)]
pub struct RuntimeError {
    pub kind: ErrorKind,
    pub pos: InputPosition,
}

/// The ways execution can fail. `OffTapeEnd` carries the tape length. In
/// this buffered model reads and writes cannot fail, but a caller that
/// performs real stream I/O around the interpreter reports its failures as
/// `IOError`.
#[derive(Clone, Copy, Debug, PartialEq, Eq, Structural)]
pub enum ErrorKind {
    OffTapeStart,
    OffTapeEnd(usize),
    IOError,
}

impl RuntimeError {
    /// A short human-readable account of the error kind.
    pub fn description(&self) -> (r: &'static str)
        ensures
            self.kind is OffTapeStart ==> r@ == "Tried to move past tape beginning"@,
            self.kind is OffTapeEnd ==> r@ == "Tried to move past end of tape"@,
            self.kind is IOError ==> r@ == "I/O failure"@,
    {
        match self.kind {
            ErrorKind::OffTapeStart => "Tried to move past tape beginning",
            ErrorKind::OffTapeEnd(_) => "Tried to move past end of tape",
            ErrorKind::IOError => "I/O failure",
        }
    }
}

/// The interpreter's byte streams: an input buffer consumed from `cursor`
/// onward, and the output gathered so far.
#[derive(Debug, PartialEq)]
pub struct IoBuffer {
    pub input: Vec<u8>,
    pub cursor: usize,
    pub output: Vec<u8>,
}

/// The cursor never passes the end of the input.
pub open spec fn wf_io(io: IoBuffer) -> bool {
    io.cursor <= io.input@.len()
}

impl IoBuffer {
    /// Fresh streams: the whole of `input` still to read, nothing written.
    pub fn new(input: Vec<u8>) -> (io: IoBuffer)
        ensures
            io.input@ == input@,
            io.cursor == 0,
            io.output@ == Seq::<u8>::empty(),
            wf_io(io),
    {
        IoBuffer { input, cursor: 0, output: Vec::new() }
    }
}

/// Whether execution ran the whole tree or exhausted its step budget first.
#[derive(Clone, Copy, Debug, PartialEq, Eq, Structural)]
pub enum Progress {
    Completed,
    OutOfFuel,
}

/// The machine state the specification speaks of: tape contents, pointer,
/// the input still unread, and the output written so far.
#[verifier::ext_equal]
pub struct MState {
    pub tape: Seq<u8>,
    pub pos: int,
    pub input: Seq<u8>,
    pub output: Seq<u8>,
}

/// The machine state a tape and an I/O buffer stand for.
pub open spec fn state_of(tape: Tape, io: IoBuffer) -> MState {
    MState {
        tape: tape.cells@,
        pos: tape.pos as int,
        input: io.input@.skip(io.cursor as int),
        output: io.output@,
    }
}

/// The outcome of interpreting with a given amount of fuel: finished with
/// fuel to spare, failed, or ran out of fuel part way.
#[verifier::ext_equal]
pub enum IResult {
    Done { state: MState, fuel: nat },
    Fail { err: RuntimeError, state: MState },
    Out { state: MState },
}

/// 8-bit modular increment.
pub open spec fn wrap_inc(x: u8) -> u8 {
    if x == 255 {
        0
    } else {
        (x + 1) as u8
    }
}

/// 8-bit modular decrement.
pub open spec fn wrap_dec(x: u8) -> u8 {
    if x == 0 {
        255
    } else {
        (x - 1) as u8
    }
}

/// What one scalar instruction at position `p` does to the machine state:
/// the new state, or the error that halts execution.
pub open spec fn step_scalar(k: ASTNodeKind, p: InputPosition, s: MState) -> Result<
    MState,
    RuntimeError,
> {
    match k {
        ASTNodeKind::IncTape => if s.pos + 1 < s.tape.len() {
            Result::Ok(MState { tape: s.tape, pos: s.pos + 1, input: s.input, output: s.output })
        } else {
            Result::Err(
                RuntimeError { kind: ErrorKind::OffTapeEnd(s.tape.len() as usize), pos: p },
            )
        },
        ASTNodeKind::DecTape => if s.pos > 0 {
            Result::Ok(MState { tape: s.tape, pos: s.pos - 1, input: s.input, output: s.output })
        } else {
            Result::Err(RuntimeError { kind: ErrorKind::OffTapeStart, pos: p })
        },
        ASTNodeKind::IncVal => Result::Ok(
            MState {
                tape: s.tape.update(s.pos, wrap_inc(s.tape[s.pos])),
                pos: s.pos,
                input: s.input,
                output: s.output,
            },
        ),
        ASTNodeKind::DecVal => Result::Ok(
            MState {
                tape: s.tape.update(s.pos, wrap_dec(s.tape[s.pos])),
                pos: s.pos,
                input: s.input,
                output: s.output,
            },
        ),
        ASTNodeKind::Read => if s.input.len() > 0 {
            Result::Ok(
                MState {
                    tape: s.tape.update(s.pos, s.input[0]),
                    pos: s.pos,
                    input: s.input.drop_first(),
                    output: s.output,
                },
            )
        } else {
            Result::Ok(s)
        },
        ASTNodeKind::Write => Result::Ok(
            MState {
                tape: s.tape,
                pos: s.pos,
                input: s.input,
                output: s.output.push(s.tape[s.pos]),
            },
        ),
        ASTNodeKind::Loop => Result::Ok(s),
    }
}

/// Interpret one node. A scalar node takes its single step; a loop node
/// runs its body for as long as the cell under the pointer is nonzero,
/// re-reading that cell before every iteration and spending one unit of
/// fuel per iteration.
///
/// A sub-run never hands back more fuel than it got (shown in
/// [`crate::equiv::lemma_interp_seq_preserves`]); the conditionals on the
/// leftover fuel only keep the recursion measure visibly decreasing.
pub open spec fn interp_node(n: NodeV, s: MState, fuel: nat) -> IResult
    decreases fuel, n, 0nat,
{
    if n.kind != ASTNodeKind::Loop {
        match step_scalar(n.kind, n.pos, s) {
            Result::Ok(s2) => IResult::Done { state: s2, fuel },
            Result::Err(e) => IResult::Fail { err: e, state: s },
        }
    } else {
        if s.tape[s.pos] == 0 {
            IResult::Done { state: s, fuel }
        } else if fuel == 0 {
            IResult::Out { state: s }
        } else {
            match interp_seq(n.children, s, (fuel - 1) as nat) {
                IResult::Done { state: s1, fuel: f1 } => interp_node(
                    n,
                    s1,
                    if f1 <= fuel - 1 {
                        f1
                    } else {
                        (fuel - 1) as nat
                    },
                ),
                r => r,
            }
        }
    }
}

/// Interpret a node sequence left to right, threading state and fuel, and
/// halting at the first error or at fuel exhaustion.
pub open spec fn interp_seq(ns: Seq<NodeV>, s: MState, fuel: nat) -> IResult
    decreases fuel, ns, 1nat,
{
    if ns.len() == 0 {
        IResult::Done { state: s, fuel }
    } else {
        match interp_node(ns[0], s, fuel) {
            IResult::Done { state: s1, fuel: f1 } => interp_seq(
                ns.drop_first(),
                s1,
                if f1 <= fuel {
                    f1
                } else {
                    fuel
                },
            ),
            r => r,
        }
    }
}

/// What every interpreter step preserves: the tape stays well formed and of
/// the same length, the input buffer itself never changes (only its cursor
/// advances), and fuel never grows.
pub open spec fn frame_ok(t0: Tape, t1: Tape, io0: IoBuffer, io1: IoBuffer, f0: u64, f1: u64) -> bool {
    &&& wf_tape(t1)
    &&& wf_io(io1)
    &&& t1.cells@.len() == t0.cells@.len()
    &&& io1.input@ == io0.input@
    &&& io0.cursor <= io1.cursor
    &&& f1 <= f0
}

/// The returned value, final tape, final streams and final fuel report
/// exactly the specified interpretation outcome `r`.
pub open spec fn matches_interp(
    r: IResult,
    res: Result<Progress, RuntimeError>,
    t: Tape,
    io: IoBuffer,
    fuel: u64,
) -> bool {
    match res {
        Result::Ok(Progress::Completed) => r == (IResult::Done {
            state: state_of(t, io),
            fuel: fuel as nat,
        }),
        Result::Ok(Progress::OutOfFuel) => r == (IResult::Out { state: state_of(t, io) })
            && fuel == 0,
        Result::Err(e) => r == (IResult::Fail { err: e, state: state_of(t, io) }),
    }
}

/// Execute the nodes of `ops` left to right, halting at the first error or
/// when the step budget runs out.
pub fn exec_ops(ops: &Vec<ASTNode>, tape: &mut Tape, io: &mut IoBuffer, fuel: &mut u64) -> (r:
    Result<Progress, RuntimeError>)
    requires
        wf_nodes(ops@),
        wf_tape(*old(tape)),
        wf_io(*old(io)),
    ensures
        frame_ok(*old(tape), *final(tape), *old(io), *final(io), *old(fuel), *final(fuel)),
        matches_interp(
            interp_seq(nodes_view(ops@), state_of(*old(tape), *old(io)), *old(fuel) as nat),
            r,
            *final(tape),
            *final(io),
            *final(fuel),
        ),
    decreases ops@, 2nat,
{
    let mut idx: usize = 0;
    proof {
        lemma_nodes_view_len(ops@);
        assert(nodes_view(ops@).skip(0) =~= nodes_view(ops@));
    }
    while idx < ops.len()
        invariant
            idx <= ops@.len(),
            wf_nodes(ops@),
            wf_tape(*tape),
            wf_io(*io),
            tape.cells@.len() == old(tape).cells@.len(),
            io.input@ == old(io).input@,
            old(io).cursor <= io.cursor,
            *fuel <= *old(fuel),
            interp_seq(nodes_view(ops@), state_of(*old(tape), *old(io)), *old(fuel) as nat)
                == interp_seq(
                nodes_view(ops@).skip(idx as int),
                state_of(*tape, *io),
                *fuel as nat,
            ),
        decreases ops@.len() - idx,
    {
        proof {
            lemma_wf_nodes_index(ops@, idx as int);
            lemma_nodes_view_len(ops@);
            assert(nodes_view(ops@).skip(idx as int)[0] == nodes_view(ops@)[idx as int]);
            assert(nodes_view(ops@).skip(idx as int).drop_first() =~= nodes_view(ops@).skip(
                idx as int + 1,
            ));
            assert(decreases_to!(ops@ => ops@[idx as int]));
        }
        let op = &ops[idx];
        match exec_op(op, tape, io, fuel) {
            Result::Ok(Progress::Completed) => {
                idx = idx + 1;
            },
            Result::Ok(Progress::OutOfFuel) => {
                return Result::Ok(Progress::OutOfFuel);
            },
            Result::Err(e) => {
                return Result::Err(e);
            },
        }
    }
    proof {
        assert(nodes_view(ops@).skip(ops@.len() as int) =~= Seq::<NodeV>::empty());
    }
    Result::Ok(Progress::Completed)
}

/// Execute one node: a scalar node takes its single step against the tape
/// or the streams; a loop node runs in [`exec_loop`].
pub fn exec_op(op: &ASTNode, tape: &mut Tape, io: &mut IoBuffer, fuel: &mut u64) -> (r: Result<
    Progress,
    RuntimeError,
>)
    requires
        wf_node(*op),
        wf_tape(*old(tape)),
        wf_io(*old(io)),
    ensures
        frame_ok(*old(tape), *final(tape), *old(io), *final(io), *old(fuel), *final(fuel)),
        matches_interp(
            interp_node(op@, state_of(*old(tape), *old(io)), *old(fuel) as nat),
            r,
            *final(tape),
            *final(io),
            *final(fuel),
        ),
    decreases *op, 1nat,
{
    match op.kind {
        ASTNodeKind::Loop => exec_loop(op, tape, io, fuel),
        ASTNodeKind::IncTape => {
            let len = tape.cells.len();
            if tape.pos + 1 < len {
                tape.pos = tape.pos + 1;
                proof {
                    assert(state_of(*tape, *io) =~~= (MState {
                        pos: state_of(*old(tape), *old(io)).pos + 1,
                        ..state_of(*old(tape), *old(io))
                    }));
                }
                Result::Ok(Progress::Completed)
            } else {
                Result::Err(RuntimeError { kind: ErrorKind::OffTapeEnd(len), pos: op.pos })
            }
        },
        ASTNodeKind::DecTape => {
            if tape.pos > 0 {
                tape.pos = tape.pos - 1;
                proof {
                    assert(state_of(*tape, *io) =~~= (MState {
                        pos: state_of(*old(tape), *old(io)).pos - 1,
                        ..state_of(*old(tape), *old(io))
                    }));
                }
                Result::Ok(Progress::Completed)
            } else {
                Result::Err(RuntimeError { kind: ErrorKind::OffTapeStart, pos: op.pos })
            }
        },
        ASTNodeKind::IncVal => {
            let v = tape.cells[tape.pos];
            let w = if v == 255 {
                0
            } else {
                v + 1
            };
            tape.cells[tape.pos] = w;
            proof {
                let s = state_of(*old(tape), *old(io));
                assert(state_of(*tape, *io) =~~= (MState {
                    tape: s.tape.update(s.pos, wrap_inc(s.tape[s.pos])),
                    ..s
                }));
            }
            Result::Ok(Progress::Completed)
        },
        ASTNodeKind::DecVal => {
            let v = tape.cells[tape.pos];
            let w = if v == 0 {
                255
            } else {
                v - 1
            };
            tape.cells[tape.pos] = w;
            proof {
                let s = state_of(*old(tape), *old(io));
                assert(state_of(*tape, *io) =~~= (MState {
                    tape: s.tape.update(s.pos, wrap_dec(s.tape[s.pos])),
                    ..s
                }));
            }
            Result::Ok(Progress::Completed)
        },
        ASTNodeKind::Read => {
            if io.cursor < io.input.len() {
                let b = io.input[io.cursor];
                tape.cells[tape.pos] = b;
                io.cursor = io.cursor + 1;
                proof {
                    let s = state_of(*old(tape), *old(io));
                    assert(s.input[0] == b);
                    assert(old(io).input@.skip(io.cursor as int) =~= s.input.drop_first());
                    assert(state_of(*tape, *io) =~~= (MState {
                        tape: s.tape.update(s.pos, s.input[0]),
                        pos: s.pos,
                        input: s.input.drop_first(),
                        output: s.output,
                    }));
                }
            } else {
                proof {
                    assert(state_of(*tape, *io) =~~= state_of(*old(tape), *old(io)));
                }
            }
            Result::Ok(Progress::Completed)
        },
        ASTNodeKind::Write => {
            let b = tape.cells[tape.pos];
            io.output.push(b);
            proof {
                let s = state_of(*old(tape), *old(io));
                assert(state_of(*tape, *io) =~~= (MState { output: s.output.push(s.tape[s.pos]), ..s }));
            }
            Result::Ok(Progress::Completed)
        },
    }
}

/// Execute a loop node: run the body for as long as the cell under the
/// pointer is nonzero, re-reading that cell before every iteration and
/// spending one unit of fuel per iteration.
pub fn exec_loop(op: &ASTNode, tape: &mut Tape, io: &mut IoBuffer, fuel: &mut u64) -> (r: Result<
    Progress,
    RuntimeError,
>)
    requires
        wf_node(*op),
        op.kind == ASTNodeKind::Loop,
        wf_tape(*old(tape)),
        wf_io(*old(io)),
    ensures
        frame_ok(*old(tape), *final(tape), *old(io), *final(io), *old(fuel), *final(fuel)),
        matches_interp(
            interp_node(op@, state_of(*old(tape), *old(io)), *old(fuel) as nat),
            r,
            *final(tape),
            *final(io),
            *final(fuel),
        ),
    decreases *op, 0nat,
{
    let body = op.ops.as_ref().unwrap();
    proof {
        assert(op@.children == nodes_view(body@));
        assert(decreases_to!(*op => body@));
    }
    while tape.cells[tape.pos] != 0
        invariant
            wf_node(*op),
            op.kind == ASTNodeKind::Loop,
            op.ops == Option::Some(*body),
            op@.children == nodes_view(body@),
            wf_nodes(body@),
            wf_tape(*tape),
            wf_io(*io),
            tape.cells@.len() == old(tape).cells@.len(),
            io.input@ == old(io).input@,
            old(io).cursor <= io.cursor,
            *fuel <= *old(fuel),
            interp_node(op@, state_of(*old(tape), *old(io)), *old(fuel) as nat) == interp_node(
                op@,
                state_of(*tape, *io),
                *fuel as nat,
            ),
        decreases *fuel,
    {
        if *fuel == 0 {
            proof {
                assert(interp_node(op@, state_of(*tape, *io), 0nat) == (IResult::Out {
                    state: state_of(*tape, *io),
                }));
            }
            return Result::Ok(Progress::OutOfFuel);
        }
        *fuel = *fuel - 1;
        let ghost s_pre = state_of(*tape, *io);
        let ghost f_pre = *fuel as nat;
        proof {
            assert(decreases_to!(*op => op.ops));
            assert(decreases_to!(op.ops => op.ops.unwrap()));
            assert(decreases_to!(op.ops.unwrap() => op.ops.unwrap()@));
            assert(op.ops.unwrap()@ == body@);
        }
        match exec_ops(body, tape, io, fuel) {
            Result::Ok(Progress::Completed) => {
                proof {
                    assert(interp_node(op@, s_pre, (f_pre + 1) as nat) == interp_node(
                        op@,
                        state_of(*tape, *io),
                        *fuel as nat,
                    ));
                }
            },
            Result::Ok(Progress::OutOfFuel) => {
                proof {
                    assert(interp_node(op@, s_pre, (f_pre + 1) as nat) == (IResult::Out {
                        state: state_of(*tape, *io),
                    }));
                }
                return Result::Ok(Progress::OutOfFuel);
            },
            Result::Err(e) => {
                proof {
                    assert(interp_node(op@, s_pre, (f_pre + 1) as nat) == (IResult::Fail {
                        err: e,
                        state: state_of(*tape, *io),
                    }));
                }
                return Result::Err(e);
            },
        }
    }
    proof {
        assert(interp_node(op@, state_of(*tape, *io), *fuel as nat) == (IResult::Done {
            state: state_of(*tape, *io),
            fuel: *fuel as nat,
        }));
    }
    Result::Ok(Progress::Completed)
}

/// The machine state at the start of a run: `len` zeroed cells, the pointer
/// on cell 0, the whole input unread, nothing written.
pub open spec fn initial_state(len: nat, input: Seq<u8>) -> MState {
    MState { tape: Seq::new(len, |i: int| 0u8), pos: 0, input, output: Seq::empty() }
}

/// Execute a whole program against a fresh zero-initialized tape of
/// `tape_len` cells, reading from `input`, within `fuel` loop iterations.
/// Returns the outcome together with the final tape, the final streams and
/// the fuel left over.
pub fn execute(ast: &AST, tape_len: usize, input: Vec<u8>, fuel: u64) -> (r: (
    Result<Progress, RuntimeError>,
    Tape,
    IoBuffer,
    u64,
))
    requires
        tape_len >= 1,
        wf_nodes(ast.0@),
    ensures
        wf_tape(r.1),
        wf_io(r.2),
        matches_interp(
            interp_seq(ast@, initial_state(tape_len as nat, input@), fuel as nat),
            r.0,
            r.1,
            r.2,
            r.3,
        ),
{
    let mut tape = Tape::with_size(tape_len);
    let mut io = IoBuffer::new(input);
    let mut f = fuel;
    proof {
        assert(state_of(tape, io) =~~= initial_state(tape_len as nat, io.input@));
    }
    let res = exec_ops(&ast.0, &mut tape, &mut io, &mut f);
    (res, tape, io, f)
}

/// Law: a pointer move off either tape edge fails with the matching bound
/// kind, reported at the move's own position, and the machine state —
/// pointer included — is left exactly as it was.
pub proof fn lemma_move_off_edge_fails(n: NodeV, s: MState, fuel: nat)
    ensures
        n.kind == ASTNodeKind::IncTape && s.pos + 1 >= s.tape.len() ==> interp_node(n, s, fuel)
            == (IResult::Fail {
            err: RuntimeError { kind: ErrorKind::OffTapeEnd(s.tape.len() as usize), pos: n.pos },
            state: s,
        }),
        n.kind == ASTNodeKind::DecTape && s.pos <= 0 ==> interp_node(n, s, fuel) == (IResult::Fail {
            err: RuntimeError { kind: ErrorKind::OffTapeStart, pos: n.pos },
            state: s,
        }),
{
}

/// Law: cell arithmetic is 8-bit modular; incrementing 255 or decrementing
/// 0 wraps around and is never an error.
pub proof fn lemma_cell_arithmetic_wraps(n: NodeV, s: MState, fuel: nat)
    requires
        0 <= s.pos < s.tape.len(),
    ensures
        n.kind == ASTNodeKind::IncVal ==> interp_node(n, s, fuel) == (IResult::Done {
            state: MState { tape: s.tape.update(s.pos, wrap_inc(s.tape[s.pos])), ..s },
            fuel,
        }),
        n.kind == ASTNodeKind::DecVal ==> interp_node(n, s, fuel) == (IResult::Done {
            state: MState { tape: s.tape.update(s.pos, wrap_dec(s.tape[s.pos])), ..s },
            fuel,
        }),
        s.tape[s.pos] == 255 ==> wrap_inc(s.tape[s.pos]) == 0,
        s.tape[s.pos] == 0 ==> wrap_dec(s.tape[s.pos]) == 255,
{
}

/// Law: a loop whose cell is already zero runs no iteration: no mutation,
/// no I/O, and no fuel spent.
pub proof fn lemma_zero_iteration_loop(n: NodeV, s: MState, fuel: nat)
    requires
        n.kind == ASTNodeKind::Loop,
        0 <= s.pos < s.tape.len(),
        s.tape[s.pos] == 0,
    ensures
        interp_node(n, s, fuel) == (IResult::Done { state: s, fuel }),
{
}

} // verus!
