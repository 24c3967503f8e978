//! CFG lowering: translates the syntax tree into a graph of basic blocks
//! with explicit branches, suitable for a downstream native-code backend.
//! Lowering is a faithful, unoptimized translation and cannot fail.
//!
//! Blocks live in an arena ([`Module::blocks`]) and refer to one another by
//! index; block 0 is the entry. A scalar node appends instructions to the
//! block under construction and never opens a block. A loop node creates
//! exactly three blocks — header (condition check), body entry, and exit —
//! whatever its body holds: the predecessor jumps to the header, the header
//! branches on the cell under the pointer to body entry or exit, the last
//! block produced while lowering the body jumps back to the header, and the
//! exit becomes the block under construction for whatever follows.
//!
//! The spec function [`code_end`] pins the layout: it walks a node sequence
//! from a block/offset position, checks that exactly the right instructions
//! and wiring stand there, and gives back the position where the code ends.

use vstd::prelude::*;

use crate::ast::{lemma_nodes_view_len, lemma_wf_nodes_index, nodes_view, wf_node, wf_nodes, AST,
    ASTNode, ASTNodeKind, NodeV};

verus! {

/// One low-level instruction. The pointer is an addressable integer local;
/// cell mutation goes load / add / store through a scratch register; byte
/// I/O is a call to one of two external primitives.
#[derive(Clone, Copy, Debug, PartialEq, Eq, Structural)]
pub enum Instr {
    /// Move the tape pointer by a literal signed delta, without bounds
    /// checks.
    PtrAdd(i8),
    /// Load the cell at the pointer into the scratch register.
    Load,
    /// Add a literal signed delta to the scratch register, 8-bit modular.
    Add(i8),
    /// Store the scratch register into the cell at the pointer.
    Store,
    /// Call the external read primitive: one input byte into the cell at
    /// the pointer; at end of input the cell is left unchanged.
    CallRead,
    /// Call the external write primitive with the scratch register as
    /// argument.
    CallWrite,
}

/// The single control transfer that ends a basic block.
#[derive(Clone, Copy, Debug, PartialEq, Eq, Structural)]
pub enum Terminator {
    /// Unconditional jump to a block.
    Jump(usize),
    /// Branch on the cell under the pointer: first block when nonzero,
    /// second when zero.
    Branch(usize, usize),
    /// Leave the program.
    Ret,
}

/// A straight-line instruction sequence ended by exactly one terminator.
#[derive(Debug, PartialEq)]
pub struct BasicBlock {
    pub instrs: Vec<Instr>,
    pub term: Terminator,
}

/// The lowering output: the requested tape length and the block arena.
/// Block 0 is the entry block.
#[derive(Debug, PartialEq)]
pub struct Module {
    pub tape_len: usize,
    pub blocks: Vec<BasicBlock>,
}

/// The mathematical shape of a basic block.
#[verifier::ext_equal]
pub struct BlockV {
    pub instrs: Seq<Instr>,
    pub term: Terminator,
}

/// The mathematical shape of a module.
#[verifier::ext_equal]
pub struct ModuleV {
    pub tape_len: nat,
    pub blocks: Seq<BlockV>,
}

impl View for BasicBlock {
    type V = BlockV;

    open spec fn view(&self) -> BlockV {
        BlockV { instrs: self.instrs@, term: self.term }
    }
}

impl View for Module {
    type V = ModuleV;

    open spec fn view(&self) -> ModuleV {
        ModuleV {
            tape_len: self.tape_len as nat,
            blocks: Seq::new(self.blocks@.len(), |k: int| self.blocks@[k]@),
        }
    }
}

/// The instructions a scalar node lowers to. A loop node lowers to blocks,
/// not to instructions, so its chunk is empty.
pub open spec fn chunk(k: ASTNodeKind) -> Seq<Instr> {
    match k {
        ASTNodeKind::IncTape => seq![Instr::PtrAdd(1i8)],
        ASTNodeKind::DecTape => seq![Instr::PtrAdd(-1i8)],
        ASTNodeKind::IncVal => seq![Instr::Load, Instr::Add(1i8), Instr::Store],
        ASTNodeKind::DecVal => seq![Instr::Load, Instr::Add(-1i8), Instr::Store],
        ASTNodeKind::Read => seq![Instr::CallRead],
        ASTNodeKind::Write => seq![Instr::Load, Instr::CallWrite],
        ASTNodeKind::Loop => Seq::empty(),
    }
}

/// How many `Loop` nodes a node holds, itself included.
pub open spec fn loops_in_node(n: NodeV) -> nat
    decreases n,
{
    if n.kind == ASTNodeKind::Loop {
        1 + loops_in(n.children)
    } else {
        0
    }
}

/// How many `Loop` nodes a node sequence holds, at every nesting level.
pub open spec fn loops_in(ns: Seq<NodeV>) -> nat
    decreases ns,
{
    if ns.len() == 0 {
        0
    } else {
        loops_in_node(ns[0]) + loops_in(ns.drop_first())
    }
}

/// `a` is a prefix of `b`.
pub open spec fn is_prefix(a: Seq<Instr>, b: Seq<Instr>) -> bool {
    a.len() <= b.len() && b.subrange(0, a.len() as int) == a
}

/// Where the code for `ns` ends when it is laid out in `m` starting at
/// instruction offset `i` of block `b` — or `None` when the instructions
/// and wiring that lowering produces do not stand there.
///
/// A scalar's chunk lies inline. A loop at the end of block `b` has block
/// `b` jump to its header `b + 1` (an empty block branching on the cell to
/// body entry `b + 2` or to the exit), the body laid out from `b + 2`, the
/// last body block jumping back to the header, and the exit right after
/// the last body block; the code continues at the exit.
pub open spec fn code_end(m: ModuleV, b: int, i: int, ns: Seq<NodeV>) -> Option<(int, int)>
    decreases ns,
{
    if ns.len() == 0 {
        Option::Some((b, i))
    } else if !(0 <= b < m.blocks.len()) {
        Option::None
    } else {
        let n = ns[0];
        let rest = ns.drop_first();
        if n.kind != ASTNodeKind::Loop {
            let ch = chunk(n.kind);
            if 0 <= i && i + ch.len() <= m.blocks[b].instrs.len() && m.blocks[b].instrs.subrange(
                i,
                i + ch.len(),
            ) == ch {
                code_end(m, b, i + ch.len(), rest)
            } else {
                Option::None
            }
        } else {
            if i == m.blocks[b].instrs.len() && b + 2 < m.blocks.len() && m.blocks[b].term
                == Terminator::Jump((b + 1) as usize) && m.blocks[b + 1].instrs.len() == 0 {
                match m.blocks[b + 1].term {
                    Terminator::Branch(bb, xb) => {
                        if bb as int == b + 2 {
                            match code_end(m, b + 2, 0, n.children) {
                                Option::Some(lp) => {
                                    if {
                                        &&& b + 2 <= lp.0
                                        &&& lp.0 < m.blocks.len()
                                        &&& lp.1 == m.blocks[lp.0].instrs.len()
                                        &&& m.blocks[lp.0].term == Terminator::Jump(
                                            (b + 1) as usize,
                                        )
                                        &&& xb as int == lp.0 + 1
                                        &&& xb < m.blocks.len()
                                    } {
                                        code_end(m, xb as int, 0, rest)
                                    } else {
                                        Option::None
                                    }
                                },
                                Option::None => Option::None,
                            }
                        } else {
                            Option::None
                        }
                    },
                    _ => Option::None,
                }
            } else {
                Option::None
            }
        }
    }
}

/// The code for a nonempty node sequence ends at a valid block no earlier
/// than where it starts.
pub proof fn lemma_code_end_ge(m: ModuleV, b: int, i: int, ns: Seq<NodeV>)
    ensures
        match code_end(m, b, i, ns) {
            Option::Some(e) => {
                &&& e.0 >= b
                &&& (e.0 == b ==> e.1 >= i)
                &&& (ns.len() > 0 ==> e.0 < m.blocks.len() && 0 <= e.1)
            },
            Option::None => true,
        },
    decreases ns,
{
    if ns.len() > 0 && 0 <= b < m.blocks.len() {
        let n = ns[0];
        let rest = ns.drop_first();
        if n.kind != ASTNodeKind::Loop {
            let ch = chunk(n.kind);
            if 0 <= i && i + ch.len() <= m.blocks[b].instrs.len() && m.blocks[b].instrs.subrange(
                i,
                i + ch.len(),
            ) == ch {
                lemma_code_end_ge(m, b, i + ch.len(), rest);
            }
        } else {
            if i == m.blocks[b].instrs.len() && b + 2 < m.blocks.len() && m.blocks[b].term
                == Terminator::Jump((b + 1) as usize) && m.blocks[b + 1].instrs.len() == 0 {
                match m.blocks[b + 1].term {
                    Terminator::Branch(bb, xb) => {
                        if bb as int == b + 2 {
                            match code_end(m, b + 2, 0, n.children) {
                                Option::Some(lp) => {
                                    lemma_code_end_ge(m, xb as int, 0, rest);
                                },
                                Option::None => {},
                            }
                        }
                    },
                    _ => {},
                }
            }
        }
    }
}

/// Laid-out code is indifferent to anything outside it: extending the
/// arena, appending instructions after the end position, or changing blocks
/// before the start block leaves `code_end` as it was.
pub proof fn lemma_code_end_frame(
    m1: ModuleV,
    m2: ModuleV,
    b: int,
    i: int,
    ns: Seq<NodeV>,
    be: int,
    ie: int,
)
    requires
        code_end(m1, b, i, ns) == Option::Some((be, ie)),
        m1.blocks.len() <= m2.blocks.len(),
        forall|k: int| b <= k < be ==> m2.blocks[k] == m1.blocks[k],
        ns.len() > 0 ==> is_prefix(m1.blocks[be].instrs, m2.blocks[be].instrs),
    ensures
        code_end(m2, b, i, ns) == Option::Some((be, ie)),
    decreases ns,
{
    if ns.len() > 0 {
        let n = ns[0];
        let rest = ns.drop_first();
        lemma_code_end_ge(m1, b, i, ns);
        if n.kind != ASTNodeKind::Loop {
            let ch = chunk(n.kind);
            let j = i + ch.len();
            lemma_code_end_ge(m1, b, j, rest);
            if b == be {
                assert(m2.blocks[b].instrs.subrange(0, m1.blocks[b].instrs.len() as int)
                    == m1.blocks[b].instrs);
                assert forall|x: int|
                    0 <= x < m1.blocks[b].instrs.len() implies m2.blocks[b].instrs[x]
                    == m1.blocks[b].instrs[x] by {
                    assert(m2.blocks[b].instrs.subrange(0, m1.blocks[b].instrs.len() as int)[x]
                        == m2.blocks[b].instrs[x]);
                }
                assert(m2.blocks[b].instrs.subrange(i, j) =~= m1.blocks[b].instrs.subrange(i, j));
            }
            lemma_code_end_frame(m1, m2, b, j, rest, be, ie);
        } else {
            match m1.blocks[b + 1].term {
                Terminator::Branch(bb, xb) => {
                    let lp = code_end(m1, b + 2, 0, n.children).unwrap();
                    lemma_code_end_ge(m1, b + 2, 0, n.children);
                    lemma_code_end_ge(m1, xb as int, 0, rest);
                    if n.children.len() > 0 {
                        lemma_prefix_refl(m1.blocks[lp.0].instrs);
                    }
                    lemma_code_end_frame(m1, m2, b + 2, 0, n.children, lp.0, lp.1);
                    lemma_code_end_frame(m1, m2, xb as int, 0, rest, be, ie);
                },
                _ => {
                    assert(false);
                },
            }
        }
    }
}

proof fn lemma_prefix_refl(a: Seq<Instr>)
    ensures
        is_prefix(a, a),
{
    assert(a.subrange(0, a.len() as int) =~= a);
}

/// Splitting a node sequence splits its layout: the code for `ns1 + ns2`
/// ends where the code for `ns2` ends when laid out from the end of the
/// code for `ns1`.
pub proof fn lemma_code_end_app(m: ModuleV, b: int, i: int, ns1: Seq<NodeV>, ns2: Seq<NodeV>)
    ensures
        code_end(m, b, i, ns1 + ns2) == (match code_end(m, b, i, ns1) {
            Option::Some(e) => code_end(m, e.0, e.1, ns2),
            Option::None => Option::None::<(int, int)>,
        }),
    decreases ns1,
{
    if ns1.len() == 0 {
        assert(ns1 + ns2 =~= ns2);
    } else {
        assert((ns1 + ns2)[0] == ns1[0]);
        assert((ns1 + ns2).drop_first() =~= ns1.drop_first() + ns2);
        let n = ns1[0];
        let rest = ns1.drop_first();
        if 0 <= b < m.blocks.len() {
            if n.kind != ASTNodeKind::Loop {
                let ch = chunk(n.kind);
                if 0 <= i && i + ch.len() <= m.blocks[b].instrs.len()
                    && m.blocks[b].instrs.subrange(i, i + ch.len()) == ch {
                    lemma_code_end_app(m, b, i + ch.len(), rest, ns2);
                }
            } else {
                if i == m.blocks[b].instrs.len() && b + 2 < m.blocks.len() && m.blocks[b].term
                    == Terminator::Jump((b + 1) as usize) && m.blocks[b + 1].instrs.len() == 0 {
                    match m.blocks[b + 1].term {
                        Terminator::Branch(bb, xb) => {
                            if bb as int == b + 2 {
                                match code_end(m, b + 2, 0, n.children) {
                                    Option::Some(lp) => {
                                        lemma_code_end_app(m, xb as int, 0, rest, ns2);
                                    },
                                    Option::None => {},
                                }
                            }
                        },
                        _ => {},
                    }
                }
            }
        }
    }
}

proof fn lemma_prefix_trans(a: Seq<Instr>, b: Seq<Instr>, c: Seq<Instr>)
    requires
        is_prefix(a, b),
        is_prefix(b, c),
    ensures
        is_prefix(a, c),
{
    assert forall|j: int| 0 <= j < a.len() implies c[j] == a[j] by {
        assert(b.subrange(0, a.len() as int)[j] == b[j]);
        assert(c.subrange(0, b.len() as int)[j] == c[j]);
    }
    assert(c.subrange(0, a.len() as int) =~= a);
}

proof fn lemma_loops_in_app(ns1: Seq<NodeV>, ns2: Seq<NodeV>)
    ensures
        loops_in(ns1 + ns2) == loops_in(ns1) + loops_in(ns2),
    decreases ns1,
{
    if ns1.len() == 0 {
        assert(ns1 + ns2 =~= ns2);
    } else {
        assert((ns1 + ns2)[0] == ns1[0]);
        assert((ns1 + ns2).drop_first() =~= ns1.drop_first() + ns2);
        lemma_loops_in_app(ns1.drop_first(), ns2);
    }
}

/// The incremental builder: the module under construction and the index of
/// the block currently being appended to, which is always the last one.
pub struct IrBuilder {
    pub module: Module,
    pub cur: usize,
}

/// The block under construction is the last block of the arena.
pub open spec fn builder_wf(b: IrBuilder) -> bool {
    b.cur as int == b.module@.blocks.len() - 1
}

/// What lowering the nodes `ns` does to a builder: blocks before the one
/// that was under construction stand untouched, that block only gained
/// instructions, exactly three new blocks exist per loop node, and the code
/// for `ns` now runs from the old position to the new one.
pub open spec fn built(b0: IrBuilder, b1: IrBuilder, ns: Seq<NodeV>) -> bool {
    &&& builder_wf(b1)
    &&& b1.module@.tape_len == b0.module@.tape_len
    &&& b1.module@.blocks.len() == b0.module@.blocks.len() + 3 * loops_in(ns)
    &&& forall|k: int|
        0 <= k < b0.cur as int ==> b1.module@.blocks[k] == b0.module@.blocks[k]
    &&& is_prefix(
        b0.module@.blocks[b0.cur as int].instrs,
        b1.module@.blocks[b0.cur as int].instrs,
    )
    &&& code_end(
        b1.module@,
        b0.cur as int,
        b0.module@.blocks[b0.cur as int].instrs.len() as int,
        ns,
    ) == Option::Some((b1.cur as int, b1.module@.blocks[b1.cur as int].instrs.len() as int))
}

/// Lowering composes: building `ns1` and then `ns2` is building `ns1 + ns2`.
proof fn lemma_built_compose(
    b0: IrBuilder,
    b1: IrBuilder,
    b2: IrBuilder,
    ns1: Seq<NodeV>,
    ns2: Seq<NodeV>,
)
    requires
        builder_wf(b0),
        built(b0, b1, ns1),
        built(b1, b2, ns2),
    ensures
        built(b0, b2, ns1 + ns2),
{
    let bc0 = b0.cur as int;
    let bc1 = b1.cur as int;
    let i0 = b0.module@.blocks[bc0].instrs.len() as int;
    let i1 = b1.module@.blocks[bc1].instrs.len() as int;
    lemma_loops_in_app(ns1, ns2);
    lemma_code_end_ge(b1.module@, bc0, i0, ns1);
    lemma_code_end_frame(b1.module@, b2.module@, bc0, i0, ns1, bc1, i1);
    lemma_code_end_app(b2.module@, bc0, i0, ns1, ns2);
    if bc0 == bc1 {
        lemma_prefix_trans(
            b0.module@.blocks[bc0].instrs,
            b1.module@.blocks[bc0].instrs,
            b2.module@.blocks[bc0].instrs,
        );
    }
}

impl IrBuilder {
    /// Start a module for a tape of `tape_len` cells, with an empty entry
    /// block (block 0) under construction.
    pub fn create(tape_len: usize) -> (b: IrBuilder)
        ensures
            builder_wf(b),
            b.module@.tape_len == tape_len as nat,
            b.module@.blocks.len() == 1,
            b.cur == 0,
            b.module@.blocks[0].instrs.len() == 0,
    {
        let mut blocks: Vec<BasicBlock> = Vec::new();
        blocks.push(BasicBlock { instrs: Vec::new(), term: Terminator::Ret });
        let b = IrBuilder { module: Module { tape_len, blocks }, cur: 0 };
        proof {
            assert(b.module@.blocks[0].instrs.len() == 0);
        }
        b
    }

    /// Append one instruction to the block under construction.
    fn push_instr(&mut self, ins: Instr)
        requires
            builder_wf(*old(self)),
        ensures
            builder_wf(*final(self)),
            final(self).cur == old(self).cur,
            final(self).module@.tape_len == old(self).module@.tape_len,
            final(self).module@.blocks.len() == old(self).module@.blocks.len(),
            forall|k: int|
                0 <= k < old(self).module@.blocks.len() && k != old(self).cur as int
                    ==> final(self).module@.blocks[k] == old(self).module@.blocks[k],
            final(self).module@.blocks[old(self).cur as int].instrs == old(self).module@.blocks[old(self).cur as int].instrs.push(ins),
            final(self).module@.blocks[old(self).cur as int].term == old(self).module@.blocks[old(self).cur as int].term,
    {
        let c = self.cur;
        let blk = &mut self.module.blocks[c];
        blk.instrs.push(ins);
    }

    /// Set the terminator of block `idx`, leaving its instructions alone.
    fn set_term(&mut self, idx: usize, t: Terminator)
        requires
            idx < old(self).module.blocks@.len(),
        ensures
            final(self).cur == old(self).cur,
            final(self).module@.tape_len == old(self).module@.tape_len,
            final(self).module@.blocks.len() == old(self).module@.blocks.len(),
            forall|k: int|
                0 <= k < old(self).module@.blocks.len() && k != idx as int ==> final(self).module@.blocks[k] == old(self).module@.blocks[k],
            final(self).module@.blocks[idx as int].instrs == old(self).module@.blocks[idx as int].instrs,
            final(self).module@.blocks[idx as int].term == t,
    {
        let blk = &mut self.module.blocks[idx];
        blk.term = t;
    }

    /// Open a fresh empty block at the end of the arena; its terminator is
    /// a placeholder until it is sealed.
    fn push_block(&mut self)
        ensures
            final(self).cur == old(self).cur,
            final(self).module@.tape_len == old(self).module@.tape_len,
            final(self).module@.blocks.len() == old(self).module@.blocks.len() + 1,
            forall|k: int|
                0 <= k < old(self).module@.blocks.len() ==> final(self).module@.blocks[k] == old(self).module@.blocks[k],
            final(self).module@.blocks[old(self).module@.blocks.len() as int].instrs
                == Seq::<Instr>::empty(),
    {
        self.module.blocks.push(BasicBlock { instrs: Vec::new(), term: Terminator::Ret });
    }

    /// The block under construction gained exactly the instructions `ch`.
    pub open spec fn emitted(b0: IrBuilder, b1: IrBuilder, ch: Seq<Instr>) -> bool {
        &&& builder_wf(b1)
        &&& b1.cur == b0.cur
        &&& b1.module@.tape_len == b0.module@.tape_len
        &&& b1.module@.blocks.len() == b0.module@.blocks.len()
        &&& forall|k: int|
            0 <= k < b0.module@.blocks.len() && k != b0.cur as int ==> b1.module@.blocks[k]
                == b0.module@.blocks[k]
        &&& b1.module@.blocks[b0.cur as int].instrs == b0.module@.blocks[b0.cur as int].instrs
            + ch
        &&& b1.module@.blocks[b0.cur as int].term == b0.module@.blocks[b0.cur as int].term
    }

    /// Pointer right: one unconditional pointer increment.
    fn inc_tape(&mut self)
        requires
            builder_wf(*old(self)),
        ensures
            IrBuilder::emitted(*old(self), *final(self), chunk(ASTNodeKind::IncTape)),
    {
        self.push_instr(Instr::PtrAdd(1));
        proof {
            assert(self.module@.blocks[self.cur as int].instrs =~= old(self).module@.blocks[self.cur as int].instrs + chunk(ASTNodeKind::IncTape));
        }
    }

    /// Pointer left: one unconditional pointer decrement.
    fn dec_tape(&mut self)
        requires
            builder_wf(*old(self)),
        ensures
            IrBuilder::emitted(*old(self), *final(self), chunk(ASTNodeKind::DecTape)),
    {
        self.push_instr(Instr::PtrAdd(-1));
        proof {
            assert(self.module@.blocks[self.cur as int].instrs =~= old(self).module@.blocks[self.cur as int].instrs + chunk(ASTNodeKind::DecTape));
        }
    }

    /// Cell increment: load the cell, add one, store it back.
    fn inc_val(&mut self)
        requires
            builder_wf(*old(self)),
        ensures
            IrBuilder::emitted(*old(self), *final(self), chunk(ASTNodeKind::IncVal)),
    {
        self.push_instr(Instr::Load);
        self.push_instr(Instr::Add(1));
        self.push_instr(Instr::Store);
        proof {
            assert(self.module@.blocks[self.cur as int].instrs =~= old(self).module@.blocks[self.cur as int].instrs + chunk(ASTNodeKind::IncVal));
        }
    }

    /// Cell decrement: load the cell, subtract one, store it back.
    fn dec_val(&mut self)
        requires
            builder_wf(*old(self)),
        ensures
            IrBuilder::emitted(*old(self), *final(self), chunk(ASTNodeKind::DecVal)),
    {
        self.push_instr(Instr::Load);
        self.push_instr(Instr::Add(-1));
        self.push_instr(Instr::Store);
        proof {
            assert(self.module@.blocks[self.cur as int].instrs =~= old(self).module@.blocks[self.cur as int].instrs + chunk(ASTNodeKind::DecVal));
        }
    }

    /// Read: call the external read primitive into the cell at the pointer.
    fn read(&mut self)
        requires
            builder_wf(*old(self)),
        ensures
            IrBuilder::emitted(*old(self), *final(self), chunk(ASTNodeKind::Read)),
    {
        self.push_instr(Instr::CallRead);
        proof {
            assert(self.module@.blocks[self.cur as int].instrs =~= old(self).module@.blocks[self.cur as int].instrs + chunk(ASTNodeKind::Read));
        }
    }

    /// Write: load the cell and hand it to the external write primitive.
    fn write(&mut self)
        requires
            builder_wf(*old(self)),
        ensures
            IrBuilder::emitted(*old(self), *final(self), chunk(ASTNodeKind::Write)),
    {
        self.push_instr(Instr::Load);
        self.push_instr(Instr::CallWrite);
        proof {
            assert(self.module@.blocks[self.cur as int].instrs =~= old(self).module@.blocks[self.cur as int].instrs + chunk(ASTNodeKind::Write));
        }
    }

    /// Lower one node: a scalar appends its chunk to the block under
    /// construction; a loop builds its three blocks in [`Self::exec_loop`].
    fn build_op(&mut self, op: &ASTNode)
        requires
            builder_wf(*old(self)),
            wf_node(*op),
        ensures
            built(*old(self), *final(self), seq![op@]),
        decreases *op, 1nat,
    {
        match op.kind {
            ASTNodeKind::Loop => {
                self.exec_loop(op);
            },
            ASTNodeKind::IncTape => {
                self.inc_tape();
            },
            ASTNodeKind::DecTape => {
                self.dec_tape();
            },
            ASTNodeKind::IncVal => {
                self.inc_val();
            },
            ASTNodeKind::DecVal => {
                self.dec_val();
            },
            ASTNodeKind::Read => {
                self.read();
            },
            ASTNodeKind::Write => {
                self.write();
            },
        }
        proof {
            if op.kind != ASTNodeKind::Loop {
                reveal_with_fuel(code_end, 2);
                reveal_with_fuel(loops_in, 2);
                let c = old(self).cur as int;
                let i0 = old(self).module@.blocks[c].instrs.len() as int;
                let ch = chunk(op@.kind);
                assert(seq![op@][0] == op@);
                assert(seq![op@].drop_first() =~= Seq::<NodeV>::empty());
                assert(loops_in(seq![op@]) == 0);
                assert(self.module@.blocks[c].instrs.subrange(i0, i0 + ch.len()) =~= ch);
                assert(self.module@.blocks[c].instrs.subrange(0, i0) =~= old(self).module@.blocks[c].instrs);
                assert(code_end(self.module@, c, i0, seq![op@]) == Option::Some(
                    (c, i0 + ch.len()),
                ));
            }
        }
    }

    /// Lower a loop node: seal the block under construction with a jump to
    /// a fresh header, let the header branch on the cell to a fresh body
    /// entry or to the exit, lower the body, close the loop with a jump
    /// from the last body block back to the header, and open the exit as
    /// the new block under construction. Exactly three blocks, whatever the
    /// body holds.
    fn exec_loop(&mut self, op: &ASTNode)
        requires
            builder_wf(*old(self)),
            wf_node(*op),
            op.kind == ASTNodeKind::Loop,
        ensures
            built(*old(self), *final(self), seq![op@]),
        decreases *op, 0nat,
    {
        let ghost b0 = *old(self);
        let ghost c0 = old(self).cur as int;
        let ghost i0 = old(self).module@.blocks[c0].instrs.len() as int;
        let c = self.cur;
        let h = self.module.blocks.len();
        // jump into the loop's condition check
        self.set_term(c, Terminator::Jump(h));
        self.push_block();  // header: the condition check
        self.push_block();  // body entry
        proof {
            assert(self.module@.blocks.len() == h + 2);
        }
        let hb = self.module.blocks.len() - 1;
        proof {
            assert(hb as int == h + 1);
        }
        self.cur = hb;
        let ghost b_body0 = *self;
        let body = op.ops.as_ref().unwrap();
        proof {
            assert(decreases_to!(*op => op.ops));
            assert(decreases_to!(op.ops => op.ops.unwrap()));
            assert(decreases_to!(op.ops.unwrap() => op.ops.unwrap()@));
            assert(op.ops.unwrap()@ == body@);
        }
        self.build_ops(body);
        let ghost b_body1 = *self;
        let ghost lbi = b_body1.cur as int;
        let ghost li = b_body1.module@.blocks[lbi].instrs.len() as int;
        // close the loop: the last body block jumps back to the header
        let lb = self.cur;
        self.set_term(lb, Terminator::Jump(h));
        proof {
            lemma_prefix_refl(b_body1.module@.blocks[lbi].instrs);
            lemma_code_end_frame(
                b_body1.module@,
                self.module@,
                h as int + 1,
                0,
                nodes_view(body@),
                lbi,
                li,
            );
        }
        let ghost m_a = self.module@;
        // the exit block; the header branches on the cell: body when
        // nonzero, exit when zero
        let xb = self.module.blocks.len();
        self.push_block();
        proof {
            lemma_prefix_refl(m_a.blocks[lbi].instrs);
            lemma_code_end_frame(m_a, self.module@, h as int + 1, 0, nodes_view(body@), lbi, li);
        }
        let ghost m_b = self.module@;
        self.set_term(h, Terminator::Branch(hb, xb));
        proof {
            lemma_prefix_refl(m_b.blocks[lbi].instrs);
            lemma_code_end_frame(m_b, self.module@, h as int + 1, 0, nodes_view(body@), lbi, li);
        }
        self.cur = xb;
        proof {
            reveal_with_fuel(code_end, 2);
            reveal_with_fuel(loops_in, 2);
            let m = self.module@;
            assert(seq![op@][0] == op@);
            assert(seq![op@].drop_first() =~= Seq::<NodeV>::empty());
            assert(loops_in(seq![op@]) == 1 + loops_in(op@.children));
            assert(op@.children == nodes_view(body@));
            assert(m.blocks[c0].instrs == b0.module@.blocks[c0].instrs);
            assert(m.blocks[c0].term == Terminator::Jump((c0 + 1) as usize));
            assert(m.blocks[c0 + 1].instrs.len() == 0);
            assert(m.blocks[c0 + 1].term == Terminator::Branch((c0 + 2) as usize, xb));
            assert(code_end(m, c0 + 2, 0, op@.children) == Option::Some((lbi, li)));
            assert(m.blocks[lbi].term == Terminator::Jump((c0 + 1) as usize));
            assert(xb as int == lbi + 1);
            assert(code_end(m, c0, i0, seq![op@]) == Option::Some((xb as int, 0int)));
            assert(m.blocks[xb as int].instrs.len() == 0);
            lemma_prefix_refl(b0.module@.blocks[c0].instrs);
        }
    }

    /// Lower every node of `ops` in order into the block under
    /// construction and whatever blocks their loops open.
    fn build_ops(&mut self, ops: &Vec<ASTNode>)
        requires
            builder_wf(*old(self)),
            wf_nodes(ops@),
        ensures
            built(*old(self), *final(self), nodes_view(ops@)),
        decreases ops@, 2nat,
    {
        let mut idx: usize = 0;
        proof {
            lemma_nodes_view_len(ops@);
            assert(nodes_view(ops@).take(0) =~= Seq::<NodeV>::empty());
            lemma_prefix_refl(self.module@.blocks[self.cur as int].instrs);
        }
        while idx < ops.len()
            invariant
                idx <= ops@.len(),
                wf_nodes(ops@),
                builder_wf(*old(self)),
                builder_wf(*self),
                built(*old(self), *self, nodes_view(ops@).take(idx as int)),
            decreases ops@.len() - idx,
        {
            proof {
                lemma_wf_nodes_index(ops@, idx as int);
                lemma_nodes_view_len(ops@);
                assert(decreases_to!(ops@ => ops@[idx as int]));
            }
            let ghost b_pre = *self;
            let op = &ops[idx];
            self.build_op(op);
            proof {
                lemma_built_compose(
                    *old(self),
                    b_pre,
                    *self,
                    nodes_view(ops@).take(idx as int),
                    seq![op@],
                );
                assert(nodes_view(ops@).take(idx as int + 1) =~= nodes_view(ops@).take(idx as int)
                    + seq![op@]);
            }
            idx = idx + 1;
        }
        proof {
            assert(nodes_view(ops@).take(ops@.len() as int) =~= nodes_view(ops@));
        }
    }

    /// Lower a whole program into the module: its nodes in order, then a
    /// return sealing the last block.
    pub fn build_from_ast(&mut self, ast: &AST)
        requires
            builder_wf(*old(self)),
            wf_nodes(ast.0@),
        ensures
            builder_wf(*final(self)),
            final(self).module@.tape_len == old(self).module@.tape_len,
            final(self).module@.blocks.len() == old(self).module@.blocks.len() + 3 * loops_in(
                ast@,
            ),
            code_end(
                final(self).module@,
                old(self).cur as int,
                old(self).module@.blocks[old(self).cur as int].instrs.len() as int,
                ast@,
            ) == Option::Some(
                (
                    final(self).cur as int,
                    final(self).module@.blocks[final(self).cur as int].instrs.len() as int,
                ),
            ),
            final(self).module@.blocks[final(self).cur as int].term == Terminator::Ret,
    {
        let ghost b0 = *old(self);
        let ghost c0 = old(self).cur as int;
        let ghost i0 = old(self).module@.blocks[c0].instrs.len() as int;
        self.build_ops(&ast.0);
        let ghost b1 = *self;
        let c = self.cur;
        self.set_term(c, Terminator::Ret);
        proof {
            lemma_prefix_refl(b1.module@.blocks[c as int].instrs);
            lemma_code_end_frame(
                b1.module@,
                self.module@,
                c0,
                i0,
                nodes_view(ast.0@),
                c as int,
                b1.module@.blocks[c as int].instrs.len() as int,
            );
        }
    }

    /// The module built so far.
    pub fn get_module(&self) -> (m: &Module)
        ensures
            *m == self.module,
    {
        &self.module
    }
}

/// The code of the whole program `prog` runs in `m` from the start of the
/// entry block to position `(be, ie)`, where the instructions end and the
/// block returns.
pub open spec fn lowered_program(m: ModuleV, prog: Seq<NodeV>, be: int, ie: int) -> bool {
    &&& code_end(m, 0, 0, prog) == Option::Some((be, ie))
    &&& 0 <= be < m.blocks.len()
    &&& ie == m.blocks[be].instrs.len()
    &&& m.blocks[be].term == Terminator::Ret
}

/// Lower a whole program for a tape of `tape_len` cells: a fresh module
/// whose entry block is block 0, with exactly three blocks per loop node
/// plus the entry.
pub fn lower_program(ast: &AST, tape_len: usize) -> (m: Module)
    requires
        wf_nodes(ast.0@),
    ensures
        m@.tape_len == tape_len as nat,
        m@.blocks.len() == 1 + 3 * loops_in(ast@),
        match code_end(m@, 0, 0, ast@) {
            Option::Some(e) => lowered_program(m@, ast@, e.0, e.1),
            Option::None => false,
        },
{
    let mut b = IrBuilder::create(tape_len);
    b.build_from_ast(ast);
    proof {
        lemma_code_end_ge(b.module@, 0, 0, ast@);
    }
    b.module
}

} // verus!
