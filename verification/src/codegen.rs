//! The code generator: a post-order walk of the tree that emits
//! instructions for a stack-discipline target. Every expression leaves
//! exactly one value on the operand stack; multiplication and division are
//! synthesized from add/subtract/branch loops because the target has no
//! native multiply or divide.

use vstd::prelude::*;
use crate::parse::{is_expr_node, is_stmt_node, Node, NodeKind};

verus! {

/// The target's register vocabulary.
#[derive(Debug, PartialEq, Eq, Structural, Clone, Copy)]
pub enum Reg {
    Sp,
    Fp,
    Ra,
    A0,
    A1,
    T0,
    T1,
    Zero,
    R0,
    Flag,
}

/// A generated label: `else<n>` or `end<n>`.
#[derive(Debug, PartialEq, Eq, PartialOrd, Ord, Structural, Clone, Copy)]
pub enum LabelId {
    Else(i64),
    End(i64),
}

/// Where a jump goes: a byte offset relative to the next instruction, or a
/// generated label.
#[derive(Debug, PartialEq, Eq, Structural, Clone, Copy)]
pub enum JTarget {
    Rel(i64),
    Lab(LabelId),
}

/// One output line: a label declaration or an instruction.
#[derive(Debug, PartialEq, Eq, Structural, Clone, Copy)]
pub enum Instr {
    Label(LabelId),
    Addi(Reg, Reg, i64),
    Add(Reg, Reg),
    Sub(Reg, Reg),
    Mov(Reg, Reg),
    Slt(Reg, Reg),
    Lw(Reg, Reg, i64),
    Sw(Reg, Reg, i64),
    Beq(Reg, Reg, i64),
    Bnq(Reg, Reg, i64),
    Blt(Reg, Reg, i64),
    Jal(Reg, JTarget),
    Jalr(Reg, Reg, i64),
}

/// A generation failure: the left side of an assignment does not name a
/// storage location. The grammar never builds such a tree from source text;
/// a hand-built tree can.
#[derive(Debug, PartialEq, Eq, Structural, Clone, Copy)]
pub enum GenError {
    NotAnLvalue,
}

/// A tree the generator can walk: every child slot its kind reads is
/// filled, and frame offsets are nonnegative.
pub open spec fn node_wf(n: Node) -> bool
    decreases n,
{
    match n.kind {
        NodeKind::Num => true,
        NodeKind::Lvar => n.offset >= 0,
        NodeKind::Return => match n.lhs {
            Some(l) => node_wf(*l),
            None => false,
        },
        NodeKind::If => {
            &&& match n.cond {
                Some(c) => node_wf(*c),
                None => false,
            }
            &&& match n.lhs {
                Some(t) => node_wf(*t),
                None => false,
            }
            &&& match n.rhs {
                Some(e) => node_wf(*e),
                None => true,
            }
        },
        _ => {
            &&& match n.lhs {
                Some(l) => node_wf(*l),
                None => false,
            }
            &&& match n.rhs {
                Some(r) => node_wf(*r),
                None => false,
            }
        },
    }
}

/// How many `If` nodes the tree holds: each one takes one label number.
pub open spec fn n_ifs(n: Node) -> int
    decreases n,
{
    (if n.kind == NodeKind::If {
        1int
    } else {
        0int
    }) + (match n.lhs {
        Some(l) => n_ifs(*l),
        None => 0,
    }) + (match n.rhs {
        Some(r) => n_ifs(*r),
        None => 0,
    }) + (match n.cond {
        Some(c) => n_ifs(*c),
        None => 0,
    })
}

pub proof fn lemma_n_ifs_nonneg(n: Node)
    ensures
        n_ifs(n) >= 0,
    decreases n,
{
    match n.lhs {
        Some(l) => lemma_n_ifs_nonneg(*l),
        None => {},
    }
    match n.rhs {
        Some(r) => lemma_n_ifs_nonneg(*r),
        None => {},
    }
    match n.cond {
        Some(c) => lemma_n_ifs_nonneg(*c),
        None => {},
    }
}

/// Expression and statement trees out of the parser use no label numbers.
pub proof fn lemma_expr_node_wf(n: Node)
    requires
        is_expr_node(n),
    ensures
        node_wf(n),
        n_ifs(n) == 0,
    decreases n,
{
    match n.lhs {
        Some(l) => lemma_expr_node_wf(*l),
        None => {},
    }
    match n.rhs {
        Some(r) => lemma_expr_node_wf(*r),
        None => {},
    }
}

pub proof fn lemma_stmt_node_wf(n: Node)
    requires
        is_stmt_node(n),
    ensures
        node_wf(n),
        n_ifs(n) == 0,
{
    if is_expr_node(n) {
        lemma_expr_node_wf(n);
    } else {
        match n.lhs {
            Some(l) => lemma_expr_node_wf(*l),
            None => {},
        }
    }
}

/// The address-of sequence for a storage location: push `fp - offset`.
/// Only a local-variable node has an address.
pub open spec fn spec_lval(n: Node) -> (Seq<Instr>, bool) {
    if n.kind == NodeKind::Lvar {
        (
            seq![
                Instr::Mov(Reg::T0, Reg::Fp),
                Instr::Addi(Reg::T0, Reg::T0, (-n.offset) as i64),
                Instr::Addi(Reg::Sp, Reg::Sp, -4i64),
                Instr::Sw(Reg::T0, Reg::Sp, 0),
            ],
            true,
        )
    } else {
        (Seq::empty(), false)
    }
}

/// The operator core of a binary node, once both operands stand in
/// `a0` (left) and `a1` (right).
pub open spec fn spec_binop(kind: NodeKind) -> Seq<Instr> {
    match kind {
        NodeKind::Add => seq![Instr::Add(Reg::A0, Reg::A1)],
        NodeKind::Sub => seq![Instr::Sub(Reg::A0, Reg::A1)],
        NodeKind::Mul => seq![
            Instr::Mov(Reg::T0, Reg::A0),
            Instr::Addi(Reg::A1, Reg::A1, -1i64),
            Instr::Beq(Reg::A1, Reg::Zero, 6),
            Instr::Add(Reg::A0, Reg::T0),
            Instr::Jal(Reg::Zero, JTarget::Rel(-14i64)),
        ],
        NodeKind::Div => seq![
            Instr::Mov(Reg::T0, Reg::Zero),
            Instr::Blt(Reg::A0, Reg::A1, 10),
            Instr::Addi(Reg::T0, Reg::T0, 1),
            Instr::Sub(Reg::A0, Reg::A1),
            Instr::Jal(Reg::Zero, JTarget::Rel(-14i64)),
            Instr::Mov(Reg::A0, Reg::T0),
        ],
        NodeKind::Eq => seq![
            Instr::Mov(Reg::T0, Reg::Zero),
            Instr::Beq(Reg::A0, Reg::A1, 4),
            Instr::Addi(Reg::T0, Reg::T0, -1i64),
            Instr::Addi(Reg::T0, Reg::T0, 1),
            Instr::Mov(Reg::A0, Reg::T0),
        ],
        NodeKind::Ne => seq![
            Instr::Mov(Reg::T0, Reg::Zero),
            Instr::Bnq(Reg::A0, Reg::A1, 4),
            Instr::Addi(Reg::T0, Reg::T0, -1i64),
            Instr::Addi(Reg::T0, Reg::T0, 1),
            Instr::Mov(Reg::A0, Reg::T0),
        ],
        NodeKind::Lt => seq![Instr::Slt(Reg::A0, Reg::A1), Instr::Mov(Reg::A0, Reg::Flag)],
        NodeKind::Le => seq![
            Instr::Mov(Reg::T0, Reg::Zero),
            Instr::Slt(Reg::A1, Reg::A0),
            Instr::Bnq(Reg::Flag, Reg::Zero, 4),
            Instr::Addi(Reg::T0, Reg::Zero, 1),
            Instr::Mov(Reg::A0, Reg::T0),
        ],
        _ => Seq::empty(),
    }
}

/// The test-and-branch head of a conditional with label number `c`: pop
/// the condition value and fall through when it is the literal true
/// encoding, else jump to the alternative.
pub open spec fn spec_if_head(c: int) -> Seq<Instr> {
    seq![
        Instr::Lw(Reg::A0, Reg::Sp, 0),
        Instr::Addi(Reg::Sp, Reg::Sp, 4),
        Instr::Addi(Reg::T0, Reg::Zero, 1),
        Instr::Beq(Reg::A0, Reg::T0, 4),
        Instr::Jal(Reg::Zero, JTarget::Lab(LabelId::Else(c as i64))),
    ]
}

/// Between the two branches of a conditional: leave the taken branch and
/// declare the alternative's label.
pub open spec fn spec_if_mid(c: int) -> Seq<Instr> {
    seq![
        Instr::Jal(Reg::Zero, JTarget::Lab(LabelId::End(c as i64))),
        Instr::Label(LabelId::Else(c as i64)),
    ]
}

/// The tail of a conditional without an alternative: fall straight through
/// to the end label.
pub open spec fn spec_if_fall(c: int) -> Seq<Instr> {
    seq![
        Instr::Jal(Reg::Zero, JTarget::Lab(LabelId::End(c as i64))),
        Instr::Label(LabelId::End(c as i64)),
    ]
}

/// What lowering a node emits: the instruction sequence, the label counter
/// afterwards, and whether it ran to completion. On failure `code` holds
/// exactly what was emitted before the failure was found, and nothing of it
/// is to be used.
pub struct Lowered {
    pub code: Seq<Instr>,
    pub count: int,
    pub ok: bool,
}

/// The lowering of one tree, with `c` the first free label number.
/// Expressions push exactly one value; statements are expressions or
/// `Return`, whose epilogue leaves the function.
pub open spec fn spec_lower(n: Node, c: int) -> Lowered
    decreases n,
{
    match n.kind {
        NodeKind::Num => Lowered {
            code: seq![
                Instr::Addi(Reg::Sp, Reg::Sp, -4i64),
                Instr::Addi(Reg::T0, Reg::R0, n.val),
                Instr::Sw(Reg::T0, Reg::Sp, 0),
            ],
            count: c,
            ok: true,
        },
        NodeKind::Lvar => Lowered {
            code: spec_lval(n).0 + seq![
                Instr::Lw(Reg::T0, Reg::Sp, 0),
                Instr::Lw(Reg::T1, Reg::T0, 0),
                Instr::Sw(Reg::T1, Reg::Sp, 0),
            ],
            count: c,
            ok: true,
        },
        NodeKind::Assign => match (n.lhs, n.rhs) {
            (Some(l), Some(rr)) => {
                let (lv, lok) = spec_lval(*l);
                if !lok {
                    Lowered { code: lv, count: c, ok: false }
                } else {
                    let rl = spec_lower(*rr, c);
                    if !rl.ok {
                        Lowered { code: lv + rl.code, count: rl.count, ok: false }
                    } else {
                        Lowered {
                            code: lv + rl.code + seq![
                                Instr::Lw(Reg::A1, Reg::Sp, 0),
                                Instr::Lw(Reg::A0, Reg::Sp, 4),
                                Instr::Sw(Reg::A1, Reg::A0, 0),
                                Instr::Addi(Reg::Sp, Reg::Sp, 4),
                                Instr::Sw(Reg::A1, Reg::Sp, 0),
                            ],
                            count: rl.count,
                            ok: true,
                        }
                    }
                }
            },
            _ => Lowered { code: Seq::empty(), count: c, ok: false },
        },
        NodeKind::If => match (n.cond, n.lhs) {
            (Some(cnd), Some(taken)) => {
                let cl = spec_lower(*cnd, c + 1);
                if !cl.ok {
                    Lowered { code: cl.code, count: cl.count, ok: false }
                } else {
                    let tl = spec_lower(*taken, cl.count);
                    if !tl.ok {
                        Lowered {
                            code: cl.code + spec_if_head(c) + tl.code,
                            count: tl.count,
                            ok: false,
                        }
                    } else {
                        match n.rhs {
                            Some(e) => {
                                let el = spec_lower(*e, tl.count);
                                if !el.ok {
                                    Lowered {
                                        code: cl.code + spec_if_head(c) + tl.code + spec_if_mid(c)
                                            + el.code,
                                        count: el.count,
                                        ok: false,
                                    }
                                } else {
                                    Lowered {
                                        code: cl.code + spec_if_head(c) + tl.code + spec_if_mid(c)
                                            + el.code + seq![Instr::Label(LabelId::End(c as i64))],
                                        count: el.count,
                                        ok: true,
                                    }
                                }
                            },
                            None => Lowered {
                                code: cl.code + spec_if_head(c) + tl.code + spec_if_mid(c)
                                    + spec_if_fall(c),
                                count: tl.count,
                                ok: true,
                            },
                        }
                    }
                }
            },
            _ => Lowered { code: Seq::empty(), count: c, ok: false },
        },
        NodeKind::Return => match n.lhs {
            Some(l) => {
                let ll = spec_lower(*l, c);
                if !ll.ok {
                    Lowered { code: ll.code, count: ll.count, ok: false }
                } else {
                    Lowered {
                        code: ll.code + seq![
                            Instr::Lw(Reg::A0, Reg::Sp, 0),
                            Instr::Addi(Reg::Sp, Reg::Sp, 4),
                            Instr::Mov(Reg::Sp, Reg::Fp),
                            Instr::Lw(Reg::Fp, Reg::Sp, 0),
                            Instr::Lw(Reg::Ra, Reg::Sp, 4),
                            Instr::Addi(Reg::Sp, Reg::Sp, 8),
                            Instr::Jalr(Reg::Zero, Reg::Ra, 0),
                        ],
                        count: ll.count,
                        ok: true,
                    }
                }
            },
            None => Lowered { code: Seq::empty(), count: c, ok: false },
        },
        _ => match (n.lhs, n.rhs) {
            (Some(l), Some(rr)) => {
                let ll = spec_lower(*l, c);
                if !ll.ok {
                    Lowered { code: ll.code, count: ll.count, ok: false }
                } else {
                    let rl = spec_lower(*rr, ll.count);
                    if !rl.ok {
                        Lowered { code: ll.code + rl.code, count: rl.count, ok: false }
                    } else {
                        Lowered {
                            code: ll.code + rl.code + seq![
                                Instr::Addi(Reg::Sp, Reg::Sp, 8),
                                Instr::Lw(Reg::A1, Reg::Sp, -8i64),
                                Instr::Lw(Reg::A0, Reg::Sp, -4i64),
                            ] + spec_binop(n.kind) + seq![
                                Instr::Addi(Reg::Sp, Reg::Sp, -4i64),
                                Instr::Sw(Reg::A0, Reg::Sp, 0),
                            ],
                            count: rl.count,
                            ok: true,
                        }
                    }
                }
            },
            _ => Lowered { code: Seq::empty(), count: c, ok: false },
        },
    }
}

/// The label counter only moves forward, and by at most the number of `If`
/// nodes in the tree.
#[verifier::rlimit(60)]
pub proof fn lemma_lower_count(n: Node, c: int)
    ensures
        c <= spec_lower(n, c).count <= c + n_ifs(n),
    decreases n,
{
    lemma_n_ifs_nonneg(n);
    match n.lhs {
        Some(l) => lemma_n_ifs_nonneg(*l),
        None => {},
    }
    match n.rhs {
        Some(r) => lemma_n_ifs_nonneg(*r),
        None => {},
    }
    match n.cond {
        Some(cd) => lemma_n_ifs_nonneg(*cd),
        None => {},
    }
    match n.kind {
        NodeKind::Num => {},
        NodeKind::Lvar => {},
        NodeKind::Assign => match (n.lhs, n.rhs) {
            (Some(l), Some(rr)) => {
                lemma_n_ifs_nonneg(*l);
                lemma_lower_count(*rr, c);
            },
            _ => {},
        },
        NodeKind::If => match (n.cond, n.lhs) {
            (Some(cnd), Some(taken)) => {
                lemma_n_ifs_nonneg(*cnd);
                lemma_n_ifs_nonneg(*taken);
                lemma_lower_count(*cnd, c + 1);
                let cl = spec_lower(*cnd, c + 1);
                lemma_lower_count(*taken, cl.count);
                let tl = spec_lower(*taken, cl.count);
                match n.rhs {
                    Some(e) => {
                        lemma_n_ifs_nonneg(*e);
                        lemma_lower_count(*e, tl.count);
                    },
                    None => {},
                }
            },
            _ => {},
        },
        NodeKind::Return => match n.lhs {
            Some(l) => {
                lemma_lower_count(*l, c);
            },
            None => {},
        },
        _ => match (n.lhs, n.rhs) {
            (Some(l), Some(rr)) => {
                lemma_lower_count(*l, c);
                let ll = spec_lower(*l, c);
                lemma_n_ifs_nonneg(*l);
                lemma_n_ifs_nonneg(*rr);
                lemma_lower_count(*rr, ll.count);
            },
            _ => {},
        },
    }
}

/// The change one output line makes to the stack pointer: the lowering
/// moves `sp` only with `addi sp, sp, <k>`.
pub open spec fn sp_delta(i: Instr) -> int {
    match i {
        Instr::Addi(rd, rs, k) => if rd == Reg::Sp && rs == Reg::Sp {
            k as int
        } else {
            0
        },
        _ => 0,
    }
}

/// The net stack-pointer movement of an instruction sequence.
pub open spec fn sp_sum(code: Seq<Instr>) -> int
    decreases code.len(),
{
    if code.len() == 0 {
        0
    } else {
        sp_delta(code[0]) + sp_sum(code.drop_first())
    }
}

pub proof fn lemma_sp_sum_app(a: Seq<Instr>, b: Seq<Instr>)
    ensures
        sp_sum(a + b) == sp_sum(a) + sp_sum(b),
    decreases a.len(),
{
    if a.len() == 0 {
        assert(a + b =~= b);
    } else {
        assert((a + b).drop_first() =~= a.drop_first() + b);
        assert((a + b)[0] == a[0]);
        lemma_sp_sum_app(a.drop_first(), b);
    }
}

/// No operator core touches the stack pointer: operands are already popped
/// and the result is pushed afterwards.
pub proof fn lemma_binop_sp(kind: NodeKind)
    ensures
        sp_sum(spec_binop(kind)) == 0,
{
    reveal_with_fuel(sp_sum, 8);
    match kind {
        NodeKind::Add => {},
        NodeKind::Sub => {},
        NodeKind::Mul => {},
        NodeKind::Div => {},
        NodeKind::Eq => {},
        NodeKind::Ne => {},
        NodeKind::Lt => {},
        NodeKind::Le => {},
        _ => {},
    }
}

/// Stack balance: the lowering of every expression moves the stack pointer
/// down by exactly one 4-byte value — each operator pops exactly the
/// operands it pushed and pushes one result.
#[verifier::rlimit(100)]
#[verifier::spinoff_prover]
pub proof fn lemma_expr_stack_balance(n: Node, c: int)
    requires
        is_expr_node(n),
    ensures
        spec_lower(n, c).ok ==> sp_sum(spec_lower(n, c).code) == -4,
    decreases n,
{
    reveal_with_fuel(sp_sum, 9);
    match n.kind {
        NodeKind::Num => {},
        NodeKind::Lvar => {},
        NodeKind::Assign => match (n.lhs, n.rhs) {
            (Some(l), Some(rr)) => {
                if spec_lower(n, c).ok {
                    let lv = spec_lval(*l).0;
                    let rl = spec_lower(*rr, c);
                    let stores = seq![
                        Instr::Lw(Reg::A1, Reg::Sp, 0),
                        Instr::Lw(Reg::A0, Reg::Sp, 4),
                        Instr::Sw(Reg::A1, Reg::A0, 0),
                        Instr::Addi(Reg::Sp, Reg::Sp, 4i64),
                        Instr::Sw(Reg::A1, Reg::Sp, 0),
                    ];
                    lemma_expr_stack_balance(*rr, c);
                    lemma_sp_sum_app(lv, rl.code);
                    lemma_sp_sum_app(lv + rl.code, stores);
                    assert(sp_sum(lv) == -4);
                    assert(sp_sum(stores) == 4);
                }
            },
            _ => {},
        },
        NodeKind::Return => {},
        NodeKind::If => {},
        _ => match (n.lhs, n.rhs) {
            (Some(l), Some(rr)) => {
                if spec_lower(n, c).ok {
                    let ll = spec_lower(*l, c);
                    let rl = spec_lower(*rr, ll.count);
                    let pre = seq![
                        Instr::Addi(Reg::Sp, Reg::Sp, 8),
                        Instr::Lw(Reg::A1, Reg::Sp, -8i64),
                        Instr::Lw(Reg::A0, Reg::Sp, -4i64),
                    ];
                    let close = seq![
                        Instr::Addi(Reg::Sp, Reg::Sp, -4i64),
                        Instr::Sw(Reg::A0, Reg::Sp, 0),
                    ];
                    lemma_expr_stack_balance(*l, c);
                    lemma_expr_stack_balance(*rr, ll.count);
                    lemma_binop_sp(n.kind);
                    lemma_sp_sum_app(ll.code, rl.code);
                    lemma_sp_sum_app(ll.code + rl.code, pre);
                    lemma_sp_sum_app(ll.code + rl.code + pre, spec_binop(n.kind));
                    lemma_sp_sum_app(ll.code + rl.code + pre + spec_binop(n.kind), close);
                    assert(sp_sum(pre) == 8);
                    assert(sp_sum(close) == -4);
                }
            },
            _ => {},
        },
    }
}

/// Statement balance: an expression statement followed by the per-statement
/// stack reset leaves the stack height unchanged.
pub proof fn lemma_stmt_stack_balance(n: Node, c: int)
    requires
        is_expr_node(n),
        spec_lower(n, c).ok,
    ensures
        sp_sum(spec_lower(n, c).code + seq![Instr::Addi(Reg::Sp, Reg::Sp, 4i64)]) == 0,
{
    lemma_expr_stack_balance(n, c);
    lemma_sp_sum_app(spec_lower(n, c).code, seq![Instr::Addi(Reg::Sp, Reg::Sp, 4i64)]);
    assert(sp_sum(seq![Instr::Addi(Reg::Sp, Reg::Sp, 4i64)]) == 4) by {
        reveal_with_fuel(sp_sum, 2);
    }
}

pub open spec fn label_num(l: LabelId) -> int {
    match l {
        LabelId::Else(n) => n as int,
        LabelId::End(n) => n as int,
    }
}

/// The instruction declares or names only labels numbered in `[lo, hi)`.
pub open spec fn label_ok(i: Instr, lo: int, hi: int) -> bool {
    match i {
        Instr::Label(l) => lo <= label_num(l) < hi,
        Instr::Jal(_, t) => match t {
            JTarget::Lab(l) => lo <= label_num(l) < hi,
            JTarget::Rel(_) => true,
        },
        _ => true,
    }
}

/// Every label the sequence mentions is numbered in `[lo, hi)`.
pub open spec fn labels_within(code: Seq<Instr>, lo: int, hi: int) -> bool {
    forall|j: int| 0 <= j < code.len() ==> label_ok(#[trigger] code[j], lo, hi)
}

proof fn lemma_labels_within_app(a: Seq<Instr>, b: Seq<Instr>, lo: int, hi: int)
    requires
        labels_within(a, lo, hi),
        labels_within(b, lo, hi),
    ensures
        labels_within(a + b, lo, hi),
{
    assert forall|j: int| 0 <= j < (a + b).len() implies label_ok(#[trigger] (a + b)[j], lo, hi) by {
        if j < a.len() {
            assert((a + b)[j] == a[j]);
        } else {
            assert((a + b)[j] == b[j - a.len()]);
        }
    }
}

proof fn lemma_labels_within_widen(code: Seq<Instr>, lo: int, hi: int, lo2: int, hi2: int)
    requires
        labels_within(code, lo, hi),
        lo2 <= lo,
        hi <= hi2,
    ensures
        labels_within(code, lo2, hi2),
{
    assert forall|j: int| 0 <= j < code.len() implies label_ok(#[trigger] code[j], lo2, hi2) by {
        assert(label_ok(code[j], lo, hi));
    }
}

/// Label freshness: lowering a tree whose first free label number is `c`
/// mentions only labels numbered in `[c, end)`, `end` the counter after the
/// lowering. Each `If` takes its number at entry and the counter only moves
/// forward, so the label pairs of distinct conditionals never collide —
/// nested conditionals included — and labels of separate statements,
/// lowered one after the other, stay distinct across a whole compilation.
#[verifier::rlimit(100)]
#[verifier::spinoff_prover]
pub proof fn lemma_labels_fresh(n: Node, c: int)
    requires
        0 <= c,
        c + n_ifs(n) <= i64::MAX,
    ensures
        spec_lower(n, c).ok ==> labels_within(spec_lower(n, c).code, c, spec_lower(n, c).count),
    decreases n,
{
    lemma_lower_count(n, c);
    lemma_n_ifs_nonneg(n);
    match n.lhs {
        Some(x) => lemma_n_ifs_nonneg(*x),
        None => {},
    }
    match n.rhs {
        Some(x) => lemma_n_ifs_nonneg(*x),
        None => {},
    }
    match n.cond {
        Some(x) => lemma_n_ifs_nonneg(*x),
        None => {},
    }
    match n.kind {
        NodeKind::Num => {},
        NodeKind::Lvar => {},
        NodeKind::Assign => match (n.lhs, n.rhs) {
            (Some(l), Some(rr)) => {
                if spec_lower(n, c).ok {
                    let lv = spec_lval(*l).0;
                    let rl = spec_lower(*rr, c);
                    let stores = seq![
                        Instr::Lw(Reg::A1, Reg::Sp, 0),
                        Instr::Lw(Reg::A0, Reg::Sp, 4),
                        Instr::Sw(Reg::A1, Reg::A0, 0),
                        Instr::Addi(Reg::Sp, Reg::Sp, 4i64),
                        Instr::Sw(Reg::A1, Reg::Sp, 0),
                    ];
                    lemma_labels_fresh(*rr, c);
                    lemma_labels_within_app(lv, rl.code, c, rl.count);
                    lemma_labels_within_app(lv + rl.code, stores, c, rl.count);
                }
            },
            _ => {},
        },
        NodeKind::If => match (n.cond, n.lhs) {
            (Some(cnd), Some(taken)) => {
                if spec_lower(n, c).ok {
                    let cl = spec_lower(*cnd, c + 1);
                    let tl = spec_lower(*taken, cl.count);
                    lemma_labels_fresh(*cnd, c + 1);
                    lemma_lower_count(*cnd, c + 1);
                    lemma_labels_fresh(*taken, cl.count);
                    lemma_lower_count(*taken, cl.count);
                    assert(label_num(LabelId::Else(c as i64)) == c);
                    assert(label_num(LabelId::End(c as i64)) == c);
                    match n.rhs {
                        Some(e) => {
                            let el = spec_lower(*e, tl.count);
                            let hi = el.count;
                            lemma_labels_fresh(*e, tl.count);
                            lemma_lower_count(*e, tl.count);
                            lemma_labels_within_widen(cl.code, c + 1, cl.count, c, hi);
                            lemma_labels_within_widen(tl.code, cl.count, tl.count, c, hi);
                            lemma_labels_within_widen(el.code, tl.count, el.count, c, hi);
                            lemma_labels_within_app(cl.code, spec_if_head(c), c, hi);
                            lemma_labels_within_app(cl.code + spec_if_head(c), tl.code, c, hi);
                            lemma_labels_within_app(
                                cl.code + spec_if_head(c) + tl.code,
                                spec_if_mid(c),
                                c,
                                hi,
                            );
                            lemma_labels_within_app(
                                cl.code + spec_if_head(c) + tl.code + spec_if_mid(c),
                                el.code,
                                c,
                                hi,
                            );
                            lemma_labels_within_app(
                                cl.code + spec_if_head(c) + tl.code + spec_if_mid(c) + el.code,
                                seq![Instr::Label(LabelId::End(c as i64))],
                                c,
                                hi,
                            );
                        },
                        None => {
                            let hi = tl.count;
                            lemma_labels_within_widen(cl.code, c + 1, cl.count, c, hi);
                            lemma_labels_within_widen(tl.code, cl.count, tl.count, c, hi);
                            lemma_labels_within_app(cl.code, spec_if_head(c), c, hi);
                            lemma_labels_within_app(cl.code + spec_if_head(c), tl.code, c, hi);
                            lemma_labels_within_app(
                                cl.code + spec_if_head(c) + tl.code,
                                spec_if_mid(c),
                                c,
                                hi,
                            );
                            lemma_labels_within_app(
                                cl.code + spec_if_head(c) + tl.code + spec_if_mid(c),
                                spec_if_fall(c),
                                c,
                                hi,
                            );
                        },
                    }
                }
            },
            _ => {},
        },
        NodeKind::Return => match n.lhs {
            Some(l) => {
                if spec_lower(n, c).ok {
                    let ll = spec_lower(*l, c);
                    let tail = seq![
                        Instr::Lw(Reg::A0, Reg::Sp, 0),
                        Instr::Addi(Reg::Sp, Reg::Sp, 4i64),
                        Instr::Mov(Reg::Sp, Reg::Fp),
                        Instr::Lw(Reg::Fp, Reg::Sp, 0),
                        Instr::Lw(Reg::Ra, Reg::Sp, 4),
                        Instr::Addi(Reg::Sp, Reg::Sp, 8),
                        Instr::Jalr(Reg::Zero, Reg::Ra, 0),
                    ];
                    lemma_labels_fresh(*l, c);
                    lemma_labels_within_app(ll.code, tail, c, ll.count);
                }
            },
            None => {},
        },
        _ => match (n.lhs, n.rhs) {
            (Some(l), Some(rr)) => {
                if spec_lower(n, c).ok {
                    let ll = spec_lower(*l, c);
                    let rl = spec_lower(*rr, ll.count);
                    let hi = rl.count;
                    let pre = seq![
                        Instr::Addi(Reg::Sp, Reg::Sp, 8),
                        Instr::Lw(Reg::A1, Reg::Sp, -8i64),
                        Instr::Lw(Reg::A0, Reg::Sp, -4i64),
                    ];
                    let close = seq![
                        Instr::Addi(Reg::Sp, Reg::Sp, -4i64),
                        Instr::Sw(Reg::A0, Reg::Sp, 0),
                    ];
                    lemma_labels_fresh(*l, c);
                    lemma_lower_count(*l, c);
                    lemma_labels_fresh(*rr, ll.count);
                    lemma_lower_count(*rr, ll.count);
                    lemma_labels_within_widen(ll.code, c, ll.count, c, hi);
                    lemma_labels_within_widen(rl.code, ll.count, rl.count, c, hi);
                    lemma_labels_within_app(ll.code, rl.code, c, hi);
                    lemma_labels_within_app(ll.code + rl.code, pre, c, hi);
                    lemma_labels_within_app(ll.code + rl.code + pre, spec_binop(n.kind), c, hi);
                    lemma_labels_within_app(
                        ll.code + rl.code + pre + spec_binop(n.kind),
                        close,
                        c,
                        hi,
                    );
                }
            },
            _ => {},
        },
    }
}

/// The tree-walking generator. `count` numbers the labels of lowered `If`
/// nodes; it is owned by the generator instance, so separate compilations
/// cannot disturb one another.
#[derive(Debug)]
pub struct CodeGenerator {
    pub count: i64,
}

impl CodeGenerator {
    pub fn new() -> (g: CodeGenerator)
        ensures
            g.count == 0,
    {
        CodeGenerator { count: 0 }
    }

    /// Emit the address of a storage location, or report that the node has
    /// none.
    fn gen_lval(&self, node: &Node, out: &mut Vec<Instr>) -> (r: bool)
        requires
            node_wf(*node),
        ensures
            r == spec_lval(*node).1,
            final(out)@ == old(out)@ + spec_lval(*node).0,
    {
        let is_lvar = node.kind == NodeKind::Lvar;
        if !is_lvar {
            proof {
                assert(out@ =~= old(out)@ + spec_lval(*node).0);
            }
            return false;
        }
        out.push(Instr::Mov(Reg::T0, Reg::Fp));
        out.push(Instr::Addi(Reg::T0, Reg::T0, -node.offset));
        out.push(Instr::Addi(Reg::Sp, Reg::Sp, -4i64));
        out.push(Instr::Sw(Reg::T0, Reg::Sp, 0));
        proof {
            assert(out@ =~= old(out)@ + spec_lval(*node).0);
        }
        true
    }

    /// Lower one statement or expression tree onto `out`. On failure, what
    /// was emitted before the failure stays in `out` and the caller must
    /// discard the whole compilation.
    pub fn gen(&mut self, node: &Node, out: &mut Vec<Instr>) -> (r: Result<(), GenError>)
        requires
            node_wf(*node),
            old(self).count >= 0,
            old(self).count + n_ifs(*node) <= i64::MAX,
        ensures
            ({
                let low = spec_lower(*node, old(self).count as int);
                &&& final(out)@ == old(out)@ + low.code
                &&& final(self).count == low.count
                &&& final(self).count >= old(self).count
                &&& (r is Ok) == low.ok
            }),
        decreases *node, 1int,
    {
        let ghost c0 = self.count as int;
        match node.kind {
            NodeKind::Num => {
                out.push(Instr::Addi(Reg::Sp, Reg::Sp, -4));
                out.push(Instr::Addi(Reg::T0, Reg::R0, node.val));
                out.push(Instr::Sw(Reg::T0, Reg::Sp, 0));
                proof {
                    assert(out@ =~= old(out)@ + spec_lower(*node, c0).code);
                }
                Ok(())
            },
            NodeKind::Lvar => {
                let ok = self.gen_lval(node, out);
                out.push(Instr::Lw(Reg::T0, Reg::Sp, 0));
                out.push(Instr::Lw(Reg::T1, Reg::T0, 0));
                out.push(Instr::Sw(Reg::T1, Reg::Sp, 0));
                proof {
                    assert(out@ =~= old(out)@ + spec_lower(*node, c0).code);
                }
                Ok(())
            },
            NodeKind::Assign => self.gen_assign(node, out),
            NodeKind::If => self.gen_if(node, out),
            NodeKind::Return => self.gen_return(node, out),
            _ => self.gen_binary(node, out),
        }
    }

    /// The `Assign` lowering: the address of the left side, the value of
    /// the right side, one store; the stored value stays on the stack.
    fn gen_assign(&mut self, node: &Node, out: &mut Vec<Instr>) -> (r: Result<(), GenError>)
        requires
            node.kind == NodeKind::Assign,
            node_wf(*node),
            old(self).count >= 0,
            old(self).count + n_ifs(*node) <= i64::MAX,
        ensures
            ({
                let low = spec_lower(*node, old(self).count as int);
                &&& final(out)@ == old(out)@ + low.code
                &&& final(self).count == low.count
                &&& final(self).count >= old(self).count
                &&& (r is Ok) == low.ok
            }),
        decreases *node, 0int,
    {
        let ghost c0 = self.count as int;
        match (&node.lhs, &node.rhs) {
            (Some(l), Some(rr)) => {
                proof {
                    lemma_n_ifs_nonneg(**l);
                    lemma_n_ifs_nonneg(**rr);
                    match &node.cond {
                        Some(x) => lemma_n_ifs_nonneg(**x),
                        None => {},
                    }
                    lemma_lower_count(**rr, c0);
                }
                let okl = self.gen_lval(&**l, out);
                if !okl {
                    proof {
                        assert(out@ =~= old(out)@ + spec_lower(*node, c0).code);
                    }
                    return Err(GenError::NotAnLvalue);
                }
                match self.gen(&**rr, out) {
                    Ok(()) => {},
                    Err(e) => {
                        proof {
                            assert(out@ =~= old(out)@ + spec_lower(*node, c0).code);
                        }
                        return Err(e);
                    },
                }
                out.push(Instr::Lw(Reg::A1, Reg::Sp, 0));
                out.push(Instr::Lw(Reg::A0, Reg::Sp, 4));
                out.push(Instr::Sw(Reg::A1, Reg::A0, 0));
                out.push(Instr::Addi(Reg::Sp, Reg::Sp, 4));
                out.push(Instr::Sw(Reg::A1, Reg::Sp, 0));
                proof {
                    assert(out@ =~= old(out)@ + spec_lower(*node, c0).code);
                }
                Ok(())
            },
            _ => {
                proof {
                    assert(false);
                }
                Err(GenError::NotAnLvalue)
            },
        }
    }

    /// Emit the test-and-branch head of a conditional.
    fn push_if_head(lab: i64, out: &mut Vec<Instr>)
        ensures
            final(out)@ == old(out)@ + spec_if_head(lab as int),
    {
        out.push(Instr::Lw(Reg::A0, Reg::Sp, 0));
        out.push(Instr::Addi(Reg::Sp, Reg::Sp, 4));
        out.push(Instr::Addi(Reg::T0, Reg::Zero, 1));
        out.push(Instr::Beq(Reg::A0, Reg::T0, 4));
        out.push(Instr::Jal(Reg::Zero, JTarget::Lab(LabelId::Else(lab))));
        proof {
            assert(out@ =~= old(out)@ + spec_if_head(lab as int));
        }
    }

    /// Emit the jump past the alternative and the alternative's label.
    fn push_if_mid(lab: i64, out: &mut Vec<Instr>)
        ensures
            final(out)@ == old(out)@ + spec_if_mid(lab as int),
    {
        out.push(Instr::Jal(Reg::Zero, JTarget::Lab(LabelId::End(lab))));
        out.push(Instr::Label(LabelId::Else(lab)));
        proof {
            assert(out@ =~= old(out)@ + spec_if_mid(lab as int));
        }
    }

    /// The `If` lowering: each node takes a fresh label number at entry, so
    /// labels stay distinct over the whole compilation, nested conditionals
    /// included.
    #[verifier::rlimit(100)]
    #[verifier::spinoff_prover]
    fn gen_if(&mut self, node: &Node, out: &mut Vec<Instr>) -> (r: Result<(), GenError>)
        requires
            node.kind == NodeKind::If,
            node_wf(*node),
            old(self).count >= 0,
            old(self).count + n_ifs(*node) <= i64::MAX,
        ensures
            ({
                let low = spec_lower(*node, old(self).count as int);
                &&& final(out)@ == old(out)@ + low.code
                &&& final(self).count == low.count
                &&& final(self).count >= old(self).count
                &&& (r is Ok) == low.ok
            }),
        decreases *node, 0int,
    {
        let ghost c0 = self.count as int;
        match (&node.cond, &node.lhs) {
            (Some(cnd), Some(taken)) => {
                let lab = self.count;
                proof {
                    lemma_n_ifs_nonneg(**cnd);
                    lemma_n_ifs_nonneg(**taken);
                    match &node.rhs {
                        Some(e) => lemma_n_ifs_nonneg(**e),
                        None => {},
                    }
                }
                self.count = self.count + 1;
                match self.gen(&**cnd, out) {
                    Ok(()) => {},
                    Err(e) => {
                        proof {
                            assert(out@ =~= old(out)@ + spec_lower(*node, c0).code);
                        }
                        return Err(e);
                    },
                }
                Self::push_if_head(lab, out);
                proof {
                    lemma_lower_count(**cnd, c0 + 1);
                }
                match self.gen(&**taken, out) {
                    Ok(()) => {},
                    Err(e) => {
                        proof {
                            assert(out@ =~= old(out)@ + spec_lower(*node, c0).code);
                        }
                        return Err(e);
                    },
                }
                Self::push_if_mid(lab, out);
                proof {
                    lemma_lower_count(**taken, spec_lower(**cnd, c0 + 1).count);
                }
                match &node.rhs {
                    Some(e) => {
                        match self.gen(&**e, out) {
                            Ok(()) => {},
                            Err(er) => {
                                proof {
                                    assert(out@ =~= old(out)@ + spec_lower(*node, c0).code);
                                }
                                return Err(er);
                            },
                        }
                        out.push(Instr::Label(LabelId::End(lab)));
                    },
                    None => {
                        out.push(Instr::Jal(Reg::Zero, JTarget::Lab(LabelId::End(lab))));
                        out.push(Instr::Label(LabelId::End(lab)));
                        proof {
                            assert(out@ =~= old(out)@ + spec_lower(*node, c0).code);
                        }
                    },
                }
                proof {
                    assert(out@ =~= old(out)@ + spec_lower(*node, c0).code);
                }
                Ok(())
            },
            _ => {
                proof {
                    assert(false);
                }
                Err(GenError::NotAnLvalue)
            },
        }
    }

    /// The `Return` lowering: the operand's value moves to `a0` and the
    /// fixed epilogue leaves the function.
    fn gen_return(&mut self, node: &Node, out: &mut Vec<Instr>) -> (r: Result<(), GenError>)
        requires
            node.kind == NodeKind::Return,
            node_wf(*node),
            old(self).count >= 0,
            old(self).count + n_ifs(*node) <= i64::MAX,
        ensures
            ({
                let low = spec_lower(*node, old(self).count as int);
                &&& final(out)@ == old(out)@ + low.code
                &&& final(self).count == low.count
                &&& final(self).count >= old(self).count
                &&& (r is Ok) == low.ok
            }),
        decreases *node, 0int,
    {
        let ghost c0 = self.count as int;
        match &node.lhs {
            Some(l) => {
                proof {
                    lemma_n_ifs_nonneg(**l);
                    match &node.rhs {
                        Some(x) => lemma_n_ifs_nonneg(**x),
                        None => {},
                    }
                    match &node.cond {
                        Some(x) => lemma_n_ifs_nonneg(**x),
                        None => {},
                    }
                }
                match self.gen(&**l, out) {
                    Ok(()) => {},
                    Err(e) => {
                        proof {
                            assert(out@ =~= old(out)@ + spec_lower(*node, c0).code);
                        }
                        return Err(e);
                    },
                }
                out.push(Instr::Lw(Reg::A0, Reg::Sp, 0));
                out.push(Instr::Addi(Reg::Sp, Reg::Sp, 4));
                out.push(Instr::Mov(Reg::Sp, Reg::Fp));
                out.push(Instr::Lw(Reg::Fp, Reg::Sp, 0));
                out.push(Instr::Lw(Reg::Ra, Reg::Sp, 4));
                out.push(Instr::Addi(Reg::Sp, Reg::Sp, 8));
                out.push(Instr::Jalr(Reg::Zero, Reg::Ra, 0));
                proof {
                    assert(out@ =~= old(out)@ + spec_lower(*node, c0).code);
                }
                Ok(())
            },
            None => {
                proof {
                    assert(false);
                }
                Err(GenError::NotAnLvalue)
            },
        }
    }

    /// Emit the operator core of a binary kind (nothing for any other
    /// kind).
    fn push_binop(kind: NodeKind, out: &mut Vec<Instr>)
        ensures
            final(out)@ == old(out)@ + spec_binop(kind),
    {
        match kind {
            NodeKind::Add => {
                out.push(Instr::Add(Reg::A0, Reg::A1));
            },
            NodeKind::Sub => {
                out.push(Instr::Sub(Reg::A0, Reg::A1));
            },
            NodeKind::Mul => {
                out.push(Instr::Mov(Reg::T0, Reg::A0));
                out.push(Instr::Addi(Reg::A1, Reg::A1, -1));
                out.push(Instr::Beq(Reg::A1, Reg::Zero, 6));
                out.push(Instr::Add(Reg::A0, Reg::T0));
                out.push(Instr::Jal(Reg::Zero, JTarget::Rel(-14)));
            },
            NodeKind::Div => {
                out.push(Instr::Mov(Reg::T0, Reg::Zero));
                out.push(Instr::Blt(Reg::A0, Reg::A1, 10));
                out.push(Instr::Addi(Reg::T0, Reg::T0, 1));
                out.push(Instr::Sub(Reg::A0, Reg::A1));
                out.push(Instr::Jal(Reg::Zero, JTarget::Rel(-14)));
                out.push(Instr::Mov(Reg::A0, Reg::T0));
            },
            NodeKind::Eq => {
                out.push(Instr::Mov(Reg::T0, Reg::Zero));
                out.push(Instr::Beq(Reg::A0, Reg::A1, 4));
                out.push(Instr::Addi(Reg::T0, Reg::T0, -1));
                out.push(Instr::Addi(Reg::T0, Reg::T0, 1));
                out.push(Instr::Mov(Reg::A0, Reg::T0));
            },
            NodeKind::Ne => {
                out.push(Instr::Mov(Reg::T0, Reg::Zero));
                out.push(Instr::Bnq(Reg::A0, Reg::A1, 4));
                out.push(Instr::Addi(Reg::T0, Reg::T0, -1));
                out.push(Instr::Addi(Reg::T0, Reg::T0, 1));
                out.push(Instr::Mov(Reg::A0, Reg::T0));
            },
            NodeKind::Lt => {
                out.push(Instr::Slt(Reg::A0, Reg::A1));
                out.push(Instr::Mov(Reg::A0, Reg::Flag));
            },
            NodeKind::Le => {
                out.push(Instr::Mov(Reg::T0, Reg::Zero));
                out.push(Instr::Slt(Reg::A1, Reg::A0));
                out.push(Instr::Bnq(Reg::Flag, Reg::Zero, 4));
                out.push(Instr::Addi(Reg::T0, Reg::Zero, 1));
                out.push(Instr::Mov(Reg::A0, Reg::T0));
            },
            _ => {
                proof {
                    assert(out@ =~= old(out)@ + spec_binop(kind));
                }
            },
        }
        proof {
            assert(out@ =~= old(out)@ + spec_binop(kind));
        }
    }

    /// The lowering shared by the binary operator kinds: both operands on
    /// the stack, popped into `a0`/`a1`, combined, the result pushed.
    #[verifier::rlimit(100)]
    #[verifier::spinoff_prover]
    fn gen_binary(&mut self, node: &Node, out: &mut Vec<Instr>) -> (r: Result<(), GenError>)
        requires
            node.kind != NodeKind::Num,
            node.kind != NodeKind::Lvar,
            node.kind != NodeKind::Assign,
            node.kind != NodeKind::If,
            node.kind != NodeKind::Return,
            node_wf(*node),
            old(self).count >= 0,
            old(self).count + n_ifs(*node) <= i64::MAX,
        ensures
            ({
                let low = spec_lower(*node, old(self).count as int);
                &&& final(out)@ == old(out)@ + low.code
                &&& final(self).count == low.count
                &&& final(self).count >= old(self).count
                &&& (r is Ok) == low.ok
            }),
        decreases *node, 0int,
    {
        let ghost c0 = self.count as int;
        match (&node.lhs, &node.rhs) {
            (Some(l), Some(rr)) => {
                proof {
                    lemma_n_ifs_nonneg(**l);
                    lemma_n_ifs_nonneg(**rr);
                    match &node.cond {
                        Some(x) => lemma_n_ifs_nonneg(**x),
                        None => {},
                    }
                }
                match self.gen(&**l, out) {
                    Ok(()) => {},
                    Err(e) => {
                        proof {
                            assert(out@ =~= old(out)@ + spec_lower(*node, c0).code);
                        }
                        return Err(e);
                    },
                }
                proof {
                    lemma_lower_count(**l, c0);
                }
                match self.gen(&**rr, out) {
                    Ok(()) => {},
                    Err(e) => {
                        proof {
                            assert(out@ =~= old(out)@ + spec_lower(*node, c0).code);
                        }
                        return Err(e);
                    },
                }
                out.push(Instr::Addi(Reg::Sp, Reg::Sp, 8));
                out.push(Instr::Lw(Reg::A1, Reg::Sp, -8));
                out.push(Instr::Lw(Reg::A0, Reg::Sp, -4));
                Self::push_binop(node.kind, out);
                out.push(Instr::Addi(Reg::Sp, Reg::Sp, -4));
                out.push(Instr::Sw(Reg::A0, Reg::Sp, 0));
                proof {
                    assert(out@ =~= old(out)@ + spec_lower(*node, c0).code);
                }
                Ok(())
            },
            _ => {
                proof {
                    assert(false);
                }
                Err(GenError::NotAnLvalue)
            },
        }
    }
}

} // verus!
