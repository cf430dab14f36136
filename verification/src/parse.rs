//! The parser: recursive descent over the token sequence, building the
//! abstract syntax tree and the local-variable table.
//!
//! Grammar, lowest to highest precedence:
//! ```text
//! program    := statement*
//! statement  := "return" expr ";" | expr ";"
//! expr       := assign
//! assign     := equality ("=" assign)?              (right-associative)
//! equality   := relational (("==" | "!=") relational)*
//! relational := add (("<" | "<=" | ">" | ">=") add)*
//! add        := mul (("+" | "-") mul)*
//! mul        := unary (("*" | "/") mul)             (recurses on the right)
//! unary      := ("+" | "-")? primary
//! primary    := "(" expr ")" | identifier | number
//! ```
//! `>` and `>=` swap their operands into `Lt`/`Le` nodes; no "greater" node
//! kind exists. Unary `-` becomes `0 - operand`; unary `+` is dropped.

use vstd::prelude::*;
use crate::text::str_eq;
use crate::token::{toks_view, SpecToken, Token, TokenKind};

verus! {

#[derive(Debug, PartialEq, Eq, Structural, Clone, Copy)]
pub enum NodeKind {
    Add,
    Sub,
    Mul,
    Div,
    Eq,
    Ne,
    Lt,
    Le,
    Assign,
    Lvar,
    Return,
    If,
    Num,
}

/// One node of the abstract syntax tree. Binary kinds fill `lhs` and `rhs`;
/// `Return` fills only `lhs`; `If` fills `cond`, its taken branch stands in
/// `lhs` and its alternative, when there is one, in `rhs`; `Lvar` carries a
/// frame offset; `Num` carries a literal value.
#[derive(Debug, PartialEq)]
pub struct Node {
    pub kind: NodeKind,
    pub lhs: Option<Box<Node>>,
    pub rhs: Option<Box<Node>>,
    pub cond: Option<Box<Node>>,
    pub val: i64,
    pub offset: i64,
}

/// A local variable: its name and its fixed displacement from the frame
/// base, assigned on first sight in declaration order.
#[derive(Debug, PartialEq, Clone)]
pub struct LVar {
    pub name: String,
    pub offset: i64,
}

/// A parse failure: what was demanded and the token index where it was not
/// found. A failure aborts the whole compilation; nothing is recovered.
#[derive(Debug, PartialEq, Eq, Structural, Clone, Copy)]
pub enum ParseError {
    /// A `)` was demanded at token index `at` and something else stood there.
    MissingCloseParen { at: usize },
    /// A `;` was demanded at token index `at` and something else stood there.
    MissingSemicolon { at: usize },
    /// A primary expression (a parenthesis, an identifier or a number) was
    /// demanded at token index `at` and something else stood there.
    ExpectedPrimary { at: usize },
}

/// The parser's position: the token cursor and the names bound so far, in
/// declaration order. The variable at index `k` lives at frame offset
/// `4 * (k + 1)`.
pub struct PState {
    pub i: int,
    pub vars: Seq<Seq<char>>,
}

pub type PResult = Result<(Node, PState), ParseError>;

/// A well-formed token sequence: non-empty, with the end-of-input token at
/// its end and nowhere else.
pub open spec fn tokens_wf(ts: Seq<SpecToken>) -> bool {
    &&& ts.len() >= 1
    &&& ts.last().kind == TokenKind::Eof
    &&& forall|j: int| 0 <= j < ts.len() - 1 ==> (#[trigger] ts[j]).kind != TokenKind::Eof
}

/// The token is the reserved operator or punctuation `op`.
pub open spec fn tok_is_res(t: SpecToken, op: Seq<char>) -> bool {
    t.kind == TokenKind::Reserved && t.text == op
}

pub open spec fn spec_bin_node(kind: NodeKind, lhs: Node, rhs: Node) -> Node {
    Node {
        kind,
        lhs: Some(Box::new(lhs)),
        rhs: Some(Box::new(rhs)),
        cond: None,
        val: 0,
        offset: 0,
    }
}

pub open spec fn spec_lvar_node(offset: int) -> Node {
    Node {
        kind: NodeKind::Lvar,
        lhs: None,
        rhs: None,
        cond: None,
        val: 0,
        offset: offset as i64,
    }
}

pub open spec fn spec_num_node(val: int) -> Node {
    Node { kind: NodeKind::Num, lhs: None, rhs: None, cond: None, val: val as i64, offset: 0 }
}

pub open spec fn spec_return_node(operand: Node) -> Node {
    Node {
        kind: NodeKind::Return,
        lhs: Some(Box::new(operand)),
        rhs: None,
        cond: None,
        val: 0,
        offset: 0,
    }
}

/// Index of the first binding of `name`, or -1 when there is none.
pub open spec fn find_var(vars: Seq<Seq<char>>, name: Seq<char>) -> int
    decreases vars.len(),
{
    if vars.len() == 0 {
        -1
    } else if vars[0] == name {
        0
    } else {
        let r = find_var(vars.drop_first(), name);
        if r < 0 {
            -1
        } else {
            r + 1
        }
    }
}

/// When `name` first occurs at index `j`, the search finds exactly `j`.
pub proof fn lemma_find_var_at(vars: Seq<Seq<char>>, name: Seq<char>, j: int)
    requires
        0 <= j < vars.len(),
        vars[j] == name,
        forall|k: int| 0 <= k < j ==> vars[k] != name,
    ensures
        find_var(vars, name) == j,
    decreases j,
{
    if j == 0 {
    } else {
        assert(vars[0] != name);
        assert(vars.drop_first()[j - 1] == vars[j]);
        assert forall|k: int| 0 <= k < j - 1 implies vars.drop_first()[k] != name by {
            assert(vars.drop_first()[k] == vars[k + 1]);
        }
        lemma_find_var_at(vars.drop_first(), name, j - 1);
    }
}

pub proof fn lemma_find_var(vars: Seq<Seq<char>>, name: Seq<char>)
    ensures
        find_var(vars, name) >= 0 ==> 0 <= find_var(vars, name) < vars.len() && vars[find_var(
            vars,
            name,
        )] == name,
        forall|j: int| 0 <= j < find_var(vars, name) ==> vars[j] != name,
        find_var(vars, name) < 0 ==> find_var(vars, name) == -1 && (forall|j: int|
            0 <= j < vars.len() ==> vars[j] != name),
    decreases vars.len(),
{
    if vars.len() == 0 {
    } else if vars[0] == name {
    } else {
        lemma_find_var(vars.drop_first(), name);
        assert forall|j: int| 1 <= j < vars.len() implies vars[j] == vars.drop_first()[j - 1] by {}
        let r = find_var(vars.drop_first(), name);
        if r >= 0 {
            assert(vars[r + 1] == vars.drop_first()[r]);
        }
    }
}

/// An expression node as the grammar's expression productions build them:
/// the kinds `Num` and `Lvar` as leaves, the binary kinds with both
/// children present. (`Return` wraps an expression only at statement level,
/// and no production builds an `If`.)
pub open spec fn is_expr_node(n: Node) -> bool
    decreases n,
{
    match n.kind {
        NodeKind::Num => n.lhs is None && n.rhs is None && n.cond is None,
        NodeKind::Lvar => n.lhs is None && n.rhs is None && n.cond is None && n.offset >= 0,
        NodeKind::Return => false,
        NodeKind::If => false,
        _ => {
            &&& n.cond is None
            &&& match n.lhs {
                Some(l) => is_expr_node(*l),
                None => false,
            }
            &&& match n.rhs {
                Some(r) => is_expr_node(*r),
                None => false,
            }
        },
    }
}

/// A statement node: an expression, or `Return` wrapping an expression.
pub open spec fn is_stmt_node(n: Node) -> bool {
    is_expr_node(n) || (n.kind == NodeKind::Return && n.rhs is None && n.cond is None
        && match n.lhs {
        Some(l) => is_expr_node(*l),
        None => false,
    })
}

// In the spec grammar below, each production that hands the cursor of one
// sub-parse to the next guards the hand-off with a bound of the form
// `st.i <= st1.i <= ts.len()`: the cursor never moves backwards, so the
// guard also keeps the recursion visibly well-founded. The bodies of the
// parsing methods prove that their results always satisfy the guards.
/// primary := "(" expr ")" | identifier | number. An identifier takes the
/// offset of its earlier binding, or the next free offset on first sight.
pub open spec fn spec_primary(ts: Seq<SpecToken>, st: PState) -> PResult
    decreases ts.len() - st.i, 0int,
{
    if st.i < 0 || ts.len() <= st.i {
        Err(ParseError::ExpectedPrimary { at: st.i as usize })
    } else {
        let t = ts[st.i];
        if tok_is_res(t, "("@) {
            match spec_expr(ts, PState { i: st.i + 1, vars: st.vars }) {
                Ok((n, st1)) => {
                    if 0 <= st1.i < ts.len() && tok_is_res(ts[st1.i], ")"@) {
                        Ok((n, PState { i: st1.i + 1, vars: st1.vars }))
                    } else {
                        Err(ParseError::MissingCloseParen { at: st1.i as usize })
                    }
                },
                Err(e) => Err(e),
            }
        } else if t.kind == TokenKind::Ident {
            let j = find_var(st.vars, t.text);
            if j >= 0 {
                Ok((spec_lvar_node(4 * (j + 1)), PState { i: st.i + 1, vars: st.vars }))
            } else {
                Ok(
                    (
                        spec_lvar_node(4 * (st.vars.len() + 1) as int),
                        PState { i: st.i + 1, vars: st.vars.push(t.text) },
                    ),
                )
            }
        } else if t.kind == TokenKind::Num {
            Ok((spec_num_node(t.val), PState { i: st.i + 1, vars: st.vars }))
        } else {
            Err(ParseError::ExpectedPrimary { at: st.i as usize })
        }
    }
}

/// unary := ("+" | "-")? primary. `+` is dropped; `-x` becomes `0 - x`.
pub open spec fn spec_unary(ts: Seq<SpecToken>, st: PState) -> PResult
    decreases ts.len() - st.i, 1int,
{
    if 0 <= st.i < ts.len() && tok_is_res(ts[st.i], "+"@) {
        spec_primary(ts, PState { i: st.i + 1, vars: st.vars })
    } else if 0 <= st.i < ts.len() && tok_is_res(ts[st.i], "-"@) {
        match spec_primary(ts, PState { i: st.i + 1, vars: st.vars }) {
            Ok((n, st1)) => Ok((spec_bin_node(NodeKind::Sub, spec_num_node(0), n), st1)),
            Err(e) => Err(e),
        }
    } else {
        spec_primary(ts, st)
    }
}

/// mul := unary (("*" | "/") mul): the right operand is a full `mul`, so
/// `*` and `/` group to the right.
pub open spec fn spec_mul(ts: Seq<SpecToken>, st: PState) -> PResult
    decreases ts.len() - st.i, 2int,
{
    match spec_unary(ts, st) {
        Ok((n, st1)) => {
            if 0 <= st1.i < ts.len() && tok_is_res(ts[st1.i], "*"@) && st.i <= st1.i {
                match spec_mul(ts, PState { i: st1.i + 1, vars: st1.vars }) {
                    Ok((m, st2)) => Ok((spec_bin_node(NodeKind::Mul, n, m), st2)),
                    Err(e) => Err(e),
                }
            } else if 0 <= st1.i < ts.len() && tok_is_res(ts[st1.i], "/"@) && st.i <= st1.i {
                match spec_mul(ts, PState { i: st1.i + 1, vars: st1.vars }) {
                    Ok((m, st2)) => Ok((spec_bin_node(NodeKind::Div, n, m), st2)),
                    Err(e) => Err(e),
                }
            } else {
                Ok((n, st1))
            }
        },
        Err(e) => Err(e),
    }
}

/// The iterated tail of add := mul (("+" | "-") mul)*: `node` is what the
/// operators seen so far built, so `+` and `-` group to the left.
pub open spec fn spec_add_rest(ts: Seq<SpecToken>, node: Node, st: PState) -> PResult
    decreases ts.len() - st.i, 3int,
{
    if 0 <= st.i < ts.len() && tok_is_res(ts[st.i], "+"@) {
        match spec_mul(ts, PState { i: st.i + 1, vars: st.vars }) {
            Ok((m, st1)) => {
                let combined = spec_bin_node(NodeKind::Add, node, m);
                if st.i < st1.i <= ts.len() {
                    spec_add_rest(ts, combined, st1)
                } else {
                    Ok((combined, st1))
                }
            },
            Err(e) => Err(e),
        }
    } else if 0 <= st.i < ts.len() && tok_is_res(ts[st.i], "-"@) {
        match spec_mul(ts, PState { i: st.i + 1, vars: st.vars }) {
            Ok((m, st1)) => {
                let combined = spec_bin_node(NodeKind::Sub, node, m);
                if st.i < st1.i <= ts.len() {
                    spec_add_rest(ts, combined, st1)
                } else {
                    Ok((combined, st1))
                }
            },
            Err(e) => Err(e),
        }
    } else {
        Ok((node, st))
    }
}

/// add := mul (("+" | "-") mul)*.
pub open spec fn spec_add(ts: Seq<SpecToken>, st: PState) -> PResult
    decreases ts.len() - st.i, 4int,
{
    match spec_mul(ts, st) {
        Ok((n, st1)) => {
            if st.i <= st1.i <= ts.len() {
                spec_add_rest(ts, n, st1)
            } else {
                Ok((n, st1))
            }
        },
        Err(e) => Err(e),
    }
}

/// The iterated tail of relational := add (("<" | "<=" | ">" | ">=") add)*.
/// `>` and `>=` swap their operands into `Lt`/`Le` nodes.
pub open spec fn spec_rel_rest(ts: Seq<SpecToken>, node: Node, st: PState) -> PResult
    decreases ts.len() - st.i, 5int,
{
    if 0 <= st.i < ts.len() && tok_is_res(ts[st.i], "<"@) {
        match spec_add(ts, PState { i: st.i + 1, vars: st.vars }) {
            Ok((m, st1)) => {
                let combined = spec_bin_node(NodeKind::Lt, node, m);
                if st.i < st1.i <= ts.len() {
                    spec_rel_rest(ts, combined, st1)
                } else {
                    Ok((combined, st1))
                }
            },
            Err(e) => Err(e),
        }
    } else if 0 <= st.i < ts.len() && tok_is_res(ts[st.i], "<="@) {
        match spec_add(ts, PState { i: st.i + 1, vars: st.vars }) {
            Ok((m, st1)) => {
                let combined = spec_bin_node(NodeKind::Le, node, m);
                if st.i < st1.i <= ts.len() {
                    spec_rel_rest(ts, combined, st1)
                } else {
                    Ok((combined, st1))
                }
            },
            Err(e) => Err(e),
        }
    } else if 0 <= st.i < ts.len() && tok_is_res(ts[st.i], ">"@) {
        match spec_add(ts, PState { i: st.i + 1, vars: st.vars }) {
            Ok((m, st1)) => {
                let combined = spec_bin_node(NodeKind::Lt, m, node);
                if st.i < st1.i <= ts.len() {
                    spec_rel_rest(ts, combined, st1)
                } else {
                    Ok((combined, st1))
                }
            },
            Err(e) => Err(e),
        }
    } else if 0 <= st.i < ts.len() && tok_is_res(ts[st.i], ">="@) {
        match spec_add(ts, PState { i: st.i + 1, vars: st.vars }) {
            Ok((m, st1)) => {
                let combined = spec_bin_node(NodeKind::Le, m, node);
                if st.i < st1.i <= ts.len() {
                    spec_rel_rest(ts, combined, st1)
                } else {
                    Ok((combined, st1))
                }
            },
            Err(e) => Err(e),
        }
    } else {
        Ok((node, st))
    }
}

/// relational := add (("<" | "<=" | ">" | ">=") add)*.
pub open spec fn spec_relational(ts: Seq<SpecToken>, st: PState) -> PResult
    decreases ts.len() - st.i, 6int,
{
    match spec_add(ts, st) {
        Ok((n, st1)) => {
            if st.i <= st1.i <= ts.len() {
                spec_rel_rest(ts, n, st1)
            } else {
                Ok((n, st1))
            }
        },
        Err(e) => Err(e),
    }
}

/// The iterated tail of equality := relational (("==" | "!=") relational)*.
pub open spec fn spec_eq_rest(ts: Seq<SpecToken>, node: Node, st: PState) -> PResult
    decreases ts.len() - st.i, 7int,
{
    if 0 <= st.i < ts.len() && tok_is_res(ts[st.i], "=="@) {
        match spec_relational(ts, PState { i: st.i + 1, vars: st.vars }) {
            Ok((m, st1)) => {
                let combined = spec_bin_node(NodeKind::Eq, node, m);
                if st.i < st1.i <= ts.len() {
                    spec_eq_rest(ts, combined, st1)
                } else {
                    Ok((combined, st1))
                }
            },
            Err(e) => Err(e),
        }
    } else if 0 <= st.i < ts.len() && tok_is_res(ts[st.i], "!="@) {
        match spec_relational(ts, PState { i: st.i + 1, vars: st.vars }) {
            Ok((m, st1)) => {
                let combined = spec_bin_node(NodeKind::Ne, node, m);
                if st.i < st1.i <= ts.len() {
                    spec_eq_rest(ts, combined, st1)
                } else {
                    Ok((combined, st1))
                }
            },
            Err(e) => Err(e),
        }
    } else {
        Ok((node, st))
    }
}

/// equality := relational (("==" | "!=") relational)*.
pub open spec fn spec_equality(ts: Seq<SpecToken>, st: PState) -> PResult
    decreases ts.len() - st.i, 8int,
{
    match spec_relational(ts, st) {
        Ok((n, st1)) => {
            if st.i <= st1.i <= ts.len() {
                spec_eq_rest(ts, n, st1)
            } else {
                Ok((n, st1))
            }
        },
        Err(e) => Err(e),
    }
}

/// assign := equality ("=" assign)?: the right operand is a full `assign`,
/// so `=` groups to the right.
pub open spec fn spec_assign(ts: Seq<SpecToken>, st: PState) -> PResult
    decreases ts.len() - st.i, 9int,
{
    match spec_equality(ts, st) {
        Ok((n, st1)) => {
            if 0 <= st1.i < ts.len() && tok_is_res(ts[st1.i], "="@) && st.i <= st1.i {
                match spec_assign(ts, PState { i: st1.i + 1, vars: st1.vars }) {
                    Ok((m, st2)) => Ok((spec_bin_node(NodeKind::Assign, n, m), st2)),
                    Err(e) => Err(e),
                }
            } else {
                Ok((n, st1))
            }
        },
        Err(e) => Err(e),
    }
}

/// expr := assign.
pub open spec fn spec_expr(ts: Seq<SpecToken>, st: PState) -> PResult
    decreases ts.len() - st.i, 10int,
{
    spec_assign(ts, st)
}

/// statement := "return" expr ";" | expr ";".
pub open spec fn spec_stmt(ts: Seq<SpecToken>, st: PState) -> PResult
    decreases ts.len() - st.i, 11int,
{
    if 0 <= st.i < ts.len() && ts[st.i].kind == TokenKind::Return {
        match spec_expr(ts, PState { i: st.i + 1, vars: st.vars }) {
            Ok((n, st1)) => {
                if 0 <= st1.i < ts.len() && tok_is_res(ts[st1.i], ";"@) {
                    Ok((spec_return_node(n), PState { i: st1.i + 1, vars: st1.vars }))
                } else {
                    Err(ParseError::MissingSemicolon { at: st1.i as usize })
                }
            },
            Err(e) => Err(e),
        }
    } else {
        match spec_expr(ts, st) {
            Ok((n, st1)) => {
                if 0 <= st1.i < ts.len() && tok_is_res(ts[st1.i], ";"@) {
                    Ok((n, PState { i: st1.i + 1, vars: st1.vars }))
                } else {
                    Err(ParseError::MissingSemicolon { at: st1.i as usize })
                }
            },
            Err(e) => Err(e),
        }
    }
}

/// program := statement*, gathered until the end-of-input token.
pub open spec fn spec_program_rest(ts: Seq<SpecToken>, acc: Seq<Node>, st: PState) -> Result<
    (Seq<Node>, PState),
    ParseError,
>
    decreases ts.len() - st.i, 12int,
{
    if 0 <= st.i < ts.len() && ts[st.i].kind != TokenKind::Eof {
        match spec_stmt(ts, st) {
            Ok((n, st1)) => {
                if st.i < st1.i <= ts.len() {
                    spec_program_rest(ts, acc.push(n), st1)
                } else {
                    Ok((acc.push(n), st1))
                }
            },
            Err(e) => Err(e),
        }
    } else {
        Ok((acc, st))
    }
}

/// The whole program, parsed from the first token with no variables bound.
pub open spec fn spec_program(ts: Seq<SpecToken>) -> Result<(Seq<Node>, PState), ParseError> {
    spec_program_rest(ts, Seq::empty(), PState { i: 0, vars: Seq::empty() })
}

/// A frame-offset bound that keeps `4 * (number of variables)` far from the
/// ends of `i64` and `usize`.
pub const MAX_TOKENS: usize = 0x4000_0000;

fn consume(token: &Token, op: &str) -> (r: bool)
    ensures
        r == tok_is_res(token@, op@),
{
    token.kind == TokenKind::Reserved && str_eq(token.str.as_str(), op)
}

fn consume_ident(token: &Token) -> (r: bool)
    ensures
        r == (token@.kind == TokenKind::Ident),
{
    token.kind == TokenKind::Ident
}

fn consume_return(token: &Token) -> (r: bool)
    ensures
        r == (token@.kind == TokenKind::Return),
{
    token.kind == TokenKind::Return
}

fn at_eof(token: &Token) -> (r: bool)
    ensures
        r == (token@.kind == TokenKind::Eof),
{
    token.kind == TokenKind::Eof
}

fn new_node(kind: NodeKind, lhs: Node, rhs: Node) -> (n: Node)
    ensures
        n == spec_bin_node(kind, lhs, rhs),
{
    Node { kind, lhs: Some(Box::new(lhs)), rhs: Some(Box::new(rhs)), cond: None, val: 0, offset: 0 }
}

fn new_node_lvar(offset: i64) -> (n: Node)
    ensures
        n == spec_lvar_node(offset as int),
{
    Node { kind: NodeKind::Lvar, lhs: None, rhs: None, cond: None, val: 0, offset }
}

fn new_node_num(val: i64) -> (n: Node)
    ensures
        n == spec_num_node(val as int),
{
    Node { kind: NodeKind::Num, lhs: None, rhs: None, cond: None, val, offset: 0 }
}

/// After a token that is not the end-of-input token, the cursor is still in
/// range.
proof fn lemma_advance(ts: Seq<SpecToken>, i: int)
    requires
        tokens_wf(ts),
        0 <= i < ts.len(),
        ts[i].kind != TokenKind::Eof,
    ensures
        i + 1 < ts.len(),
{
    if i == ts.len() - 1 {
        assert(ts[i] == ts.last());
    }
}

#[derive(Debug)]
pub struct Parser {
    pub token_list: Vec<Token>,
    pub i: usize,
    pub node_list: Vec<Node>,
    pub lvar_list: Vec<LVar>,
    pub locals: LVar,
}

impl Parser {
    pub open spec fn toks(self) -> Seq<SpecToken> {
        toks_view(self.token_list@)
    }

    pub open spec fn vars(self) -> Seq<Seq<char>> {
        self.lvar_list@.map_values(|l: LVar| l.name@)
    }

    pub open spec fn st(self) -> PState {
        PState { i: self.i as int, vars: self.vars() }
    }

    /// The local-variable table's own invariant: the entry at index `k`
    /// lives at offset `4 * (k + 1)`, no name is bound twice, and `locals`
    /// carries the highest offset handed out so far.
    pub open spec fn lvars_wf(self) -> bool {
        &&& forall|k: int|
            0 <= k < self.lvar_list@.len() ==> (#[trigger] self.lvar_list@[k]).offset == 4 * (k + 1)
        &&& self.locals.offset == 4 * self.lvar_list@.len()
        &&& forall|j: int, k: int|
            #![trigger self.lvar_list@[j], self.lvar_list@[k]]
            0 <= j < k < self.lvar_list@.len() ==> self.lvar_list@[j].name@
                != self.lvar_list@[k].name@
    }

    /// What every parsing step preserves: a well-formed token sequence, the
    /// cursor in range, and the variable table's invariant. The bound by
    /// `MAX_TOKENS` keeps every frame offset well inside `i64`.
    pub open spec fn wf(self) -> bool {
        &&& tokens_wf(self.toks())
        &&& self.i < self.token_list@.len()
        &&& self.token_list@.len() <= MAX_TOKENS
        &&& self.lvar_list@.len() <= self.i
        &&& self.lvars_wf()
    }

    pub fn new(token_list: Vec<Token>) -> (p: Parser)
        ensures
            p.token_list == token_list,
            p.i == 0,
            p.node_list@ == Seq::<Node>::empty(),
            p.lvar_list@ == Seq::<LVar>::empty(),
            p.locals.name@ == Seq::<char>::empty(),
            p.locals.offset == 0,
    {
        Parser {
            token_list,
            i: 0,
            node_list: Vec::new(),
            lvar_list: Vec::new(),
            locals: LVar { name: String::new(), offset: 0 },
        }
    }

    /// The earlier binding of the token's name, where there is one.
    fn find_lvar(&self, token: &Token) -> (r: Option<&LVar>)
        ensures
            match r {
                Some(l) => find_var(self.vars(), token@.text) >= 0 && *l == self.lvar_list@[find_var(
                    self.vars(),
                    token@.text,
                )],
                None => find_var(self.vars(), token@.text) == -1,
            },
    {
        proof {
            lemma_find_var(self.vars(), token@.text);
        }
        let mut j: usize = 0;
        while j < self.lvar_list.len()
            invariant
                j <= self.lvar_list@.len(),
                forall|k: int| 0 <= k < j ==> self.vars()[k] != token@.text,
            decreases self.lvar_list@.len() - j,
        {
            if str_eq(self.lvar_list[j].name.as_str(), token.str.as_str()) {
                proof {
                    assert(self.vars()[j as int] == token@.text);
                    lemma_find_var_at(self.vars(), token@.text, j as int);
                }
                return Some(&self.lvar_list[j]);
            }
            proof {
                assert(self.vars()[j as int] == self.lvar_list@[j as int].name@);
            }
            j = j + 1;
        }
        None
    }

    /// primary := "(" expr ")" | identifier | number.
    fn primary(&mut self) -> (r: Result<Node, ParseError>)
        requires
            old(self).wf(),
        ensures
            parse_post(
                *old(self),
                *final(self),
                r,
                spec_primary(old(self).toks(), old(self).st()),
                false,
            ),
        decreases old(self).token_list@.len() - old(self).i, 0int,
    {
        let ghost ts = self.toks();
        let ghost st0 = self.st();
        proof {
            assert(ts[st0.i] == self.token_list@[self.i as int]@);
        }
        if consume(&self.token_list[self.i], "(") {
            proof {
                lemma_advance(ts, st0.i);
            }
            self.i = self.i + 1;
            let n = match self.expr() {
                Ok(n) => n,
                Err(e) => {
                    return Err(e);
                },
            };
            proof {
                assert(ts[self.i as int] == self.token_list@[self.i as int]@);
            }
            if consume(&self.token_list[self.i], ")") {
                proof {
                    lemma_advance(ts, self.i as int);
                }
                self.i = self.i + 1;
                return Ok(n);
            } else {
                return Err(ParseError::MissingCloseParen { at: self.i });
            }
        }
        if consume_ident(&self.token_list[self.i]) {
            proof {
                lemma_find_var(st0.vars, ts[st0.i].text);
                lemma_advance(ts, st0.i);
            }
            let offset_found: Option<i64> = match self.find_lvar(&self.token_list[self.i]) {
                Some(lvar) => Some(lvar.offset),
                None => None,
            };
            match offset_found {
                Some(offset) => {
                    self.i = self.i + 1;
                    return Ok(new_node_lvar(offset));
                },
                None => {
                    let ghost lv0 = self.lvar_list@;
                    let name = self.token_list[self.i].str.clone();
                    let off = self.locals.offset + 4;
                    self.locals = LVar { name: name.clone(), offset: off };
                    self.lvar_list.push(LVar { name, offset: off });
                    self.i = self.i + 1;
                    proof {
                        assert(self.vars() =~= st0.vars.push(ts[st0.i].text));
                        let lv1 = self.lvar_list@;
                        assert forall|j: int, k: int|
                            #![trigger lv1[j], lv1[k]]
                            0 <= j < k < lv1.len() implies lv1[j].name@ != lv1[k].name@ by {
                            if k < lv1.len() - 1 {
                                assert(lv1[j] == lv0[j]);
                                assert(lv1[k] == lv0[k]);
                                assert(lv0[j].name@ != lv0[k].name@);
                            } else {
                                assert(lv1[j] == lv0[j]);
                                assert(st0.vars[j] == lv0[j].name@);
                                assert(st0.vars[j] != ts[st0.i].text);
                                assert(lv1[k].name@ == ts[st0.i].text);
                            }
                        }
                    }
                    return Ok(new_node_lvar(off));
                },
            }
        }
        let is_num = self.token_list[self.i].kind == TokenKind::Num;
        if is_num {
            proof {
                lemma_advance(ts, st0.i);
            }
            let v = self.token_list[self.i].val;
            self.i = self.i + 1;
            return Ok(new_node_num(v));
        }
        Err(ParseError::ExpectedPrimary { at: self.i })
    }

    /// unary := ("+" | "-")? primary.
    fn unary(&mut self) -> (r: Result<Node, ParseError>)
        requires
            old(self).wf(),
        ensures
            parse_post(
                *old(self),
                *final(self),
                r,
                spec_unary(old(self).toks(), old(self).st()),
                false,
            ),
        decreases old(self).token_list@.len() - old(self).i, 1int,
    {
        let ghost ts = self.toks();
        let ghost st0 = self.st();
        proof {
            assert(ts[st0.i] == self.token_list@[self.i as int]@);
        }
        if consume(&self.token_list[self.i], "+") {
            proof {
                lemma_advance(ts, st0.i);
            }
            self.i = self.i + 1;
            return self.primary();
        }
        if consume(&self.token_list[self.i], "-") {
            proof {
                lemma_advance(ts, st0.i);
            }
            self.i = self.i + 1;
            let n = match self.primary() {
                Ok(n) => n,
                Err(e) => {
                    return Err(e);
                },
            };
            proof {
                assert(is_expr_node(spec_num_node(0)));
            }
            return Ok(new_node(NodeKind::Sub, new_node_num(0), n));
        }
        self.primary()
    }

    /// mul := unary (("*" | "/") mul): the recursion on the right makes `*`
    /// and `/` group to the right.
    fn mul(&mut self) -> (r: Result<Node, ParseError>)
        requires
            old(self).wf(),
        ensures
            parse_post(
                *old(self),
                *final(self),
                r,
                spec_mul(old(self).toks(), old(self).st()),
                false,
            ),
        decreases old(self).token_list@.len() - old(self).i, 2int,
    {
        let ghost ts = self.toks();
        let ghost st0 = self.st();
        let n = match self.unary() {
            Ok(n) => n,
            Err(e) => {
                return Err(e);
            },
        };
        proof {
            assert(ts[self.i as int] == self.token_list@[self.i as int]@);
        }
        if consume(&self.token_list[self.i], "*") {
            proof {
                lemma_advance(ts, self.i as int);
            }
            self.i = self.i + 1;
            let m = match self.mul() {
                Ok(m) => m,
                Err(e) => {
                    return Err(e);
                },
            };
            return Ok(new_node(NodeKind::Mul, n, m));
        }
        if consume(&self.token_list[self.i], "/") {
            proof {
                lemma_advance(ts, self.i as int);
            }
            self.i = self.i + 1;
            let m = match self.mul() {
                Ok(m) => m,
                Err(e) => {
                    return Err(e);
                },
            };
            return Ok(new_node(NodeKind::Div, n, m));
        }
        Ok(n)
    }

    /// The iterated tail of the additive level: fold further `+`/`-`
    /// operands onto `node`, so they group to the left.
    fn add_rest(&mut self, node: Node) -> (r: Result<Node, ParseError>)
        requires
            old(self).wf(),
            is_expr_node(node),
        ensures
            rest_post(
                *old(self),
                *final(self),
                r,
                spec_add_rest(old(self).toks(), node, old(self).st()),
            ),
        decreases old(self).token_list@.len() - old(self).i, 3int,
    {
        let ghost ts = self.toks();
        let ghost st0 = self.st();
        proof {
            assert(ts[st0.i] == self.token_list@[self.i as int]@);
        }
        if consume(&self.token_list[self.i], "+") {
            proof {
                lemma_advance(ts, st0.i);
            }
            self.i = self.i + 1;
            let m = match self.mul() {
                Ok(m) => m,
                Err(e) => {
                    return Err(e);
                },
            };
            return self.add_rest(new_node(NodeKind::Add, node, m));
        }
        if consume(&self.token_list[self.i], "-") {
            proof {
                lemma_advance(ts, st0.i);
            }
            self.i = self.i + 1;
            let m = match self.mul() {
                Ok(m) => m,
                Err(e) => {
                    return Err(e);
                },
            };
            return self.add_rest(new_node(NodeKind::Sub, node, m));
        }
        Ok(node)
    }

    /// add := mul (("+" | "-") mul)*: the iterated tail makes `+` and `-`
    /// group to the left.
    fn add(&mut self) -> (r: Result<Node, ParseError>)
        requires
            old(self).wf(),
        ensures
            parse_post(
                *old(self),
                *final(self),
                r,
                spec_add(old(self).toks(), old(self).st()),
                false,
            ),
        decreases old(self).token_list@.len() - old(self).i, 4int,
    {
        let node = match self.mul() {
            Ok(n) => n,
            Err(e) => {
                return Err(e);
            },
        };
        self.add_rest(node)
    }

    /// The iterated tail of the relational level. `>` and `>=` swap their
    /// operands into `Lt`/`Le` nodes.
    fn relational_rest(&mut self, node: Node) -> (r: Result<Node, ParseError>)
        requires
            old(self).wf(),
            is_expr_node(node),
        ensures
            rest_post(
                *old(self),
                *final(self),
                r,
                spec_rel_rest(old(self).toks(), node, old(self).st()),
            ),
        decreases old(self).token_list@.len() - old(self).i, 5int,
    {
        let ghost ts = self.toks();
        let ghost st0 = self.st();
        proof {
            assert(ts[st0.i] == self.token_list@[self.i as int]@);
        }
        if consume(&self.token_list[self.i], "<") {
            proof {
                lemma_advance(ts, st0.i);
            }
            self.i = self.i + 1;
            let m = match self.add() {
                Ok(m) => m,
                Err(e) => {
                    return Err(e);
                },
            };
            return self.relational_rest(new_node(NodeKind::Lt, node, m));
        }
        if consume(&self.token_list[self.i], "<=") {
            proof {
                lemma_advance(ts, st0.i);
            }
            self.i = self.i + 1;
            let m = match self.add() {
                Ok(m) => m,
                Err(e) => {
                    return Err(e);
                },
            };
            return self.relational_rest(new_node(NodeKind::Le, node, m));
        }
        if consume(&self.token_list[self.i], ">") {
            proof {
                lemma_advance(ts, st0.i);
            }
            self.i = self.i + 1;
            let m = match self.add() {
                Ok(m) => m,
                Err(e) => {
                    return Err(e);
                },
            };
            return self.relational_rest(new_node(NodeKind::Lt, m, node));
        }
        if consume(&self.token_list[self.i], ">=") {
            proof {
                lemma_advance(ts, st0.i);
            }
            self.i = self.i + 1;
            let m = match self.add() {
                Ok(m) => m,
                Err(e) => {
                    return Err(e);
                },
            };
            return self.relational_rest(new_node(NodeKind::Le, m, node));
        }
        Ok(node)
    }

    /// relational := add (("<" | "<=" | ">" | ">=") add)*.
    fn relational(&mut self) -> (r: Result<Node, ParseError>)
        requires
            old(self).wf(),
        ensures
            parse_post(
                *old(self),
                *final(self),
                r,
                spec_relational(old(self).toks(), old(self).st()),
                false,
            ),
        decreases old(self).token_list@.len() - old(self).i, 6int,
    {
        let node = match self.add() {
            Ok(n) => n,
            Err(e) => {
                return Err(e);
            },
        };
        self.relational_rest(node)
    }

    /// The iterated tail of the equality level.
    fn equality_rest(&mut self, node: Node) -> (r: Result<Node, ParseError>)
        requires
            old(self).wf(),
            is_expr_node(node),
        ensures
            rest_post(
                *old(self),
                *final(self),
                r,
                spec_eq_rest(old(self).toks(), node, old(self).st()),
            ),
        decreases old(self).token_list@.len() - old(self).i, 7int,
    {
        let ghost ts = self.toks();
        let ghost st0 = self.st();
        proof {
            assert(ts[st0.i] == self.token_list@[self.i as int]@);
        }
        if consume(&self.token_list[self.i], "==") {
            proof {
                lemma_advance(ts, st0.i);
            }
            self.i = self.i + 1;
            let m = match self.relational() {
                Ok(m) => m,
                Err(e) => {
                    return Err(e);
                },
            };
            return self.equality_rest(new_node(NodeKind::Eq, node, m));
        }
        if consume(&self.token_list[self.i], "!=") {
            proof {
                lemma_advance(ts, st0.i);
            }
            self.i = self.i + 1;
            let m = match self.relational() {
                Ok(m) => m,
                Err(e) => {
                    return Err(e);
                },
            };
            return self.equality_rest(new_node(NodeKind::Ne, node, m));
        }
        Ok(node)
    }

    /// equality := relational (("==" | "!=") relational)*.
    fn equality(&mut self) -> (r: Result<Node, ParseError>)
        requires
            old(self).wf(),
        ensures
            parse_post(
                *old(self),
                *final(self),
                r,
                spec_equality(old(self).toks(), old(self).st()),
                false,
            ),
        decreases old(self).token_list@.len() - old(self).i, 8int,
    {
        let node = match self.relational() {
            Ok(n) => n,
            Err(e) => {
                return Err(e);
            },
        };
        self.equality_rest(node)
    }

    /// assign := equality ("=" assign)?: the recursion on the right makes
    /// `=` group to the right.
    fn assign(&mut self) -> (r: Result<Node, ParseError>)
        requires
            old(self).wf(),
        ensures
            parse_post(
                *old(self),
                *final(self),
                r,
                spec_assign(old(self).toks(), old(self).st()),
                false,
            ),
        decreases old(self).token_list@.len() - old(self).i, 9int,
    {
        let ghost ts = self.toks();
        let ghost st0 = self.st();
        let node = match self.equality() {
            Ok(n) => n,
            Err(e) => {
                return Err(e);
            },
        };
        proof {
            assert(ts[self.i as int] == self.token_list@[self.i as int]@);
        }
        if consume(&self.token_list[self.i], "=") {
            proof {
                lemma_advance(ts, self.i as int);
            }
            self.i = self.i + 1;
            let m = match self.assign() {
                Ok(m) => m,
                Err(e) => {
                    return Err(e);
                },
            };
            return Ok(new_node(NodeKind::Assign, node, m));
        }
        Ok(node)
    }

    /// expr := assign.
    fn expr(&mut self) -> (r: Result<Node, ParseError>)
        requires
            old(self).wf(),
        ensures
            parse_post(
                *old(self),
                *final(self),
                r,
                spec_expr(old(self).toks(), old(self).st()),
                false,
            ),
        decreases old(self).token_list@.len() - old(self).i, 10int,
    {
        self.assign()
    }

    /// statement := "return" expr ";" | expr ";".
    fn stmt(&mut self) -> (r: Result<Node, ParseError>)
        requires
            old(self).wf(),
        ensures
            parse_post(
                *old(self),
                *final(self),
                r,
                spec_stmt(old(self).toks(), old(self).st()),
                true,
            ),
        decreases old(self).token_list@.len() - old(self).i, 11int,
    {
        let ghost ts = self.toks();
        let ghost st0 = self.st();
        proof {
            assert(ts[st0.i] == self.token_list@[self.i as int]@);
        }
        if consume_return(&self.token_list[self.i]) {
            proof {
                lemma_advance(ts, st0.i);
            }
            self.i = self.i + 1;
            let n = match self.expr() {
                Ok(n) => n,
                Err(e) => {
                    return Err(e);
                },
            };
            proof {
                assert(ts[self.i as int] == self.token_list@[self.i as int]@);
            }
            if consume(&self.token_list[self.i], ";") {
                proof {
                    lemma_advance(ts, self.i as int);
                }
                self.i = self.i + 1;
                return Ok(
                    Node {
                        kind: NodeKind::Return,
                        lhs: Some(Box::new(n)),
                        rhs: None,
                        cond: None,
                        val: 0,
                        offset: 0,
                    },
                );
            } else {
                return Err(ParseError::MissingSemicolon { at: self.i });
            }
        }
        let n = match self.expr() {
            Ok(n) => n,
            Err(e) => {
                return Err(e);
            },
        };
        proof {
            assert(ts[self.i as int] == self.token_list@[self.i as int]@);
        }
        if consume(&self.token_list[self.i], ";") {
            proof {
                lemma_advance(ts, self.i as int);
            }
            self.i = self.i + 1;
            Ok(n)
        } else {
            Err(ParseError::MissingSemicolon { at: self.i })
        }
    }

    /// The iterated tail of program := statement*: gather statements onto
    /// `nodes` until the end-of-input token.
    fn program_rest(&mut self, nodes: Vec<Node>) -> (r: Result<Vec<Node>, ParseError>)
        requires
            old(self).wf(),
            forall|k: int| 0 <= k < nodes@.len() ==> is_stmt_node(#[trigger] nodes@[k]),
        ensures
            final(self).token_list@ == old(self).token_list@,
            final(self).node_list@ == old(self).node_list@,
            match r {
                Ok(out) => {
                    &&& spec_program_rest(old(self).toks(), nodes@, old(self).st()) == Ok::<
                        (Seq<Node>, PState),
                        ParseError,
                    >((out@, final(self).st()))
                    &&& final(self).wf()
                    &&& forall|k: int| 0 <= k < out@.len() ==> is_stmt_node(#[trigger] out@[k])
                },
                Err(e) => spec_program_rest(old(self).toks(), nodes@, old(self).st()) == Err::<
                    (Seq<Node>, PState),
                    ParseError,
                >(e),
            },
        decreases old(self).token_list@.len() - old(self).i, 12int,
    {
        let ghost ts = self.toks();
        let ghost st0 = self.st();
        proof {
            assert(ts[st0.i] == self.token_list@[self.i as int]@);
        }
        if at_eof(&self.token_list[self.i]) {
            return Ok(nodes);
        }
        let n = match self.stmt() {
            Ok(n) => n,
            Err(e) => {
                return Err(e);
            },
        };
        let mut nodes2 = nodes;
        nodes2.push(n);
        self.program_rest(nodes2)
    }

    /// program := statement*: parse statements until the end-of-input token
    /// and hand back the statement list in source order. On success the
    /// local-variable table holds each distinct identifier once, in
    /// first-seen order, the entry at index `k` at offset `4 * (k + 1)`.
    pub fn program(&mut self) -> (r: Result<Vec<Node>, ParseError>)
        requires
            old(self).wf(),
            old(self).i == 0,
            old(self).lvar_list@.len() == 0,
        ensures
            final(self).token_list@ == old(self).token_list@,
            final(self).node_list@ == old(self).node_list@,
            match r {
                Ok(nodes) => {
                    &&& spec_program(old(self).toks()) == Ok::<(Seq<Node>, PState), ParseError>(
                        (nodes@, final(self).st()),
                    )
                    &&& final(self).wf()
                    &&& forall|k: int| 0 <= k < nodes@.len() ==> is_stmt_node(#[trigger] nodes@[k])
                },
                Err(e) => spec_program(old(self).toks()) == Err::<(Seq<Node>, PState), ParseError>(
                    e,
                ),
            },
    {
        proof {
            assert(self.vars() =~= Seq::<Seq<char>>::empty());
        }
        let nodes: Vec<Node> = Vec::new();
        self.program_rest(nodes)
    }
}

/// Like `parse_post`, for the iterated tails of the left-associative
/// levels: the cursor may also stand still (no further operator).
pub open spec fn rest_post(
    pre: Parser,
    post: Parser,
    r: Result<Node, ParseError>,
    spec_r: PResult,
) -> bool {
    &&& post.token_list@ == pre.token_list@
    &&& post.node_list@ == pre.node_list@
    &&& match r {
        Ok(n) => {
            &&& spec_r == Ok::<(Node, PState), ParseError>((n, post.st()))
            &&& post.wf()
            &&& pre.i <= post.i
            &&& is_expr_node(n)
        },
        Err(e) => spec_r == Err::<(Node, PState), ParseError>(e),
    }
}

/// What each parsing method promises: the token list and the gathered
/// statement list stay as they were; on success the result and the new
/// position are exactly what the spec grammar gives, the cursor moved
/// forward, the parser is still well formed, and the node is a well-formed
/// expression (or statement, at statement level); on failure the error is
/// exactly what the spec grammar gives.
pub open spec fn parse_post(
    pre: Parser,
    post: Parser,
    r: Result<Node, ParseError>,
    spec_r: PResult,
    stmt_level: bool,
) -> bool {
    &&& post.token_list@ == pre.token_list@
    &&& post.node_list@ == pre.node_list@
    &&& match r {
        Ok(n) => {
            &&& spec_r == Ok::<(Node, PState), ParseError>((n, post.st()))
            &&& post.wf()
            &&& pre.i < post.i
            &&& if stmt_level {
                is_stmt_node(n)
            } else {
                is_expr_node(n)
            }
        },
        Err(e) => spec_r == Err::<(Node, PState), ParseError>(e),
    }
}

} // verus!
