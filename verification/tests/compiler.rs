use std::collections::HashMap;

use minicc::codegen::{CodeGenerator, GenError, Instr, JTarget, LabelId, Reg};
use minicc::compile;
use minicc::parse::{Node, NodeKind, ParseError, Parser};
use minicc::render::render_instr;
use minicc::strtol::strtol;
use minicc::token::{tokenize, LexError, Token, TokenKind};
use minicc::CompileError;

fn toks(src: &str) -> Vec<Token> {
    tokenize(src.to_string()).expect("lexing failed")
}

fn parse_with(src: &str) -> (Vec<Node>, Parser) {
    let mut parser = Parser::new(toks(src));
    let nodes = parser.program().expect("parsing failed");
    (nodes, parser)
}

fn num(val: i64) -> Node {
    Node { kind: NodeKind::Num, lhs: None, rhs: None, cond: None, val, offset: 0 }
}

fn lvar(offset: i64) -> Node {
    Node { kind: NodeKind::Lvar, lhs: None, rhs: None, cond: None, val: 0, offset }
}

fn bin(kind: NodeKind, lhs: Node, rhs: Node) -> Node {
    Node { kind, lhs: Some(Box::new(lhs)), rhs: Some(Box::new(rhs)), cond: None, val: 0, offset: 0 }
}

// ----- a small interpreter for the target, used to check evaluation -----

struct Machine {
    sp: i64,
    fp: i64,
    ra: i64,
    a0: i64,
    a1: i64,
    t0: i64,
    t1: i64,
    flag: i64,
    mem: HashMap<i64, i64>,
    halted: bool,
}

impl Machine {
    fn get(&self, r: Reg) -> i64 {
        match r {
            Reg::Sp => self.sp,
            Reg::Fp => self.fp,
            Reg::Ra => self.ra,
            Reg::A0 => self.a0,
            Reg::A1 => self.a1,
            Reg::T0 => self.t0,
            Reg::T1 => self.t1,
            Reg::Zero => 0,
            Reg::R0 => 0,
            Reg::Flag => self.flag,
        }
    }

    fn set(&mut self, r: Reg, v: i64) {
        match r {
            Reg::Sp => self.sp = v,
            Reg::Fp => self.fp = v,
            Reg::Ra => self.ra = v,
            Reg::A0 => self.a0 = v,
            Reg::A1 => self.a1 = v,
            Reg::T0 => self.t0 = v,
            Reg::T1 => self.t1 = v,
            Reg::Zero => {}
            Reg::R0 => {}
            Reg::Flag => self.flag = v,
        }
    }
}

fn instr_size(i: &Instr) -> i64 {
    match i {
        Instr::Label(_) => 0,
        Instr::Add(_, _) | Instr::Sub(_, _) | Instr::Mov(_, _) | Instr::Slt(_, _) => 2,
        _ => 4,
    }
}

/// Execute the lowered statements as the driver would, and report the value
/// of the last expression statement (or the returned value in `a0`).
fn run(code: &[Instr], frame: i64) -> i64 {
    let mut m = Machine {
        sp: 100_000,
        fp: 0,
        ra: 0,
        a0: 0,
        a1: 0,
        t0: 0,
        t1: 0,
        flag: 0,
        mem: HashMap::new(),
        halted: false,
    };
    // the fixed prologue the driver prints
    m.sp -= 8;
    m.mem.insert(m.sp + 4, m.ra);
    m.mem.insert(m.sp, m.fp);
    m.fp = m.sp;
    m.sp -= frame;

    // byte position of each instruction, for relative branches
    let mut pos = Vec::with_capacity(code.len() + 1);
    let mut at: i64 = 0;
    for i in code {
        pos.push(at);
        at += instr_size(i);
    }
    pos.push(at);
    let index_of_byte = |b: i64| -> usize {
        for (k, p) in pos.iter().enumerate() {
            if *p == b {
                return k;
            }
        }
        panic!("branch target {} is not an instruction boundary", b);
    };
    let index_of_label = |l: &LabelId| -> usize {
        for (k, i) in code.iter().enumerate() {
            if let Instr::Label(h) = i {
                if h == l {
                    return k;
                }
            }
        }
        panic!("undefined label");
    };

    let mut pc: usize = 0;
    let mut steps: u64 = 0;
    while pc < code.len() && !m.halted {
        steps += 1;
        assert!(steps < 1_000_000, "the program does not terminate");
        let mut next = pc + 1;
        match &code[pc] {
            Instr::Label(_) => {}
            Instr::Addi(rd, rs, imm) => {
                let v = m.get(*rs) + imm;
                m.set(*rd, v);
            }
            Instr::Add(a, b) => {
                let v = m.get(*a) + m.get(*b);
                m.set(*a, v);
            }
            Instr::Sub(a, b) => {
                let v = m.get(*a) - m.get(*b);
                m.set(*a, v);
            }
            Instr::Mov(a, b) => {
                let v = m.get(*b);
                m.set(*a, v);
            }
            Instr::Slt(a, b) => {
                m.flag = if m.get(*a) < m.get(*b) { 1 } else { 0 };
            }
            Instr::Lw(rd, rs, off) => {
                let v = *m.mem.get(&(m.get(*rs) + off)).unwrap_or(&0);
                m.set(*rd, v);
            }
            Instr::Sw(rs1, rs2, off) => {
                let addr = m.get(*rs2) + off;
                let v = m.get(*rs1);
                m.mem.insert(addr, v);
            }
            Instr::Beq(a, b, off) => {
                if m.get(*a) == m.get(*b) {
                    next = index_of_byte(pos[pc + 1] + off);
                }
            }
            Instr::Bnq(a, b, off) => {
                if m.get(*a) != m.get(*b) {
                    next = index_of_byte(pos[pc + 1] + off);
                }
            }
            Instr::Blt(a, b, off) => {
                if m.get(*a) < m.get(*b) {
                    next = index_of_byte(pos[pc + 1] + off);
                }
            }
            Instr::Jal(_, t) => match t {
                JTarget::Rel(off) => {
                    next = index_of_byte(pos[pc + 1] + off);
                }
                JTarget::Lab(l) => {
                    next = index_of_label(l);
                }
            },
            Instr::Jalr(_, _, _) => {
                m.halted = true;
            }
        }
        pc = next;
    }
    if m.halted {
        m.a0
    } else {
        // the per-statement reset popped the last value; it still sits just
        // under the stack pointer
        *m.mem.get(&(m.sp - 4)).unwrap_or(&0)
    }
}

fn lower(src: &str) -> (i64, Vec<Instr>) {
    let (nodes, parser) = parse_with(src);
    let frame = parser.locals.offset;
    let mut g = CodeGenerator::new();
    let mut out = Vec::new();
    for n in &nodes {
        g.gen(n, &mut out).expect("generation failed");
        out.push(Instr::Addi(Reg::Sp, Reg::Sp, 4));
    }
    (frame, out)
}

fn eval(src: &str) -> i64 {
    let (frame, code) = lower(src);
    run(&code, frame)
}

// ----- lexer -----

#[test]
fn lexes_single_and_double_operators() {
    let v = toks("a <= 1 == 2 != 3 >= b < c > d;");
    let texts: Vec<&str> = v.iter().map(|t| t.str.as_str()).collect();
    assert_eq!(
        texts,
        vec!["a", "<=", "1", "==", "2", "!=", "3", ">=", "b", "<", "c", ">", "d", ";", ""]
    );
    assert_eq!(v.last().unwrap().kind, TokenKind::Eof);
}

#[test]
fn lexes_numbers_with_values() {
    let v = toks("12+345;");
    assert_eq!(v[0].kind, TokenKind::Num);
    assert_eq!(v[0].val, 12);
    // a number token keeps only its first character as text
    assert_eq!(v[0].str, "1");
    assert_eq!(v[2].val, 345);
}

#[test]
fn lexes_return_keyword_by_full_match() {
    let v = toks("return returnx;");
    assert_eq!(v[0].kind, TokenKind::Return);
    assert_eq!(v[1].kind, TokenKind::Ident);
    assert_eq!(v[1].str, "returnx");
}

#[test]
fn lex_error_on_unknown_character() {
    assert_eq!(
        tokenize("1 @ 2;".to_string()),
        Err(LexError::UnknownChar { pos: 2, ch: '@' })
    );
}

#[test]
fn lex_error_on_lone_bang() {
    assert_eq!(
        tokenize("!x".to_string()),
        Err(LexError::UnknownChar { pos: 1, ch: 'x' })
    );
    assert_eq!(tokenize("1!".to_string()), Err(LexError::UnexpectedEnd { pos: 2 }));
}

#[test]
fn lex_lone_equal_stands_alone() {
    let v = toks("a=1;");
    assert_eq!(v[1].kind, TokenKind::Reserved);
    assert_eq!(v[1].str, "=");
}

#[test]
fn lex_lone_angle_stands_alone() {
    let v = toks("1<");
    assert_eq!(v[1].kind, TokenKind::Reserved);
    assert_eq!(v[1].str, "<");
}

#[test]
fn lex_error_on_oversized_number() {
    assert_eq!(
        tokenize("99999999999999999999;".to_string()),
        Err(LexError::NumberTooLarge { pos: 0 })
    );
    // the largest value that fits is accepted
    let v = toks("9223372036854775807;");
    assert_eq!(v[0].val, i64::MAX);
}

// ----- strtol -----

#[test]
fn strtol_splits_leading_digits() {
    assert_eq!(strtol("123abc".to_string()), ("abc".to_string(), Some(123)));
}

#[test]
fn strtol_without_digits_returns_input() {
    assert_eq!(strtol("abc".to_string()), ("abc".to_string(), None));
    assert_eq!(strtol("".to_string()), ("".to_string(), None));
}

#[test]
fn strtol_rejects_oversized_run() {
    let s = "99999999999999999999".to_string();
    assert_eq!(strtol(s.clone()), (s, None));
}

// ----- parser -----

#[test]
fn precedence_multiplication_binds_tighter() {
    let (nodes, _) = parse_with("1+2*3;");
    assert_eq!(nodes.len(), 1);
    assert_eq!(nodes[0], bin(NodeKind::Add, num(1), bin(NodeKind::Mul, num(2), num(3))));
    assert_eq!(eval("1+2*3;"), 7);
}

#[test]
fn additive_operators_group_left() {
    let (nodes, _) = parse_with("1-2-3;");
    assert_eq!(nodes[0], bin(NodeKind::Sub, bin(NodeKind::Sub, num(1), num(2)), num(3)));
    assert_eq!(eval("1-2-3;"), -4);
}

#[test]
fn assignment_groups_right() {
    let (nodes, _) = parse_with("a=b=2;");
    assert_eq!(nodes[0], bin(NodeKind::Assign, lvar(4), bin(NodeKind::Assign, lvar(8), num(2))));
}

#[test]
fn variable_offsets_are_stable_and_distinct() {
    let (nodes, parser) = parse_with("a=1; b=2; a+b;");
    assert_eq!(parser.lvar_list.len(), 2);
    assert_eq!(parser.lvar_list[0].name, "a");
    assert_eq!(parser.lvar_list[0].offset, 4);
    assert_eq!(parser.lvar_list[1].name, "b");
    assert_eq!(parser.lvar_list[1].offset, 8);
    assert_eq!(parser.locals.offset, 8);
    // every occurrence of `a` resolves to offset 4
    assert_eq!(nodes[0], bin(NodeKind::Assign, lvar(4), num(1)));
    assert_eq!(nodes[1], bin(NodeKind::Assign, lvar(8), num(2)));
    assert_eq!(nodes[2], bin(NodeKind::Add, lvar(4), lvar(8)));
}

#[test]
fn greater_than_swaps_into_less_than() {
    let (a, _) = parse_with("1>2;");
    let (b, _) = parse_with("2<1;");
    assert_eq!(a, b);
    assert_eq!(a[0], bin(NodeKind::Lt, num(2), num(1)));
    assert_eq!(eval("1>2;"), 0);
    assert_eq!(eval("2<1;"), 0);
}

#[test]
fn unary_minus_becomes_zero_minus() {
    let (nodes, _) = parse_with("-5;");
    assert_eq!(nodes[0], bin(NodeKind::Sub, num(0), num(5)));
    let (plus, _) = parse_with("+5;");
    assert_eq!(plus[0], num(5));
}

#[test]
fn multiplicative_operators_group_right() {
    let (nodes, _) = parse_with("2*3*4;");
    assert_eq!(nodes[0], bin(NodeKind::Mul, num(2), bin(NodeKind::Mul, num(3), num(4))));
    assert_eq!(eval("2*3*4;"), 24);
}

#[test]
fn return_statement_wraps_expression() {
    let (nodes, _) = parse_with("return 1+2;");
    assert_eq!(nodes[0].kind, NodeKind::Return);
    assert_eq!(*nodes[0].lhs.as_ref().unwrap().as_ref(), bin(NodeKind::Add, num(1), num(2)));
}

#[test]
fn parse_error_on_missing_operand() {
    let mut parser = Parser::new(toks("1+;"));
    assert_eq!(parser.program(), Err(ParseError::ExpectedPrimary { at: 2 }));
}

#[test]
fn parse_error_on_missing_close_paren() {
    let mut parser = Parser::new(toks("(1+2;"));
    assert_eq!(parser.program(), Err(ParseError::MissingCloseParen { at: 4 }));
}

#[test]
fn parse_error_on_missing_semicolon() {
    let mut parser = Parser::new(toks("1+2"));
    assert_eq!(parser.program(), Err(ParseError::MissingSemicolon { at: 3 }));
}

// ----- code generation -----

#[test]
fn number_pushes_one_value() {
    let mut g = CodeGenerator::new();
    let mut out = Vec::new();
    g.gen(&num(42), &mut out).unwrap();
    assert_eq!(
        out,
        vec![
            Instr::Addi(Reg::Sp, Reg::Sp, -4),
            Instr::Addi(Reg::T0, Reg::R0, 42),
            Instr::Sw(Reg::T0, Reg::Sp, 0),
        ]
    );
}

#[test]
fn expression_stack_effect_is_one_push() {
    // stack balance, on a concrete expression: the net stack-pointer
    // movement of an expression's code is one 4-byte push
    let (nodes, _) = parse_with("(1+2)*3-4/2;");
    let mut g = CodeGenerator::new();
    let mut out = Vec::new();
    g.gen(&nodes[0], &mut out).unwrap();
    let mut delta: i64 = 0;
    for i in &out {
        if let Instr::Addi(Reg::Sp, Reg::Sp, k) = i {
            delta += k;
        }
    }
    assert_eq!(delta, -4);
}

#[test]
fn assignment_to_number_is_rejected() {
    let (nodes, _) = parse_with("1=2;");
    let mut g = CodeGenerator::new();
    let mut out = Vec::new();
    assert_eq!(g.gen(&nodes[0], &mut out), Err(GenError::NotAnLvalue));
    assert_eq!(compile("1=2;".to_string()), Err(CompileError::Gen(GenError::NotAnLvalue)));
}

#[test]
fn synthesized_multiply_and_divide_evaluate() {
    assert_eq!(eval("3*4;"), 12);
    assert_eq!(eval("13/4;"), 3);
    assert_eq!(eval("12/4;"), 3);
    assert_eq!(eval("0*7;"), 0);
}

#[test]
fn comparisons_evaluate_to_zero_or_one() {
    assert_eq!(eval("1==1;"), 1);
    assert_eq!(eval("1==2;"), 0);
    assert_eq!(eval("1!=2;"), 1);
    assert_eq!(eval("1!=1;"), 0);
    assert_eq!(eval("1<2;"), 1);
    assert_eq!(eval("2<=2;"), 1);
    assert_eq!(eval("3<=2;"), 0);
    assert_eq!(eval("3>=2;"), 1);
}

#[test]
fn variables_store_and_load() {
    assert_eq!(eval("a=1; b=2; a+b;"), 3);
    assert_eq!(eval("a=b=2; a*b;"), 4);
    assert_eq!(eval("a=5; a=a+1; a;"), 6);
}

#[test]
fn return_yields_value_in_a0() {
    assert_eq!(eval("return 42;"), 42);
    assert_eq!(eval("a=6; return a*7;"), 42);
}

#[test]
fn if_node_gets_fresh_labels() {
    // the grammar has no conditional statement, but the generator lowers a
    // hand-built conditional with a fresh label pair per node
    let cond_node = Node {
        kind: NodeKind::If,
        lhs: Some(Box::new(num(1))),
        rhs: None,
        cond: Some(Box::new(num(1))),
        val: 0,
        offset: 0,
    };
    let outer = Node {
        kind: NodeKind::If,
        lhs: Some(Box::new(cond_node)),
        rhs: None,
        cond: Some(Box::new(num(1))),
        val: 0,
        offset: 0,
    };
    let mut g = CodeGenerator::new();
    let mut out = Vec::new();
    g.gen(&outer, &mut out).unwrap();
    assert_eq!(g.count, 2);
    let mut labels: Vec<LabelId> = Vec::new();
    for i in &out {
        if let Instr::Label(l) = i {
            labels.push(*l);
        }
    }
    labels.sort();
    labels.dedup();
    // two conditionals, four distinct labels
    assert_eq!(labels.len(), 4);
}

// ----- rendering -----

#[test]
fn renders_exact_instruction_text() {
    assert_eq!(render_instr(&Instr::Addi(Reg::Sp, Reg::Sp, -4)), "  addi sp, sp, -4");
    assert_eq!(render_instr(&Instr::Addi(Reg::T0, Reg::R0, 42)), "  addi t0, r0, 42");
    assert_eq!(render_instr(&Instr::Sw(Reg::T0, Reg::Sp, 0)), "  sw t0, sp, 0");
    assert_eq!(render_instr(&Instr::Lw(Reg::A1, Reg::Sp, -8)), "  lw a1, sp, -8");
    assert_eq!(render_instr(&Instr::Add(Reg::A0, Reg::A1)), "  add a0, a1");
    assert_eq!(render_instr(&Instr::Mov(Reg::A0, Reg::Flag)), "  mov a0, flag");
    assert_eq!(render_instr(&Instr::Beq(Reg::A1, Reg::Zero, 6)), "  beq a1, zero, 6");
    assert_eq!(render_instr(&Instr::Jal(Reg::Zero, JTarget::Rel(-14))), "  jal zero, -14");
    assert_eq!(
        render_instr(&Instr::Jal(Reg::Zero, JTarget::Lab(LabelId::Else(3)))),
        "  jal zero, else3"
    );
    assert_eq!(render_instr(&Instr::Label(LabelId::End(0))), "end0:");
    assert_eq!(render_instr(&Instr::Jalr(Reg::Zero, Reg::Ra, 0)), "  jalr zero, ra, 0");
    assert_eq!(render_instr(&Instr::Slt(Reg::A1, Reg::A0)), "  slt a1, a0");
    assert_eq!(render_instr(&Instr::Bnq(Reg::Flag, Reg::Zero, 4)), "  bnq flag, zero, 4");
    assert_eq!(render_instr(&Instr::Blt(Reg::A0, Reg::A1, 10)), "  blt a0, a1, 10");
}

// ----- the whole pipeline -----

#[test]
fn compile_emits_expected_lines_for_a_number() {
    let (frame, lines) = compile("7;".to_string()).unwrap();
    assert_eq!(frame, 0);
    assert_eq!(
        lines,
        vec![
            "  addi sp, sp, -4".to_string(),
            "  addi t0, r0, 7".to_string(),
            "  sw t0, sp, 0".to_string(),
            "  addi sp, sp, 4".to_string(),
        ]
    );
}

#[test]
fn compile_reserves_frame_space_per_variable() {
    let (frame, _) = compile("a=1; b=2; c=3;".to_string()).unwrap();
    assert_eq!(frame, 12);
}

#[test]
fn compile_fails_without_output_on_bad_input() {
    assert_eq!(
        compile("1+;".to_string()),
        Err(CompileError::Parse(ParseError::ExpectedPrimary { at: 2 }))
    );
    assert_eq!(
        compile("(1+2;".to_string()),
        Err(CompileError::Parse(ParseError::MissingCloseParen { at: 4 }))
    );
    assert_eq!(
        compile("1 # 2;".to_string()),
        Err(CompileError::Lex(LexError::UnknownChar { pos: 2, ch: '#' }))
    );
}

#[test]
fn compile_twice_gives_identical_output() {
    let src = "a=1; b=2; if_result = a; return a+b*3;";
    let one = compile(src.to_string()).unwrap();
    let two = compile(src.to_string()).unwrap();
    assert_eq!(one, two);
    let flat_one = one.1.join("\n");
    let flat_two = two.1.join("\n");
    assert_eq!(flat_one, flat_two);
}

#[test]
fn compiled_return_program_matches_reference_lines() {
    let (frame, lines) = compile("return 2;".to_string()).unwrap();
    assert_eq!(frame, 0);
    assert_eq!(
        lines,
        vec![
            "  addi sp, sp, -4".to_string(),
            "  addi t0, r0, 2".to_string(),
            "  sw t0, sp, 0".to_string(),
            "  lw a0, sp, 0".to_string(),
            "  addi sp, sp, 4".to_string(),
            "  mov sp, fp".to_string(),
            "  lw fp, sp, 0".to_string(),
            "  lw ra, sp, 4".to_string(),
            "  addi sp, sp, 8".to_string(),
            "  jalr zero, ra, 0".to_string(),
            "  addi sp, sp, 4".to_string(),
        ]
    );
}

#[test]
fn parenthesized_grouping_overrides_precedence() {
    assert_eq!(eval("(1+2)*3;"), 9);
    assert_eq!(eval("1+2*3;"), 7);
}
