//! A single-pass compiler for a small expression-and-statement language:
//! integer arithmetic, comparisons, local-variable assignment and `return`,
//! translated into textual instructions for a small register-based,
//! stack-discipline assembly target.
//!
//! The pipeline is lexing (`token`), recursive-descent parsing (`parse`),
//! and tree-walking code generation (`codegen`); `render` turns the
//! generated instructions into their textual form, and `compile` runs the
//! whole pipeline on one source text.

pub mod codegen;
pub mod parse;
pub mod render;
pub mod strtol;
pub mod text;
pub mod token;

use vstd::prelude::*;
use crate::codegen::{
    lemma_stmt_node_wf,
    spec_lower,
    CodeGenerator,
    GenError,
    Instr,
    Lowered,
    Reg,
};
use crate::parse::{is_stmt_node, spec_program, Node, ParseError, Parser, MAX_TOKENS};
use crate::render::{render_instr, spec_render};
use crate::token::{spec_tokenize, tokenize, LexError};

verus! {

/// Any failure of the pipeline; a failed compilation emits nothing.
#[derive(Debug, PartialEq, Eq, Structural, Clone, Copy)]
pub enum CompileError {
    Lex(LexError),
    Parse(ParseError),
    Gen(GenError),
}

/// The statements from index `k` on, lowered one after another, each
/// followed by the per-statement stack reset that pops its value.
pub open spec fn spec_lower_program(nodes: Seq<Node>, k: int, c: int) -> Lowered
    decreases nodes.len() - k,
{
    if k < 0 || nodes.len() <= k {
        Lowered { code: Seq::empty(), count: c, ok: true }
    } else {
        let first = spec_lower(nodes[k], c);
        if !first.ok {
            Lowered { code: first.code, count: first.count, ok: false }
        } else {
            let rest = spec_lower_program(nodes, k + 1, first.count);
            Lowered {
                code: first.code + seq![Instr::Addi(Reg::Sp, Reg::Sp, 4i64)] + rest.code,
                count: rest.count,
                ok: rest.ok,
            }
        }
    }
}

/// Lower the statements from index `k` on onto `out`.
fn lower_program(
    g: &mut CodeGenerator,
    nodes: &Vec<Node>,
    k: usize,
    out: &mut Vec<Instr>,
) -> (r: Result<(), GenError>)
    requires
        k <= nodes@.len(),
        forall|j: int| 0 <= j < nodes@.len() ==> is_stmt_node(#[trigger] nodes@[j]),
        old(g).count >= 0,
    ensures
        ({
            let low = spec_lower_program(nodes@, k as int, old(g).count as int);
            &&& final(out)@ == old(out)@ + low.code
            &&& final(g).count == low.count
            &&& final(g).count >= 0
            &&& (r is Ok) == low.ok
        }),
    decreases nodes@.len() - k,
{
    let ghost c0 = g.count as int;
    if k == nodes.len() {
        proof {
            assert(out@ =~= old(out)@ + spec_lower_program(nodes@, k as int, c0).code);
        }
        return Ok(());
    }
    proof {
        lemma_stmt_node_wf(nodes@[k as int]);
    }
    match g.gen(&nodes[k], out) {
        Ok(()) => {},
        Err(e) => {
            proof {
                assert(out@ =~= old(out)@ + spec_lower_program(nodes@, k as int, c0).code);
            }
            return Err(e);
        },
    }
    out.push(Instr::Addi(Reg::Sp, Reg::Sp, 4));
    let r = lower_program(g, nodes, k + 1, out);
    proof {
        assert(out@ =~= old(out)@ + spec_lower_program(nodes@, k as int, c0).code);
    }
    r
}

/// What the pipeline gives for a source text: the frame size that its
/// variables need, and the rendered lines of the lowered statements; or the
/// first failure, with nothing emitted.
pub open spec fn spec_compile(src: Seq<char>) -> Result<(int, Seq<Seq<char>>), CompileError> {
    match spec_tokenize(src, 0) {
        Err(e) => Err(CompileError::Lex(e)),
        Ok(ts) => match spec_program(ts) {
            Err(e) => Err(CompileError::Parse(e)),
            Ok((nodes, st)) => {
                let low = spec_lower_program(nodes, 0, 0);
                if !low.ok {
                    Err(CompileError::Gen(GenError::NotAnLvalue))
                } else {
                    Ok(
                        (
                            4 * st.vars.len() as int,
                            low.code.map_values(|i: Instr| spec_render(i)),
                        ),
                    )
                }
            },
        },
    }
}

/// Round-trip determinism: the pipeline's output is a function of the
/// source text alone, so running it twice on the same text gives the same
/// lines. The label counter and the variable table start fresh inside
/// `compile`; no state leaks between compilations.
pub proof fn lemma_compile_deterministic(a: Seq<char>, b: Seq<char>)
    requires
        a == b,
    ensures
        spec_compile(a) == spec_compile(b),
{
}

/// Run the whole pipeline on one source text: scan, parse, lower, render.
/// On success: the stack-frame size its variables need, and the output
/// lines for the statements in source order, each statement followed by the
/// stack reset that pops its value. On any failure the first error comes
/// back and no output is usable.
pub fn compile(source: String) -> (r: Result<(i64, Vec<String>), CompileError>)
    requires
        source@.len() + 1 <= MAX_TOKENS,
    ensures
        ({
            let sc = spec_compile(source@);
            match r {
                Ok((frame, lines)) => sc == Ok::<(int, Seq<Seq<char>>), CompileError>(
                    (frame as int, lines@.map_values(|l: String| l@)),
                ),
                Err(e) => sc == Err::<(int, Seq<Seq<char>>), CompileError>(e),
            }
        }),
{
    let ghost src = source@;
    let toks = match tokenize(source) {
        Ok(t) => t,
        Err(e) => {
            return Err(CompileError::Lex(e));
        },
    };
    let mut parser = Parser::new(toks);
    proof {
        assert forall|j: int| 0 <= j < parser.toks().len() implies parser.toks()[j]
            == parser.token_list@[j]@ by {}
        assert(parser.toks().last() == parser.token_list@[parser.token_list@.len() - 1]@);
        assert(parser.wf());
    }
    let nodes = match parser.program() {
        Ok(n) => n,
        Err(e) => {
            return Err(CompileError::Parse(e));
        },
    };
    let frame = parser.locals.offset;
    let mut g = CodeGenerator::new();
    let mut code: Vec<Instr> = Vec::new();
    match lower_program(&mut g, &nodes, 0, &mut code) {
        Ok(()) => {},
        Err(_e) => {
            return Err(CompileError::Gen(GenError::NotAnLvalue));
        },
    }
    let mut lines: Vec<String> = Vec::new();
    let mut k: usize = 0;
    while k < code.len()
        invariant
            k <= code@.len(),
            lines@.len() == k,
            forall|j: int| 0 <= j < k ==> (#[trigger] lines@[j])@ == spec_render(code@[j]),
        decreases code@.len() - k,
    {
        let line = render_instr(&code[k]);
        lines.push(line);
        k = k + 1;
    }
    proof {
        let ts = spec_tokenize(src, 0)->Ok_0;
        let pr = spec_program(ts)->Ok_0;
        let low = spec_lower_program(pr.0, 0, 0);
        assert(code@ == low.code);
        assert(lines@.map_values(|l: String| l@) =~= low.code.map_values(
            |i: Instr| spec_render(i),
        ));
        assert(frame as int == 4 * pr.1.vars.len() as int);
    }
    Ok((frame, lines))
}

} // verus!
