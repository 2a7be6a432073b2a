//! A compiler front end and optimiser for PSeInt, the Spanish teaching
//! pseudocode: tokens, syntax tree, semantic checks and optimisations of
//! the syntax tree, each with a mathematical contract.
use vstd::prelude::*;
use vstd::string::StrSliceExecFns;
use crate::ast::{Program, SpecProgram};
use crate::lexer::{kinds, scan, spans_view, token_spans, tokenize};
use crate::optimizer::{
    OptStats, RealQuery, RealTable, SpecEntry, SpecQuery, asks_new, law_optimize_asks_new, opt_program,
    optimize,
};
use crate::parser::{parse_program, parser};
use crate::sema::{analysis, analyze, msgs};

pub mod ast;
pub mod text;
pub mod symbols;
pub mod sema;
pub mod optimizer;
pub mod lexer;
pub mod parser;
pub mod codegen;
pub mod runtime;
pub mod values;
pub mod lower;

verus! {

/// Why a source text does not compile.
pub enum CompileError {
    /// The spans (character offsets) of the text that no token matches.
    Lexical(Vec<(usize, usize)>),
    /// The token position where parsing failed, and the span of that token
    /// (an empty span at the end of the text when the tokens ran out).
    Syntax { position: usize, span: (usize, usize) },
    /// The messages of the semantic errors, in order.
    Semantic(Vec<String>),
}

pub enum SpecCompileError {
    Lexical(Seq<(int, int)>),
    Syntax(int, (int, int)),
    Semantic(Seq<Seq<char>>),
}

impl View for CompileError {
    type V = SpecCompileError;

    open spec fn view(&self) -> SpecCompileError {
        match *self {
            CompileError::Lexical(spans) => SpecCompileError::Lexical(spans_view(spans@)),
            CompileError::Syntax { position, span } => SpecCompileError::Syntax(
                position as int,
                (span.0 as int, span.1 as int),
            ),
            CompileError::Semantic(ms) => SpecCompileError::Semantic(msgs(ms@)),
        }
    }
}

/// The span reported for a parse failure at token position `pos`.
pub open spec fn syntax_span(spans: Seq<(int, int)>, pos: int, text_len: int) -> (int, int) {
    if 0 <= pos < spans.len() {
        spans[pos]
    } else {
        (text_len, text_len)
    }
}

/// Tokens, then the program, then its semantic check: the checked program
/// and its number of tokens, or the first stage's errors.
pub open spec fn front_end_spec(s: Seq<char>) -> Result<(SpecProgram, int), SpecCompileError> {
    let sc = scan(s, 0);
    if sc.1.len() > 0 {
        Err(SpecCompileError::Lexical(sc.1))
    } else {
        match parse_program(kinds(sc.0)) {
            Err(pos) => Err(SpecCompileError::Syntax(pos, syntax_span(token_spans(sc.0), pos, s.len() as int))),
            Ok(p) => if analysis(p).1.len() > 0 {
                Err(SpecCompileError::Semantic(analysis(p).1))
            } else {
                Ok((p, sc.0.len() as int))
            },
        }
    }
}

/// Lexes, parses and checks a source text.
pub fn front_end(source: &str) -> (r: Result<(Program, usize), CompileError>)
    ensures
        match r {
            Ok((p, n)) => front_end_spec(source@) == Ok::<(SpecProgram, int), SpecCompileError>((p@, n as int)),
            Err(e) => front_end_spec(source@) == Err::<(SpecProgram, int), SpecCompileError>(e@),
        },
{
    let lexed = tokenize(source);
    if lexed.errors.len() > 0 {
        return Err(CompileError::Lexical(lexed.errors));
    }
    let count = lexed.tokens.len();
    proof {
        assert(kinds(scan(source@, 0).0).len() == scan(source@, 0).0.len());
        assert(token_spans(scan(source@, 0).0).len() == scan(source@, 0).0.len());
    }
    match parser(&lexed.tokens) {
        Err(e) => {
            let span = if e.position < lexed.spans.len() {
                lexed.spans[e.position]
            } else {
                let n = source.unicode_len();
                (n, n)
            };
            Err(CompileError::Syntax { position: e.position, span })
        },
        Ok(program) => match analyze(&program) {
            Ok(_) => Ok((program, count)),
            Err(es) => Err(CompileError::Semantic(es)),
        },
    }
}

/// The whole pipeline: the front end, then the optimisation of the tree.
pub open spec fn compile_spec(s: Seq<char>, t: Seq<SpecEntry>) -> Result<
    Result<(SpecProgram, OptStats), SpecCompileError>,
    SpecQuery,
> {
    match front_end_spec(s) {
        Err(e) => Ok(Err(e)),
        Ok((p, _)) => match opt_program(p, t, OptStats::zero()) {
            Err(q) => Err(q),
            Ok(x) => Ok(Ok(x)),
        },
    }
}

/// Compiles a source text to an optimised, checked program. `Err` asks for
/// the result of an operation on real numbers that `reals` does not hold.
pub fn compile(source: &str, reals: &RealTable) -> (r: Result<Result<(Program, OptStats), CompileError>, RealQuery>)
    ensures
        match r {
            Err(q) => compile_spec(source@, reals@) == Err::<Result<(SpecProgram, OptStats), SpecCompileError>, SpecQuery>(q@),
            Ok(Err(e)) => compile_spec(source@, reals@) == Ok::<_, SpecQuery>(Err::<(SpecProgram, OptStats), SpecCompileError>(e@)),
            Ok(Ok((p, st))) => compile_spec(source@, reals@) == Ok::<_, SpecQuery>(Ok::<(SpecProgram, OptStats), SpecCompileError>((p@, st))),
        },
{
    match front_end(source) {
        Err(e) => Ok(Err(e)),
        Ok((mut program, _)) => {
            let mut stats = OptStats { constants_folded: 0, dead_stmts_removed: 0, strength_reductions: 0, propagations: 0 };
            match optimize(&mut program, &mut stats, reals) {
                Err(q) => Err(q),
                Ok(()) => Ok(Ok((program, stats))),
            }
        },
    }
}

/// A compilation that stops to ask for a result on real numbers asks for
/// one that the table does not hold.
pub proof fn law_compile_asks_new(s: Seq<char>, t: Seq<SpecEntry>)
    ensures
        asks_new(compile_spec(s, t), t),
{
    match front_end_spec(s) {
        Err(_) => {},
        Ok((p, _)) => {
            law_optimize_asks_new(p, t, OptStats::zero());
        },
    }
}

} // verus!

