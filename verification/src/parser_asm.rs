//! Lowering: the language-level syntax tree to the assembly-level one.
//!
//! One assembly function per language function; every `return <constant>`
//! statement becomes the instruction pair `Mov(Immediate, Register)` then
//! `Return`, so no lowered function lacks a terminal return. Every construct
//! the language tree can hold is recognized, so lowering never fails and
//! records no diagnostic.

use vstd::prelude::*;

use crate::lexer::{TokView, Token};
use crate::parser_c::{
    CAst, CExpression, CExpressionV, CFunctionV, CProgram, CProgramV, CStatement, CStatementV,
};

verus! {

/// A whole assembly program: its functions.
#[derive(Debug, Clone)]
pub enum ASMProgram {
    Function(ASMFunction),
}

/// One assembly function: its name token and instructions, in order.
#[derive(Debug, Clone)]
pub struct ASMFunction {
    pub ident: Token,
    pub statement: Vec<Instruction>,
}

/// The single register the lowering ever allocates.
#[derive(Debug, Clone, Copy, PartialEq, Eq, Structural)]
pub enum Register {
    Eax,
}

/// One instruction.
#[derive(Debug, Clone)]
pub enum Instruction {
    Mov { src: Operand, dst: Operand },
    Ret,
}

/// One operand: an immediate (carrying the constant's token) or a register.
#[derive(Debug, Clone)]
pub enum Operand {
    Imm(Token),
    Register(Register),
}

pub enum ASMProgramV {
    Function(ASMFunctionV),
}

pub struct ASMFunctionV {
    pub ident: TokView,
    pub statement: Seq<InstructionV>,
}

pub enum InstructionV {
    Mov { src: OperandV, dst: OperandV },
    Ret,
}

pub enum OperandV {
    Imm(TokView),
    Register(Register),
}

impl DeepView for ASMProgram {
    type V = ASMProgramV;

    open spec fn deep_view(&self) -> ASMProgramV {
        match self {
            ASMProgram::Function(f) => ASMProgramV::Function(f.deep_view()),
        }
    }
}

impl DeepView for ASMFunction {
    type V = ASMFunctionV;

    open spec fn deep_view(&self) -> ASMFunctionV {
        ASMFunctionV { ident: self.ident@, statement: self.statement.deep_view() }
    }
}

impl DeepView for Instruction {
    type V = InstructionV;

    open spec fn deep_view(&self) -> InstructionV {
        match self {
            Instruction::Mov { src, dst } => InstructionV::Mov {
                src: src.deep_view(),
                dst: dst.deep_view(),
            },
            Instruction::Ret => InstructionV::Ret,
        }
    }
}

impl DeepView for Operand {
    type V = OperandV;

    open spec fn deep_view(&self) -> OperandV {
        match self {
            Operand::Imm(t) => OperandV::Imm(t@),
            Operand::Register(r) => OperandV::Register(*r),
        }
    }
}

// ---------------------------------------------------------------------------
// What lowering yields, stated over the views.
// ---------------------------------------------------------------------------

/// A constant expression becomes an immediate operand.
pub open spec fn lower_expr(e: CExpressionV) -> OperandV {
    match e {
        CExpressionV::Constant(t) => OperandV::Imm(t),
    }
}

/// A return statement becomes a move into the primary register, then a
/// return.
pub open spec fn lower_stmt(s: CStatementV) -> Seq<InstructionV> {
    match s {
        CStatementV::Return(e) => seq![
            InstructionV::Mov { src: lower_expr(e), dst: OperandV::Register(Register::Eax) },
            InstructionV::Ret,
        ],
    }
}

/// A body's statements lower in order, concatenated.
pub open spec fn lower_stmts(ss: Seq<CStatementV>) -> Seq<InstructionV>
    decreases ss.len(),
{
    if ss.len() == 0 {
        Seq::empty()
    } else {
        lower_stmt(ss[0]) + lower_stmts(ss.skip(1))
    }
}

pub open spec fn lower_fn(f: CFunctionV) -> ASMFunctionV {
    ASMFunctionV { ident: f.ident, statement: lower_stmts(f.statement) }
}

pub open spec fn lower_program(p: CProgramV) -> ASMProgramV {
    match p {
        CProgramV::Function(f) => ASMProgramV::Function(lower_fn(f)),
    }
}

/// The whole lowering, one assembly function per language function.
pub open spec fn lower_programs(ps: Seq<CProgramV>) -> Seq<ASMProgramV> {
    ps.map_values(|p: CProgramV| lower_program(p))
}

proof fn lemma_lower_stmts_take(ss: Seq<CStatementV>, i: int)
    requires
        0 <= i < ss.len(),
    ensures
        lower_stmts(ss.take(i + 1)) == lower_stmts(ss.take(i)) + lower_stmt(ss[i]),
    decreases i,
{
    if i == 0 {
        assert(ss.take(0) =~= Seq::<CStatementV>::empty());
        assert(ss.take(1).skip(1) =~= Seq::<CStatementV>::empty());
        assert(ss.take(1)[0] == ss[0]);
        assert(lower_stmts(Seq::<CStatementV>::empty()) == Seq::<InstructionV>::empty());
        assert(lower_stmts(ss.take(1)) == lower_stmt(ss[0]) + lower_stmts(ss.take(1).skip(1)));
        assert(lower_stmts(ss.take(1)) =~= lower_stmt(ss[0]));
        assert(lower_stmts(ss.take(0)) + lower_stmt(ss[0]) =~= lower_stmt(ss[0]));
    } else {
        lemma_lower_stmts_take(ss.skip(1), i - 1);
        assert(ss.take(i + 1).skip(1) =~= ss.skip(1).take(i));
        assert(ss.take(i).skip(1) =~= ss.skip(1).take(i - 1));
        assert(ss.skip(1)[i - 1] == ss[i]);
        assert(ss.take(i + 1)[0] == ss[0]);
        assert(ss.take(i)[0] == ss[0]);
        assert(lower_stmts(ss.take(i + 1)) == lower_stmt(ss[0]) + (lower_stmts(
            ss.skip(1).take(i - 1),
        ) + lower_stmt(ss[i])));
        assert(lower_stmt(ss[0]) + (lower_stmts(ss.skip(1).take(i - 1)) + lower_stmt(ss[i])) =~= (
        lower_stmt(ss[0]) + lower_stmts(ss.skip(1).take(i - 1))) + lower_stmt(ss[i]));
    }
}

// ---------------------------------------------------------------------------
// The lowering itself.
// ---------------------------------------------------------------------------

/// Lowers the whole language tree, consuming it; one assembly function per
/// language function, in order.
#[verifier::loop_isolation(false)]
pub fn parse_ast(ast: &mut CAst) -> (r: Option<Vec<ASMProgram>>)
    ensures
        r is Some,
        r->Some_0.deep_view() == lower_programs(old(ast).deep_view()),
        final(ast)@.len() == 0,
{
    let mut p: Vec<ASMProgram> = Vec::new();
    proof {
        assert(p.deep_view() =~= Seq::<ASMProgramV>::empty());
        assert(p.deep_view() + lower_programs(ast.deep_view()) =~= lower_programs(
            ast.deep_view(),
        ));
    }
    loop
        invariant
            p.deep_view() + lower_programs(ast.deep_view()) == lower_programs(
                old(ast).deep_view(),
            ),
        decreases ast@.len(),
    {
        if ast.len() == 0 {
            proof {
                assert(ast.deep_view() =~= Seq::<CProgramV>::empty());
                assert(lower_programs(ast.deep_view()) =~= Seq::<ASMProgramV>::empty());
                assert(p.deep_view() + lower_programs(ast.deep_view()) =~= p.deep_view());
            }
            return Some(p);
        }
        let ghost pre = ast.deep_view();
        let ghost pre_p = p.deep_view();
        let func = match ast.pop_front() {
            Some(func) => func,
            None => {
                return None;
            },
        };
        let ghost fv = func.deep_view();
        proof {
            assert(ast.deep_view() =~= pre.skip(1));
            assert(lower_programs(pre) =~= seq![lower_program(pre[0])] + lower_programs(
                pre.skip(1),
            ));
        }
        let lowered = match parse_fn(func) {
            Some(f) => f,
            None => {
                return None;
            },
        };
        p.push(ASMProgram::Function(lowered));
        proof {
            assert(p.deep_view() =~= pre_p.push(lower_program(fv)));
            assert(pre_p.push(lower_program(fv)) + lower_programs(pre.skip(1)) =~= pre_p + (seq![
                lower_program(pre[0]),
            ] + lower_programs(pre.skip(1))));
        }
    }
}

/// Lowers one function, walking its statements in order.
#[verifier::loop_isolation(false)]
fn parse_fn(func: CProgram) -> (r: Option<ASMFunction>)
    ensures
        r is Some,
        ASMProgramV::Function(r->Some_0.deep_view()) == lower_program(func.deep_view()),
{
    match func {
        CProgram::Function(func) => {
            let ghost fv = func.deep_view();
            let ident = func.ident;
            let statement = func.statement;
            let ghost sv = statement.deep_view();
            let mut body: Vec<Instruction> = Vec::new();
            proof {
                assert(sv.take(0) =~= Seq::<CStatementV>::empty());
                assert(body.deep_view() =~= lower_stmts(sv.take(0)));
            }
            let mut i: usize = 0;
            while i < statement.len()
                invariant
                    0 <= i <= statement.len(),
                    statement.deep_view() == sv,
                    body.deep_view() == lower_stmts(sv.take(i as int)),
                decreases statement.len() - i,
            {
                let ghost pre_body = body.deep_view();
                let mut chunk = match parse_statement(&statement[i]) {
                    Some(c) => c,
                    None => {
                        return None;
                    },
                };
                let ghost cv = chunk.deep_view();
                body.append(&mut chunk);
                proof {
                    assert(body.deep_view() =~= pre_body + cv);
                    lemma_lower_stmts_take(sv, i as int);
                }
                i = i + 1;
            }
            proof {
                assert(sv.take(statement.len() as int) =~= sv);
            }
            Some(ASMFunction { ident, statement: body })
        },
    }
}

/// Lowers one statement to its instruction pair.
fn parse_statement(st: &CStatement) -> (r: Option<Vec<Instruction>>)
    ensures
        r is Some,
        r->Some_0.deep_view() == lower_stmt(st.deep_view()),
{
    match st {
        CStatement::Return(ex) => {
            let src = match parse_expression(ex) {
                Some(op) => op,
                None => {
                    return None;
                },
            };
            let v = vec![
                Instruction::Mov { src, dst: Operand::Register(Register::Eax) },
                Instruction::Ret,
            ];
            proof {
                assert(v.deep_view() =~= lower_stmt(st.deep_view()));
            }
            Some(v)
        },
    }
}

/// Lowers one expression to its operand.
fn parse_expression(ex: &CExpression) -> (r: Option<Operand>)
    ensures
        r is Some,
        r->Some_0.deep_view() == lower_expr(ex.deep_view()),
{
    match ex {
        CExpression::Constant(token) => {
            let t = Token {
                line: token.line,
                index: token.index,
                token_type: token.token_type,
                substring: token.substring.clone(),
            };
            Some(Operand::Imm(t))
        },
    }
}

} // verus!
