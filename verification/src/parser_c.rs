//! Syntax analysis: the token stream to the language-level syntax tree.
//!
//! Recursive descent with one function per production. The parser pops
//! destructively from the front of the stream; the first expectation that
//! fails records exactly one diagnostic in the sink and aborts the whole
//! parse, with no recovery.

use std::collections::VecDeque;
use vstd::prelude::*;

use crate::error::{CompilerError, DiagView, ErrorList};
use crate::grammar::{
    block_diag, block_ok, blocks_ok, eoi_diag, eoi_message, expect_diag, kind_name, kind_name_str,
    mismatch_diag, mismatch_message, parse_diag, stmt_diag, stmt_ok, type_diag,
};
use crate::lexer::{TokView, Token, TokenType, Tokens};

verus! {

/// A whole source file: its functions.
#[derive(Debug)]
pub enum CProgram {
    Function(CFunction),
}

/// One function: its return type token, name token, and body.
#[derive(Debug)]
pub struct CFunction {
    pub ret_type: Token,
    pub ident: Token,
    pub statement: Vec<CStatement>,
}

/// One statement; the grammar only knows `return <expression> ;`.
#[derive(Debug)]
pub enum CStatement {
    Return(CExpression),
}

/// One expression; the grammar only knows an integer constant.
#[derive(Debug)]
pub enum CExpression {
    Constant(Token),
}

pub enum CProgramV {
    Function(CFunctionV),
}

pub struct CFunctionV {
    pub ret_type: TokView,
    pub ident: TokView,
    pub statement: Seq<CStatementV>,
}

pub enum CStatementV {
    Return(CExpressionV),
}

pub enum CExpressionV {
    Constant(TokView),
}

impl DeepView for CProgram {
    type V = CProgramV;

    open spec fn deep_view(&self) -> CProgramV {
        match self {
            CProgram::Function(f) => CProgramV::Function(f.deep_view()),
        }
    }
}

impl DeepView for CFunction {
    type V = CFunctionV;

    open spec fn deep_view(&self) -> CFunctionV {
        CFunctionV {
            ret_type: self.ret_type@,
            ident: self.ident@,
            statement: self.statement.deep_view(),
        }
    }
}

impl DeepView for CStatement {
    type V = CStatementV;

    open spec fn deep_view(&self) -> CStatementV {
        match self {
            CStatement::Return(e) => CStatementV::Return(e.deep_view()),
        }
    }
}

impl DeepView for CExpression {
    type V = CExpressionV;

    open spec fn deep_view(&self) -> CExpressionV {
        match self {
            CExpression::Constant(t) => CExpressionV::Constant(t@),
        }
    }
}

/// The language-level syntax tree, in source order.
pub type CAst = VecDeque<CProgram>;

#[derive(Debug)]
struct CParserError {
    line: usize,
    index: usize,
    string: String,
}

impl CompilerError for CParserError {
    closed spec fn diag(&self) -> DiagView {
        DiagView { line: self.line as int, index: self.index as int, msg: self.string@ }
    }

    fn line(&self) -> usize {
        self.line
    }

    fn index(&self) -> usize {
        self.index
    }

    fn to_string(&self) -> String {
        self.string.clone()
    }
}

/// The function a block of ten tokens parses to.
pub open spec fn fn_of_block(t: Seq<TokView>) -> CFunctionV
    recommends
        block_ok(t),
{
    CFunctionV {
        ret_type: t[0],
        ident: t[1],
        statement: seq![CStatementV::Return(CExpressionV::Constant(t[7]))],
    }
}

/// The syntax tree a valid token sequence parses to.
pub open spec fn asts_of(t: Seq<TokView>) -> Seq<CProgramV>
    recommends
        blocks_ok(t),
    decreases t.len(),
{
    if t.len() < 10 {
        Seq::empty()
    } else {
        seq![CProgramV::Function(fn_of_block(t))] + asts_of(t.skip(10))
    }
}

/// Parses every function until the stream is empty. Succeeds, leaving the
/// sink untouched, exactly when the tokens fit the grammar; otherwise records
/// the first failing expectation's diagnostic and yields nothing. An empty
/// stream is a degenerate valid program.
pub fn parse_program(tokens: &mut Tokens, errors: &mut ErrorList) -> (r: Option<CAst>)
    ensures
        r is Some <==> blocks_ok(old(tokens).deep_view()),
        r is Some ==> r->Some_0.deep_view() == asts_of(old(tokens).deep_view()) && final(errors)@
            == old(errors)@ && final(tokens)@.len() == 0,
        r is None ==> final(errors)@ == old(errors)@.push(parse_diag(old(tokens).deep_view())),
{
    let mut p: CAst = VecDeque::new();
    proof {
        assert(p.deep_view() =~= Seq::<CProgramV>::empty());
    }
    loop
        invariant
            errors@ == old(errors)@,
            blocks_ok(old(tokens).deep_view()) == blocks_ok(tokens.deep_view()),
            blocks_ok(tokens.deep_view()) ==> asts_of(old(tokens).deep_view()) == p.deep_view()
                + asts_of(tokens.deep_view()),
            !blocks_ok(tokens.deep_view()) ==> parse_diag(old(tokens).deep_view()) == parse_diag(
                tokens.deep_view(),
            ),
        decreases tokens@.len(),
    {
        if tokens.len() == 0 {
            proof {
                assert(tokens.deep_view() =~= Seq::<TokView>::empty());
                assert(blocks_ok(tokens.deep_view()));
                assert(asts_of(tokens.deep_view()) =~= Seq::<CProgramV>::empty());
                assert(p.deep_view() + asts_of(tokens.deep_view()) =~= p.deep_view());
            }
            return Some(p);
        }
        let ghost pre = tokens.deep_view();
        let ghost pre_p = p.deep_view();
        match parse_fn(tokens, errors) {
            None => {
                proof {
                    assert(pre.len() > 0);
                    assert(!blocks_ok(pre));
                    assert(parse_diag(pre) == block_diag(pre));
                }
                return None;
            },
            Some(f) => {
                proof {
                    assert(blocks_ok(pre) == blocks_ok(pre.skip(10)));
                    assert(tokens.deep_view() =~= pre.skip(10));
                }
                let ghost fv = f.deep_view();
                p.push_back(CProgram::Function(f));
                proof {
                    assert(p.deep_view() =~= pre_p.push(CProgramV::Function(fv)));
                    if blocks_ok(pre.skip(10)) {
                        assert(asts_of(pre) == seq![CProgramV::Function(fv)] + asts_of(
                            pre.skip(10),
                        ));
                        assert(pre_p.push(CProgramV::Function(fv)) + asts_of(pre.skip(10)) =~= pre_p
                            + (seq![CProgramV::Function(fv)] + asts_of(pre.skip(10))));
                    }
                }
            },
        }
    }
}

/// Parses one function: `int <identifier> ( void ) { <statement> }`.
fn parse_fn(tokens: &mut Tokens, errors: &mut ErrorList) -> (r: Option<CFunction>)
    ensures
        r is Some ==> block_ok(old(tokens).deep_view()) && r->Some_0.deep_view() == fn_of_block(
            old(tokens).deep_view(),
        ) && final(tokens)@ == old(tokens)@.skip(10) && final(errors)@ == old(errors)@,
        r is None ==> !block_ok(old(tokens).deep_view()) && final(errors)@ == old(errors)@.push(
            block_diag(old(tokens).deep_view()),
        ),
{
    let ghost t = tokens.deep_view();
    let ret_type = match expect_type(tokens, errors) {
        Some(tok) => tok,
        None => {
            proof {
                assert(block_diag(t) == type_diag(t));
            }
            return None;
        },
    };
    proof {
        assert(tokens.deep_view() =~= t.skip(1));
    }
    let ident = match tokens.pop_front() {
        Some(tok) => tok,
        None => {
            errors.push(CParserError { line: 0, index: 0, string: eoi_message() });
            proof {
                assert(block_diag(t) == eoi_diag());
            }
            return None;
        },
    };
    if ident.token_type != TokenType::Identifier {
        let line = ident.line;
        let index = ident.index;
        errors.push(
            CParserError {
                line,
                index,
                string: mismatch_message(kind_name_str(TokenType::Identifier), ident.token_type),
            },
        );
        proof {
            assert(block_diag(t) == mismatch_diag(t[1], kind_name(TokenType::Identifier)));
        }
        return None;
    }
    proof {
        assert(tokens.deep_view() =~= t.skip(2));
    }
    if expect(TokenType::LParen, tokens, errors).is_none() {
        proof {
            assert(block_diag(t) == expect_diag(t.skip(2), TokenType::LParen));
        }
        return None;
    }
    proof {
        assert(tokens.deep_view() =~= t.skip(3));
    }
    if expect(TokenType::KVoid, tokens, errors).is_none() {
        proof {
            assert(block_diag(t) == expect_diag(t.skip(3), TokenType::KVoid));
        }
        return None;
    }
    proof {
        assert(tokens.deep_view() =~= t.skip(4));
    }
    if expect(TokenType::RParen, tokens, errors).is_none() {
        proof {
            assert(block_diag(t) == expect_diag(t.skip(4), TokenType::RParen));
        }
        return None;
    }
    proof {
        assert(tokens.deep_view() =~= t.skip(5));
    }
    if expect(TokenType::LBrace, tokens, errors).is_none() {
        proof {
            assert(block_diag(t) == expect_diag(t.skip(5), TokenType::LBrace));
        }
        return None;
    }
    proof {
        assert(tokens.deep_view() =~= t.skip(6));
    }
    let statement = match parse_statement(tokens, errors) {
        Some(st) => st,
        None => {
            proof {
                assert(block_diag(t) == stmt_diag(t.skip(6)));
            }
            return None;
        },
    };
    proof {
        assert(tokens.deep_view() =~= t.skip(9));
    }
    if expect(TokenType::RBrace, tokens, errors).is_none() {
        proof {
            assert(block_diag(t) == expect_diag(t.skip(9), TokenType::RBrace));
        }
        return None;
    }
    proof {
        assert(tokens.deep_view() =~= t.skip(10));
        assert(final(tokens)@ =~= old(tokens)@.skip(10));
    }
    let f = CFunction { ret_type, ident, statement: vec![statement] };
    proof {
        assert(f.deep_view().statement =~= fn_of_block(t).statement);
    }
    Some(f)
}

/// Parses one statement: `return <expression> ;`.
fn parse_statement(tokens: &mut Tokens, errors: &mut ErrorList) -> (r: Option<CStatement>)
    ensures
        r is Some ==> stmt_ok(old(tokens).deep_view()) && r->Some_0.deep_view()
            == CStatementV::Return(CExpressionV::Constant(old(tokens).deep_view()[1]))
            && final(tokens)@ == old(tokens)@.skip(3) && final(errors)@ == old(errors)@,
        r is None ==> !stmt_ok(old(tokens).deep_view()) && final(errors)@ == old(errors)@.push(
            stmt_diag(old(tokens).deep_view()),
        ),
{
    let ghost t = tokens.deep_view();
    if expect(TokenType::KRet, tokens, errors).is_none() {
        proof {
            assert(stmt_diag(t) == expect_diag(t, TokenType::KRet));
        }
        return None;
    }
    proof {
        assert(tokens.deep_view() =~= t.skip(1));
    }
    let ret_val = match parse_exp(tokens, errors) {
        Some(e) => e,
        None => {
            proof {
                assert(stmt_diag(t) == expect_diag(t.skip(1), TokenType::Constant));
            }
            return None;
        },
    };
    proof {
        assert(tokens.deep_view() =~= t.skip(2));
    }
    if expect(TokenType::Semi, tokens, errors).is_none() {
        proof {
            assert(stmt_diag(t) == expect_diag(t.skip(2), TokenType::Semi));
        }
        return None;
    }
    proof {
        assert(final(tokens)@ =~= old(tokens)@.skip(3));
    }
    Some(CStatement::Return(ret_val))
}

/// Parses one expression: a single integer constant.
fn parse_exp(tokens: &mut Tokens, errors: &mut ErrorList) -> (r: Option<CExpression>)
    ensures
        r is Some ==> old(tokens).deep_view().len() >= 1 && old(tokens).deep_view()[0].kind
            == TokenType::Constant && r->Some_0.deep_view() == CExpressionV::Constant(
            old(tokens).deep_view()[0],
        ) && final(tokens)@ == old(tokens)@.skip(1) && final(errors)@ == old(errors)@,
        r is None ==> !(old(tokens).deep_view().len() >= 1 && old(tokens).deep_view()[0].kind
            == TokenType::Constant) && final(errors)@ == old(errors)@.push(
            expect_diag(old(tokens).deep_view(), TokenType::Constant),
        ),
{
    let lit = match expect(TokenType::Constant, tokens, errors) {
        Some(tok) => tok,
        None => {
            return None;
        },
    };
    Some(CExpression::Constant(lit))
}

/// Peeks at the front of the stream without consuming it.
#[allow(dead_code)]
fn inspect(tokens: &Tokens) -> (r: Option<&Token>)
    ensures
        match r {
            Some(tok) => tokens@.len() > 0 && tok == tokens@[0],
            None => tokens@.len() == 0,
        },
{
    if tokens.len() == 0 {
        None
    } else {
        Some(&tokens[0])
    }
}

/// Pops the front token, which must be of kind `expected`; otherwise records
/// the mismatch (or end-of-input) diagnostic and fails.
fn expect(expected: TokenType, tokens: &mut Tokens, errors: &mut ErrorList) -> (r: Option<Token>)
    ensures
        r is Some ==> old(tokens)@.len() > 0 && old(tokens)@[0].token_type == expected && r->Some_0
            == old(tokens)@[0] && final(tokens)@ == old(tokens)@.skip(1) && final(errors)@ == old(
            errors,
        )@,
        r is None ==> !(old(tokens)@.len() > 0 && old(tokens)@[0].token_type == expected)
            && final(errors)@ == old(errors)@.push(
            expect_diag(old(tokens).deep_view(), expected),
        ) && final(tokens)@.len() <= old(tokens)@.len(),
{
    let actual = match tokens.pop_front() {
        Some(tok) => tok,
        None => {
            errors.push(CParserError { line: 0, index: 0, string: eoi_message() });
            return None;
        },
    };
    if actual.token_type != expected {
        let line = actual.line;
        let index = actual.index;
        errors.push(
            CParserError {
                line,
                index,
                string: mismatch_message(kind_name_str(expected), actual.token_type),
            },
        );
        return None;
    }
    Some(actual)
}

/// Pops the front token, which must be a type keyword; only `int` is one.
fn expect_type(tokens: &mut Tokens, errors: &mut ErrorList) -> (r: Option<Token>)
    ensures
        r is Some ==> old(tokens)@.len() > 0 && old(tokens)@[0].token_type == TokenType::KInt
            && r->Some_0 == old(tokens)@[0] && final(tokens)@ == old(tokens)@.skip(1)
            && final(errors)@ == old(errors)@,
        r is None ==> !(old(tokens)@.len() > 0 && old(tokens)@[0].token_type == TokenType::KInt)
            && final(errors)@ == old(errors)@.push(type_diag(old(tokens).deep_view()))
            && final(tokens)@.len() <= old(tokens)@.len(),
{
    let actual = match tokens.pop_front() {
        Some(tok) => tok,
        None => {
            errors.push(CParserError { line: 0, index: 0, string: eoi_message() });
            return None;
        },
    };
    match actual.token_type {
        TokenType::KInt => Some(actual),
        _ => {
            let line = actual.line;
            let index = actual.index;
            errors.push(
                CParserError {
                    line,
                    index,
                    string: mismatch_message("type", actual.token_type),
                },
            );
            None
        },
    }
}

} // verus!
