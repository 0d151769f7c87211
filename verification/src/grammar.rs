//! The token grammar both parsers check, and the diagnostics its violations
//! produce.
//!
//! A valid program is a sequence of functions, each exactly ten tokens:
//! `int <identifier> ( void ) { return <constant> ; }`. Parsing stops at the
//! first expectation that fails, recording one diagnostic: either an
//! unexpected end of input at position `(0, 0)`, or a mismatch naming the
//! expected and the found token kind at the found token's position.

use vstd::prelude::*;

use crate::error::DiagView;
use crate::lexer::{TokView, TokenType};

verus! {

/// The name of a token kind, as diagnostics spell it.
pub open spec fn kind_name(t: TokenType) -> Seq<char> {
    match t {
        TokenType::Identifier => "Identifier"@,
        TokenType::Constant => "Constant"@,
        TokenType::LParen => "LParen"@,
        TokenType::RParen => "RParen"@,
        TokenType::LBrace => "LBrace"@,
        TokenType::RBrace => "RBrace"@,
        TokenType::Semi => "Semi"@,
        TokenType::KInt => "KInt"@,
        TokenType::KVoid => "KVoid"@,
        TokenType::KRet => "KRet"@,
    }
}

/// How the type expectation is named in diagnostics.
pub open spec fn name_type() -> Seq<char> {
    "type"@
}

pub open spec fn eoi_msg() -> Seq<char> {
    "Unexpected end of input"@
}

/// The diagnostic for running out of tokens.
pub open spec fn eoi_diag() -> DiagView {
    DiagView { line: 0, index: 0, msg: eoi_msg() }
}

pub open spec fn mismatch_msg(exp: Seq<char>, got: TokenType) -> Seq<char> {
    "Expected "@ + exp + ", got "@ + kind_name(got)
}

/// The diagnostic for finding token `t` where `exp` was expected.
pub open spec fn mismatch_diag(t: TokView, exp: Seq<char>) -> DiagView {
    DiagView { line: t.line, index: t.index, msg: mismatch_msg(exp, t.kind) }
}

/// What popping one token expected to be of kind `expected` records when it
/// fails.
pub open spec fn expect_diag(t: Seq<TokView>, expected: TokenType) -> DiagView {
    if t.len() == 0 {
        eoi_diag()
    } else {
        mismatch_diag(t[0], kind_name(expected))
    }
}

/// What popping one token expected to be a type keyword records when it
/// fails.
pub open spec fn type_diag(t: Seq<TokView>) -> DiagView {
    if t.len() == 0 {
        eoi_diag()
    } else {
        mismatch_diag(t[0], name_type())
    }
}

/// The ten token kinds of one function, in order.
pub open spec fn block_ok(t: Seq<TokView>) -> bool {
    &&& t.len() >= 10
    &&& t[0].kind == TokenType::KInt
    &&& t[1].kind == TokenType::Identifier
    &&& t[2].kind == TokenType::LParen
    &&& t[3].kind == TokenType::KVoid
    &&& t[4].kind == TokenType::RParen
    &&& t[5].kind == TokenType::LBrace
    &&& t[6].kind == TokenType::KRet
    &&& t[7].kind == TokenType::Constant
    &&& t[8].kind == TokenType::Semi
    &&& t[9].kind == TokenType::RBrace
}

/// The three token kinds of one statement, in order.
pub open spec fn stmt_ok(t: Seq<TokView>) -> bool {
    &&& t.len() >= 3
    &&& t[0].kind == TokenType::KRet
    &&& t[1].kind == TokenType::Constant
    &&& t[2].kind == TokenType::Semi
}

/// The single diagnostic recorded when the function starting at `t[0]` does
/// not fit the grammar: the first expectation that fails decides it.
pub open spec fn block_diag(t: Seq<TokView>) -> DiagView {
    if t.len() == 0 {
        eoi_diag()
    } else if t[0].kind != TokenType::KInt {
        mismatch_diag(t[0], name_type())
    } else if t.len() == 1 {
        eoi_diag()
    } else if t[1].kind != TokenType::Identifier {
        mismatch_diag(t[1], kind_name(TokenType::Identifier))
    } else if t.len() == 2 {
        eoi_diag()
    } else if t[2].kind != TokenType::LParen {
        mismatch_diag(t[2], kind_name(TokenType::LParen))
    } else if t.len() == 3 {
        eoi_diag()
    } else if t[3].kind != TokenType::KVoid {
        mismatch_diag(t[3], kind_name(TokenType::KVoid))
    } else if t.len() == 4 {
        eoi_diag()
    } else if t[4].kind != TokenType::RParen {
        mismatch_diag(t[4], kind_name(TokenType::RParen))
    } else if t.len() == 5 {
        eoi_diag()
    } else if t[5].kind != TokenType::LBrace {
        mismatch_diag(t[5], kind_name(TokenType::LBrace))
    } else if t.len() == 6 {
        eoi_diag()
    } else if t[6].kind != TokenType::KRet {
        mismatch_diag(t[6], kind_name(TokenType::KRet))
    } else if t.len() == 7 {
        eoi_diag()
    } else if t[7].kind != TokenType::Constant {
        mismatch_diag(t[7], kind_name(TokenType::Constant))
    } else if t.len() == 8 {
        eoi_diag()
    } else if t[8].kind != TokenType::Semi {
        mismatch_diag(t[8], kind_name(TokenType::Semi))
    } else if t.len() == 9 {
        eoi_diag()
    } else if t[9].kind != TokenType::RBrace {
        mismatch_diag(t[9], kind_name(TokenType::RBrace))
    } else {
        eoi_diag()
    }
}

/// The single diagnostic recorded when the statement starting at `t[0]` does
/// not fit the grammar.
pub open spec fn stmt_diag(t: Seq<TokView>) -> DiagView {
    if t.len() == 0 {
        eoi_diag()
    } else if t[0].kind != TokenType::KRet {
        mismatch_diag(t[0], kind_name(TokenType::KRet))
    } else if t.len() == 1 {
        eoi_diag()
    } else if t[1].kind != TokenType::Constant {
        mismatch_diag(t[1], kind_name(TokenType::Constant))
    } else if t.len() == 2 {
        eoi_diag()
    } else if t[2].kind != TokenType::Semi {
        mismatch_diag(t[2], kind_name(TokenType::Semi))
    } else {
        eoi_diag()
    }
}

/// The whole token sequence is a sequence of valid functions.
pub open spec fn blocks_ok(t: Seq<TokView>) -> bool
    decreases t.len(),
{
    if t.len() == 0 {
        true
    } else if t.len() < 10 || !block_ok(t) {
        false
    } else {
        blocks_ok(t.skip(10))
    }
}

/// The diagnostic of the first function that does not fit; meaningful only
/// when `blocks_ok` fails.
pub open spec fn parse_diag(t: Seq<TokView>) -> DiagView
    decreases t.len(),
{
    if t.len() == 0 {
        eoi_diag()
    } else if t.len() < 10 || !block_ok(t) {
        block_diag(t)
    } else {
        parse_diag(t.skip(10))
    }
}

// ---------------------------------------------------------------------------
// Executable message rendering.
// ---------------------------------------------------------------------------

/// The display name of a token kind.
pub fn kind_name_str(t: TokenType) -> (r: &'static str)
    ensures
        r@ == kind_name(t),
{
    match t {
        TokenType::Identifier => "Identifier",
        TokenType::Constant => "Constant",
        TokenType::LParen => "LParen",
        TokenType::RParen => "RParen",
        TokenType::LBrace => "LBrace",
        TokenType::RBrace => "RBrace",
        TokenType::Semi => "Semi",
        TokenType::KInt => "KInt",
        TokenType::KVoid => "KVoid",
        TokenType::KRet => "KRet",
    }
}

/// The end-of-input message.
pub fn eoi_message() -> (r: String)
    ensures
        r@ == eoi_msg(),
{
    "Unexpected end of input".to_owned()
}

/// The mismatch message, `Expected <exp>, got <found kind>`.
pub fn mismatch_message(exp: &str, got: TokenType) -> (r: String)
    ensures
        r@ == mismatch_msg(exp@, got),
{
    let mut m = "Expected ".to_owned();
    m.append(exp);
    m.append(", got ");
    m.append(kind_name_str(got));
    proof {
        assert(m@ =~= mismatch_msg(exp@, got));
    }
    m
}

} // verus!
