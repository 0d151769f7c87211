//! The end-to-end law of the pipeline: for every decimal literal `N`, the
//! program `int main(void) { return N; }` lexes to the expected ten tokens,
//! parses to the one-function tree, lowers to the move-then-return pair, and
//! emits exactly the expected assembly text.

use vstd::prelude::*;

use crate::emit::{
    asm_wf, emit_text, fns_text, instr_wf, instrs_text, note_of, operand_wf, prefix_of, prog_wf,
    Platform,
};
use crate::grammar::{block_ok, blocks_ok};
use crate::lexer::{
    boundary, col_of, digit_end, find2, is_digit, is_ident_start, is_word, kw_at, kw_int,
    kw_return, kw_void, lex_from, lex_spec, line_of, match_at, nl_count, strip_block,
    strip_comments, strip_line, word_end, TokView, TokenType,
};
use crate::parser_asm::{
    lower_program, lower_programs, lower_stmt, lower_stmts, ASMFunctionV, ASMProgramV,
    InstructionV, OperandV, Register,
};
use crate::parser_c::{asts_of, fn_of_block, CExpressionV, CFunctionV, CProgramV, CStatementV};

verus! {

/// A pair search over text that never holds the first character finds
/// nothing.
proof fn lemma_find2_absent(s: Seq<char>, from: int, c1: char, c2: char)
    requires
        0 <= from,
        forall|j: int| from <= j < s.len() ==> s[j] != c1,
    ensures
        find2(s, from, c1, c2) == None::<int>,
    decreases s.len() - from,
{
    if from + 2 <= s.len() {
        lemma_find2_absent(s, from + 1, c1, c2);
    }
}

/// In text without newlines every offset sits on line 1, at column equal to
/// the offset itself.
proof fn lemma_flat_pos(s: Seq<char>, pos: int)
    requires
        0 <= pos <= s.len(),
        forall|j: int| 0 <= j < s.len() ==> s[j] != '\n',
    ensures
        nl_count(s, pos) == 0,
        col_of(s, pos) == pos,
    decreases pos,
{
    if pos > 0 {
        lemma_flat_pos(s, pos - 1);
    }
}

/// A run of digits bounded by a non-digit (or the end) is exactly what
/// `digit_end` finds.
proof fn lemma_digit_run(s: Seq<char>, a: int, b: int)
    requires
        0 <= a <= b <= s.len(),
        forall|j: int| a <= j < b ==> is_digit(#[trigger] s[j]),
        b == s.len() || !is_digit(s[b]),
    ensures
        digit_end(s, a) == b,
    decreases b - a,
{
    if a < b {
        lemma_digit_run(s, a + 1, b);
    }
}

/// A keyword cannot occur where the text's first character already differs.
proof fn lemma_kw_at_first(s: Seq<char>, pos: int, kw: Seq<char>)
    requires
        0 <= pos < s.len(),
        kw.len() > 0,
        pos + kw.len() <= s.len() ==> s[pos] != kw[0],
    ensures
        !kw_at(s, pos, kw),
{
    if pos + kw.len() <= s.len() && s.subrange(pos, pos + kw.len()) == kw {
        assert(s.subrange(pos, pos + kw.len())[0] == s[pos]);
    }
}

/// The source text `int main(void) { return N; }` for a given literal `n`.
pub open spec fn return_n_src(n: Seq<char>) -> Seq<char> {
    "int main(void) { return "@ + n + "; }"@
}

/// The ten tokens that source lexes to.
pub open spec fn return_n_tokens(n: Seq<char>) -> Seq<TokView> {
    seq![
        TokView { line: 1, index: 0, kind: TokenType::KInt, text: "int"@ },
        TokView { line: 1, index: 4, kind: TokenType::Identifier, text: "main"@ },
        TokView { line: 1, index: 8, kind: TokenType::LParen, text: "("@ },
        TokView { line: 1, index: 9, kind: TokenType::KVoid, text: "void"@ },
        TokView { line: 1, index: 13, kind: TokenType::RParen, text: ")"@ },
        TokView { line: 1, index: 15, kind: TokenType::LBrace, text: "{"@ },
        TokView { line: 1, index: 17, kind: TokenType::KRet, text: "return"@ },
        TokView { line: 1, index: 24, kind: TokenType::Constant, text: n },
        TokView { line: 1, index: 24 + n.len() as int, kind: TokenType::Semi, text: ";"@ },
        TokView { line: 1, index: 26 + n.len() as int, kind: TokenType::RBrace, text: "}"@ },
    ]
}

/// Lexing `int main(void) { return N; }`: no comments to strip, and the
/// fixed token stream around the constant.
proof fn lemma_return_n_lex(n: Seq<char>)
    requires
        n.len() >= 1,
        forall|i: int| 0 <= i < n.len() ==> is_digit(#[trigger] n[i]),
    ensures
        lex_spec(return_n_src(n)) == Some(return_n_tokens(n)),
{
    reveal_strlit("int main(void) { return ");
    reveal_strlit("; }");
    reveal_strlit("int");
    reveal_strlit("main");
    reveal_strlit("(");
    reveal_strlit("void");
    reveal_strlit(")");
    reveal_strlit("{");
    reveal_strlit("}");
    reveal_strlit(";");
    reveal_strlit("return");
    let pre = "int main(void) { return "@;
    let suf = "; }"@;
    let src = return_n_src(n);
    let l = n.len() as int;
    let m = 24 + l;
    assert(pre.len() == 24);
    assert(suf.len() == 3);
    assert(src.len() == 27 + l);
    assert forall|j: int| 0 <= j < src.len() implies src[j] != '/' && src[j] != '\n' by {
        if j < 24 {
            assert(src[j] == pre[j]);
        } else if j < m {
            assert(src[j] == n[j - 24]);
            assert(is_digit(n[j - 24]));
        } else {
            assert(src[j] == suf[j - m]);
        }
    }
    // No comment opens anywhere, so stripping leaves the text alone.
    lemma_find2_absent(src, 0, '/', '*');
    lemma_find2_absent(src, 0, '/', '/');
    assert(strip_block(src) == src);
    assert(strip_line(src) == src);
    assert(strip_comments(src) == src);
    // Everything sits on line 1, at its own offset.
    assert forall|p: int| 0 <= p <= src.len() implies line_of(src, p) == 1 && col_of(src, p)
        == p by {
        lemma_flat_pos(src, p);
    }
    // The digit run is exactly the constant.
    assert forall|j: int| 24 <= j < m implies is_digit(#[trigger] src[j]) by {
        assert(src[j] == n[j - 24]);
    }
    assert(src[m] == ';');
    lemma_digit_run(src, 24, m);
    // The ten tokens, from the last to the first.
    let t0 = TokView { line: 1, index: 0, kind: TokenType::KInt, text: src.subrange(0, 3) };
    let t1 = TokView { line: 1, index: 4, kind: TokenType::Identifier, text: src.subrange(4, 8) };
    let t2 = TokView { line: 1, index: 8, kind: TokenType::LParen, text: src.subrange(8, 9) };
    let t3 = TokView { line: 1, index: 9, kind: TokenType::KVoid, text: src.subrange(9, 13) };
    let t4 = TokView { line: 1, index: 13, kind: TokenType::RParen, text: src.subrange(13, 14) };
    let t5 = TokView { line: 1, index: 15, kind: TokenType::LBrace, text: src.subrange(15, 16) };
    let t6 = TokView { line: 1, index: 17, kind: TokenType::KRet, text: src.subrange(17, 23) };
    let t7 = TokView { line: 1, index: 24, kind: TokenType::Constant, text: src.subrange(24, m) };
    let t8 = TokView { line: 1, index: m, kind: TokenType::Semi, text: src.subrange(m, m + 1) };
    let t9 = TokView {
        line: 1,
        index: m + 2,
        kind: TokenType::RBrace,
        text: src.subrange(m + 2, m + 3),
    };
    assert(lex_from(src, m + 3) == Some(Seq::<TokView>::empty()));
    // `}` at m + 2.
    assert(src[m + 2] == '}');
    lemma_kw_at_first(src, m + 2, kw_int());
    lemma_kw_at_first(src, m + 2, kw_void());
    lemma_kw_at_first(src, m + 2, kw_return());
    assert(match_at(src, m + 2) == Some((TokenType::RBrace, 1int)));
    assert(seq![t9] + Seq::<TokView>::empty() =~= seq![t9]);
    assert(lex_from(src, m + 2) == Some(seq![t9]));
    // The space before it.
    assert(src[m + 1] == ' ');
    assert(lex_from(src, m + 1) == Some(seq![t9]));
    // `;` at m.
    lemma_kw_at_first(src, m, kw_int());
    lemma_kw_at_first(src, m, kw_void());
    lemma_kw_at_first(src, m, kw_return());
    assert(match_at(src, m) == Some((TokenType::Semi, 1int)));
    assert(seq![t8] + seq![t9] =~= seq![t8, t9]);
    assert(lex_from(src, m) == Some(seq![t8, t9]));
    // The constant at 24.
    assert(src[24] == n[0]);
    assert(is_digit(src[24]));
    lemma_kw_at_first(src, 24, kw_int());
    lemma_kw_at_first(src, 24, kw_void());
    lemma_kw_at_first(src, 24, kw_return());
    assert(!is_ident_start(src[24]));
    assert(boundary(src, m));
    assert(match_at(src, 24) == Some((TokenType::Constant, l)));
    assert(seq![t7] + seq![t8, t9] =~= seq![t7, t8, t9]);
    assert(lex_from(src, 24) == Some(seq![t7, t8, t9]));
    assert(src[23] == ' ');
    assert(lex_from(src, 23) == Some(seq![t7, t8, t9]));
    // `return` at 17.
    lemma_kw_at_first(src, 17, kw_int());
    lemma_kw_at_first(src, 17, kw_void());
    assert(src.subrange(17, 23) =~= kw_return());
    assert(src[23] == ' ' && !is_word(src[23]));
    assert(kw_at(src, 17, kw_return()));
    assert(match_at(src, 17) == Some((TokenType::KRet, 6int)));
    assert(seq![t6] + seq![t7, t8, t9] =~= seq![t6, t7, t8, t9]);
    assert(lex_from(src, 17) == Some(seq![t6, t7, t8, t9]));
    assert(src[16] == ' ');
    assert(lex_from(src, 16) == Some(seq![t6, t7, t8, t9]));
    // `{` at 15.
    lemma_kw_at_first(src, 15, kw_int());
    lemma_kw_at_first(src, 15, kw_void());
    lemma_kw_at_first(src, 15, kw_return());
    assert(match_at(src, 15) == Some((TokenType::LBrace, 1int)));
    assert(seq![t5] + seq![t6, t7, t8, t9] =~= seq![t5, t6, t7, t8, t9]);
    assert(lex_from(src, 15) == Some(seq![t5, t6, t7, t8, t9]));
    assert(src[14] == ' ');
    assert(lex_from(src, 14) == Some(seq![t5, t6, t7, t8, t9]));
    // `)` at 13.
    lemma_kw_at_first(src, 13, kw_int());
    lemma_kw_at_first(src, 13, kw_void());
    lemma_kw_at_first(src, 13, kw_return());
    assert(match_at(src, 13) == Some((TokenType::RParen, 1int)));
    assert(seq![t4] + seq![t5, t6, t7, t8, t9] =~= seq![t4, t5, t6, t7, t8, t9]);
    assert(lex_from(src, 13) == Some(seq![t4, t5, t6, t7, t8, t9]));
    // `void` at 9.
    lemma_kw_at_first(src, 9, kw_int());
    assert(src.subrange(9, 13) =~= kw_void());
    assert(src[13] == ')' && !is_word(src[13]));
    assert(kw_at(src, 9, kw_void()));
    assert(match_at(src, 9) == Some((TokenType::KVoid, 4int)));
    assert(seq![t3] + seq![t4, t5, t6, t7, t8, t9] =~= seq![t3, t4, t5, t6, t7, t8, t9]);
    assert(lex_from(src, 9) == Some(seq![t3, t4, t5, t6, t7, t8, t9]));
    // `(` at 8.
    lemma_kw_at_first(src, 8, kw_int());
    lemma_kw_at_first(src, 8, kw_void());
    lemma_kw_at_first(src, 8, kw_return());
    assert(match_at(src, 8) == Some((TokenType::LParen, 1int)));
    assert(seq![t2] + seq![t3, t4, t5, t6, t7, t8, t9] =~= seq![t2, t3, t4, t5, t6, t7, t8, t9]);
    assert(lex_from(src, 8) == Some(seq![t2, t3, t4, t5, t6, t7, t8, t9]));
    // `main` at 4: a maximal word run.
    lemma_kw_at_first(src, 4, kw_int());
    lemma_kw_at_first(src, 4, kw_void());
    lemma_kw_at_first(src, 4, kw_return());
    assert(is_ident_start(src[4]));
    assert(word_end(src, 8) == 8);
    assert(word_end(src, 7) == 8);
    assert(word_end(src, 6) == 8);
    assert(word_end(src, 5) == 8);
    assert(word_end(src, 4) == 8);
    assert(match_at(src, 4) == Some((TokenType::Identifier, 4int)));
    assert(seq![t1] + seq![t2, t3, t4, t5, t6, t7, t8, t9] =~= seq![
        t1,
        t2,
        t3,
        t4,
        t5,
        t6,
        t7,
        t8,
        t9,
    ]);
    assert(lex_from(src, 4) == Some(seq![t1, t2, t3, t4, t5, t6, t7, t8, t9]));
    assert(src[3] == ' ');
    assert(lex_from(src, 3) == Some(seq![t1, t2, t3, t4, t5, t6, t7, t8, t9]));
    // `int` at 0.
    assert(src.subrange(0, 3) =~= kw_int());
    assert(src[3] == ' ' && !is_word(src[3]));
    assert(kw_at(src, 0, kw_int()));
    assert(match_at(src, 0) == Some((TokenType::KInt, 3int)));
    assert(seq![t0] + seq![t1, t2, t3, t4, t5, t6, t7, t8, t9] =~= seq![
        t0,
        t1,
        t2,
        t3,
        t4,
        t5,
        t6,
        t7,
        t8,
        t9,
    ]);
    assert(lex_from(src, 0) == Some(seq![t0, t1, t2, t3, t4, t5, t6, t7, t8, t9]));
    // The matched substrings are the expected literals.
    assert(t0.text =~= ("int")@);
    assert(t1.text =~= ("main")@);
    assert(t2.text =~= ("(")@);
    assert(t3.text =~= ("void")@);
    assert(t4.text =~= (")")@);
    assert(t5.text =~= ("{")@);
    assert(t6.text =~= ("return")@);
    assert(t7.text =~= n);
    assert(t8.text =~= (";")@);
    assert(t9.text =~= ("}")@);
    assert(seq![t0, t1, t2, t3, t4, t5, t6, t7, t8, t9] =~= return_n_tokens(n));
}

/// Whatever token sequence the parser accepts, lowering yields a tree the
/// emitter accepts: every immediate operand carries a constant's token, and
/// every function's body is a run of move-return pairs. So a caller that
/// lexes, parses and lowers may always emit.
pub proof fn lemma_parsed_lowering_wf(t: Seq<TokView>)
    requires
        blocks_ok(t),
    ensures
        asm_wf(lower_programs(asts_of(t))),
    decreases t.len(),
{
    if t.len() < 10 {
        assert(asts_of(t) == Seq::<CProgramV>::empty());
        assert(lower_programs(asts_of(t)) =~= Seq::<ASMProgramV>::empty());
    } else {
        lemma_parsed_lowering_wf(t.skip(10));
        let head = CProgramV::Function(fn_of_block(t));
        let rest = asts_of(t.skip(10));
        assert(asts_of(t) == seq![head] + rest);
        assert(lower_programs(seq![head] + rest) =~= seq![lower_program(head)] + lower_programs(
            rest,
        ));
        // The head lowers to the single move-return pair over a constant.
        let stmts = fn_of_block(t).statement;
        assert(stmts =~= seq![CStatementV::Return(CExpressionV::Constant(t[7]))]);
        assert(stmts.skip(1) =~= Seq::<CStatementV>::empty());
        assert(lower_stmts(Seq::<CStatementV>::empty()) == Seq::<InstructionV>::empty());
        assert(lower_stmts(stmts) == lower_stmt(stmts[0]) + lower_stmts(stmts.skip(1)));
        assert(lower_stmts(stmts) =~= lower_stmt(stmts[0]));
        assert(t[7].kind == TokenType::Constant);
        assert(operand_wf(OperandV::Imm(t[7])));
        assert forall|k: int|
            0 <= k < lower_stmts(stmts).len() implies instr_wf(
            #[trigger] lower_stmts(stmts)[k],
        ) by {
            assert(lower_stmt(stmts[0])[0] == InstructionV::Mov {
                src: OperandV::Imm(t[7]),
                dst: OperandV::Register(Register::Eax),
            });
            assert(lower_stmt(stmts[0])[1] == InstructionV::Ret);
        }
        assert(prog_wf(lower_program(head)));
        // And the tail is well-formed by induction.
        let all = lower_programs(asts_of(t));
        assert forall|k: int| 0 <= k < all.len() implies prog_wf(#[trigger] all[k]) by {
            if k == 0 {
                assert(all[0] == lower_program(head));
            } else {
                assert(all[k] == lower_programs(rest)[k - 1]);
                assert(prog_wf(lower_programs(rest)[k - 1]));
            }
        }
    }
}

/// The one-function language tree `int main(void) { return N; }` parses to.
pub open spec fn return_n_cast(n: Seq<char>) -> CProgramV {
    CProgramV::Function(
        CFunctionV {
            ret_type: return_n_tokens(n)[0],
            ident: return_n_tokens(n)[1],
            statement: seq![
                CStatementV::Return(CExpressionV::Constant(return_n_tokens(n)[7])),
            ],
        },
    )
}

/// The one-function assembly tree it lowers to: a move of the constant into
/// the primary register, then a return.
pub open spec fn return_n_asm(n: Seq<char>) -> ASMProgramV {
    ASMProgramV::Function(
        ASMFunctionV {
            ident: return_n_tokens(n)[1],
            statement: seq![
                InstructionV::Mov {
                    src: OperandV::Imm(return_n_tokens(n)[7]),
                    dst: OperandV::Register(Register::Eax),
                },
                InstructionV::Ret,
            ],
        },
    )
}

/// For every non-empty decimal literal `N`, compiling
/// `int main(void) { return N; }` yields the token stream
/// `[int, main, (, void, ), {, return, N, ;, }]`, the one-function language
/// tree returning the constant, the assembly tree
/// `[Mov($N, %eax), Ret]`, and — on the plain platform — exactly the text
/// `   .globl main\nmain:\n   movl    $N,%eax\n   ret\n`.
pub proof fn lemma_return_n_pipeline(n: Seq<char>)
    requires
        n.len() >= 1,
        forall|i: int| 0 <= i < n.len() ==> is_digit(#[trigger] n[i]),
    ensures
        lex_spec(return_n_src(n)) == Some(return_n_tokens(n)),
        blocks_ok(return_n_tokens(n)),
        asts_of(return_n_tokens(n)) == seq![return_n_cast(n)],
        lower_programs(seq![return_n_cast(n)]) == seq![return_n_asm(n)],
        emit_text(seq![return_n_asm(n)], Platform::Other) == "   .globl main\nmain:\n   movl    $"@
            + n + ",%eax\n   ret\n"@,
{
    lemma_return_n_lex(n);
    let toks = return_n_tokens(n);
    // Parsing: the ten tokens are one valid block and nothing more.
    assert(block_ok(toks));
    assert(toks.skip(10) =~= Seq::<TokView>::empty());
    assert(blocks_ok(Seq::<TokView>::empty()));
    assert(blocks_ok(toks));
    assert(asts_of(Seq::<TokView>::empty()) =~= Seq::<CProgramV>::empty());
    assert(asts_of(toks) == seq![CProgramV::Function(fn_of_block(toks))]
        + asts_of(toks.skip(10)));
    assert(fn_of_block(toks).statement =~= seq![
        CStatementV::Return(CExpressionV::Constant(toks[7])),
    ]);
    assert(asts_of(toks) =~= seq![return_n_cast(n)]);
    // Lowering: the single return statement becomes the move-return pair.
    let cast = return_n_cast(n);
    let stmts = seq![CStatementV::Return(CExpressionV::Constant(toks[7]))];
    assert(stmts.skip(1) =~= Seq::<CStatementV>::empty());
    assert(lower_stmts(Seq::<CStatementV>::empty())
        == Seq::<InstructionV>::empty());
    assert(lower_stmts(stmts) == lower_stmt(stmts[0])
        + lower_stmts(stmts.skip(1)));
    assert(lower_stmts(stmts) =~= seq![
        InstructionV::Mov {
            src: OperandV::Imm(toks[7]),
            dst: OperandV::Register(Register::Eax),
        },
        InstructionV::Ret,
    ]);
    assert(lower_programs(seq![cast])[0] == lower_program(cast));
    assert(lower_programs(seq![cast]) =~= seq![return_n_asm(n)]);
    // Emission on the plain platform: no prefix, no trailing directive.
    reveal_strlit("   .globl main\nmain:\n   movl    $");
    reveal_strlit(",%eax\n   ret\n");
    reveal_strlit("   .globl ");
    reveal_strlit("main");
    reveal_strlit("\n");
    reveal_strlit(":\n");
    reveal_strlit("   movl    ");
    reveal_strlit("$");
    reveal_strlit(",");
    reveal_strlit("%eax");
    reveal_strlit("   ret\n");
    let prog = return_n_asm(n);
    let fv = ASMFunctionV {
        ident: toks[1],
        statement: seq![
            InstructionV::Mov {
                src: OperandV::Imm(toks[7]),
                dst: OperandV::Register(Register::Eax),
            },
            InstructionV::Ret,
        ],
    };
    let is = fv.statement;
    assert(is.drop_last() =~= seq![
        InstructionV::Mov {
            src: OperandV::Imm(toks[7]),
            dst: OperandV::Register(Register::Eax),
        },
    ]);
    assert(is.drop_last().drop_last() =~= Seq::<InstructionV>::empty());
    assert(instrs_text(Seq::<InstructionV>::empty()) == Seq::<char>::empty());
    assert(instrs_text(is.drop_last()) == instrs_text(is.drop_last().drop_last()) + (
    "   movl    "@ + ("$"@ + n) + ","@ + "%eax"@ + "\n"@));
    assert(instrs_text(is) == instrs_text(is.drop_last()) + "   ret\n"@);
    let pre0 = prefix_of(Platform::Other);
    assert(pre0 =~= Seq::<char>::empty());
    let fs = seq![prog];
    assert(fs.drop_last() =~= Seq::<ASMProgramV>::empty());
    assert(fns_text(Seq::<ASMProgramV>::empty(), pre0) == Seq::<char>::empty());
    assert(fns_text(fs, pre0) == fns_text(fs.drop_last(), pre0) + ("   .globl "@ + pre0
        + "main"@ + "\n"@ + pre0 + "main"@ + ":\n"@ + instrs_text(is)));
    assert(!note_of(Platform::Other));
    assert(emit_text(fs, Platform::Other) =~= "   .globl main\nmain:\n   movl    $"@ + n
        + ",%eax\n   ret\n"@);
}

} // verus!
