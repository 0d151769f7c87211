//! Emission: the assembly-level syntax tree to final assembly text.
//!
//! For each function: a `.globl` directive, a label, then one line per
//! instruction — three spaces before each mnemonic, operands separated by a
//! comma with no space, registers spelled `%eax`, immediates `$<literal>`.
//! The symbol-name prefix and the trailing stack-note section directive are
//! the only platform-dependent parts, so the platform is an explicit
//! argument and emission is a pure function of tree and platform.

use vstd::prelude::*;

use crate::lexer::TokenType;
use crate::parser_asm::{
    ASMFunction, ASMFunctionV, ASMProgram, ASMProgramV, Instruction, InstructionV, Operand,
    OperandV, Register,
};

verus! {

/// The platform family the text is emitted for.
#[derive(Debug, Clone, Copy, PartialEq, Eq, Structural)]
pub enum Platform {
    /// Wants the trailing `.note.GNU-stack` section directive.
    Linux,
    /// Wants every global symbol name prefixed with an underscore.
    MacOs,
    /// Neither prefix nor trailing directive.
    Other,
}

/// The symbol-name prefix a platform requires.
pub open spec fn prefix_of(p: Platform) -> Seq<char> {
    if p == Platform::MacOs {
        seq!['_']
    } else {
        Seq::empty()
    }
}

/// Whether a platform requires the trailing stack-note directive.
pub open spec fn note_of(p: Platform) -> bool {
    p == Platform::Linux
}

/// The trailing stack-note section directive.
pub open spec fn note_text() -> Seq<char> {
    ".section .note.GNU-stack,\"\",@progbits\n"@
}

/// How one operand is rendered.
pub open spec fn op_text(o: OperandV) -> Seq<char> {
    match o {
        OperandV::Register(Register::Eax) => "%eax"@,
        OperandV::Imm(t) => "$"@ + t.text,
    }
}

/// How one instruction is rendered, as one line.
pub open spec fn instr_text(i: InstructionV) -> Seq<char> {
    match i {
        InstructionV::Ret => "   ret\n"@,
        InstructionV::Mov { src, dst } => "   movl    "@ + op_text(src) + ","@ + op_text(dst)
            + "\n"@,
    }
}

/// A body's instructions rendered in order.
pub open spec fn instrs_text(is: Seq<InstructionV>) -> Seq<char>
    decreases is.len(),
{
    if is.len() == 0 {
        Seq::empty()
    } else {
        instrs_text(is.drop_last()) + instr_text(is.last())
    }
}

/// One function's text: directive, label, body.
pub open spec fn fn_text(f: ASMFunctionV, pre: Seq<char>) -> Seq<char> {
    "   .globl "@ + pre + f.ident.text + "\n"@ + pre + f.ident.text + ":\n"@ + instrs_text(
        f.statement,
    )
}

pub open spec fn prog_text(p: ASMProgramV, pre: Seq<char>) -> Seq<char> {
    match p {
        ASMProgramV::Function(f) => fn_text(f, pre),
    }
}

/// All functions' text, in order, under one prefix.
pub open spec fn fns_text(fs: Seq<ASMProgramV>, pre: Seq<char>) -> Seq<char>
    decreases fs.len(),
{
    if fs.len() == 0 {
        Seq::empty()
    } else {
        fns_text(fs.drop_last(), pre) + prog_text(fs.last(), pre)
    }
}

/// The whole emitted text: every function under the platform's prefix, then
/// the trailing directive exactly where the platform requires it.
pub open spec fn emit_text(fs: Seq<ASMProgramV>, p: Platform) -> Seq<char> {
    fns_text(fs, prefix_of(p)) + if note_of(p) {
        note_text()
    } else {
        Seq::empty()
    }
}

// ---------------------------------------------------------------------------
// Well-formedness: every immediate carries a constant's token.
// ---------------------------------------------------------------------------

pub open spec fn operand_wf(o: OperandV) -> bool {
    match o {
        OperandV::Imm(t) => t.kind == TokenType::Constant,
        OperandV::Register(_) => true,
    }
}

pub open spec fn instr_wf(i: InstructionV) -> bool {
    match i {
        InstructionV::Mov { src, dst } => operand_wf(src) && operand_wf(dst),
        InstructionV::Ret => true,
    }
}

pub open spec fn fn_wf(f: ASMFunctionV) -> bool {
    forall|k: int| 0 <= k < f.statement.len() ==> instr_wf(#[trigger] f.statement[k])
}

pub open spec fn prog_wf(p: ASMProgramV) -> bool {
    match p {
        ASMProgramV::Function(f) => fn_wf(f),
    }
}

/// Every immediate operand in the tree carries a constant's token; emission
/// is only defined for such trees.
pub open spec fn asm_wf(fs: Seq<ASMProgramV>) -> bool {
    forall|k: int| 0 <= k < fs.len() ==> prog_wf(#[trigger] fs[k])
}

fn op_ok(o: &Operand) -> (r: bool)
    ensures
        r == operand_wf(o.deep_view()),
{
    match o {
        Operand::Imm(t) => t.token_type == TokenType::Constant,
        Operand::Register(_) => true,
    }
}

/// Decides [`asm_wf`], so a caller can test it before asking for emission.
#[verifier::loop_isolation(false)]
pub fn asm_ok(ast: &Vec<ASMProgram>) -> (r: bool)
    ensures
        r == asm_wf(ast.deep_view()),
{
    let mut i: usize = 0;
    while i < ast.len()
        invariant
            0 <= i <= ast@.len(),
            forall|k: int| 0 <= k < i ==> prog_wf(#[trigger] ast.deep_view()[k]),
        decreases ast@.len() - i,
    {
        match &ast[i] {
            ASMProgram::Function(f) => {
                let mut j: usize = 0;
                while j < f.statement.len()
                    invariant
                        0 <= j <= f.statement@.len(),
                        forall|k: int|
                            0 <= k < j ==> instr_wf(#[trigger] f.deep_view().statement[k]),
                    decreases f.statement@.len() - j,
                {
                    match &f.statement[j] {
                        Instruction::Ret => {},
                        Instruction::Mov { src, dst } => {
                            if !op_ok(src) || !op_ok(dst) {
                                proof {
                                    assert(!instr_wf(f.deep_view().statement[j as int]));
                                    assert(!prog_wf(ast.deep_view()[i as int]));
                                }
                                return false;
                            }
                        },
                    }
                    j = j + 1;
                }
                proof {
                    assert(fn_wf(f.deep_view()));
                }
            },
        }
        i = i + 1;
    }
    true
}

// ---------------------------------------------------------------------------
// The emitter.
// ---------------------------------------------------------------------------

/// The platform's symbol-name prefix.
fn prefix_str(platform: Platform) -> (r: &'static str)
    ensures
        r@ == prefix_of(platform),
{
    match platform {
        Platform::MacOs => {
            proof {
                reveal_strlit("_");
                assert(("_")@ =~= seq!['_']);
            }
            "_"
        },
        _ => {
            proof {
                reveal_strlit("");
                assert(("")@ =~= Seq::<char>::empty());
            }
            ""
        },
    }
}

/// Renders one operand.
fn op(o: &Operand) -> (r: String)
    requires
        operand_wf(o.deep_view()),
    ensures
        r@ == op_text(o.deep_view()),
{
    match o {
        Operand::Register(r) => {
            match r {
                Register::Eax => "%eax".to_owned(),
            }
        },
        Operand::Imm(imm) => {
            match imm.token_type {
                TokenType::Constant => {
                    let mut s = "$".to_owned();
                    s.append(imm.substring.as_str());
                    s
                },
                _ => vstd::pervasive::unreached(),
            }
        },
    }
}

/// Renders one function's instructions, appending to `out`.
#[verifier::loop_isolation(false)]
fn emit_instructions(statements: &Vec<Instruction>, out: &mut String)
    requires
        forall|k: int|
            0 <= k < statements.deep_view().len() ==> instr_wf(
                #[trigger] statements.deep_view()[k],
            ),
    ensures
        final(out)@ == old(out)@ + instrs_text(statements.deep_view()),
{
    let ghost iv = statements.deep_view();
    let mut i: usize = 0;
    proof {
        assert(iv.take(0) =~= Seq::<InstructionV>::empty());
        assert(out@ =~= old(out)@ + instrs_text(iv.take(0)));
    }
    while i < statements.len()
        invariant
            0 <= i <= statements@.len(),
            out@ == old(out)@ + instrs_text(iv.take(i as int)),
        decreases statements@.len() - i,
    {
        let ghost pre = out@;
        match &statements[i] {
            Instruction::Ret => {
                out.append("   ret\n");
            },
            Instruction::Mov { src, dst } => {
                proof {
                    assert(instr_wf(statements.deep_view()[i as int]));
                    assert(statements.deep_view()[i as int] == InstructionV::Mov {
                        src: src.deep_view(),
                        dst: dst.deep_view(),
                    });
                }
                out.append("   movl    ");
                out.append(op(src).as_str());
                out.append(",");
                out.append(op(dst).as_str());
                out.append("\n");
            },
        }
        proof {
            assert(out@ =~= pre + instr_text(iv[i as int]));
            assert(iv.take(i + 1).drop_last() =~= iv.take(i as int));
            assert(iv.take(i + 1).last() == iv[i as int]);
            assert(out@ =~= old(out)@ + instrs_text(iv.take(i + 1)));
        }
        i = i + 1;
    }
    proof {
        assert(iv.take(statements@.len() as int) =~= iv);
    }
}

/// Renders one function: directive, label, body.
fn emit_function(func: &ASMFunction, platform: Platform, out: &mut String)
    requires
        fn_wf(func.deep_view()),
    ensures
        final(out)@ == old(out)@ + fn_text(func.deep_view(), prefix_of(platform)),
{
    out.append("   .globl ");
    out.append(prefix_str(platform));
    out.append(func.ident.substring.as_str());
    out.append("\n");
    out.append(prefix_str(platform));
    out.append(func.ident.substring.as_str());
    out.append(":\n");
    proof {
        assert forall|k: int|
            0 <= k < func.statement.deep_view().len() implies instr_wf(
            #[trigger] func.statement.deep_view()[k],
        ) by {
            assert(instr_wf(func.deep_view().statement[k]));
        }
    }
    emit_instructions(&func.statement, out);
    proof {
        assert(out@ =~= old(out)@ + fn_text(func.deep_view(), prefix_of(platform)));
    }
}

/// Emits the whole program deterministically: the text is a function of the
/// tree and the platform alone.
#[verifier::loop_isolation(false)]
pub fn emit_code(ast: Vec<ASMProgram>, platform: Platform) -> (r: String)
    requires
        asm_wf(ast.deep_view()),
    ensures
        r@ == emit_text(ast.deep_view(), platform),
{
    let ghost av = ast.deep_view();
    let mut out = String::new();
    proof {
        assert(av.take(0) =~= Seq::<ASMProgramV>::empty());
        assert(out@ =~= fns_text(av.take(0), prefix_of(platform)));
    }
    let mut i: usize = 0;
    while i < ast.len()
        invariant
            0 <= i <= ast@.len(),
            out@ == fns_text(av.take(i as int), prefix_of(platform)),
        decreases ast@.len() - i,
    {
        let ghost pre = out@;
        match &ast[i] {
            ASMProgram::Function(func) => {
                proof {
                    assert(prog_wf(ast.deep_view()[i as int]));
                    assert(ast.deep_view()[i as int] == ASMProgramV::Function(func.deep_view()));
                }
                emit_function(func, platform, &mut out);
            },
        }
        proof {
            assert(out@ =~= pre + prog_text(av[i as int], prefix_of(platform)));
            assert(av.take(i + 1).drop_last() =~= av.take(i as int));
            assert(av.take(i + 1).last() == av[i as int]);
            assert(out@ =~= fns_text(av.take(i + 1), prefix_of(platform)));
        }
        i = i + 1;
    }
    proof {
        assert(av.take(ast@.len() as int) =~= av);
    }
    if matches!(platform, Platform::Linux) {
        out.append(".section .note.GNU-stack,\"\",@progbits\n");
        proof {
            assert(out@ =~= emit_text(av, platform));
        }
    } else {
        proof {
            assert(out@ + Seq::<char>::empty() =~= out@);
            assert(out@ =~= emit_text(av, platform));
        }
    }
    out
}

// ---------------------------------------------------------------------------
// Laws of emission.
// ---------------------------------------------------------------------------

/// Emission has no hidden state: the text is a function of the assembly tree
/// and the platform alone, so emitting the same tree twice — or two equal
/// trees — yields byte-identical text.
pub proof fn lemma_emit_deterministic(a: Seq<ASMProgramV>, b: Seq<ASMProgramV>, p: Platform)
    requires
        a == b,
    ensures
        emit_text(a, p) == emit_text(b, p),
{
}

/// Platform variance: under every platform the emitted text is the same
/// per-function rendering, differing only in the symbol-name prefix — the
/// underscore exactly on the platform that requires it — and in the presence
/// of the trailing stack-note directive.
pub proof fn lemma_platform_variance(fs: Seq<ASMProgramV>)
    ensures
        emit_text(fs, Platform::MacOs) == fns_text(fs, seq!['_']),
        emit_text(fs, Platform::Linux) == fns_text(fs, Seq::empty()) + note_text(),
        emit_text(fs, Platform::Other) == fns_text(fs, Seq::empty()),
{
    assert(fns_text(fs, seq!['_']) + Seq::<char>::empty() =~= fns_text(fs, seq!['_']));
    assert(fns_text(fs, Seq::empty()) + Seq::<char>::empty() =~= fns_text(fs, Seq::empty()));
}

} // verus!
