use minicc::emit::{asm_ok, emit_code, Platform};
use minicc::error::{len_errors, Diagnostic, ErrorList};
use minicc::lexer::{Token, TokenType};
use minicc::parser_asm::{ASMFunction, ASMProgram, Instruction, Operand, Register};

fn ident_token(name: &str) -> Token {
    Token { line: 1, index: 4, token_type: TokenType::Identifier, substring: name.to_string() }
}

fn constant_token(n: &str) -> Token {
    Token { line: 1, index: 24, token_type: TokenType::Constant, substring: n.to_string() }
}

fn return_n_asm(n: &str) -> Vec<ASMProgram> {
    vec![
        ASMProgram::Function(ASMFunction {
            ident: ident_token("main"),
            statement: vec![
                Instruction::Mov {
                    src: Operand::Imm(constant_token(n)),
                    dst: Operand::Register(Register::Eax),
                },
                Instruction::Ret,
            ],
        }),
    ]
}

#[test]
fn emits_the_expected_text() {
    let text = emit_code(return_n_asm("2"), Platform::Other);
    assert_eq!(text, "   .globl main\nmain:\n   movl    $2,%eax\n   ret\n");
}

#[test]
fn emitting_twice_is_byte_identical() {
    let first = emit_code(return_n_asm("42"), Platform::Linux);
    let second = emit_code(return_n_asm("42"), Platform::Linux);
    assert_eq!(first, second);
    let third = emit_code(return_n_asm("42"), Platform::Linux);
    assert_eq!(second, third);
}

#[test]
fn platforms_differ_only_in_prefix_and_note() {
    let other = emit_code(return_n_asm("7"), Platform::Other);
    let linux = emit_code(return_n_asm("7"), Platform::Linux);
    let macos = emit_code(return_n_asm("7"), Platform::MacOs);
    assert_eq!(other, "   .globl main\nmain:\n   movl    $7,%eax\n   ret\n");
    assert_eq!(
        linux,
        "   .globl main\nmain:\n   movl    $7,%eax\n   ret\n.section .note.GNU-stack,\"\",@progbits\n",
    );
    assert_eq!(macos, "   .globl _main\n_main:\n   movl    $7,%eax\n   ret\n");
}

#[test]
fn emits_every_function_in_order() {
    let mut programs = return_n_asm("0");
    programs.push(ASMProgram::Function(ASMFunction {
        ident: ident_token("other"),
        statement: vec![
            Instruction::Mov {
                src: Operand::Imm(constant_token("1")),
                dst: Operand::Register(Register::Eax),
            },
            Instruction::Ret,
        ],
    }));
    let text = emit_code(programs, Platform::Other);
    assert_eq!(
        text,
        "   .globl main\nmain:\n   movl    $0,%eax\n   ret\n   .globl other\nother:\n   movl    $1,%eax\n   ret\n",
    );
}

#[test]
fn well_formedness_check_spots_bad_immediates() {
    assert!(asm_ok(&return_n_asm("3")));
    let bad = vec![
        ASMProgram::Function(ASMFunction {
            ident: ident_token("main"),
            statement: vec![
                Instruction::Mov {
                    src: Operand::Imm(ident_token("oops")),
                    dst: Operand::Register(Register::Eax),
                },
                Instruction::Ret,
            ],
        }),
    ];
    assert!(!asm_ok(&bad));
}

#[test]
fn the_sink_keeps_every_diagnostic_in_order() {
    let mut errors = ErrorList::new();
    assert_eq!(len_errors(&errors), 0);
    errors.push(Diagnostic { line: 1, index: 2, message: "first".to_string() });
    errors.push(Diagnostic { line: 3, index: 4, message: "second".to_string() });
    assert_eq!(len_errors(&errors), 2);
    assert_eq!(errors.get(0).message, "first");
    assert_eq!(errors.get(0).line, 1);
    assert_eq!(errors.get(0).index, 2);
    assert_eq!(errors.get(1).message, "second");
    assert_eq!(errors.get(1).line, 3);
    assert_eq!(errors.get(1).index, 4);
}
