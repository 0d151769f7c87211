use minicc::emit::{asm_ok, emit_code, Platform};
use minicc::error::{len_errors, ErrorList};
use minicc::lexer::{lex, TokenType};
use minicc::parser_asm::parse_ast;
use minicc::parser_c::parse_program;

fn compile(n: &str, platform: Platform) -> String {
    let src = format!("int main(void) {{ return {}; }}", n);
    let mut errors = ErrorList::new();
    let mut toks = lex(src).unwrap();
    let kinds: Vec<TokenType> = toks.iter().map(|t| t.token_type).collect();
    assert_eq!(
        kinds,
        vec![
            TokenType::KInt,
            TokenType::Identifier,
            TokenType::LParen,
            TokenType::KVoid,
            TokenType::RParen,
            TokenType::LBrace,
            TokenType::KRet,
            TokenType::Constant,
            TokenType::Semi,
            TokenType::RBrace,
        ],
    );
    assert_eq!(toks[7].substring, n);
    let mut cast = parse_program(&mut toks, &mut errors).unwrap();
    assert_eq!(len_errors(&errors), 0);
    let lowered = parse_ast(&mut cast).unwrap();
    assert!(asm_ok(&lowered));
    emit_code(lowered, platform)
}

#[test]
fn compiles_return_zero() {
    assert_eq!(
        compile("0", Platform::Other),
        "   .globl main\nmain:\n   movl    $0,%eax\n   ret\n",
    );
}

#[test]
fn compiles_return_two() {
    assert_eq!(
        compile("2", Platform::Other),
        "   .globl main\nmain:\n   movl    $2,%eax\n   ret\n",
    );
}

#[test]
fn compiles_return_forty_two_everywhere() {
    assert_eq!(
        compile("42", Platform::Other),
        "   .globl main\nmain:\n   movl    $42,%eax\n   ret\n",
    );
    assert_eq!(
        compile("42", Platform::Linux),
        "   .globl main\nmain:\n   movl    $42,%eax\n   ret\n.section .note.GNU-stack,\"\",@progbits\n",
    );
    assert_eq!(
        compile("42", Platform::MacOs),
        "   .globl _main\n_main:\n   movl    $42,%eax\n   ret\n",
    );
}

#[test]
fn compiles_a_large_literal() {
    assert_eq!(
        compile("2147483647", Platform::Other),
        "   .globl main\nmain:\n   movl    $2147483647,%eax\n   ret\n",
    );
}

#[test]
fn leading_zeros_are_kept_verbatim() {
    assert_eq!(
        compile("007", Platform::Other),
        "   .globl main\nmain:\n   movl    $007,%eax\n   ret\n",
    );
}

#[test]
fn the_formatted_program_lexes_parses_and_lowers() {
    let mut errors = ErrorList::new();
    let mut toks = lex("int main(void) {\n    return 0;\n}".to_string()).unwrap();
    let mut cast = parse_program(&mut toks, &mut errors).unwrap();
    assert_eq!(cast.len(), 1);
    let lowered = parse_ast(&mut cast).unwrap();
    assert_eq!(lowered.len(), 1);
    assert!(cast.is_empty());
    let text = emit_code(lowered, Platform::Other);
    assert_eq!(text, "   .globl main\nmain:\n   movl    $0,%eax\n   ret\n");
}
