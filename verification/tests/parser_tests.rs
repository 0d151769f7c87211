use minicc::error::{len_errors, ErrorList};
use minicc::lexer::lex;
use minicc::parser;
use minicc::parser_c::{self, CExpression, CProgram, CStatement};

#[test]
fn parses_the_smallest_program() {
    let mut errors = ErrorList::new();
    let mut toks = lex("int main(void) { return 0; }".to_string()).unwrap();
    let cast = parser_c::parse_program(&mut toks, &mut errors).unwrap();
    assert_eq!(len_errors(&errors), 0);
    assert!(toks.is_empty());
    assert_eq!(cast.len(), 1);
    let CProgram::Function(f) = &cast[0];
    assert_eq!(f.ret_type.substring, "int");
    assert_eq!(f.ident.substring, "main");
    assert_eq!(f.statement.len(), 1);
    let CStatement::Return(e) = &f.statement[0];
    let CExpression::Constant(t) = e;
    assert_eq!(t.substring, "0");
}

#[test]
fn parses_two_functions() {
    let mut errors = ErrorList::new();
    let src = "int main(void) { return 0; } int other(void) { return 1; }";
    let mut toks = lex(src.to_string()).unwrap();
    let cast = parser_c::parse_program(&mut toks, &mut errors).unwrap();
    assert_eq!(cast.len(), 2);
    let CProgram::Function(f) = &cast[1];
    assert_eq!(f.ident.substring, "other");
}

#[test]
fn empty_input_is_a_degenerate_valid_program() {
    let mut errors = ErrorList::new();
    let mut toks = lex(String::new()).unwrap();
    let cast = parser_c::parse_program(&mut toks, &mut errors).unwrap();
    assert_eq!(cast.len(), 0);
    assert_eq!(len_errors(&errors), 0);
}

#[test]
fn missing_brace_records_exactly_one_diagnostic() {
    let mut errors = ErrorList::new();
    let mut toks = lex("int main(void) return 0; }".to_string()).unwrap();
    let r = parser_c::parse_program(&mut toks, &mut errors);
    assert!(r.is_none());
    assert_eq!(len_errors(&errors), 1);
    let d = errors.get(0);
    assert_eq!(d.message, "Expected LBrace, got KRet");
    assert_eq!(d.line, 1);
    assert_eq!(d.index, 15);
}

#[test]
fn truncated_input_reports_end_of_input() {
    let mut errors = ErrorList::new();
    let mut toks = lex("int main(".to_string()).unwrap();
    let r = parser_c::parse_program(&mut toks, &mut errors);
    assert!(r.is_none());
    assert_eq!(len_errors(&errors), 1);
    let d = errors.get(0);
    assert_eq!(d.message, "Unexpected end of input");
    assert_eq!(d.line, 0);
    assert_eq!(d.index, 0);
}

#[test]
fn wrong_return_type_reports_expected_type() {
    let mut errors = ErrorList::new();
    let mut toks = lex("void main(void) { return 0; }".to_string()).unwrap();
    let r = parser_c::parse_program(&mut toks, &mut errors);
    assert!(r.is_none());
    assert_eq!(len_errors(&errors), 1);
    let d = errors.get(0);
    assert_eq!(d.message, "Expected type, got KVoid");
    assert_eq!(d.line, 1);
    assert_eq!(d.index, 0);
}

#[test]
fn missing_name_reports_expected_identifier() {
    let mut errors = ErrorList::new();
    let mut toks = lex("int 5(void) { return 0; }".to_string()).unwrap();
    let r = parser_c::parse_program(&mut toks, &mut errors);
    assert!(r.is_none());
    assert_eq!(len_errors(&errors), 1);
    let d = errors.get(0);
    assert_eq!(d.message, "Expected Identifier, got Constant");
    assert_eq!(d.line, 1);
    assert_eq!(d.index, 4);
}

#[test]
fn non_constant_return_reports_expected_constant() {
    let mut errors = ErrorList::new();
    let mut toks = lex("int main(void) { return x; }".to_string()).unwrap();
    let r = parser_c::parse_program(&mut toks, &mut errors);
    assert!(r.is_none());
    assert_eq!(len_errors(&errors), 1);
    let d = errors.get(0);
    assert_eq!(d.message, "Expected Constant, got Identifier");
    assert_eq!(d.line, 1);
    assert_eq!(d.index, 24);
}

#[test]
fn missing_semicolon_reports_expected_semi() {
    let mut errors = ErrorList::new();
    let mut toks = lex("int main(void) { return 0 }".to_string()).unwrap();
    let r = parser_c::parse_program(&mut toks, &mut errors);
    assert!(r.is_none());
    assert_eq!(len_errors(&errors), 1);
    let d = errors.get(0);
    assert_eq!(d.message, "Expected Semi, got RBrace");
    assert_eq!(d.line, 1);
    assert_eq!(d.index, 26);
}

#[test]
fn second_function_failure_stops_the_parse() {
    let mut errors = ErrorList::new();
    let src = "int main(void) { return 0; } int oops(void) { return }";
    let mut toks = lex(src.to_string()).unwrap();
    let r = parser_c::parse_program(&mut toks, &mut errors);
    assert!(r.is_none());
    assert_eq!(len_errors(&errors), 1);
    let d = errors.get(0);
    assert_eq!(d.message, "Expected Constant, got RBrace");
}

#[test]
fn first_parser_accepts_the_same_program() {
    let mut errors = ErrorList::new();
    let mut toks = lex("int main(void) { return 2; }".to_string()).unwrap();
    let programs = parser::parse_program(&mut toks, &mut errors).unwrap();
    assert_eq!(programs.len(), 1);
    assert!(matches!(programs[0], parser::Program::Function(_)));
    assert_eq!(len_errors(&errors), 0);
}

#[test]
fn first_parser_records_the_same_diagnostic() {
    let mut errors = ErrorList::new();
    let mut toks = lex("int main(void) return 0; }".to_string()).unwrap();
    let r = parser::parse_program(&mut toks, &mut errors);
    assert!(r.is_none());
    assert_eq!(len_errors(&errors), 1);
    let d = errors.get(0);
    assert_eq!(d.message, "Expected LBrace, got KRet");
    assert_eq!(d.line, 1);
    assert_eq!(d.index, 15);
}
