use std::collections::VecDeque;

use minicc::lexer::{lex, Token, TokenType, Tokens};

fn ret_n(n: i32) -> VecDeque<Token> {
    VecDeque::from(vec![
        Token {
            token_type: TokenType::KInt,
            line: 1,
            index: 0,
            substring: "int".to_string(),
        },
        Token {
            token_type: TokenType::Identifier,
            line: 1,
            index: 3,
            substring: "main".to_string(),
        },
        Token {
            token_type: TokenType::LParen,
            line: 1,
            index: 7,
            substring: "(".to_string(),
        },
        Token {
            token_type: TokenType::KVoid,
            line: 1,
            index: 8,
            substring: "void".to_string(),
        },
        Token {
            token_type: TokenType::RParen,
            line: 1,
            index: 12,
            substring: ")".to_string(),
        },
        Token {
            token_type: TokenType::LBrace,
            line: 1,
            index: 13,
            substring: "{".to_string(),
        },
        Token {
            token_type: TokenType::KRet,
            line: 2,
            index: 14,
            substring: "return".to_string(),
        },
        Token {
            token_type: TokenType::Constant,
            line: 2,
            index: 20,
            substring: n.to_string(),
        },
        Token {
            token_type: TokenType::Semi,
            line: 2,
            index: 20 + n.to_string().len(),
            substring: ";".to_string(),
        },
        Token {
            token_type: TokenType::RBrace,
            line: 3,
            index: 21 + n.to_string().len(),
            substring: "}".to_string(),
        },
    ])
}

fn ignore_lines(t: Tokens) -> Tokens {
    t.iter().map(|t| Token { line: 0, index: 0, ..t.clone() }).collect()
}

#[test]
fn lexes_nothing() {
    assert_eq!(lex(String::new()).unwrap(), vec![]);
}

#[test]
fn lexes_many_tokens() {
    let src = r"
        int main(void) {
            return 0;
        }";
    assert_eq!(ignore_lines(lex(src.to_string()).unwrap()), ignore_lines(ret_n(0)));
}

#[test]
fn line_comments() {
    let src = r"
        // this shouldn't trip it up!
        int main(void) {
            // this shouldn't trip it up!
            return 0;
        }
        // this shouldn't trip it up!
        ";
    assert_eq!(ignore_lines(lex(src.to_string()).unwrap()), ignore_lines(ret_n(0)));
}

#[test]
fn block_comments() {
    let src = r"
        /* /* it doesn't support nested comments :( */
        int /* it should ignore this */ main(void) {
            return 0; /* and this */
        }
        /* ham burger */
        ";
    assert_eq!(ignore_lines(lex(src.to_string()).unwrap()), ignore_lines(ret_n(0)));
}

#[test]
fn return_token_reports_line_two() {
    let toks = lex("int main(void) {\n    return 0;\n}".to_string()).unwrap();
    assert_eq!(toks.len(), 10);
    let ret = &toks[6];
    assert_eq!(ret.token_type, TokenType::KRet);
    assert_eq!(ret.substring, "return");
    assert_eq!(ret.line, 2);
    assert_eq!(ret.index, 4);
}

#[test]
fn positions_follow_the_stripped_text() {
    let toks = lex("int  x".to_string()).unwrap();
    assert_eq!(toks.len(), 2);
    assert_eq!(toks[0].line, 1);
    assert_eq!(toks[0].index, 0);
    assert_eq!(toks[1].line, 1);
    assert_eq!(toks[1].index, 5);
}

#[test]
fn keywords_win_over_identifiers() {
    let toks = lex("int void return".to_string()).unwrap();
    let kinds: Vec<TokenType> = toks.iter().map(|t| t.token_type).collect();
    assert_eq!(kinds, vec![TokenType::KInt, TokenType::KVoid, TokenType::KRet]);
}

#[test]
fn keyword_prefixes_are_identifiers() {
    let toks = lex("intx returning void3".to_string()).unwrap();
    assert_eq!(toks.len(), 3);
    for t in toks.iter() {
        assert_eq!(t.token_type, TokenType::Identifier);
    }
    assert_eq!(toks[0].substring, "intx");
    assert_eq!(toks[1].substring, "returning");
    assert_eq!(toks[2].substring, "void3");
}

#[test]
fn constant_needs_a_word_boundary() {
    assert!(lex("123abc".to_string()).is_none());
    let toks = lex("123".to_string()).unwrap();
    assert_eq!(toks.len(), 1);
    assert_eq!(toks[0].token_type, TokenType::Constant);
    assert_eq!(toks[0].substring, "123");
}

#[test]
fn unrecognized_input_fails() {
    assert!(lex("int @".to_string()).is_none());
    assert!(lex("#include <stdio.h>".to_string()).is_none());
}

#[test]
fn comment_splice_joins_tokens() {
    let toks = lex("int/*c*/main".to_string()).unwrap();
    assert_eq!(toks.len(), 1);
    assert_eq!(toks[0].token_type, TokenType::Identifier);
    assert_eq!(toks[0].substring, "intmain");
}

#[test]
fn block_comment_spans_lines() {
    let toks = lex("/* a\n b */int".to_string()).unwrap();
    assert_eq!(toks.len(), 1);
    assert_eq!(toks[0].token_type, TokenType::KInt);
}

#[test]
fn line_comment_without_trailing_newline() {
    let toks = lex("int main // trailing".to_string()).unwrap();
    assert_eq!(toks.len(), 2);
    assert_eq!(toks[0].token_type, TokenType::KInt);
    assert_eq!(toks[1].token_type, TokenType::Identifier);
}

#[test]
fn comments_lex_like_the_plain_text() {
    let with = lex("int /*one*/ main(void) { // two\n return 7; }".to_string()).unwrap();
    let without = lex("int  main(void) { \n return 7; }".to_string()).unwrap();
    let kinds = |t: &Tokens| t.iter().map(|t| t.token_type).collect::<Vec<_>>();
    let texts = |t: &Tokens| t.iter().map(|t| t.substring.clone()).collect::<Vec<_>>();
    assert_eq!(kinds(&with), kinds(&without));
    assert_eq!(texts(&with), texts(&without));
}
