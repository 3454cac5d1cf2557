use kyomu_regex::lex::Lexer;
use kyomu_regex::parse::{Node, Parser};

#[test]
fn expression() {
    let mut parser = Parser::new(Lexer::new(r"a|(bc)*"));
    assert_eq!(
        parser.expr(),
        Ok(Node::NdOr(
            Box::new(Node::NdChar('a')),
            Box::new(Node::NdStar(Box::new(Node::NdConcat(
                Box::new(Node::NdChar('b')),
                Box::new(Node::NdChar('c'))
            ))))
        ))
    );
}

#[test]
fn plus_operator() {
    let mut parse = Parser::new(Lexer::new(r"a+b?"));
    assert_eq!(
        parse.expr(),
        Ok(Node::NdConcat(
            Box::new(Node::NdPlus(Box::new(Node::NdChar('a')))),
            Box::new(Node::NdQuestion(Box::new(Node::NdChar('b'))))
        ))
    );
}

use kyomu_regex::lex::Token;
use kyomu_regex::parse::error_msg;

fn parse(pattern: &str) -> Result<Node, String> {
    Parser::new(Lexer::new(pattern)).parse()
}

fn ch(c: char) -> Box<Node> {
    Box::new(Node::NdChar(c))
}

#[test]
fn parse_empty_pattern_is_empty_sequence() {
    assert_eq!(parse(""), Ok(Node::NdEps));
    assert_eq!(parse(" \t\n"), Ok(Node::NdEps));
    assert_eq!(parse("()"), Ok(Node::NdEps));
}

#[test]
fn parse_concatenation_nests_to_the_right() {
    assert_eq!(
        parse("abc"),
        Ok(Node::NdConcat(ch('a'), Box::new(Node::NdConcat(ch('b'), ch('c')))))
    );
}

#[test]
fn parse_alternation_nests_to_the_right() {
    assert_eq!(parse("a|b|c"), Ok(Node::NdOr(ch('a'), Box::new(Node::NdOr(ch('b'), ch('c'))))));
}

#[test]
fn parse_concatenation_binds_tighter_than_alternation() {
    assert_eq!(
        parse("ab|c"),
        Ok(Node::NdOr(Box::new(Node::NdConcat(ch('a'), ch('b'))), ch('c')))
    );
}

#[test]
fn parse_quantifier_binds_tighter_than_concatenation() {
    assert_eq!(parse("ab*"), Ok(Node::NdConcat(ch('a'), Box::new(Node::NdStar(ch('b'))))));
    assert_eq!(
        parse("(ab)*"),
        Ok(Node::NdStar(Box::new(Node::NdConcat(ch('a'), ch('b')))))
    );
}

#[test]
fn parse_each_quantifier() {
    assert_eq!(parse("a*"), Ok(Node::NdStar(ch('a'))));
    assert_eq!(parse("a+"), Ok(Node::NdPlus(ch('a'))));
    assert_eq!(parse("a?"), Ok(Node::NdQuestion(ch('a'))));
    assert_eq!(parse("a{2,3}"), Ok(Node::NdBracket(2, Some(3), ch('a'))));
    assert_eq!(parse("a{2,}"), Ok(Node::NdBracket(2, Some(0), ch('a'))));
    assert_eq!(parse("a{2}"), Ok(Node::NdBracket(2, None, ch('a'))));
}

#[test]
fn parse_empty_alternatives() {
    assert_eq!(parse("a|"), Ok(Node::NdOr(ch('a'), Box::new(Node::NdEps))));
    assert_eq!(parse("|a"), Ok(Node::NdOr(Box::new(Node::NdEps), ch('a'))));
    assert_eq!(parse("|"), Ok(Node::NdOr(Box::new(Node::NdEps), Box::new(Node::NdEps))));
}

#[test]
fn parse_escaped_parentheses_are_literals() {
    assert_eq!(
        parse("\\(a\\)"),
        Ok(Node::NdConcat(ch('('), Box::new(Node::NdConcat(ch('a'), ch(')')))))
    );
}

#[test]
fn parse_unclosed_group_names_the_missing_parenthesis() {
    assert_eq!(parse("(a"), Err("Expected one of [\"')'\"], found 'ε'".to_string()));
    assert_eq!(parse("((a)"), Err("Expected one of [\"')'\"], found 'ε'".to_string()));
}

#[test]
fn parse_reports_the_first_mismatch() {
    assert_eq!(parse("(*x"), Err("Expected one of [\"')'\"], found '*'".to_string()));
    assert_eq!(parse("(a{1}*"), Err("Expected one of [\"')'\"], found '*'".to_string()));
}

#[test]
fn parse_trailing_input_is_a_mismatch() {
    assert_eq!(parse("a)"), Err("Expected one of [\"'ε'\"], found ')'".to_string()));
    assert_eq!(parse("a**"), Err("Expected one of [\"'ε'\"], found '*'".to_string()));
    assert_eq!(parse("*"), Err("Expected one of [\"'ε'\"], found '*'".to_string()));
    assert_eq!(parse("a{1}{2}"), Err("Expected one of [\"'ε'\"], found 'Bracket'".to_string()));
    assert_eq!(parse("+a"), Err("Expected one of [\"'ε'\"], found '+'".to_string()));
}

#[test]
fn parse_malformed_bracket_reads_as_end_of_input() {
    assert_eq!(parse("a{x}b"), Ok(Node::NdChar('a')));
    assert_eq!(parse("(a{x})"), Err("Expected one of [\"')'\"], found 'ε'".to_string()));
}

#[test]
fn parse_leaves_the_parser_after_the_end_marker() {
    let mut parser = Parser::new(Lexer::new("a{x}b"));
    assert_eq!(parser.parse(), Ok(Node::NdChar('a')));
    assert_eq!(
        parser.parse(),
        Ok(Node::NdConcat(ch('}'), ch('b')))
    );
    assert_eq!(parser.parse(), Ok(Node::NdEps));
}

#[test]
fn parse_failure_leaves_the_parser_at_the_mismatch() {
    let mut parser = Parser::new(Lexer::new("a)b"));
    assert_eq!(parser.expr(), Err("Expected one of [\"'ε'\"], found ')'".to_string()));
    assert_eq!(parser.expr(), Err("Expected one of [\"'ε'\"], found ')'".to_string()));
}

#[test]
fn error_msg_quotes_a_literal_as_itself() {
    assert_eq!(
        error_msg(&[Token::TkRparen], &Token::TkChar('x')),
        "Expected one of [\"')'\"], found 'x'"
    );
}

#[test]
fn error_msg_lists_expected_tokens() {
    assert_eq!(
        error_msg(&[Token::TkLparen, Token::TkChar('_')], &Token::TkStar),
        "Expected one of [\"'(', 'Char'\"], found '*'"
    );
    assert_eq!(
        error_msg(&[Token::TkOr, Token::TkPlus, Token::TkQuestion], &Token::TkBracket(1, None)),
        "Expected one of [\"'|', '+', '?'\"], found 'Bracket'"
    );
    assert_eq!(error_msg(&[], &Token::TkEps), "Expected one of [\"\"], found 'ε'");
}
