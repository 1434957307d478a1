use rlox::keywords::lookup;
use rlox::literal::{Literal, Number};
use rlox::scanner::Scanner;
use rlox::token::Token;
use rlox::token_type::TokenType;

fn scan(source: &str) -> (Vec<Token>, Vec<String>) {
    let mut scanner = Scanner::new(source.to_string());
    let tokens = scanner.scan_tokens().clone();
    (tokens, scanner.reports().clone())
}

fn kinds(source: &str) -> Vec<TokenType> {
    let (tokens, reports) = scan(source);
    assert_eq!(reports, Vec::<String>::new());
    tokens.iter().map(|token| token.token_type).collect()
}

fn lexemes(source: &str) -> Vec<String> {
    scan(source).0.iter().map(|token| token.lexeme.clone()).collect()
}

#[test]
fn scans_punctuation_and_operators() {
    assert_eq!(
        kinds("(){},.-+;*/ ! != = == < <= > >="),
        vec![
            TokenType::LeftParen,
            TokenType::RightParen,
            TokenType::LeftBrace,
            TokenType::RightBrace,
            TokenType::Comma,
            TokenType::Dot,
            TokenType::Minus,
            TokenType::Plus,
            TokenType::Semicolon,
            TokenType::Star,
            TokenType::Slash,
            TokenType::Bang,
            TokenType::BangEqual,
            TokenType::Equal,
            TokenType::EqualEqual,
            TokenType::Less,
            TokenType::LessEqual,
            TokenType::Greater,
            TokenType::GreaterEqual,
            TokenType::Eof,
        ]
    );
}

#[test]
fn two_character_operators_come_before_their_prefixes() {
    assert_eq!(lexemes("!==<=>==="), vec!["!=", "=", "<=", ">=", "==", ""]);
    assert_eq!(
        kinds("!==<=>==="),
        vec![
            TokenType::BangEqual,
            TokenType::Equal,
            TokenType::LessEqual,
            TokenType::GreaterEqual,
            TokenType::EqualEqual,
            TokenType::Eof,
        ]
    );
}

#[test]
fn scans_a_number_with_a_fraction() {
    let (tokens, _) = scan("12.5");
    assert_eq!(tokens.len(), 2);
    assert_eq!(tokens[0].token_type, TokenType::Number);
    assert_eq!(tokens[0].lexeme, "12.5");
    assert_eq!(tokens[0].literal, Some(Literal::Number(Number::Written("12.5".to_string()))));
    assert_eq!(tokens[0].line, 1);
}

#[test]
fn a_point_belongs_to_a_number_only_between_digits() {
    assert_eq!(lexemes("12. .5 1.2.3"), vec!["12", ".", ".", "5", "1.2", ".", "3", ""]);
    assert_eq!(
        kinds("12."),
        vec![TokenType::Number, TokenType::Dot, TokenType::Eof]
    );
}

#[test]
fn the_empty_source_gives_the_end_token_alone() {
    let (tokens, reports) = scan("");
    assert_eq!(reports, Vec::<String>::new());
    assert_eq!(tokens, vec![Token::new(TokenType::Eof, String::new(), None, 1)]);
}

#[test]
fn every_reserved_word_is_a_keyword() {
    assert_eq!(
        kinds("and class else false for fun if nil or print return super this true var while"),
        vec![
            TokenType::And,
            TokenType::Class,
            TokenType::Else,
            TokenType::False,
            TokenType::For,
            TokenType::Fun,
            TokenType::If,
            TokenType::Nil,
            TokenType::Or,
            TokenType::Print,
            TokenType::Return,
            TokenType::Super,
            TokenType::This,
            TokenType::True,
            TokenType::Var,
            TokenType::While,
            TokenType::Eof,
        ]
    );
}

#[test]
fn identifiers_hold_letters_digits_and_underscores() {
    assert_eq!(lexemes("_a1 android For x_y2z"), vec!["_a1", "android", "For", "x_y2z", ""]);
    assert_eq!(
        kinds("_a1 android For x_y2z"),
        vec![
            TokenType::Identifier,
            TokenType::Identifier,
            TokenType::Identifier,
            TokenType::Identifier,
            TokenType::Eof,
        ]
    );
}

#[test]
fn looks_words_up_in_a_slice_of_the_source() {
    let source: Vec<char> = "xwhiley".chars().collect();
    assert_eq!(lookup(&source, 1, 6), Some(TokenType::While));
    assert_eq!(lookup(&source, 1, 5), None);
    assert_eq!(lookup(&source, 0, 6), None);
    assert_eq!(lookup(&source, 3, 3), None);
}

#[test]
fn a_string_keeps_its_text_without_the_quotes() {
    let (tokens, reports) = scan("\"hello world\"");
    assert_eq!(reports, Vec::<String>::new());
    assert_eq!(tokens[0].token_type, TokenType::String);
    assert_eq!(tokens[0].lexeme, "\"hello world\"");
    assert_eq!(tokens[0].literal, Some(Literal::String("hello world".to_string())));
    let (tokens, _) = scan("\"\"");
    assert_eq!(tokens[0].literal, Some(Literal::String(String::new())));
}

#[test]
fn a_string_may_span_lines() {
    let (tokens, reports) = scan("\"one\ntwo\nthree\" x");
    assert_eq!(reports, Vec::<String>::new());
    assert_eq!(tokens[0].literal, Some(Literal::String("one\ntwo\nthree".to_string())));
    assert_eq!(tokens[0].line, 3);
    assert_eq!(tokens[1].line, 3);
}

#[test]
fn newlines_count_lines() {
    let (tokens, _) = scan("a\nb\n\nc\n");
    let lines: Vec<usize> = tokens.iter().map(|token| token.line).collect();
    assert_eq!(lines, vec![1, 2, 4, 5]);
}

#[test]
fn whitespace_is_dropped() {
    assert_eq!(lexemes(" \t a \r\n b\t"), vec!["a", "b", ""]);
}

#[test]
fn a_line_comment_runs_to_the_end_of_the_line() {
    assert_eq!(lexemes("a // b c\nd // e"), vec!["a", "d", ""]);
    let (tokens, _) = scan("// only\nx");
    assert_eq!(tokens[0].line, 2);
}

#[test]
fn a_block_comment_runs_to_the_first_closer() {
    assert_eq!(lexemes("a /* b\n c */ d"), vec!["a", "d", ""]);
    assert_eq!(lexemes("a /* b * c / d ** */ e"), vec!["a", "e", ""]);
    assert_eq!(lexemes("a /**/ b"), vec!["a", "b", ""]);
    let (tokens, reports) = scan("/* 1\n2\n3 */ x");
    assert_eq!(reports, Vec::<String>::new());
    assert_eq!(tokens[0].line, 3);
}

#[test]
fn block_comments_do_not_nest() {
    assert_eq!(lexemes("/* a /* b */ c */"), vec!["c", "*", "/", ""]);
}

#[test]
fn an_open_block_comment_is_reported() {
    let (tokens, reports) = scan("a /* b\nc");
    assert_eq!(reports, vec!["[line 2] Error : Unterminated multiline comment"]);
    assert_eq!(tokens.len(), 2);
    let (_, reports) = scan("/*/");
    assert_eq!(reports, vec!["[line 1] Error : Unterminated multiline comment"]);
}

#[test]
fn an_open_string_is_reported_on_its_last_line() {
    let (tokens, reports) = scan("x \"abc\ndef");
    assert_eq!(reports, vec!["[line 2] Error : Unterminated string"]);
    assert_eq!(tokens.len(), 2);
    assert_eq!(tokens[1].token_type, TokenType::Eof);
    assert_eq!(tokens[1].line, 2);
}

#[test]
fn scanning_goes_on_behind_a_fault() {
    let (tokens, reports) = scan("a @ b\n# c $");
    assert_eq!(
        reports,
        vec![
            "[line 1] Error : Unexpected character",
            "[line 2] Error : Unexpected character",
            "[line 2] Error : Unexpected character",
        ]
    );
    let names: Vec<String> = tokens.iter().map(|token| token.lexeme.clone()).collect();
    assert_eq!(names, vec!["a", "b", "c", ""]);
}

#[test]
fn characters_beyond_ascii_are_faults_outside_of_strings() {
    let (tokens, reports) = scan("é \"é\" ü");
    assert_eq!(reports.len(), 2);
    assert_eq!(tokens[0].literal, Some(Literal::String("é".to_string())));
    assert_eq!(tokens[0].lexeme, "\"é\"");
}

#[test]
fn a_second_scan_adds_another_end_token_only() {
    let mut scanner = Scanner::new("a".to_string());
    assert_eq!(scanner.scan_tokens().len(), 2);
    assert_eq!(scanner.scan_tokens().len(), 3);
}
