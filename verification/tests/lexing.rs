use gshell::ast::{CommandNode, RedirectionKind, ShellExpr};
use gshell::lexer::{Lexer, Token};
use gshell::numbers::{parse_i32, parse_unsigned, padded_decimal};
use gshell::parser::{ParseErrorKind, ParsedCommand, Parser};
use gshell::shell::ShellError;

#[test]
fn unterminated_quotes_are_incomplete_and_bad_operators_invalid() {
    let parser = Parser::default();
    assert_eq!(parser.parse("echo 'x").unwrap_err().kind, ParseErrorKind::Incomplete);
    assert_eq!(parser.parse("echo \"x").unwrap_err().kind, ParseErrorKind::Incomplete);
    assert_eq!(parser.parse("echo x\\").unwrap_err().kind, ParseErrorKind::Incomplete);
    assert_eq!(parser.parse("a &&").unwrap_err().kind, ParseErrorKind::Incomplete);
    assert_eq!(parser.parse("| a").unwrap_err().kind, ParseErrorKind::Invalid);
    assert_eq!(parser.parse("echo a\0b").unwrap_err().kind, ParseErrorKind::Invalid);
    assert_eq!(parser.parse("   "), Ok(ParsedCommand::Empty));
}

#[test]
fn lexer_reports_errors_as_shell_errors() {
    match Lexer.tokenize("echo 'open") {
        Err(ShellError::Message(m)) => assert!(!m.is_empty()),
        other => panic!("unexpected {:?}", other),
    }
    let tokens = Lexer.tokenize("a & b").expect("tokens");
    assert_eq!(tokens.len(), 3);
    assert_eq!(tokens[1], Token::Ampersand);
}

#[test]
fn heredoc_bodies_are_attached_to_their_command() {
    let parsed = Parser::default().parse("cat <<EOF\nhello\nEOF").expect("parse");
    match parsed {
        ParsedCommand::Expr(ShellExpr::Command(CommandNode::Simple(s))) => {
            assert_eq!(s.redirections.len(), 1);
            assert_eq!(
                s.redirections[0].kind,
                RedirectionKind::HereDoc { body: "hello\n".to_string(), expand: true }
            );
        }
        other => panic!("unexpected {:?}", other),
    }
    let err = Parser::default().parse("cat <<EOF\nhello").unwrap_err();
    assert_eq!(err.kind, ParseErrorKind::Incomplete);
}

#[test]
fn numbers_parse_within_their_bounds() {
    assert_eq!(parse_unsigned("255", 255), Some(255));
    assert_eq!(parse_unsigned("256", 255), None);
    assert_eq!(parse_unsigned("", 255), None);
    assert_eq!(parse_unsigned("1a", 255), None);
    assert_eq!(parse_i32("-2147483648"), Some(i32::MIN));
    assert_eq!(parse_i32("2147483648"), None);
    assert_eq!(parse_i32("+7"), Some(7));
    let d: String = padded_decimal(42, 5).into_iter().collect();
    assert_eq!(d, "   42");
    let d: String = padded_decimal(123456, 3).into_iter().collect();
    assert_eq!(d, "123456");
}

#[test]
fn surrounding_spaces_leave_tokens_unchanged() {
    let lexer = Lexer;
    let plain = lexer.tokenize("echo \"a b\" | wc -l > out").expect("line should tokenize");
    let before = lexer.tokenize(" echo \"a b\" | wc -l > out").expect("line should tokenize");
    let after = lexer.tokenize("echo \"a b\" | wc -l > out ").expect("line should tokenize");
    assert_eq!(plain, before);
    assert_eq!(plain, after);
}
