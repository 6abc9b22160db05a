use datetoken::lexer::{DatetokenLexer, DatetokenLexerFactory, Lexer, LexerFactory};
use datetoken::operation::{Operation, Sign};
use datetoken::parser::{DatetokenParser, DatetokenParserFactory, ParseError, Parser, ParserFactory};
use datetoken::token::{TimeUnits, Token};

fn parse(text: &str) -> Result<Vec<Operation>, ParseError> {
    DatetokenParser::new(DatetokenLexer::new(text).unwrap()).parse()
}

#[test]
fn parses_operations_in_order() {
    assert_eq!(parse("now/w+1d-3h@M-9s"), Ok(vec![
        Operation::SnapFloor { unit: TimeUnits::Week },
        Operation::Delta { sign: Sign::Plus, magnitude: 1, unit: TimeUnits::Day },
        Operation::Delta { sign: Sign::Minus, magnitude: 3, unit: TimeUnits::Hour },
        Operation::SnapCeil { unit: TimeUnits::Month },
        Operation::Delta { sign: Sign::Minus, magnitude: 9, unit: TimeUnits::Sec },
    ]));
    assert_eq!(parse("now"), Ok(vec![]));
}

#[test]
fn parse_needs_anchor() {
    assert_eq!(parse("asap/+-123"), Err(ParseError::MissingOrInvalidAnchor));
    assert_eq!(parse("+1d"), Err(ParseError::MissingOrInvalidAnchor));
}

#[test]
fn parse_rejects_malformed_delta() {
    assert_eq!(parse("now+1"), Err(ParseError::MalformedDelta));
    assert_eq!(parse("now+d"), Err(ParseError::MalformedDelta));
    assert_eq!(parse("now-1/d"), Err(ParseError::MalformedDelta));
    assert_eq!(parse("now+"), Err(ParseError::MalformedDelta));
}

#[test]
fn parse_rejects_malformed_snap() {
    assert_eq!(parse("now/"), Err(ParseError::MalformedSnap));
    assert_eq!(parse("now@1"), Err(ParseError::MalformedSnap));
}

#[test]
fn parse_rejects_stray_tokens() {
    assert_eq!(parse("now d"), Err(ParseError::UnexpectedToken(Token::Illegal(" d".to_string()))));
    assert_eq!(parse("nowd"), Err(ParseError::MissingOrInvalidAnchor));
    assert_eq!(parse("now/dd"), Err(ParseError::MalformedSnap));
    assert_eq!(parse("now/d5"), Err(ParseError::UnexpectedToken(Token::Number(5))));
    assert_eq!(parse("now+1dnow"), Err(ParseError::MalformedDelta));
    assert_eq!(parse("now5"), Err(ParseError::UnexpectedToken(Token::Number(5))));
}

#[test]
fn parser_factory_opens_parsers() {
    let factory = DatetokenParserFactory::new(DatetokenLexerFactory);
    let mut parser = factory.new_parser(" now-2M ").unwrap();
    assert_eq!(parser.parse(), Ok(vec![Operation::Delta {
        sign: Sign::Minus,
        magnitude: 2,
        unit: TimeUnits::Month,
    }]));
    assert!(factory.new_parser("").is_err());
}

#[test]
fn traits_forward_to_the_types() {
    let mut lexer = LexerFactory::new_lexer(&DatetokenLexerFactory, "now@d").unwrap();
    assert_eq!(Lexer::next_token(&mut lexer), Some(Token::Now));
    assert_eq!(Lexer::next_token(&mut lexer), Some(Token::SnapEnd));
    assert_eq!(Lexer::next_token(&mut lexer), Some(Token::Unit(TimeUnits::Day)));
    assert_eq!(Lexer::next_token(&mut lexer), None);
    assert!(LexerFactory::new_lexer(&DatetokenLexerFactory, " \t").is_err());
    let mut parser = DatetokenParser::new(DatetokenLexer::new("now@d").unwrap());
    assert_eq!(Parser::parse(&mut parser), Ok(vec![Operation::SnapCeil { unit: TimeUnits::Day }]));
}
