//! The grammar of expressions, turning a token stream into operations.
use vstd::prelude::*;
use crate::lexer::{trimmed, utf8_len, DatetokenLexer, DatetokenLexerFactory, LexerFactory, tokens_of};
use crate::operation::{Operation, Sign};
use crate::token::{Token, TokenError, TokenView};

verus! {

/// Why a token stream is not an expression.
#[derive(Clone, Debug, PartialEq, Eq)]
pub enum ParseError {
    /// The first token is not `now`.
    MissingOrInvalidAnchor,
    /// A `+` or `-` is not followed by a number and a unit.
    MalformedDelta,
    /// A `/` or `@` is not followed by a unit.
    MalformedSnap,
    /// A token stands where an operation should start.
    UnexpectedToken(Token),
}

/// What a `ParseError` stands for.
pub enum ParseErrorView {
    MissingOrInvalidAnchor,
    MalformedDelta,
    MalformedSnap,
    UnexpectedToken(TokenView),
}

impl View for ParseError {
    type V = ParseErrorView;

    open spec fn view(&self) -> ParseErrorView {
        match self {
            ParseError::MissingOrInvalidAnchor => ParseErrorView::MissingOrInvalidAnchor,
            ParseError::MalformedDelta => ParseErrorView::MalformedDelta,
            ParseError::MalformedSnap => ParseErrorView::MalformedSnap,
            ParseError::UnexpectedToken(t) => ParseErrorView::UnexpectedToken(t@),
        }
    }
}

/// `op` put in front of the operations of `rest`, or the error of `rest`.
pub open spec fn prepend(
    p: Seq<Operation>,
    rest: Result<Seq<Operation>, ParseErrorView>,
) -> Result<Seq<Operation>, ParseErrorView> {
    match rest {
        Ok(ops) => Ok(p + ops),
        Err(e) => Err(e),
    }
}

/// The operations that the tokens `ts`, read after the anchor, stand for.
pub open spec fn parse_operations(ts: Seq<TokenView>) -> Result<Seq<Operation>, ParseErrorView>
    decreases ts.len(),
{
    if ts.len() == 0 {
        Ok(seq![])
    } else {
        match ts[0] {
            TokenView::Add | TokenView::Sub => {
                let sign = if ts[0] is Add {
                    Sign::Plus
                } else {
                    Sign::Minus
                };
                if ts.len() >= 3 && ts[1] is Number && ts[2] is Unit {
                    let op = Operation::Delta {
                        sign,
                        magnitude: ts[1]->Number_0,
                        unit: ts[2]->Unit_0,
                    };
                    prepend(seq![op], parse_operations(ts.subrange(3, ts.len() as int)))
                } else {
                    Err(ParseErrorView::MalformedDelta)
                }
            },
            TokenView::SnapBegin | TokenView::SnapEnd => {
                if ts.len() >= 2 && ts[1] is Unit {
                    let unit = ts[1]->Unit_0;
                    let op = if ts[0] is SnapBegin {
                        Operation::SnapFloor { unit }
                    } else {
                        Operation::SnapCeil { unit }
                    };
                    prepend(seq![op], parse_operations(ts.subrange(2, ts.len() as int)))
                } else {
                    Err(ParseErrorView::MalformedSnap)
                }
            },
            t => Err(ParseErrorView::UnexpectedToken(t)),
        }
    }
}

/// The operations that a whole token stream stands for: `now`, then operations.
pub open spec fn parse_tokens(ts: Seq<TokenView>) -> Result<Seq<Operation>, ParseErrorView> {
    if ts.len() > 0 && ts[0] is Now {
        parse_operations(ts.drop_first())
    } else {
        Err(ParseErrorView::MissingOrInvalidAnchor)
    }
}

/// The operations of an expression text, or why it has none.
pub open spec fn parse_text(text: Seq<char>) -> Result<Seq<Operation>, ParseErrorView> {
    parse_tokens(tokens_of(text))
}

/// A consumer of tokens that builds the list of operations.
pub trait Parser {
    /// The tokens that are left to parse.
    spec fn pending(&self) -> Seq<TokenView>;

    /// The operations of the pending tokens, read as a whole expression.
    fn parse(&mut self) -> (r: Result<Vec<Operation>, ParseError>)
        ensures
            match (r, parse_tokens(old(self).pending())) {
                (Ok(v), Ok(ops)) => v@ == ops,
                (Err(e), Err(ev)) => e@ == ev,
                _ => false,
            },
    ;
}

/// Something that opens a parser over an expression.
pub trait ParserFactory {
    /// A parser over the tokens of `text`, which is refused where its trimmed
    /// form takes fewer than three bytes.
    fn new_parser(&self, text: &str) -> (r: Result<DatetokenParser, TokenError>)
        ensures
            r is Err <==> utf8_len(trimmed(text@)) < 3,
            r matches Ok(p) ==> p.remaining() == tokens_of(text@),
    ;
}

/// Parses the tokens of one `DatetokenLexer`.
pub struct DatetokenParser {
    lexer: DatetokenLexer,
}

impl DatetokenParser {
    /// The tokens that are left to parse.
    pub closed spec fn remaining(&self) -> Seq<TokenView> {
        self.lexer.remaining()
    }

    pub fn new(lexer: DatetokenLexer) -> (r: DatetokenParser)
        ensures
            r.remaining() == lexer.remaining(),
    {
        DatetokenParser { lexer }
    }

    /// The operations of the remaining tokens, read as a whole expression.
    pub fn parse(&mut self) -> (r: Result<Vec<Operation>, ParseError>)
        ensures
            match (r, parse_tokens(old(self).remaining())) {
                (Ok(v), Ok(ops)) => v@ == ops,
                (Err(e), Err(ev)) => e@ == ev,
                _ => false,
            },
    {
        let ghost all = self.lexer.remaining();
        match self.lexer.next_token() {
            Some(Token::Now) => {},
            _ => return Err(ParseError::MissingOrInvalidAnchor),
        }
        let mut ops: Vec<Operation> = Vec::new();
        assert(all.drop_first() =~= self.lexer.remaining());
        proof {
            match parse_operations(self.lexer.remaining()) {
                Ok(rest) => {
                    assert(ops@ + rest =~= rest);
                },
                Err(_) => {},
            }
        }
        loop
            invariant
                all == old(self).remaining(),
                parse_tokens(all) == prepend(ops@, parse_operations(self.lexer.remaining())),
            decreases self.lexer.remaining().len(),
        {
            let ghost ts = self.lexer.remaining();
            let t = self.lexer.next_token();
            match t {
                None => {
                    assert(ops@ + seq![] =~= ops@);
                    return Ok(ops);
                },
                Some(Token::Add) | Some(Token::Sub) => {
                    let sign = if matches!(t, Some(Token::Add)) { Sign::Plus } else { Sign::Minus };
                    let ghost ts1 = self.lexer.remaining();
                    let n = self.lexer.next_token();
                    let magnitude = match n {
                        Some(Token::Number(k)) => k,
                        _ => return Err(ParseError::MalformedDelta),
                    };
                    let ghost ts2 = self.lexer.remaining();
                    let u = self.lexer.next_token();
                    let unit = match u {
                        Some(Token::Unit(unit)) => unit,
                        _ => return Err(ParseError::MalformedDelta),
                    };
                    assert(ts.subrange(3, ts.len() as int) =~= self.lexer.remaining());
                    let op = Operation::Delta { sign, magnitude, unit };
                    let ghost before = ops@;
                    ops.push(op);
                    proof {
                        match parse_operations(self.lexer.remaining()) {
                            Ok(rest) => {
                                assert(before + (seq![op] + rest) =~= ops@ + rest);
                            },
                            Err(_) => {},
                        }
                    }
                },
                Some(Token::SnapBegin) | Some(Token::SnapEnd) => {
                    let floor = matches!(t, Some(Token::SnapBegin));
                    let u = self.lexer.next_token();
                    let unit = match u {
                        Some(Token::Unit(unit)) => unit,
                        _ => return Err(ParseError::MalformedSnap),
                    };
                    assert(ts.subrange(2, ts.len() as int) =~= self.lexer.remaining());
                    let op = if floor {
                        Operation::SnapFloor { unit }
                    } else {
                        Operation::SnapCeil { unit }
                    };
                    let ghost before = ops@;
                    ops.push(op);
                    proof {
                        match parse_operations(self.lexer.remaining()) {
                            Ok(rest) => {
                                assert(before + (seq![op] + rest) =~= ops@ + rest);
                            },
                            Err(_) => {},
                        }
                    }
                },
                Some(other) => return Err(ParseError::UnexpectedToken(other)),
            }
        }
    }
}

impl Parser for DatetokenParser {
    open spec fn pending(&self) -> Seq<TokenView> {
        self.remaining()
    }

    fn parse(&mut self) -> Result<Vec<Operation>, ParseError> {
        DatetokenParser::parse(self)
    }
}

/// Opens a `DatetokenParser` over a fresh lexer for each expression.
pub struct DatetokenParserFactory {
    lexer_factory: DatetokenLexerFactory,
}

impl DatetokenParserFactory {
    pub fn new(lexer_factory: DatetokenLexerFactory) -> DatetokenParserFactory {
        DatetokenParserFactory { lexer_factory }
    }
}

impl ParserFactory for DatetokenParserFactory {
    fn new_parser(&self, text: &str) -> Result<DatetokenParser, TokenError> {
        match self.lexer_factory.new_lexer(text) {
            Ok(lexer) => Ok(DatetokenParser::new(lexer)),
            Err(e) => Err(e),
        }
    }
}

} // verus!
