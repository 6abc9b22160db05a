//! The lexical symbols of the expression language.
use vstd::prelude::*;
use crate::lexer::chars_of;

verus! {

/// A day of the week, spelled as a lowercase three-letter word.
#[derive(Clone, Copy, Debug, PartialEq, Eq, Structural)]
pub enum Weekdays {
    Mon,
    Tue,
    Wed,
    Thu,
    Fri,
    Sat,
    Sun,
}

/// A unit of time, spelled as one case-sensitive letter.
#[derive(Clone, Copy, Debug, PartialEq, Eq, Structural)]
pub enum TimeUnits {
    Sec,
    Min,
    Hour,
    Day,
    Week,
    Month,
    Year,
}

/// One lexical symbol of an expression.
#[derive(Clone, Debug, PartialEq, Eq)]
pub enum Token {
    Now,
    SnapBegin,
    SnapEnd,
    Add,
    Sub,
    Unit(TimeUnits),
    Weekday(Weekdays),
    Number(u16),
    Illegal(String),
}

/// What a `Token` stands for, with the text of an illegal one as characters.
pub enum TokenView {
    Now,
    SnapBegin,
    SnapEnd,
    Add,
    Sub,
    Unit(TimeUnits),
    Weekday(Weekdays),
    Number(u16),
    Illegal(Seq<char>),
}

impl View for Token {
    type V = TokenView;

    open spec fn view(&self) -> TokenView {
        match self {
            Token::Now => TokenView::Now,
            Token::SnapBegin => TokenView::SnapBegin,
            Token::SnapEnd => TokenView::SnapEnd,
            Token::Add => TokenView::Add,
            Token::Sub => TokenView::Sub,
            Token::Unit(u) => TokenView::Unit(*u),
            Token::Weekday(d) => TokenView::Weekday(*d),
            Token::Number(n) => TokenView::Number(*n),
            Token::Illegal(s) => TokenView::Illegal(s@),
        }
    }
}

/// The text could not be turned into a token, or is too short to be an expression.
#[derive(Clone, Copy, Debug, PartialEq, Eq, Structural)]
pub struct TokenError;

pub open spec fn is_word1(w: Seq<char>, a: char) -> bool {
    w.len() == 1 && w[0] == a
}

pub open spec fn is_word3(w: Seq<char>, a: char, b: char, c: char) -> bool {
    w.len() == 3 && w[0] == a && w[1] == b && w[2] == c
}

/// The unit that the word `w` spells, if any.
pub open spec fn unit_of_word(w: Seq<char>) -> Option<TimeUnits> {
    if is_word1(w, 's') {
        Some(TimeUnits::Sec)
    } else if is_word1(w, 'm') {
        Some(TimeUnits::Min)
    } else if is_word1(w, 'h') {
        Some(TimeUnits::Hour)
    } else if is_word1(w, 'd') {
        Some(TimeUnits::Day)
    } else if is_word1(w, 'w') {
        Some(TimeUnits::Week)
    } else if is_word1(w, 'M') {
        Some(TimeUnits::Month)
    } else if is_word1(w, 'y') {
        Some(TimeUnits::Year)
    } else {
        None
    }
}

/// The weekday that the word `w` spells, if any.
pub open spec fn weekday_of_word(w: Seq<char>) -> Option<Weekdays> {
    if is_word3(w, 'm', 'o', 'n') {
        Some(Weekdays::Mon)
    } else if is_word3(w, 't', 'u', 'e') {
        Some(Weekdays::Tue)
    } else if is_word3(w, 'w', 'e', 'd') {
        Some(Weekdays::Wed)
    } else if is_word3(w, 't', 'h', 'u') {
        Some(Weekdays::Thu)
    } else if is_word3(w, 'f', 'r', 'i') {
        Some(Weekdays::Fri)
    } else if is_word3(w, 's', 'a', 't') {
        Some(Weekdays::Sat)
    } else if is_word3(w, 's', 'u', 'n') {
        Some(Weekdays::Sun)
    } else {
        None
    }
}

/// The token that the text `w` spells on its own, if any.
pub open spec fn token_of_word(w: Seq<char>) -> Option<TokenView> {
    if is_word3(w, 'n', 'o', 'w') {
        Some(TokenView::Now)
    } else if is_word1(w, '/') {
        Some(TokenView::SnapBegin)
    } else if is_word1(w, '@') {
        Some(TokenView::SnapEnd)
    } else if is_word1(w, '+') {
        Some(TokenView::Add)
    } else if is_word1(w, '-') {
        Some(TokenView::Sub)
    } else if let Some(u) = unit_of_word(w) {
        Some(TokenView::Unit(u))
    } else if let Some(d) = weekday_of_word(w) {
        Some(TokenView::Weekday(d))
    } else {
        None
    }
}

/// The short label of a token shown in diagnostics.
pub open spec fn label_of(t: TokenView) -> Seq<char> {
    match t {
        TokenView::Now => seq!['n', 'o', 'w'],
        TokenView::SnapBegin => seq!['/'],
        TokenView::SnapEnd => seq!['@'],
        _ => seq!['I', 'L', 'L', 'E', 'G', 'A', 'L'],
    }
}

impl TimeUnits {
    /// The unit that the word `w` spells.
    pub fn from_chars(w: &[char]) -> (r: Result<TimeUnits, TokenError>)
        ensures
            r matches Ok(u) ==> unit_of_word(w@) == Some(u),
            r is Err <==> unit_of_word(w@) is None,
    {
        if w.len() != 1 {
            return Err(TokenError);
        }
        let c = w[0];
        if c == 's' {
            Ok(TimeUnits::Sec)
        } else if c == 'm' {
            Ok(TimeUnits::Min)
        } else if c == 'h' {
            Ok(TimeUnits::Hour)
        } else if c == 'd' {
            Ok(TimeUnits::Day)
        } else if c == 'w' {
            Ok(TimeUnits::Week)
        } else if c == 'M' {
            Ok(TimeUnits::Month)
        } else if c == 'y' {
            Ok(TimeUnits::Year)
        } else {
            Err(TokenError)
        }
    }
}

fn is_chars3(w: &[char], a: char, b: char, c: char) -> (r: bool)
    ensures
        r == is_word3(w@, a, b, c),
{
    w.len() == 3 && w[0] == a && w[1] == b && w[2] == c
}

impl Weekdays {
    /// The weekday that the word `w` spells.
    pub fn from_chars(w: &[char]) -> (r: Result<Weekdays, TokenError>)
        ensures
            r matches Ok(d) ==> weekday_of_word(w@) == Some(d),
            r is Err <==> weekday_of_word(w@) is None,
    {
        if is_chars3(w, 'm', 'o', 'n') {
            Ok(Weekdays::Mon)
        } else if is_chars3(w, 't', 'u', 'e') {
            Ok(Weekdays::Tue)
        } else if is_chars3(w, 'w', 'e', 'd') {
            Ok(Weekdays::Wed)
        } else if is_chars3(w, 't', 'h', 'u') {
            Ok(Weekdays::Thu)
        } else if is_chars3(w, 'f', 'r', 'i') {
            Ok(Weekdays::Fri)
        } else if is_chars3(w, 's', 'a', 't') {
            Ok(Weekdays::Sat)
        } else if is_chars3(w, 's', 'u', 'n') {
            Ok(Weekdays::Sun)
        } else {
            Err(TokenError)
        }
    }
}

impl Token {
    /// The token that the text `w` spells on its own.
    pub fn from_chars(w: &[char]) -> (r: Result<Token, TokenError>)
        ensures
            r matches Ok(t) ==> token_of_word(w@) == Some(t@),
            r is Err <==> token_of_word(w@) is None,
    {
        if is_chars3(w, 'n', 'o', 'w') {
            return Ok(Token::Now);
        }
        if w.len() == 1 {
            let c = w[0];
            if c == '/' {
                return Ok(Token::SnapBegin);
            } else if c == '@' {
                return Ok(Token::SnapEnd);
            } else if c == '+' {
                return Ok(Token::Add);
            } else if c == '-' {
                return Ok(Token::Sub);
            }
        }
        match TimeUnits::from_chars(w) {
            Ok(u) => Ok(Token::Unit(u)),
            Err(_) => match Weekdays::from_chars(w) {
                Ok(d) => Ok(Token::Weekday(d)),
                Err(e) => Err(e),
            },
        }
    }

    /// The short label shown for this token in diagnostics.
    pub fn display(&self) -> (r: &'static str)
        ensures
            r@ == label_of(self@),
    {
        proof {
            reveal_strlit("now");
            reveal_strlit("/");
            reveal_strlit("@");
            reveal_strlit("ILLEGAL");
        }
        match self {
            Token::Now => "now",
            Token::SnapBegin => "/",
            Token::SnapEnd => "@",
            _ => "ILLEGAL",
        }
    }
}


impl std::str::FromStr for Weekdays {
    type Err = TokenError;

    fn from_str(s: &str) -> Result<Weekdays, TokenError> {
        let w = chars_of(s);
        Weekdays::from_chars(w.as_slice())
    }
}

impl std::str::FromStr for TimeUnits {
    type Err = TokenError;

    fn from_str(s: &str) -> Result<TimeUnits, TokenError> {
        let w = chars_of(s);
        TimeUnits::from_chars(w.as_slice())
    }
}

impl std::str::FromStr for Token {
    type Err = TokenError;

    fn from_str(s: &str) -> Result<Token, TokenError> {
        let w = chars_of(s);
        Token::from_chars(w.as_slice())
    }
}

} // verus!
