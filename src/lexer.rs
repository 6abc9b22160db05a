//! Scanning of expression text into tokens, one token at a time.
use vstd::prelude::*;
use crate::token::{token_of_word, Token, TokenError, TokenView};

verus! {

/// A source of tokens that is read one token at a time.
pub trait Lexer {
    /// The tokens that the lexer has yet to hand out.
    spec fn pending(&self) -> Seq<TokenView>;

    /// The next token, or `None` once the text is exhausted.
    fn next_token(&mut self) -> (r: Option<Token>)
        ensures
            old(self).pending() == match r {
                Some(x) => seq![x@] + final(self).pending(),
                None => Seq::<TokenView>::empty(),
            },
    ;
}

/// Something that opens a lexer over an expression.
pub trait LexerFactory {
    /// A lexer over `text`, which is refused where its trimmed form takes fewer
    /// than three bytes.
    fn new_lexer(&self, text: &str) -> (r: Result<DatetokenLexer, TokenError>)
        ensures
            r is Err <==> utf8_len(trimmed(text@)) < 3,
            r matches Ok(l) ==> l.remaining() == tokens_of(text@),
    ;
}

/// Characters that carry the Unicode `White_Space` property.
pub open spec fn is_white_space(c: char) -> bool {
    let v = c as u32;
    (0x09 <= v <= 0x0D) || v == 0x20 || v == 0x85 || v == 0xA0 || v == 0x1680 || (0x2000 <= v
        <= 0x200A) || v == 0x2028 || v == 0x2029 || v == 0x202F || v == 0x205F || v == 0x3000
}

pub open spec fn trim_start(s: Seq<char>) -> Seq<char>
    decreases s.len(),
{
    if s.len() > 0 && is_white_space(s[0]) {
        trim_start(s.drop_first())
    } else {
        s
    }
}

pub open spec fn trim_end(s: Seq<char>) -> Seq<char>
    decreases s.len(),
{
    if s.len() > 0 && is_white_space(s.last()) {
        trim_end(s.drop_last())
    } else {
        s
    }
}

/// `s` without leading and trailing white space.
pub open spec fn trimmed(s: Seq<char>) -> Seq<char> {
    trim_end(trim_start(s))
}

/// Number of bytes that the UTF-8 encoding of `c` takes.
pub open spec fn utf8_width(c: char) -> nat {
    let v = c as u32;
    if v < 0x80 {
        1
    } else if v < 0x800 {
        2
    } else if v < 0x10000 {
        3
    } else {
        4
    }
}

/// Number of bytes that the UTF-8 encoding of `s` takes.
pub open spec fn utf8_len(s: Seq<char>) -> nat
    decreases s.len(),
{
    if s.len() == 0 {
        0
    } else {
        utf8_len(s.drop_last()) + utf8_width(s.last())
    }
}

pub open spec fn is_digit(c: char) -> bool {
    '0' <= c <= '9'
}

pub open spec fn is_letter(c: char) -> bool {
    ('a' <= c <= 'z') || ('A' <= c <= 'Z')
}

/// End of the run of letters that starts at `i`.
pub open spec fn letter_run_end(s: Seq<char>, i: int) -> int
    decreases s.len() - i,
{
    if 0 <= i < s.len() && is_letter(s[i]) {
        letter_run_end(s, i + 1)
    } else {
        i
    }
}

/// End of the run of digits that starts at `i`.
pub open spec fn digit_run_end(s: Seq<char>, i: int) -> int
    decreases s.len() - i,
{
    if 0 <= i < s.len() && is_digit(s[i]) {
        digit_run_end(s, i + 1)
    } else {
        i
    }
}

/// The number that a run of decimal digits spells.
pub open spec fn decimal_value(w: Seq<char>) -> nat
    decreases w.len(),
{
    if w.len() == 0 {
        0
    } else {
        decimal_value(w.drop_last()) * 10 + (w.last() as int - '0' as int) as nat
    }
}

/// Largest magnitude that a number token can carry.
pub const MAX_MAGNITUDE: u32 = 65535;

/// The token that starts at position `i` of `s`, and the position after it;
/// `None` once `i` is past the text.
pub open spec fn scan(s: Seq<char>, i: int) -> Option<(TokenView, int)> {
    if i < 0 || i >= s.len() {
        None
    } else {
        let c = s[i];
        if c == '/' {
            Some((TokenView::SnapBegin, i + 1))
        } else if c == '@' {
            Some((TokenView::SnapEnd, i + 1))
        } else if c == '+' {
            Some((TokenView::Add, i + 1))
        } else if c == '-' {
            Some((TokenView::Sub, i + 1))
        } else if is_digit(c) {
            let j = digit_run_end(s, i);
            let w = s.subrange(i, j);
            if decimal_value(w) <= MAX_MAGNITUDE {
                Some((TokenView::Number(decimal_value(w) as u16), j))
            } else {
                Some((TokenView::Illegal(w), j))
            }
        } else if is_letter(c) {
            let j = letter_run_end(s, i);
            let w = s.subrange(i, j);
            match token_of_word(w) {
                Some(t) => Some((t, j)),
                None => Some((TokenView::Illegal(w), j)),
            }
        } else {
            Some((TokenView::Illegal(s.subrange(i, s.len() as int)), s.len() as int))
        }
    }
}

/// All tokens of `s` from position `i` on.
pub open spec fn tokens_from(s: Seq<char>, i: int) -> Seq<TokenView>
    decreases s.len() - i,
{
    match scan(s, i) {
        Some((t, j)) => if 0 <= i < j <= s.len() {
            seq![t] + tokens_from(s, j)
        } else {
            seq![]
        },
        None => seq![],
    }
}

/// All tokens of an expression text.
pub open spec fn tokens_of(text: Seq<char>) -> Seq<TokenView> {
    tokens_from(trimmed(text), 0)
}

pub proof fn lemma_letter_run(s: Seq<char>, i: int)
    requires
        0 <= i <= s.len(),
    ensures
        i <= letter_run_end(s, i) <= s.len(),
        i < s.len() && is_letter(s[i]) ==> i < letter_run_end(s, i),
    decreases s.len() - i,
{
    if i < s.len() && is_letter(s[i]) {
        lemma_letter_run(s, i + 1);
    }
}

pub proof fn lemma_digit_run(s: Seq<char>, i: int)
    requires
        0 <= i <= s.len(),
    ensures
        i <= digit_run_end(s, i) <= s.len(),
        i < s.len() && is_digit(s[i]) ==> i < digit_run_end(s, i),
    decreases s.len() - i,
{
    if i < s.len() && is_digit(s[i]) {
        lemma_digit_run(s, i + 1);
    }
}

/// Every token moves the position forward, and never past the end.
pub proof fn lemma_scan_advances(s: Seq<char>, i: int)
    requires
        0 <= i,
    ensures
        scan(s, i) matches Some((t, j)) ==> i < j <= s.len(),
{
    if i < s.len() {
        lemma_letter_run(s, i);
        lemma_digit_run(s, i);
    }
}

/// The token stream unfolds one scanned token at a time.
pub proof fn lemma_tokens_step(s: Seq<char>, i: int)
    requires
        0 <= i,
    ensures
        scan(s, i) matches Some((t, j)) ==> tokens_from(s, i) == seq![t] + tokens_from(s, j),
        scan(s, i) is None ==> tokens_from(s, i) == Seq::<TokenView>::empty(),
{
    lemma_scan_advances(s, i);
}

proof fn lemma_utf8_len_at_least(s: Seq<char>)
    ensures
        utf8_len(s) >= s.len(),
    decreases s.len(),
{
    if s.len() > 0 {
        lemma_utf8_len_at_least(s.drop_last());
    }
}

/// Relies on `String`'s `FromIterator<&char>`: the string holds the characters in order.
#[verifier::external_body]
fn string_from(cs: &[char]) -> (r: String)
    ensures
        r@ == cs@,
{
    cs.iter().collect()
}

/// The characters of `s`, in order.
pub fn chars_of(s: &str) -> (r: Vec<char>)
    ensures
        r@ == s@,
{
    let mut v: Vec<char> = Vec::new();
    for c in it: s.chars()
        invariant
            v@ == it.seq().subrange(0, it.index() as int),
    {
        v.push(c);
    }
    v
}

pub fn is_white_space_char(c: char) -> (r: bool)
    ensures
        r == is_white_space(c),
{
    let v = c as u32;
    (0x09 <= v && v <= 0x0D) || v == 0x20 || v == 0x85 || v == 0xA0 || v == 0x1680 || (0x2000
        <= v && v <= 0x200A) || v == 0x2028 || v == 0x2029 || v == 0x202F || v == 0x205F || v
        == 0x3000
}

/// `s` without leading and trailing white space.
pub fn trim(s: &Vec<char>) -> (r: Vec<char>)
    ensures
        r@ == trimmed(s@),
{
    let len = s.len();
    let mut a: usize = 0;
    assert(s@.subrange(0, len as int) =~= s@);
    while a < len && is_white_space_char(s[a])
        invariant
            a <= len == s@.len(),
            trim_start(s@) == trim_start(s@.subrange(a as int, len as int)),
        decreases len - a,
    {
        assert(s@.subrange(a as int, len as int).drop_first() =~= s@.subrange(
            a as int + 1,
            len as int,
        ));
        a = a + 1;
    }
    let mut b: usize = len;
    while b > a && is_white_space_char(s[b - 1])
        invariant
            a <= b <= len == s@.len(),
            trim_start(s@) == s@.subrange(a as int, len as int),
            trimmed(s@) == trim_end(s@.subrange(a as int, b as int)),
        decreases b - a,
    {
        assert(s@.subrange(a as int, b as int).drop_last() =~= s@.subrange(
            a as int,
            b as int - 1,
        ));
        b = b - 1;
    }
    let mut r: Vec<char> = Vec::new();
    let mut i: usize = a;
    while i < b
        invariant
            a <= i <= b <= len == s@.len(),
            r@ == s@.subrange(a as int, i as int),
        decreases b - i,
    {
        r.push(s[i]);
        i = i + 1;
        assert(r@ =~= s@.subrange(a as int, i as int));
    }
    r
}


fn is_digit_char(c: char) -> (r: bool)
    ensures
        r == is_digit(c),
{
    '0' <= c && c <= '9'
}

fn is_letter_char(c: char) -> (r: bool)
    ensures
        r == is_letter(c),
{
    ('a' <= c && c <= 'z') || ('A' <= c && c <= 'Z')
}

/// Whether `s` encodes to fewer than three bytes of UTF-8.
fn is_too_short(s: &Vec<char>) -> (r: bool)
    ensures
        r == (utf8_len(s@) < 3),
{
    proof {
        lemma_utf8_len_at_least(s@);
    }
    let len = s.len();
    if len >= 3 {
        return false;
    }
    let mut total: usize = 0;
    let mut i: usize = 0;
    while i < len
        invariant
            i <= len == s@.len() < 3,
            total == utf8_len(s@.subrange(0, i as int)),
            total <= 4 * i,
        decreases len - i,
    {
        let v = s[i] as u32;
        let w: usize = if v < 0x80 {
            1
        } else if v < 0x800 {
            2
        } else if v < 0x10000 {
            3
        } else {
            4
        };
        assert(s@.subrange(0, i + 1).drop_last() =~= s@.subrange(0, i as int));
        total = total + w;
        i = i + 1;
    }
    assert(s@.subrange(0, len as int) =~= s@);
    total < 3
}

/// Scans an expression left to right, one token per call of `next_token`.
pub struct DatetokenLexer {
    text: Vec<char>,
    pos: usize,
}

impl DatetokenLexer {
    /// The trimmed text being scanned.
    pub closed spec fn text(&self) -> Seq<char> {
        self.text@
    }

    /// Position of the next character to scan.
    pub closed spec fn pos(&self) -> int {
        self.pos as int
    }

    #[verifier::type_invariant]
    spec fn inv(&self) -> bool {
        self.pos <= self.text@.len()
    }

    /// The tokens that this lexer has yet to hand out.
    pub open spec fn remaining(&self) -> Seq<TokenView> {
        tokens_from(self.text(), self.pos())
    }

    /// A lexer over `text` without leading and trailing white space; text that
    /// then takes fewer than three bytes is refused.
    pub fn new(text: &str) -> (r: Result<DatetokenLexer, TokenError>)
        ensures
            r is Err <==> utf8_len(trimmed(text@)) < 3,
            r matches Ok(l) ==> l.text() == trimmed(text@) && l.pos() == 0
                && l.remaining() == tokens_of(text@),
    {
        let chars = chars_of(text);
        let t = trim(&chars);
        if is_too_short(&t) {
            Err(TokenError)
        } else {
            Ok(DatetokenLexer { text: t, pos: 0 })
        }
    }

    fn read_word(&mut self) -> (w: Vec<char>)
        ensures
            final(self).text() == old(self).text(),
            final(self).pos() == letter_run_end(old(self).text(), old(self).pos()),
            w@ == old(self).text().subrange(old(self).pos(), final(self).pos()),
    {
        proof {
            use_type_invariant(&*self);
        }
        let ghost start = self.pos as int;
        let mut w: Vec<char> = Vec::new();
        while self.pos < self.text.len() && is_letter_char(self.text[self.pos])
            invariant
                0 <= start <= self.pos <= self.text@.len(),
                self.text@ == old(self).text@,
                letter_run_end(self.text@, start) == letter_run_end(self.text@, self.pos as int),
                w@ == self.text@.subrange(start, self.pos as int),
            decreases self.text@.len() - self.pos,
        {
            w.push(self.text[self.pos]);
            self.pos = self.pos + 1;
            assert(w@ =~= self.text@.subrange(start, self.pos as int));
        }
        w
    }

    /// Reads the run of digits at the position: `None`, without moving, where
    /// the run is empty, else the token that the run scans to.
    fn read_number(&mut self) -> (r: Option<Token>)
        ensures
            final(self).text() == old(self).text(),
            final(self).pos() == digit_run_end(old(self).text(), old(self).pos()),
            r is None <==> final(self).pos() == old(self).pos(),
            r matches Some(t) ==> scan(old(self).text(), old(self).pos()) == Some(
                (t@, final(self).pos()),
            ),
    {
        proof {
            use_type_invariant(&*self);
        }
        let ghost start = self.pos as int;
        let mut w: Vec<char> = Vec::new();
        let mut value: u32 = 0;
        let mut too_big = false;
        while self.pos < self.text.len() && is_digit_char(self.text[self.pos])
            invariant
                0 <= start <= self.pos <= self.text@.len(),
                self.text@ == old(self).text@,
                digit_run_end(self.text@, start) == digit_run_end(self.text@, self.pos as int),
                w@ == self.text@.subrange(start, self.pos as int),
                !too_big ==> value == decimal_value(w@) && value <= MAX_MAGNITUDE,
                too_big ==> decimal_value(w@) > MAX_MAGNITUDE,
            decreases self.text@.len() - self.pos,
        {
            let c = self.text[self.pos];
            let ghost before = w@;
            w.push(c);
            assert(w@.drop_last() =~= before);
            if !too_big {
                let next = value * 10 + (c as u32 - '0' as u32);
                if next > MAX_MAGNITUDE {
                    too_big = true;
                } else {
                    value = next;
                }
            }
            self.pos = self.pos + 1;
            assert(w@ =~= self.text@.subrange(start, self.pos as int));
        }
        if w.len() == 0 {
            None
        } else if too_big {
            Some(Token::Illegal(string_from(w.as_slice())))
        } else {
            Some(Token::Number(value as u16))
        }
    }

    /// The next token, or `None` once the text is exhausted.
    pub fn next_token(&mut self) -> (r: Option<Token>)
        ensures
            final(self).text() == old(self).text(),
            match scan(old(self).text(), old(self).pos()) {
                None => r is None && final(self).pos() == old(self).pos(),
                Some((t, j)) => r matches Some(x) && x@ == t && final(self).pos() == j,
            },
            old(self).remaining() == match r {
                Some(x) => seq![x@] + final(self).remaining(),
                None => Seq::<TokenView>::empty(),
            },
    {
        proof {
            use_type_invariant(&*self);
            lemma_tokens_step(self.text@, self.pos as int);
        }
        if self.pos >= self.text.len() {
            return None;
        }
        let c = self.text[self.pos];
        if c == '/' {
            self.pos = self.pos + 1;
            Some(Token::SnapBegin)
        } else if c == '@' {
            self.pos = self.pos + 1;
            Some(Token::SnapEnd)
        } else if c == '+' {
            self.pos = self.pos + 1;
            Some(Token::Add)
        } else if c == '-' {
            self.pos = self.pos + 1;
            Some(Token::Sub)
        } else if is_digit_char(c) {
            self.read_number()
        } else if is_letter_char(c) {
            let w = self.read_word();
            match Token::from_chars(w.as_slice()) {
                Ok(t) => Some(t),
                Err(_) => Some(Token::Illegal(string_from(w.as_slice()))),
            }
        } else {
            let mut rest: Vec<char> = Vec::new();
            let start = self.pos;
            while self.pos < self.text.len()
                invariant
                    start <= self.pos <= self.text@.len(),
                    self.text@ == old(self).text@,
                    rest@ == self.text@.subrange(start as int, self.pos as int),
                decreases self.text@.len() - self.pos,
            {
                rest.push(self.text[self.pos]);
                self.pos = self.pos + 1;
                assert(rest@ =~= self.text@.subrange(start as int, self.pos as int));
            }
            Some(Token::Illegal(string_from(rest.as_slice())))
        }
    }
}

impl Lexer for DatetokenLexer {
    open spec fn pending(&self) -> Seq<TokenView> {
        self.remaining()
    }

    fn next_token(&mut self) -> Option<Token> {
        DatetokenLexer::next_token(self)
    }
}

/// Opens `DatetokenLexer`s.
#[derive(Clone, Copy, Debug, PartialEq, Eq, Structural)]
pub struct DatetokenLexerFactory;

impl LexerFactory for DatetokenLexerFactory {
    fn new_lexer(&self, text: &str) -> Result<DatetokenLexer, TokenError> {
        DatetokenLexer::new(text)
    }
}

} // verus!
