use datetoken::lexer::DatetokenLexer;
use datetoken::token::{TimeUnits, Token, TokenError, Weekdays};

#[test]
fn lexes_token() {
    match DatetokenLexer::new("now/w+1d-3h@M-9s") {
        Ok(mut lexer) => {
            let expected_tokens: &[Token] = &[
                Token::Now,
                Token::SnapBegin,
                Token::Unit(TimeUnits::Week),
                Token::Add,
                Token::Number(1),
                Token::Unit(TimeUnits::Day),
                Token::Sub,
                Token::Number(3),
                Token::Unit(TimeUnits::Hour),
                Token::SnapEnd,
                Token::Unit(TimeUnits::Month),
                Token::Sub,
                Token::Number(9),
                Token::Unit(TimeUnits::Sec),
            ];
            for expected_token in expected_tokens.iter() {
                let next_token = lexer.next_token();
                if next_token.is_some() {
                    assert_eq!(*expected_token, next_token.unwrap());
                } else {
                    assert!(false, "unexpected token error, want {}", expected_token.display());
                }
            }
        }
        Err(err) => {
            assert_eq!(None, Some(err));
        }
    };
}

#[test]
fn lexes_no_token() {
    let res = DatetokenLexer::new("");

    if res.is_ok() {
        assert_eq!(Some(TokenError), None)
    }
}

#[test]
fn lexes_number() {
    match DatetokenLexer::new("123") {
        Ok(mut lexer) => {
            let next_token = lexer.next_token();
            if next_token.is_some() {
                assert_eq!(Token::Number(123), next_token.unwrap());
            } else {
                assert!(false, "unexpected token error, want Token::illegal");
            }
        }
        Err(err) => {
            assert_eq!(None, Some(err));
        }
    }
}

#[test]
fn lexes_invalid_token_valid_begin() {
    match DatetokenLexer::new("/+-123") {
        Ok(mut lexer) => {
            let expected_tokens: &[Token] =
                &[Token::SnapBegin, Token::Add, Token::Sub, Token::Number(123)];
            for expected_token in expected_tokens.iter() {
                let next_token = lexer.next_token();
                if next_token.is_some() {
                    assert_eq!(*expected_token, next_token.unwrap());
                } else {
                    assert!(false, "unexpected token error, want {}", expected_token.display());
                }
            }
        }
        Err(err) => {
            assert_eq!(None, Some(err))
        }
    }
}

#[test]
fn lexes_invalid_token() {
    match DatetokenLexer::new("asap/+-123") {
        Ok(mut lexer) => {
            let expected_tokens: &[Token] = &[
                Token::Illegal("asap".to_string()),
                Token::SnapBegin,
                Token::Add,
                Token::Sub,
                Token::Number(123),
            ];
            for expected_token in expected_tokens.iter() {
                let next_token = lexer.next_token();
                if next_token.is_some() {
                    assert_eq!(*expected_token, next_token.unwrap());
                } else {
                    assert!(false, "unexpected token error, want {}", expected_token.display());
                }
            }
        }
        Err(err) => {
            assert_eq!(None, Some(err));
        }
    }
}

fn all_tokens(text: &str) -> Vec<Token> {
    let mut lexer = DatetokenLexer::new(text).unwrap();
    let mut out = Vec::new();
    while let Some(t) = lexer.next_token() {
        out.push(t);
    }
    out
}

#[test]
fn lexer_ends_after_last_token() {
    let mut lexer = DatetokenLexer::new("now").unwrap();
    assert_eq!(lexer.next_token(), Some(Token::Now));
    assert_eq!(lexer.next_token(), None);
    assert_eq!(lexer.next_token(), None);
}

#[test]
fn lexer_trims_white_space() {
    assert_eq!(all_tokens("  \tnow-1d\n "), vec![
        Token::Now,
        Token::Sub,
        Token::Number(1),
        Token::Unit(TimeUnits::Day),
    ]);
}

#[test]
fn lexer_refuses_short_text() {
    assert_eq!(DatetokenLexer::new("no").err(), Some(TokenError));
    assert_eq!(DatetokenLexer::new("   ab   ").err(), Some(TokenError));
    assert!(DatetokenLexer::new("now").is_ok());
}

#[test]
fn lexer_counts_bytes_not_characters() {
    // two characters of two bytes each make four bytes
    assert_eq!(all_tokens("éé"), vec![Token::Illegal("éé".to_string())]);
    assert_eq!(DatetokenLexer::new("é").err(), Some(TokenError));
}

#[test]
fn lexer_marks_too_large_number_illegal() {
    assert_eq!(all_tokens("65535"), vec![Token::Number(65535)]);
    assert_eq!(all_tokens("65536"), vec![Token::Illegal("65536".to_string())]);
    assert_eq!(all_tokens("0001"), vec![Token::Number(1)]);
}

#[test]
fn lexer_reads_words() {
    assert_eq!(all_tokens("nowx"), vec![Token::Illegal("nowx".to_string())]);
    assert_eq!(all_tokens("mon/y"), vec![
        Token::Weekday(Weekdays::Mon),
        Token::SnapBegin,
        Token::Unit(TimeUnits::Year),
    ]);
    assert_eq!(all_tokens("smhdwM"), vec![Token::Illegal("smhdwM".to_string())]);
    assert_eq!(all_tokens("now m"), vec![Token::Now, Token::Illegal(" m".to_string())]);
}

#[test]
fn lexer_stops_at_other_characters() {
    assert_eq!(all_tokens("now+1d#x+2h"), vec![
        Token::Now,
        Token::Add,
        Token::Number(1),
        Token::Unit(TimeUnits::Day),
        Token::Illegal("#x+2h".to_string()),
    ]);
}

#[test]
fn token_words_and_labels() {
    assert_eq!(TimeUnits::from_chars(&['M']), Ok(TimeUnits::Month));
    assert_eq!(TimeUnits::from_chars(&['m']), Ok(TimeUnits::Min));
    assert_eq!(TimeUnits::from_chars(&['Y']), Err(TokenError));
    assert_eq!(Weekdays::from_chars(&['s', 'u', 'n']), Ok(Weekdays::Sun));
    assert_eq!(Token::from_chars(&['+']), Ok(Token::Add));
    assert_eq!(Token::from_chars(&['n', 'o', 'w']), Ok(Token::Now));
    assert_eq!(Token::from_chars(&['x']), Err(TokenError));
    assert_eq!(Token::Now.display(), "now");
    assert_eq!(Token::SnapEnd.display(), "@");
    assert_eq!(Token::Number(3).display(), "ILLEGAL");
    assert_eq!(Token::Add.display(), "ILLEGAL");
    assert_eq!(Token::Sub.display(), "ILLEGAL");
    assert_eq!(Token::Illegal("x".to_string()).display(), "ILLEGAL");
}

#[test]
fn tokens_parse_from_str() {
    assert_eq!("y".parse::<TimeUnits>(), Ok(TimeUnits::Year));
    assert_eq!("tue".parse::<Weekdays>(), Ok(Weekdays::Tue));
    assert_eq!("Tue".parse::<Weekdays>(), Err(TokenError));
    assert_eq!("@".parse::<Token>(), Ok(Token::SnapEnd));
    assert_eq!("h".parse::<Token>(), Ok(Token::Unit(TimeUnits::Hour)));
    assert_eq!("now+".parse::<Token>(), Err(TokenError));
}
