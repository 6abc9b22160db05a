use datetoken::datetime::DateTime;
use datetoken::eval::{evaluate, DateMathError, DatetokenEvaluator, EvaluationError, Evaluator};
use datetoken::operation::{apply_operation, Operation, Sign};
use datetoken::parser::ParseError;
use datetoken::token::{TimeUnits, TokenError};

fn at(y: u32, mo: u32, d: u32, h: u32, mi: u32, s: u32) -> DateTime {
    DateTime::new(y, mo, d, h, mi, s).unwrap()
}

const UNITS: [TimeUnits; 7] = [
    TimeUnits::Sec,
    TimeUnits::Min,
    TimeUnits::Hour,
    TimeUnits::Day,
    TimeUnits::Week,
    TimeUnits::Month,
    TimeUnits::Year,
];

#[test]
fn now_is_the_reference() {
    let t = at(2021, 7, 15, 13, 45, 30);
    assert_eq!(evaluate("now", t), Ok(t));
    assert_eq!(evaluate("  now ", t), Ok(t));
}

#[test]
fn now_plus_one_day() {
    assert_eq!(evaluate("now+1d", at(2024, 1, 1, 0, 0, 0)), Ok(at(2024, 1, 2, 0, 0, 0)));
}

#[test]
fn evaluation_errors() {
    let t = at(2024, 1, 1, 0, 0, 0);
    assert_eq!(evaluate("", t), Err(DateMathError::Lex(TokenError)));
    assert_eq!(evaluate("asap/+-123", t), Err(DateMathError::Parse(ParseError::MissingOrInvalidAnchor)));
    assert_eq!(evaluate("now+1", t), Err(DateMathError::Parse(ParseError::MalformedDelta)));
    assert_eq!(
        evaluate("now@w", at(9999, 12, 31, 0, 0, 0)),
        Err(DateMathError::Evaluation(EvaluationError::TemporalOverflow))
    );
    assert_eq!(
        evaluate("now-1s", at(1, 1, 1, 0, 0, 0)),
        Err(DateMathError::Evaluation(EvaluationError::TemporalOverflow))
    );
}

#[test]
fn evaluation_is_deterministic() {
    let t = at(2023, 3, 31, 10, 0, 0);
    let e = "now-1M/d+3h@m";
    assert_eq!(evaluate(e, t), evaluate(e, t));
    assert_eq!(evaluate(e, t), Ok(at(2023, 2, 28, 3, 0, 59)));
}

#[test]
fn snaps_to_periods() {
    let t = at(2024, 2, 14, 15, 27, 42);
    assert_eq!(evaluate("now/s", t), Ok(t));
    assert_eq!(evaluate("now/m", t), Ok(at(2024, 2, 14, 15, 27, 0)));
    assert_eq!(evaluate("now/h", t), Ok(at(2024, 2, 14, 15, 0, 0)));
    assert_eq!(evaluate("now/d", t), Ok(at(2024, 2, 14, 0, 0, 0)));
    assert_eq!(evaluate("now/w", t), Ok(at(2024, 2, 12, 0, 0, 0)));
    assert_eq!(evaluate("now/M", t), Ok(at(2024, 2, 1, 0, 0, 0)));
    assert_eq!(evaluate("now/y", t), Ok(at(2024, 1, 1, 0, 0, 0)));
    assert_eq!(evaluate("now@s", t), Ok(t));
    assert_eq!(evaluate("now@m", t), Ok(at(2024, 2, 14, 15, 27, 59)));
    assert_eq!(evaluate("now@h", t), Ok(at(2024, 2, 14, 15, 59, 59)));
    assert_eq!(evaluate("now@d", t), Ok(at(2024, 2, 14, 23, 59, 59)));
    assert_eq!(evaluate("now@w", t), Ok(at(2024, 2, 18, 23, 59, 59)));
    assert_eq!(evaluate("now@M", t), Ok(at(2024, 2, 29, 23, 59, 59)));
    assert_eq!(evaluate("now@y", t), Ok(at(2024, 12, 31, 23, 59, 59)));
}

#[test]
fn calendar_deltas_clamp_the_day() {
    assert_eq!(evaluate("now+1M", at(2023, 1, 31, 8, 0, 0)), Ok(at(2023, 2, 28, 8, 0, 0)));
    assert_eq!(evaluate("now+1y", at(2024, 2, 29, 0, 0, 0)), Ok(at(2025, 2, 28, 0, 0, 0)));
    assert_eq!(evaluate("now-13M", at(2024, 1, 15, 0, 0, 0)), Ok(at(2022, 12, 15, 0, 0, 0)));
    assert_eq!(evaluate("now+2w-1h", at(2024, 12, 25, 0, 0, 0)), Ok(at(2025, 1, 7, 23, 0, 0)));
}

#[test]
fn floor_is_idempotent() {
    let t = at(2019, 11, 23, 4, 5, 6);
    for u in UNITS {
        let once = apply_operation(t, Operation::SnapFloor { unit: u }).unwrap();
        let twice = apply_operation(once, Operation::SnapFloor { unit: u }).unwrap();
        assert_eq!(once, twice);
    }
}

#[test]
fn floor_then_ceil_stays_in_period() {
    let t = at(2019, 11, 23, 4, 5, 6);
    for u in UNITS {
        let floor = apply_operation(t, Operation::SnapFloor { unit: u }).unwrap();
        let ceil = apply_operation(floor, Operation::SnapCeil { unit: u }).unwrap();
        assert_eq!(Some(ceil), apply_operation(t, Operation::SnapCeil { unit: u }));
        assert_eq!(apply_operation(ceil, Operation::SnapFloor { unit: u }), Some(floor));
    }
}

#[test]
fn delta_round_trip() {
    let t = at(2000, 3, 15, 12, 30, 45);
    for u in UNITS {
        let fwd = apply_operation(t, Operation::Delta { sign: Sign::Plus, magnitude: 40, unit: u })
            .unwrap();
        let back = apply_operation(fwd, Operation::Delta { sign: Sign::Minus, magnitude: 40, unit: u });
        assert_eq!(back, Some(t));
    }
    // clamping at the end of a month is not undone
    let end = at(2000, 1, 31, 0, 0, 0);
    let fwd = apply_operation(end, Operation::Delta { sign: Sign::Plus, magnitude: 1, unit: TimeUnits::Month })
        .unwrap();
    assert_eq!(fwd, at(2000, 2, 29, 0, 0, 0));
    let back = apply_operation(fwd, Operation::Delta { sign: Sign::Minus, magnitude: 1, unit: TimeUnits::Month });
    assert_eq!(back, Some(at(2000, 1, 29, 0, 0, 0)));
}

#[test]
fn largest_magnitudes() {
    let t = at(2000, 1, 1, 0, 0, 0);
    assert_eq!(evaluate("now+65535s", t), Ok(at(2000, 1, 1, 18, 12, 15)));
    assert_eq!(evaluate("now+65535w", t), Ok(at(3256, 1, 1, 0, 0, 0)));
    assert_eq!(
        evaluate("now+65535y", t),
        Err(DateMathError::Evaluation(EvaluationError::TemporalOverflow))
    );
    assert_eq!(evaluate("now+65536s", t), Err(DateMathError::Parse(ParseError::MalformedDelta)));
}

#[test]
fn date_time_bounds_and_seconds() {
    assert!(DateTime::new(2023, 2, 29, 0, 0, 0).is_none());
    assert!(DateTime::new(2024, 2, 29, 0, 0, 0).is_some());
    assert!(DateTime::new(0, 1, 1, 0, 0, 0).is_none());
    assert!(DateTime::new(2024, 1, 1, 24, 0, 0).is_none());
    assert_eq!(at(1, 1, 1, 0, 0, 0).to_seconds(), 0);
    assert_eq!(at(9999, 12, 31, 23, 59, 59).to_seconds(), 315537897599);
    assert_eq!(DateTime::from_seconds(86400 * 365 + 61), at(2, 1, 1, 0, 1, 1));
    let t = at(1970, 1, 1, 0, 0, 0);
    assert_eq!(DateTime::from_seconds(t.to_seconds()), t);
}

#[test]
fn evaluator_uses_its_reference() {
    let evaluator = DatetokenEvaluator::new(at(2024, 6, 5, 10, 11, 12));
    assert_eq!(DatetokenEvaluator::eval(&evaluator, "now-1d/d"), Ok(at(2024, 6, 4, 0, 0, 0)));
    assert_eq!(Evaluator::eval(&evaluator, "now@y"), Ok(at(2024, 12, 31, 23, 59, 59)));
}

#[test]
fn week_starts_on_monday() {
    assert_eq!(evaluate("now/w", at(1, 1, 3, 5, 0, 0)), Ok(at(1, 1, 1, 0, 0, 0)));
    assert_eq!(evaluate("now/w", at(2024, 3, 3, 23, 0, 0)), Ok(at(2024, 2, 26, 0, 0, 0)));
    assert_eq!(evaluate("now/w", at(2024, 3, 4, 0, 0, 1)), Ok(at(2024, 3, 4, 0, 0, 0)));
    assert_eq!(evaluate("now@w", at(1999, 12, 30, 0, 0, 0)), Ok(at(2000, 1, 2, 23, 59, 59)));
}

#[test]
fn unicode_white_space_is_trimmed() {
    let t = at(2024, 5, 5, 5, 5, 5);
    assert_eq!(evaluate("\u{3000}now-5s\u{00A0}\u{2029}", t), Ok(at(2024, 5, 5, 5, 5, 0)));
}

#[test]
fn laws_on_expression_text() {
    let t = at(2022, 8, 17, 9, 8, 7);
    for u in ["s", "m", "h", "d", "w", "M", "y"] {
        let floor = evaluate(&format!("now-3d/{}", u), t);
        assert_eq!(evaluate(&format!("now-3d/{}/{}", u, u), t), floor);
        assert_eq!(evaluate(&format!("now-3d/{}@{}", u, u), t), evaluate(&format!("now-3d@{}", u), t));
        assert_eq!(evaluate(&format!("now-3d+7{}-7{}", u, u), t), evaluate("now-3d", t));
    }
}

#[test]
fn second_after_ceiling_starts_next_period() {
    let t = at(2022, 8, 17, 9, 8, 7);
    for u in ["m", "h", "d", "w", "M", "y"] {
        let floor = evaluate(&format!("now/{}", u), t).unwrap();
        let ceil = evaluate(&format!("now@{}", u), t).unwrap();
        assert!(floor.to_seconds() <= t.to_seconds() && t.to_seconds() <= ceil.to_seconds());
        assert_eq!(evaluate(&format!("now/{}", u), ceil), Ok(floor));
        let next = DateTime::from_seconds(ceil.to_seconds() + 1);
        assert_ne!(evaluate(&format!("now/{}", u), next), Ok(floor));
        assert_eq!(evaluate(&format!("now/{}", u), next), Ok(next));
    }
}
