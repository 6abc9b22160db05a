//! The whole pipeline: expression text and a reference date-time in, resolved
//! date-time out.
use vstd::prelude::*;
use crate::datetime::DateTime;
use crate::lexer::{trimmed, utf8_len, DatetokenLexer};
use crate::operation::{
    apply_op, apply_operation, apply_ops, is_calendar_unit, lemma_apply_ops_append,
    lemma_apply_ops_wf, lemma_delta_round_trip, lemma_snap_ops, Operation, Sign,
};
use crate::token::TimeUnits;
use crate::parser::{parse_text, DatetokenParser, ParseError, ParseErrorView};
use crate::token::{TokenError, TokenView};

verus! {

/// An evaluation went past the representable range of date-times.
#[derive(Clone, Copy, Debug, PartialEq, Eq, Structural)]
pub enum EvaluationError {
    TemporalOverflow,
}

/// Why an expression could not be evaluated.
#[derive(Clone, Debug, PartialEq, Eq)]
pub enum DateMathError {
    /// The text is too short to be an expression.
    Lex(TokenError),
    /// The text is not an expression of the grammar.
    Parse(ParseError),
    /// The result is not representable.
    Evaluation(EvaluationError),
}

/// What a `DateMathError` stands for.
pub enum DateMathErrorView {
    Lex,
    Parse(ParseErrorView),
    Evaluation(EvaluationError),
}

impl View for DateMathError {
    type V = DateMathErrorView;

    open spec fn view(&self) -> DateMathErrorView {
        match self {
            DateMathError::Lex(_) => DateMathErrorView::Lex,
            DateMathError::Parse(e) => DateMathErrorView::Parse(e@),
            DateMathError::Evaluation(e) => DateMathErrorView::Evaluation(*e),
        }
    }
}

/// The operations applied to `reference`, or the overflow that stops them.
pub open spec fn evaluation_of(reference: DateTime, ops: Seq<Operation>) -> Result<
    DateTime,
    EvaluationError,
> {
    match apply_ops(reference, ops) {
        Some(t) => Ok(t),
        None => Err(EvaluationError::TemporalOverflow),
    }
}

/// What the expression `text` resolves to against `reference`.
pub open spec fn evaluation(text: Seq<char>, reference: DateTime) -> Result<
    DateTime,
    DateMathErrorView,
> {
    if utf8_len(trimmed(text)) < 3 {
        Err(DateMathErrorView::Lex)
    } else {
        match parse_text(text) {
            Err(e) => Err(DateMathErrorView::Parse(e)),
            Ok(ops) => match evaluation_of(reference, ops) {
                Ok(t) => Ok(t),
                Err(e) => Err(DateMathErrorView::Evaluation(e)),
            },
        }
    }
}

/// Applies `ops` in order to `reference`.
pub fn apply_operations(reference: DateTime, ops: &Vec<Operation>) -> (r: Result<
    DateTime,
    EvaluationError,
>)
    requires
        reference.wf(),
    ensures
        r == evaluation_of(reference, ops@),
        r matches Ok(t) ==> t.wf(),
{
    let mut current = reference;
    let mut i: usize = 0;
    assert(ops@.subrange(0, ops@.len() as int) =~= ops@);
    while i < ops.len()
        invariant
            i <= ops@.len(),
            current.wf(),
            apply_ops(reference, ops@) == apply_ops(current, ops@.subrange(i as int, ops@.len() as int)),
        decreases ops@.len() - i,
    {
        let ghost rest = ops@.subrange(i as int, ops@.len() as int);
        assert(rest.drop_first() =~= ops@.subrange(i + 1, ops@.len() as int));
        match apply_operation(current, ops[i]) {
            Some(next) => {
                current = next;
            },
            None => {
                return Err(EvaluationError::TemporalOverflow);
            },
        }
        i = i + 1;
    }
    Ok(current)
}

/// Resolves the expression `expression` against `reference`: lexes, parses and
/// applies its operations in order.
pub fn evaluate(expression: &str, reference: DateTime) -> (r: Result<DateTime, DateMathError>)
    requires
        reference.wf(),
    ensures
        match (r, evaluation(expression@, reference)) {
            (Ok(t), Ok(u)) => t == u,
            (Err(e), Err(ev)) => e@ == ev,
            _ => false,
        },
        r matches Ok(t) ==> t.wf(),
{
    let lexer = match DatetokenLexer::new(expression) {
        Ok(l) => l,
        Err(e) => return Err(DateMathError::Lex(e)),
    };
    let mut parser = DatetokenParser::new(lexer);
    let ops = match parser.parse() {
        Ok(ops) => ops,
        Err(e) => return Err(DateMathError::Parse(e)),
    };
    match apply_operations(reference, &ops) {
        Ok(t) => Ok(t),
        Err(e) => Err(DateMathError::Evaluation(e)),
    }
}

/// Something that resolves expressions.
pub trait Evaluator {
    /// The date-time that expressions are resolved against.
    spec fn reference_time(&self) -> DateTime;

    /// Resolves `expression` against the reference date-time.
    fn eval(&self, expression: &str) -> (r: Result<DateTime, DateMathError>)
        ensures
            match (r, evaluation(expression@, self.reference_time())) {
                (Ok(t), Ok(u)) => t == u,
                (Err(e), Err(ev)) => e@ == ev,
                _ => false,
            },
    ;
}

/// Resolves expressions against one fixed reference date-time.
pub struct DatetokenEvaluator {
    reference: DateTime,
}

impl DatetokenEvaluator {
    #[verifier::type_invariant]
    spec fn inv(&self) -> bool {
        self.reference.wf()
    }

    /// The date-time that expressions are resolved against.
    pub closed spec fn reference(&self) -> DateTime {
        self.reference
    }

    pub fn new(reference: DateTime) -> (r: DatetokenEvaluator)
        requires
            reference.wf(),
        ensures
            r.reference() == reference,
    {
        DatetokenEvaluator { reference }
    }

    /// Resolves `expression` against the reference date-time.
    pub fn eval(&self, expression: &str) -> (r: Result<DateTime, DateMathError>)
        ensures
            match (r, evaluation(expression@, self.reference())) {
                (Ok(t), Ok(u)) => t == u,
                (Err(e), Err(ev)) => e@ == ev,
                _ => false,
            },
    {
        proof {
            use_type_invariant(self);
        }
        evaluate(expression, self.reference)
    }
}

impl Evaluator for DatetokenEvaluator {
    open spec fn reference_time(&self) -> DateTime {
        self.reference()
    }

    fn eval(&self, expression: &str) -> Result<DateTime, DateMathError> {
        DatetokenEvaluator::eval(self, expression)
    }
}

/// Evaluation is a function of the expression and the reference date-time:
/// equal inputs resolve to equal results, or fail in the same way.
pub proof fn lemma_evaluation_deterministic(
    text1: Seq<char>,
    reference1: DateTime,
    text2: Seq<char>,
    reference2: DateTime,
)
    requires
        text1 == text2,
        reference1 == reference2,
    ensures
        evaluation(text1, reference1) == evaluation(text2, reference2),
{
}

/// The bare anchor `now`, with no operations after it, resolves to the
/// reference date-time itself.
pub proof fn lemma_now_is_reference(reference: DateTime)
    ensures
        evaluation_of(reference, Seq::<Operation>::empty()) == Ok::<DateTime, EvaluationError>(
            reference,
        ),
        evaluation(seq!['n', 'o', 'w'], reference) == Ok::<DateTime, DateMathErrorView>(reference),
{
    let s = seq!['n', 'o', 'w'];
    assert(crate::lexer::trim_start(s) == s);
    assert(crate::lexer::trim_end(s) == s);
    assert(s.drop_last() =~= seq!['n', 'o']);
    assert(seq!['n', 'o'].drop_last() =~= seq!['n']);
    assert(seq!['n'].drop_last() =~= Seq::<char>::empty());
    reveal_with_fuel(utf8_len, 4);
    assert(utf8_len(s) == 3);
    reveal_with_fuel(crate::lexer::letter_run_end, 4);
    assert(crate::lexer::letter_run_end(s, 0) == 3);
    assert(s.subrange(0, 3) =~= s);
    crate::lexer::lemma_tokens_step(s, 0);
    crate::lexer::lemma_tokens_step(s, 3);
    assert(crate::lexer::tokens_from(s, 0) =~= seq![TokenView::Now]);
    assert(seq![TokenView::Now].drop_first() =~= Seq::<TokenView>::empty());
}


proof fn lemma_two_steps(t: DateTime, a: Operation, b: Operation)
    ensures
        apply_ops(t, seq![a, b]) == match apply_op(t, a) {
            Some(m) => apply_op(m, b),
            None => None,
        },
        apply_ops(t, seq![a]) == apply_op(t, a),
{
    let e = Seq::<Operation>::empty();
    assert(seq![a, b][0] == a);
    assert(seq![a][0] == a);
    assert(seq![b][0] == b);
    assert(seq![a, b].drop_first() =~= seq![b]);
    assert(seq![a].drop_first() =~= e);
    assert(seq![b].drop_first() =~= e);
    assert(apply_ops(t, seq![a]) == match apply_op(t, a) {
        Some(m) => apply_ops(m, e),
        None => None,
    });
    if let Some(m) = apply_op(t, a) {
        assert(apply_ops(m, seq![b]) == match apply_op(m, b) {
            Some(r) => apply_ops(r, e),
            None => None,
        });
    }
}

/// Within any expression, a second snap down to the same unit right after a
/// first one changes nothing.
pub proof fn lemma_evaluation_floor_twice(reference: DateTime, ops: Seq<Operation>, u: TimeUnits)
    requires
        reference.wf(),
    ensures
        evaluation_of(
            reference,
            ops + seq![Operation::SnapFloor { unit: u }, Operation::SnapFloor { unit: u }],
        ) == evaluation_of(reference, ops + seq![Operation::SnapFloor { unit: u }]),
{
    let f = Operation::SnapFloor { unit: u };
    lemma_apply_ops_append(reference, ops, seq![f, f]);
    lemma_apply_ops_append(reference, ops, seq![f]);
    lemma_apply_ops_wf(reference, ops);
    if let Some(m) = apply_ops(reference, ops) {
        lemma_two_steps(m, f, f);
        lemma_snap_ops(m, u);
    }
}

/// Within any expression, a snap down followed by a snap up to the same unit
/// ends where the snap up alone would.
pub proof fn lemma_evaluation_floor_then_ceil(
    reference: DateTime,
    ops: Seq<Operation>,
    u: TimeUnits,
)
    requires
        reference.wf(),
    ensures
        evaluation_of(
            reference,
            ops + seq![Operation::SnapFloor { unit: u }, Operation::SnapCeil { unit: u }],
        ) == evaluation_of(reference, ops + seq![Operation::SnapCeil { unit: u }]),
{
    let f = Operation::SnapFloor { unit: u };
    let c = Operation::SnapCeil { unit: u };
    lemma_apply_ops_append(reference, ops, seq![f, c]);
    lemma_apply_ops_append(reference, ops, seq![c]);
    lemma_apply_ops_wf(reference, ops);
    if let Some(m) = apply_ops(reference, ops) {
        lemma_two_steps(m, f, c);
        lemma_two_steps(m, c, c);
        lemma_snap_ops(m, u);
        let fl = crate::operation::floored(m, u);
        assert(apply_op(m, f) == Some(fl));
        assert(apply_ops(m, seq![f, c]) == apply_op(fl, c));
        assert(apply_op(fl, c) == apply_op(m, c));
        assert(apply_ops(m, seq![f, c]) == apply_ops(m, seq![c]));
    }
}

/// Within any expression, `+N` units followed by `-N` of the same unit leaves
/// the date-time as it was, wherever the forward move did not clamp the day of
/// the month.
pub proof fn lemma_evaluation_delta_round_trip(
    reference: DateTime,
    ops: Seq<Operation>,
    magnitude: u16,
    u: TimeUnits,
)
    requires
        reference.wf(),
        apply_ops(reference, ops) matches Some(m) && apply_op(
            m,
            Operation::Delta { sign: Sign::Plus, magnitude, unit: u },
        ) matches Some(r) && (!is_calendar_unit(u) || r.day == m.day),
    ensures
        evaluation_of(
            reference,
            ops + seq![
                Operation::Delta { sign: Sign::Plus, magnitude, unit: u },
                Operation::Delta { sign: Sign::Minus, magnitude, unit: u },
            ],
        ) == evaluation_of(reference, ops),
{
    let p = Operation::Delta { sign: Sign::Plus, magnitude, unit: u };
    let q = Operation::Delta { sign: Sign::Minus, magnitude, unit: u };
    lemma_apply_ops_append(reference, ops, seq![p, q]);
    lemma_apply_ops_wf(reference, ops);
    let m = apply_ops(reference, ops)->Some_0;
    lemma_two_steps(m, p, q);
    lemma_delta_round_trip(m, magnitude, u);
}

} // verus!
