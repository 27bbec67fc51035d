//! Laws of filtering, tokenizing and evaluation.

use vstd::prelude::*;
use crate::arith::{magnitude, truncating_quotient};
use crate::expression::{allowed_only, evaluate_text, is_allowed};
use crate::precedence::{is_flat, lemma_flat_expression_value, precedence_value,
    value_or_division_by_zero};
use crate::valid_types::{BracketType, EvalError, OperatorType, ValidTypes, characters,
    depth_before, evaluate_tokens, in_bracket, is_most_important, lemma_most_important_is,
    most_important, reduce_step, reduction_end, score, spliced, tokenized, tokens_from, flush,
    classify, extend, is_digit};

verus! {

/// Dropping what is not allowed from a concatenation is dropping it from
/// each part.
pub proof fn lemma_allowed_only_concat(a: Seq<char>, b: Seq<char>)
    ensures
        allowed_only(a + b) == allowed_only(a) + allowed_only(b),
    decreases b.len(),
{
    if b.len() == 0 {
        assert(a + b =~= a);
        assert(allowed_only(a) + allowed_only(b) =~= allowed_only(a));
    } else {
        assert((a + b).drop_last() =~= a + b.drop_last());
        assert((a + b).last() == b.last());
        lemma_allowed_only_concat(a, b.drop_last());
        let x = allowed_only(a);
        let y = allowed_only(b.drop_last());
        assert((x + y).push(b.last()) =~= x + y.push(b.last()));
    }
}

/// Text from which the disallowed characters were dropped holds none.
pub proof fn lemma_allowed_only_idempotent(text: Seq<char>)
    ensures
        allowed_only(allowed_only(text)) == allowed_only(text),
    decreases text.len(),
{
    if text.len() > 0 {
        lemma_allowed_only_idempotent(text.drop_last());
        if is_allowed(text.last()) {
            let kept = allowed_only(text.drop_last());
            assert(kept.push(text.last()).drop_last() =~= kept);
        }
    }
}

/// A character that is not allowed, wherever it stands in the text, does
/// not change the value of the expression.
pub proof fn lemma_disallowed_character_ignored(before: Seq<char>, c: char, after: Seq<char>)
    requires
        !is_allowed(c),
    ensures
        evaluate_text(before.push(c) + after) == evaluate_text(before + after),
{
    lemma_allowed_only_concat(before.push(c), after);
    lemma_allowed_only_concat(before, after);
    assert(before.push(c).drop_last() =~= before);
}

/// The value of a text is the value of what is left of it when the
/// disallowed characters are dropped.
pub proof fn lemma_only_allowed_characters_count(text: Seq<char>)
    ensures
        evaluate_text(text) == evaluate_text(allowed_only(text)),
{
    lemma_allowed_only_idempotent(text);
}

/// Evaluation has no hidden state: two evaluations of the same text give
/// the same result.
pub proof fn lemma_same_text_same_result(
    text: Seq<char>,
    first: Result<i32, EvalError>,
    second: Result<i32, EvalError>,
)
    requires
        first == evaluate_text(text),
        second == evaluate_text(text),
    ensures
        first == second,
{
}

/// Text whose tokens are numbers and `+ - * /` without brackets has the
/// value of reading it from left to right, `*` and `/` before `+` and `-`.
pub proof fn lemma_flat_text_value(text: Seq<char>, tokens: Seq<ValidTypes>)
    requires
        tokenized(characters(allowed_only(text))) == Some(tokens),
        is_flat(tokens),
    ensures
        evaluate_text(text) == value_or_division_by_zero(precedence_value(tokens)),
{
    lemma_flat_expression_value(tokens);
}

/// Every bracket depth is a multiple of ten.
pub proof fn lemma_depth_in_tens(tokens: Seq<ValidTypes>, i: int)
    ensures
        depth_before(tokens, i) % 10 == 0,
    decreases i,
{
    if i > 0 {
        lemma_depth_in_tens(tokens, i - 1);
    }
}

/// An operator inside more brackets outscores every operator inside fewer,
/// whatever their precedence ranks.
pub proof fn lemma_deeper_scores_higher(tokens: Seq<ValidTypes>, i: int, j: int)
    requires
        0 <= i < tokens.len(),
        0 <= j < tokens.len(),
        tokens[i] is Operator,
        tokens[j] is Operator,
        depth_before(tokens, i) > depth_before(tokens, j),
    ensures
        score(tokens, i) > score(tokens, j),
{
    lemma_depth_in_tens(tokens, i);
    lemma_depth_in_tens(tokens, j);
}

/// `a / 0` is reported as a division by zero, whatever `a` is.
pub proof fn lemma_division_by_zero_reported(a: i32)
    ensures
        evaluate_tokens(
            seq![
                ValidTypes::Number(a),
                ValidTypes::Operator(OperatorType::Div),
                ValidTypes::Number(0),
            ],
        ) == Err::<i32, EvalError>(EvalError::DivisionByZero),
{
    lemma_single_operation(a, OperatorType::Div, 0);
}

/// The truncating quotient leaves a remainder that is smaller than the
/// divisor in magnitude and has the sign of the dividend.
pub proof fn lemma_truncating_quotient_remainder(a: int, b: int)
    requires
        b != 0,
    ensures
        magnitude(a - truncating_quotient(a, b) * b) < magnitude(b),
        a >= 0 ==> a - truncating_quotient(a, b) * b >= 0,
        a <= 0 ==> a - truncating_quotient(a, b) * b <= 0,
{
    let ma = magnitude(a);
    let mb = magnitude(b);
    let q = ma / mb;
    vstd::arithmetic::div_mod::lemma_fundamental_div_mod(ma, mb);
    vstd::arithmetic::div_mod::lemma_mod_bound(ma, mb);
    let r = ma % mb;
    assert(ma == mb * q + r);
    assert(truncating_quotient(a, b) * b == (if a < 0 {
        -(mb * q)
    } else {
        mb * q
    })) by (nonlinear_arith)
        requires
            mb == magnitude(b),
            q == magnitude(a) / magnitude(b),
            b != 0,
    ;
}

/// `a * b ^ c` is `a` times the power, for all numbers: the exponent binds
/// tighter than the product.
pub proof fn lemma_power_before_product(a: i32, b: i32, c: i32)
    ensures
        evaluate_tokens(
            seq![
                ValidTypes::Number(a),
                ValidTypes::Operator(OperatorType::Mul),
                ValidTypes::Number(b),
                ValidTypes::Operator(OperatorType::Pow),
                ValidTypes::Number(c),
            ],
        ) == (match OperatorType::Pow.apply(b, c) {
            Ok(power) => OperatorType::Mul.apply(a, power),
            Err(e) => Err(e),
        }),
{
    let t = seq![
        ValidTypes::Number(a),
        ValidTypes::Operator(OperatorType::Mul),
        ValidTypes::Number(b),
        ValidTypes::Operator(OperatorType::Pow),
        ValidTypes::Number(c),
    ];
    assert(is_most_important(t, 3)) by {
        reveal_with_fuel(depth_before, 6);
    }
    lemma_most_important_is(t, 3);
    match OperatorType::Pow.apply(b, c) {
        Ok(power) => {
            let u = seq![
                ValidTypes::Number(a),
                ValidTypes::Operator(OperatorType::Mul),
                ValidTypes::Number(power),
            ];
            assert(spliced(t, 3, power) =~= u);
            assert(reduce_step(t) == Ok::<Seq<ValidTypes>, EvalError>(u));
            lemma_single_operation(a, OperatorType::Mul, power);
        },
        Err(e) => {
            assert(reduce_step(t) == Err::<Seq<ValidTypes>, EvalError>(e));
        },
    }
}

/// `(a op b) op2 c` is `op2` applied to the value of the bracket and `c`,
/// for all numbers and operators: what stands in brackets is evaluated as
/// a unit first.
pub proof fn lemma_bracket_first(a: i32, op: OperatorType, b: i32, op2: OperatorType, c: i32)
    ensures
        evaluate_tokens(
            seq![
                ValidTypes::Bracket(BracketType::Open),
                ValidTypes::Number(a),
                ValidTypes::Operator(op),
                ValidTypes::Number(b),
                ValidTypes::Bracket(BracketType::Closed),
                ValidTypes::Operator(op2),
                ValidTypes::Number(c),
            ],
        ) == (match op.apply(a, b) {
            Ok(inner) => op2.apply(inner, c),
            Err(e) => Err(e),
        }),
{
    let t = seq![
        ValidTypes::Bracket(BracketType::Open),
        ValidTypes::Number(a),
        ValidTypes::Operator(op),
        ValidTypes::Number(b),
        ValidTypes::Bracket(BracketType::Closed),
        ValidTypes::Operator(op2),
        ValidTypes::Number(c),
    ];
    assert(is_most_important(t, 2)) by {
        reveal_with_fuel(depth_before, 8);
    }
    lemma_most_important_is(t, 2);
    match op.apply(a, b) {
        Ok(inner) => {
            let u = seq![
                ValidTypes::Number(inner),
                ValidTypes::Operator(op2),
                ValidTypes::Number(c),
            ];
            assert(spliced(t, 2, inner) =~= u);
            assert(reduce_step(t) == Ok::<Seq<ValidTypes>, EvalError>(u));
            lemma_single_operation(inner, op2, c);
        },
        Err(e) => {
            assert(reduce_step(t) == Err::<Seq<ValidTypes>, EvalError>(e));
        },
    }
}

/// A reduction takes two tokens away, or four where a bracket pair goes
/// with the operation, and leaves a number where the operation stood.
pub proof fn lemma_reduction_shrinks(tokens: Seq<ValidTypes>)
    requires
        reduce_step(tokens) is Ok,
    ensures
        most_important(tokens) is Some,
        reduce_step(tokens)->Ok_0.len() == tokens.len() - (if in_bracket(
            tokens,
            most_important(tokens)->Some_0,
        ) {
            4int
        } else {
            2int
        }),
        exists|i: int|
            0 <= i < reduce_step(tokens)->Ok_0.len() && (#[trigger] reduce_step(tokens)->Ok_0[i])
                is Number,
{
    let p = most_important(tokens)->Some_0;
    let u = reduce_step(tokens)->Ok_0;
    if in_bracket(tokens, p) {
        assert(u[p - 2] is Number);
    } else {
        assert(u[p - 1] is Number);
    }
}

/// Where a sequence of more than one token has a value, reduction ends
/// with that value as the only token.
pub proof fn lemma_value_is_last_token(tokens: Seq<ValidTypes>, value: i32)
    requires
        tokens.len() > 1,
        evaluate_tokens(tokens) == Ok::<i32, EvalError>(value),
    ensures
        reduction_end(tokens) == seq![ValidTypes::Number(value)],
    decreases tokens.len(),
{
    lemma_reduction_shrinks(tokens);
    let u = reduce_step(tokens)->Ok_0;
    assert(evaluate_tokens(tokens) == evaluate_tokens(u));
    assert(reduction_end(tokens) == reduction_end(u));
    if u.len() > 1 {
        lemma_value_is_last_token(u, value);
    } else {
        assert(u[0] is Number);
        assert(reduction_end(u) == u);
        assert(u =~= seq![ValidTypes::Number(value)]);
    }
}

/// What is left of a text holds allowed characters only.
pub proof fn lemma_allowed_only_holds_allowed(text: Seq<char>)
    ensures
        forall|i: int| 0 <= i < allowed_only(text).len() ==> is_allowed(#[trigger] allowed_only(text)[i]),
    decreases text.len(),
{
    if text.len() > 0 {
        lemma_allowed_only_holds_allowed(text.drop_last());
        let kept = allowed_only(text.drop_last());
        assert forall|i: int| 0 <= i < allowed_only(text).len() implies is_allowed(
            #[trigger] allowed_only(text)[i],
        ) by {
            if i < kept.len() {
                assert(allowed_only(text)[i] == kept[i]);
            }
        }
    }
}

/// Every token is a raw character that is allowed.
pub open spec fn is_raw_allowed(data: Seq<ValidTypes>) -> bool {
    forall|i: int|
        0 <= i < data.len() ==> (#[trigger] data[i]) is Character && is_allowed(
            data[i]->Character_0,
        )
}

/// Tokenizing raw allowed characters leaves no raw character: every token
/// is a number, an operator or a bracket.
pub proof fn lemma_tokens_hold_no_characters(
    data: Seq<ValidTypes>,
    pending: Option<int>,
    tokens: Seq<ValidTypes>,
)
    requires
        is_raw_allowed(data),
        tokens_from(data, pending) == Some(tokens),
    ensures
        forall|j: int| 0 <= j < tokens.len() ==> !((#[trigger] tokens[j]) is Character),
    decreases data.len(),
{
    if data.len() > 0 {
        let rest = data.skip(1);
        assert(is_raw_allowed(rest)) by {
            assert forall|i: int| 0 <= i < rest.len() implies (#[trigger] rest[i]) is Character
                && is_allowed(rest[i]->Character_0) by {
                assert(rest[i] == data[i + 1]);
            }
        }
        assert(data[0] is Character);
        let c = data[0]->Character_0;
        if is_digit(c) {
            lemma_tokens_hold_no_characters(rest, Some(extend(pending, c)), tokens);
        } else {
            let head = flush(pending)->Some_0;
            let tail = tokens_from(rest, None)->Some_0;
            lemma_tokens_hold_no_characters(rest, None, tail);
            assert(tokens == (head + seq![classify(c)]) + tail);
            assert(!(classify(c) is Character));
        }
    }
}

/// The tokens of a text, once the disallowed characters are dropped, hold
/// no raw character.
pub proof fn lemma_text_tokens_hold_no_characters(text: Seq<char>, tokens: Seq<ValidTypes>)
    requires
        tokenized(characters(allowed_only(text))) == Some(tokens),
    ensures
        forall|j: int| 0 <= j < tokens.len() ==> !((#[trigger] tokens[j]) is Character),
{
    lemma_allowed_only_holds_allowed(text);
    let data = characters(allowed_only(text));
    assert(is_raw_allowed(data));
    lemma_tokens_hold_no_characters(data, None, tokens);
}

/// `a op1 (b op2 (c op3 d))` is evaluated from the innermost bracket
/// outwards, for all numbers and operators: each level of brackets goes
/// before the level around it, whatever the precedence ranks.
pub proof fn lemma_innermost_bracket_first(
    a: i32,
    op1: OperatorType,
    b: i32,
    op2: OperatorType,
    c: i32,
    op3: OperatorType,
    d: i32,
)
    ensures
        evaluate_tokens(
            seq![
                ValidTypes::Number(a),
                ValidTypes::Operator(op1),
                ValidTypes::Bracket(BracketType::Open),
                ValidTypes::Number(b),
                ValidTypes::Operator(op2),
                ValidTypes::Bracket(BracketType::Open),
                ValidTypes::Number(c),
                ValidTypes::Operator(op3),
                ValidTypes::Number(d),
                ValidTypes::Bracket(BracketType::Closed),
                ValidTypes::Bracket(BracketType::Closed),
            ],
        ) == (match op3.apply(c, d) {
            Ok(innermost) => match op2.apply(b, innermost) {
                Ok(inner) => op1.apply(a, inner),
                Err(e) => Err(e),
            },
            Err(e) => Err(e),
        }),
{
    let t = seq![
        ValidTypes::Number(a),
        ValidTypes::Operator(op1),
        ValidTypes::Bracket(BracketType::Open),
        ValidTypes::Number(b),
        ValidTypes::Operator(op2),
        ValidTypes::Bracket(BracketType::Open),
        ValidTypes::Number(c),
        ValidTypes::Operator(op3),
        ValidTypes::Number(d),
        ValidTypes::Bracket(BracketType::Closed),
        ValidTypes::Bracket(BracketType::Closed),
    ];
    assert(is_most_important(t, 7)) by {
        reveal_with_fuel(depth_before, 12);
    }
    lemma_most_important_is(t, 7);
    match op3.apply(c, d) {
        Ok(innermost) => {
            let u = seq![
                ValidTypes::Number(a),
                ValidTypes::Operator(op1),
                ValidTypes::Bracket(BracketType::Open),
                ValidTypes::Number(b),
                ValidTypes::Operator(op2),
                ValidTypes::Number(innermost),
                ValidTypes::Bracket(BracketType::Closed),
            ];
            assert(spliced(t, 7, innermost) =~= u);
            assert(reduce_step(t) == Ok::<Seq<ValidTypes>, EvalError>(u));
            lemma_bracket_last(a, op1, b, op2, innermost);
        },
        Err(e) => {
            assert(reduce_step(t) == Err::<Seq<ValidTypes>, EvalError>(e));
        },
    }
}

/// `a op1 (b op2 c)` is `op1` applied to `a` and the value of the bracket,
/// for all numbers and operators.
pub proof fn lemma_bracket_last(a: i32, op1: OperatorType, b: i32, op2: OperatorType, c: i32)
    ensures
        evaluate_tokens(
            seq![
                ValidTypes::Number(a),
                ValidTypes::Operator(op1),
                ValidTypes::Bracket(BracketType::Open),
                ValidTypes::Number(b),
                ValidTypes::Operator(op2),
                ValidTypes::Number(c),
                ValidTypes::Bracket(BracketType::Closed),
            ],
        ) == (match op2.apply(b, c) {
            Ok(inner) => op1.apply(a, inner),
            Err(e) => Err(e),
        }),
{
    let t = seq![
        ValidTypes::Number(a),
        ValidTypes::Operator(op1),
        ValidTypes::Bracket(BracketType::Open),
        ValidTypes::Number(b),
        ValidTypes::Operator(op2),
        ValidTypes::Number(c),
        ValidTypes::Bracket(BracketType::Closed),
    ];
    assert(is_most_important(t, 4)) by {
        reveal_with_fuel(depth_before, 8);
    }
    lemma_most_important_is(t, 4);
    match op2.apply(b, c) {
        Ok(inner) => {
            let u = seq![
                ValidTypes::Number(a),
                ValidTypes::Operator(op1),
                ValidTypes::Number(inner),
            ];
            assert(spliced(t, 4, inner) =~= u);
            assert(reduce_step(t) == Ok::<Seq<ValidTypes>, EvalError>(u));
            lemma_single_operation(a, op1, inner);
        },
        Err(e) => {
            assert(reduce_step(t) == Err::<Seq<ValidTypes>, EvalError>(e));
        },
    }
}

/// `a op b` is `op` applied to `a` and `b`.
pub proof fn lemma_single_operation(a: i32, op: OperatorType, b: i32)
    ensures
        evaluate_tokens(
            seq![ValidTypes::Number(a), ValidTypes::Operator(op), ValidTypes::Number(b)],
        ) == op.apply(a, b),
{
    let t = seq![ValidTypes::Number(a), ValidTypes::Operator(op), ValidTypes::Number(b)];
    assert(is_most_important(t, 1)) by {
        reveal_with_fuel(depth_before, 4);
    }
    lemma_most_important_is(t, 1);
    match op.apply(a, b) {
        Ok(v) => {
            let u = seq![ValidTypes::Number(v)];
            assert(spliced(t, 1, v) =~= u);
            assert(reduce_step(t) == Ok::<Seq<ValidTypes>, EvalError>(u));
            assert(evaluate_tokens(u) == Ok::<i32, EvalError>(v));
        },
        Err(e) => {
            assert(reduce_step(t) == Err::<Seq<ValidTypes>, EvalError>(e));
        },
    }
}

} // verus!
