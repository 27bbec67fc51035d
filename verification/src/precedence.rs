//! Expressions without brackets and without `^`: reduction gives the value
//! that reading from left to right gives, products before sums.

use vstd::prelude::*;
use crate::valid_types::{EvalError, OperatorType, ValidTypes, depth_before, evaluate_tokens,
    in_bracket, is_most_important, lemma_most_important_is, most_important, reduce_at,
    reduce_step, score, spliced};

verus! {

/// `+` or `-`.
pub open spec fn is_additive(op: OperatorType) -> bool {
    op == OperatorType::Add || op == OperatorType::Sub
}

/// `*` or `/`.
pub open spec fn is_multiplicative(op: OperatorType) -> bool {
    op == OperatorType::Mul || op == OperatorType::Div
}

/// The number at `i`, zero where there is none.
pub open spec fn number_at(t: Seq<ValidTypes>, i: int) -> i32 {
    match t[i] {
        ValidTypes::Number(v) => v,
        _ => 0,
    }
}

/// The operator at `i`, `+` where there is none.
pub open spec fn operator_at(t: Seq<ValidTypes>, i: int) -> OperatorType {
    match t[i] {
        ValidTypes::Operator(op) => op,
        _ => OperatorType::Add,
    }
}

/// A number, then any count of pairs of an operator among `+ - * /` and a
/// number.
pub open spec fn is_flat(t: Seq<ValidTypes>) -> bool {
    &&& t.len() % 2 == 1
    &&& forall|i: int| 0 <= i < t.len() && i % 2 == 0 ==> (#[trigger] t[i]) is Number
    &&& forall|i: int|
        0 <= i < t.len() && i % 2 == 1 ==> (#[trigger] t[i]) is Operator && operator_at(t, i)
            != OperatorType::Pow
}

/// `a op b` where both operands have a value; `None` where one has none or
/// the operator has no value on them.
pub open spec fn combine(op: OperatorType, a: Option<i32>, b: Option<i32>) -> Option<i32> {
    match (a, b) {
        (Some(x), Some(y)) => match op.apply(x, y) {
            Ok(v) => Some(v),
            Err(_) => None,
        },
        _ => None,
    }
}

/// The value of the product that ends with the number at `i`: the numbers
/// back to the nearest `+` or `-`, multiplied and divided from the left.
pub open spec fn product_value(t: Seq<ValidTypes>, i: int) -> Option<i32>
    decreases i,
{
    if i < 2 || is_additive(operator_at(t, i - 1)) {
        Some(number_at(t, i))
    } else {
        combine(operator_at(t, i - 1), product_value(t, i - 2), Some(number_at(t, i)))
    }
}

/// A sum so far and the `+` or `-` behind it, or the product alone.
pub open spec fn joined(left: Option<(Option<i32>, OperatorType)>, product: Option<i32>) -> Option<
    i32,
> {
    match left {
        None => product,
        Some((sum, op)) => combine(op, sum, product),
    }
}

/// What stands before the product that ends at `i`: the value of the sum of
/// the products before it, and the `+` or `-` between; `None` where that
/// product is the first.
pub open spec fn sum_before(t: Seq<ValidTypes>, i: int) -> Option<(Option<i32>, OperatorType)>
    decreases i,
{
    if i < 2 {
        None
    } else if is_additive(operator_at(t, i - 1)) {
        Some((joined(sum_before(t, i - 2), product_value(t, i - 2)), operator_at(t, i - 1)))
    } else {
        sum_before(t, i - 2)
    }
}

/// The value of a flat expression read from left to right, products before
/// sums; `None` where it divides by zero.
pub open spec fn precedence_value(t: Seq<ValidTypes>) -> Option<i32> {
    joined(sum_before(t, t.len() - 1), product_value(t, t.len() - 1))
}

/// `after` is `before` with the operation at `p` replaced by the number `v`.
pub open spec fn is_reduced(before: Seq<ValidTypes>, after: Seq<ValidTypes>, p: int, v: i32) -> bool {
    &&& 1 <= p
    &&& p + 1 < before.len()
    &&& after.len() == before.len() - 2
    &&& forall|j: int| 0 <= j < p - 1 ==> #[trigger] after[j] == before[j]
    &&& after[p - 1] == ValidTypes::Number(v)
    &&& forall|j: int| p <= j < after.len() ==> #[trigger] after[j] == before[j + 2]
}

/// Without brackets every depth is zero.
pub proof fn lemma_flat_depth(t: Seq<ValidTypes>, i: int)
    requires
        is_flat(t),
        0 <= i <= t.len(),
    ensures
        depth_before(t, i) == 0,
    decreases i,
{
    if i > 0 {
        lemma_flat_depth(t, i - 1);
        assert(t[i - 1] is Number || t[i - 1] is Operator);
    }
}

/// In a flat expression an operator scores its precedence rank and a
/// number scores zero.
pub proof fn lemma_flat_scores(t: Seq<ValidTypes>)
    requires
        is_flat(t),
    ensures
        forall|j: int|
            0 <= j < t.len() ==> #[trigger] score(t, j) == (if j % 2 == 1 {
                operator_at(t, j).importance()
            } else {
                0
            }),
{
    assert forall|j: int| 0 <= j < t.len() implies #[trigger] score(t, j) == (if j % 2 == 1 {
        operator_at(t, j).importance()
    } else {
        0
    }) by {
        lemma_flat_depth(t, j);
        assert(t[j] is Number || t[j] is Operator);
    }
}

/// Among the first `n` tokens, the leftmost position of the highest score,
/// where some score is positive; `-1` where none is.
pub proof fn lemma_leftmost_highest(t: Seq<ValidTypes>, n: int) -> (p: int)
    requires
        0 <= n <= t.len(),
    ensures
        -1 <= p < n,
        p == -1 ==> forall|j: int| 0 <= j < n ==> score(t, j) <= 0,
        p >= 0 ==> score(t, p) > 0,
        p >= 0 ==> forall|j: int| 0 <= j < n ==> score(t, j) <= score(t, p),
        p >= 0 ==> forall|j: int| 0 <= j < p ==> score(t, j) < score(t, p),
    decreases n,
{
    if n == 0 {
        -1
    } else {
        let q = lemma_leftmost_highest(t, n - 1);
        let s = score(t, n - 1);
        if q == -1 {
            if s > 0 {
                n - 1
            } else {
                -1
            }
        } else if s > score(t, q) {
            n - 1
        } else {
            q
        }
    }
}

/// Where two sequences agree before `n`, their products and sums before
/// `n` agree.
pub proof fn lemma_same_prefix(t: Seq<ValidTypes>, u: Seq<ValidTypes>, n: int, i: int)
    requires
        forall|j: int| 0 <= j < n ==> #[trigger] u[j] == t[j],
        0 <= i < n,
    ensures
        product_value(u, i) == product_value(t, i),
        sum_before(u, i) == sum_before(t, i),
    decreases i,
{
    if i >= 2 {
        lemma_same_prefix(t, u, n, i - 2);
        assert(u[i - 1] == t[i - 1]);
        assert(u[i] == t[i]);
    } else {
        assert(u[i] == t[i]);
    }
}

/// Reducing the first operation of a product leaves the product and what
/// stands before it as they were, at every number behind the operation.
pub proof fn lemma_product_reduced(t: Seq<ValidTypes>, u: Seq<ValidTypes>, p: int, v: i32, i: int)
    requires
        is_reduced(t, u, p, v),
        is_multiplicative(operator_at(t, p)),
        p < 2 || is_additive(operator_at(t, p - 2)),
        operator_at(t, p).apply(number_at(t, p - 1), number_at(t, p + 1)) == Ok::<i32, EvalError>(v),
        p + 1 <= i < t.len(),
        (i - p) % 2 == 1,
    ensures
        product_value(u, i - 2) == product_value(t, i),
        sum_before(u, i - 2) == sum_before(t, i),
    decreases i,
{
    if i == p + 1 {
        assert(product_value(t, p - 1) == Some(number_at(t, p - 1)));
        assert(product_value(t, p + 1) == Some(v));
        if p >= 3 {
            lemma_same_prefix(t, u, p - 1, p - 3);
            assert(u[p - 2] == t[p - 2]);
        }
        assert(product_value(u, p - 1) == Some(v));
        assert(sum_before(t, p + 1) == sum_before(t, p - 1));
    } else {
        lemma_product_reduced(t, u, p, v, i - 2);
        assert(u[i - 2] == t[i]);
        assert(u[i - 3] == t[i - 1]);
    }
}

/// Where every operator is `+` or `-`, reducing the first operation leaves
/// the value at every number behind it as it was.
pub proof fn lemma_sum_reduced(t: Seq<ValidTypes>, u: Seq<ValidTypes>, v: i32, i: int)
    requires
        is_reduced(t, u, 1, v),
        forall|j: int| 0 <= j < t.len() && j % 2 == 1 ==> is_additive(#[trigger] operator_at(t, j)),
        operator_at(t, 1).apply(number_at(t, 0), number_at(t, 2)) == Ok::<i32, EvalError>(v),
        2 <= i < t.len(),
        i % 2 == 0,
    ensures
        joined(sum_before(u, i - 2), product_value(u, i - 2)) == joined(
            sum_before(t, i),
            product_value(t, i),
        ),
        i >= 4 ==> sum_before(u, i - 2) == sum_before(t, i) && product_value(u, i - 2)
            == product_value(t, i),
    decreases i,
{
    if i == 2 {
        assert(is_additive(operator_at(t, 1)));
        assert(product_value(t, 0) == Some(number_at(t, 0)));
        assert(sum_before(t, 0) == None::<(Option<i32>, OperatorType)>);
        assert(product_value(u, 0) == Some(v));
    } else {
        lemma_sum_reduced(t, u, v, i - 2);
        assert(is_additive(operator_at(t, i - 1)));
        assert(u[i - 2] == t[i]);
        assert(u[i - 3] == t[i - 1]);
    }
}

/// A product that has no value leaves no value to anything behind it.
pub proof fn lemma_product_without_value(t: Seq<ValidTypes>, p: int, i: int)
    requires
        1 <= p,
        product_value(t, p + 1) is None,
        p + 1 <= i,
        (i - p) % 2 == 1,
    ensures
        joined(sum_before(t, i), product_value(t, i)) is None,
        product_value(t, i) is None || (sum_before(t, i) is Some && sum_before(t, i).unwrap().0
            is None),
    decreases i,
{
    if i > p + 1 {
        lemma_product_without_value(t, p, i - 2);
    }
}

/// The result `Ok` of a value, division by zero where there is none.
pub open spec fn value_or_division_by_zero(value: Option<i32>) -> Result<i32, EvalError> {
    match value {
        Some(v) => Ok(v),
        None => Err(EvalError::DivisionByZero),
    }
}

/// `p` is a place where a flat expression may be reduced: the first
/// operation of a product, or the first operation where every operator is
/// `+` or `-`.
pub open spec fn is_flat_choice(t: Seq<ValidTypes>, p: int) -> bool {
    &&& 1 <= p
    &&& p + 1 < t.len()
    &&& p % 2 == 1
    &&& is_multiplicative(operator_at(t, p)) || p == 1
    &&& is_multiplicative(operator_at(t, p)) ==> p < 2 || is_additive(operator_at(t, p - 2))
    &&& !is_multiplicative(operator_at(t, p)) ==> forall|j: int|
        0 <= j < t.len() && j % 2 == 1 ==> is_additive(#[trigger] operator_at(t, j))
}

/// In a flat expression of more than one token, the operation to reduce
/// next is the first `*` or `/`, or, where there is none, the first
/// operator; it stands between two numbers and not in brackets.
pub proof fn lemma_flat_choice(t: Seq<ValidTypes>) -> (p: int)
    requires
        is_flat(t),
        t.len() >= 3,
    ensures
        most_important(t) == Some(p),
        is_flat_choice(t, p),
        !in_bracket(t, p),
{
    lemma_flat_scores(t);
    let p = lemma_leftmost_highest(t, t.len() as int);
    assert(t[1] is Operator);
    assert(score(t, 1) > 0);
    assert(is_most_important(t, p));
    lemma_most_important_is(t, p);
    assert(t[p] is Number || t[p] is Operator);
    assert(p % 2 == 1);
    if p >= 3 {
        assert(t[p - 2] is Operator);
        assert(score(t, p - 2) < score(t, p));
        assert(score(t, 1) < score(t, p));
    }
    if !is_multiplicative(operator_at(t, p)) {
        assert forall|j: int| 0 <= j < t.len() && j % 2 == 1 implies is_additive(
            #[trigger] operator_at(t, j),
        ) by {
            assert(score(t, j) <= score(t, p));
            assert(t[j] is Operator);
        }
    }
    p
}

/// Splicing outside brackets replaces three tokens by one.
pub proof fn lemma_spliced_is_reduced(t: Seq<ValidTypes>, p: int, v: i32)
    requires
        1 <= p,
        p + 1 < t.len(),
        !in_bracket(t, p),
    ensures
        is_reduced(t, spliced(t, p, v), p, v),
{
}

/// Reducing an operation of a flat expression leaves a flat expression.
pub proof fn lemma_reduced_is_flat(t: Seq<ValidTypes>, u: Seq<ValidTypes>, p: int, v: i32)
    requires
        is_flat(t),
        is_reduced(t, u, p, v),
        p % 2 == 1,
    ensures
        is_flat(u),
{
    assert forall|i: int| 0 <= i < u.len() && i % 2 == 0 implies (#[trigger] u[i]) is Number by {
        if i >= p {
            assert(u[i] == t[i + 2]);
        } else if i < p - 1 {
            assert(u[i] == t[i]);
        }
    }
    assert forall|i: int| 0 <= i < u.len() && i % 2 == 1 implies (#[trigger] u[i]) is Operator
        && operator_at(u, i) != OperatorType::Pow by {
        if i >= p {
            assert(u[i] == t[i + 2]);
            assert(operator_at(u, i) == operator_at(t, i + 2));
        } else {
            assert(u[i] == t[i]);
            assert(operator_at(u, i) == operator_at(t, i));
        }
    }
}

/// Where the chosen operation has no value, the expression has none.
pub proof fn lemma_flat_reduction_fails(t: Seq<ValidTypes>, p: int)
    requires
        is_flat(t),
        is_flat_choice(t, p),
        operator_at(t, p).apply(number_at(t, p - 1), number_at(t, p + 1)) is Err,
    ensures
        operator_at(t, p).apply(number_at(t, p - 1), number_at(t, p + 1)) == Err::<
            i32,
            EvalError,
        >(EvalError::DivisionByZero),
        precedence_value(t) is None,
{
    assert(t[p] is Operator);
    assert(operator_at(t, p) == OperatorType::Div);
    assert(product_value(t, p - 1) == Some(number_at(t, p - 1)));
    assert(product_value(t, p + 1) is None);
    lemma_product_without_value(t, p, t.len() - 1);
}

/// Where the chosen operation has a value, the expression with that value
/// in its place is flat and has the same value.
pub proof fn lemma_flat_reduction_keeps_value(
    t: Seq<ValidTypes>,
    u: Seq<ValidTypes>,
    p: int,
    v: i32,
)
    requires
        is_flat(t),
        is_flat_choice(t, p),
        operator_at(t, p).apply(number_at(t, p - 1), number_at(t, p + 1)) == Ok::<i32, EvalError>(v),
        is_reduced(t, u, p, v),
    ensures
        is_flat(u),
        precedence_value(u) == precedence_value(t),
{
    lemma_reduced_is_flat(t, u, p, v);
    if is_multiplicative(operator_at(t, p)) {
        lemma_product_reduced(t, u, p, v, t.len() - 1);
    } else {
        lemma_sum_reduced(t, u, v, t.len() - 1);
    }
}

/// One reduction where the most important operation stands between two
/// numbers and outside brackets.
pub proof fn lemma_reduce_between_numbers(t: Seq<ValidTypes>, p: int)
    requires
        most_important(t) == Some(p),
        1 <= p,
        p + 1 < t.len(),
        t[p - 1] is Number,
        t[p] is Operator,
        t[p + 1] is Number,
    ensures
        reduce_step(t) == (match operator_at(t, p).apply(number_at(t, p - 1), number_at(t, p + 1)) {
            Ok(v) => Ok::<Seq<ValidTypes>, EvalError>(spliced(t, p, v)),
            Err(e) => Err::<Seq<ValidTypes>, EvalError>(e),
        }),
{
    assert(reduce_step(t) == reduce_at(t, p));
}

/// One reduction of a flat expression of more than one token: it fails
/// only where the expression divides by zero, and otherwise leaves a
/// shorter flat expression of the same value.
pub proof fn lemma_flat_reduction(t: Seq<ValidTypes>)
    requires
        is_flat(t),
        t.len() >= 3,
    ensures
        match reduce_step(t) {
            Ok(u) => is_flat(u) && u.len() < t.len() && precedence_value(u) == precedence_value(t),
            Err(e) => e == EvalError::DivisionByZero && precedence_value(t) is None,
        },
{
    let p = lemma_flat_choice(t);
    assert(t[p] is Operator);
    assert(t[p - 1] is Number);
    assert(t[p + 1] is Number);
    lemma_reduce_between_numbers(t, p);
    let outcome = operator_at(t, p).apply(number_at(t, p - 1), number_at(t, p + 1));
    if outcome is Err {
        lemma_flat_reduction_fails(t, p);
    } else {
        let v = outcome->Ok_0;
        let u = spliced(t, p, v);
        lemma_spliced_is_reduced(t, p, v);
        lemma_flat_reduction_keeps_value(t, u, p, v);
        assert(u.len() < t.len());
    }
}

/// For an expression of numbers and `+ - * /` without brackets, reduction
/// gives the value of reading from left to right with `*` and `/` before
/// `+` and `-`, and reports a division by zero where that reading meets one.
pub proof fn lemma_flat_expression_value(t: Seq<ValidTypes>)
    requires
        is_flat(t),
    ensures
        evaluate_tokens(t) == value_or_division_by_zero(precedence_value(t)),
    decreases t.len(),
{
    if t.len() == 1 {
        assert(t[0] is Number);
    } else {
        lemma_flat_reduction(t);
        match reduce_step(t) {
            Ok(u) => {
                lemma_flat_expression_value(u);
            },
            Err(_) => {},
        }
    }
}

} // verus!
