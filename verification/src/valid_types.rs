//! Tokens, the tokenizer that classifies raw characters into them, and the
//! evaluator that reduces a token sequence to a single number.

use vstd::prelude::*;
use vstd::arithmetic::power::pow;
use crate::text::chars_of;
use crate::arith::{wrap32, truncating_quotient, add_wrapping, sub_wrapping, mul_wrapping,
    div_truncating, pow_wrapping};

verus! {

/// The five binary operators.
#[derive(PartialEq, Eq, Structural, Debug, Copy, Clone)]
pub enum OperatorType {
    Add,
    Sub,
    Mul,
    Div,
    Pow,
}

/// The two sides of a bracket pair.
#[derive(PartialEq, Eq, Structural, Debug, Copy, Clone)]
pub enum BracketType {
    Open,
    Closed,
}

/// A token. `Character` is a raw character that has not been classified yet,
/// or a stray one that is neither a digit nor a symbol.
#[derive(PartialEq, Eq, Structural, Debug, Copy, Clone)]
pub enum ValidTypes {
    Character(char),
    Number(i32),
    Operator(OperatorType),
    Bracket(BracketType),
}

/// Why an expression has no value.
#[derive(PartialEq, Eq, Structural, Debug, Copy, Clone)]
pub enum EvalError {
    /// A run of digits does not fit a 32-bit signed integer.
    MalformedNumber,
    /// No operator can be reduced, or the chosen operator does not stand
    /// between two numbers.
    MalformedExpression,
    /// The right operand of `/` is zero.
    DivisionByZero,
    /// The right operand of `^` is negative.
    NegativeExponent,
}

impl OperatorType {
    /// The precedence rank of the operator.
    pub open spec fn importance(self) -> int {
        match self {
            OperatorType::Add => 1,
            OperatorType::Sub => 1,
            OperatorType::Mul => 2,
            OperatorType::Div => 2,
            OperatorType::Pow => 3,
        }
    }

    /// The value of `a op b`, in wrapping 32-bit arithmetic, or the reason
    /// why there is none.
    pub open spec fn apply(self, a: i32, b: i32) -> Result<i32, EvalError> {
        match self {
            OperatorType::Add => Ok(wrap32(a + b)),
            OperatorType::Sub => Ok(wrap32(a - b)),
            OperatorType::Mul => Ok(wrap32(a * b)),
            OperatorType::Div => if b == 0 {
                Err(EvalError::DivisionByZero)
            } else {
                Ok(wrap32(truncating_quotient(a as int, b as int)))
            },
            OperatorType::Pow => if b < 0 {
                Err(EvalError::NegativeExponent)
            } else {
                Ok(wrap32(pow(a as int, b as nat)))
            },
        }
    }

    /// The precedence rank: 1 for `+` and `-`, 2 for `*` and `/`, 3 for `^`.
    pub fn get_importance(&self) -> (r: i32)
        ensures
            r == self.importance(),
    {
        match self {
            OperatorType::Add => 1,
            OperatorType::Sub => 1,
            OperatorType::Mul => 2,
            OperatorType::Div => 2,
            OperatorType::Pow => 3,
        }
    }

    /// Applies the operator to `a` and `b`.
    pub fn get_operation(&self, a: i32, b: i32) -> (r: Result<i32, EvalError>)
        ensures
            r == self.apply(a, b),
    {
        match self {
            OperatorType::Add => Ok(add_wrapping(a, b)),
            OperatorType::Sub => Ok(sub_wrapping(a, b)),
            OperatorType::Mul => Ok(mul_wrapping(a, b)),
            OperatorType::Div => if b == 0 {
                Err(EvalError::DivisionByZero)
            } else {
                Ok(div_truncating(a, b))
            },
            OperatorType::Pow => if b < 0 {
                Err(EvalError::NegativeExponent)
            } else {
                Ok(pow_wrapping(a, b))
            },
        }
    }
}

/// How much the token `t` changes the bracket depth of what follows it.
pub open spec fn depth_change(t: ValidTypes) -> int {
    match t {
        ValidTypes::Bracket(BracketType::Open) => 10,
        ValidTypes::Bracket(BracketType::Closed) => -10,
        _ => 0,
    }
}

/// Ten times the number of open brackets minus ten times the number of
/// closed brackets among the first `i` tokens.
pub open spec fn depth_before(tokens: Seq<ValidTypes>, i: int) -> int
    decreases i,
{
    if i <= 0 {
        0
    } else {
        depth_before(tokens, i - 1) + depth_change(tokens[i - 1])
    }
}

/// The score of the token at `i`: bracket depth plus precedence for an
/// operator, zero for anything else.
pub open spec fn score(tokens: Seq<ValidTypes>, i: int) -> int {
    match tokens[i] {
        ValidTypes::Operator(op) => depth_before(tokens, i) + op.importance(),
        _ => 0,
    }
}

/// `p` is the leftmost position of the highest score, and that score is
/// positive.
pub open spec fn is_most_important(tokens: Seq<ValidTypes>, p: int) -> bool {
    &&& 0 <= p < tokens.len()
    &&& score(tokens, p) > 0
    &&& forall|j: int| 0 <= j < tokens.len() ==> score(tokens, j) <= score(tokens, p)
    &&& forall|j: int| 0 <= j < p ==> score(tokens, j) < score(tokens, p)
}

/// The position of the operation to reduce next, if any token has a
/// positive score.
pub open spec fn most_important(tokens: Seq<ValidTypes>) -> Option<int> {
    if exists|p: int| is_most_important(tokens, p) {
        Some(choose|p: int| is_most_important(tokens, p))
    } else {
        None
    }
}

/// At most one position is the most important one.
pub proof fn lemma_most_important_unique(tokens: Seq<ValidTypes>, p: int, q: int)
    requires
        is_most_important(tokens, p),
        is_most_important(tokens, q),
    ensures
        p == q,
{
    if p < q {
        assert(score(tokens, p) < score(tokens, q));
        assert(score(tokens, q) <= score(tokens, p));
    } else if q < p {
        assert(score(tokens, q) < score(tokens, p));
        assert(score(tokens, p) <= score(tokens, q));
    }
}

/// A position that meets `is_most_important` is the one `most_important` names.
pub proof fn lemma_most_important_is(tokens: Seq<ValidTypes>, p: int)
    requires
        is_most_important(tokens, p),
    ensures
        most_important(tokens) == Some(p),
{
    let q = choose|q: int| is_most_important(tokens, q);
    lemma_most_important_unique(tokens, p, q);
}

/// The operand pair around `i` sits directly inside a bracket pair.
pub open spec fn in_bracket(tokens: Seq<ValidTypes>, i: int) -> bool {
    &&& 2 <= i
    &&& i + 2 < tokens.len()
    &&& tokens[i - 2] == ValidTypes::Bracket(BracketType::Open)
    &&& tokens[i + 2] == ValidTypes::Bracket(BracketType::Closed)
}

/// `tokens` with the operation at `i` replaced by the number `v`, the
/// enclosing bracket pair going with it where there is one.
pub open spec fn spliced(tokens: Seq<ValidTypes>, i: int, v: i32) -> Seq<ValidTypes> {
    if in_bracket(tokens, i) {
        tokens.subrange(0, i - 2).push(ValidTypes::Number(v)) + tokens.subrange(
            i + 3,
            tokens.len() as int,
        )
    } else {
        tokens.subrange(0, i - 1).push(ValidTypes::Number(v)) + tokens.subrange(
            i + 2,
            tokens.len() as int,
        )
    }
}

/// One reduction at position `i`: the operator there must stand between two
/// numbers, and its function must have a value.
pub open spec fn reduce_at(tokens: Seq<ValidTypes>, i: int) -> Result<Seq<ValidTypes>, EvalError> {
    if 1 <= i && i + 1 < tokens.len() {
        match (tokens[i - 1], tokens[i], tokens[i + 1]) {
            (ValidTypes::Number(a), ValidTypes::Operator(op), ValidTypes::Number(b)) => {
                match op.apply(a, b) {
                    Ok(v) => Ok(spliced(tokens, i, v)),
                    Err(e) => Err(e),
                }
            },
            _ => Err(EvalError::MalformedExpression),
        }
    } else {
        Err(EvalError::MalformedExpression)
    }
}

/// One reduction at the most important operation.
pub open spec fn reduce_step(tokens: Seq<ValidTypes>) -> Result<Seq<ValidTypes>, EvalError> {
    match most_important(tokens) {
        Some(i) => reduce_at(tokens, i),
        None => Err(EvalError::MalformedExpression),
    }
}

/// The value of a sequence that cannot be reduced further: its first token
/// if that is a number, else zero.
pub open spec fn final_value(tokens: Seq<ValidTypes>) -> i32 {
    if tokens.len() > 0 {
        match tokens[0] {
            ValidTypes::Number(v) => v,
            _ => 0,
        }
    } else {
        0
    }
}

/// The value of a token sequence: reduce until at most one token is left.
pub open spec fn evaluate_tokens(tokens: Seq<ValidTypes>) -> Result<i32, EvalError>
    decreases tokens.len(),
{
    if tokens.len() <= 1 {
        Ok(final_value(tokens))
    } else {
        match reduce_step(tokens) {
            Ok(next) => evaluate_tokens(next),
            Err(e) => Err(e),
        }
    }
}

/// The sequence at which reduction stops: at most one token, or the first
/// sequence that has no reduction.
pub open spec fn reduction_end(tokens: Seq<ValidTypes>) -> Seq<ValidTypes>
    decreases tokens.len(),
{
    if tokens.len() <= 1 {
        tokens
    } else {
        match reduce_step(tokens) {
            Ok(next) => reduction_end(next),
            Err(_) => tokens,
        }
    }
}

/// `c` is one of the ten decimal digits.
pub open spec fn is_digit(c: char) -> bool {
    '0' <= c && c <= '9'
}

/// The value of a decimal digit.
pub open spec fn digit_value(c: char) -> int {
    c as int - '0' as int
}

/// The token that a character which is no digit stands for: an operator, a
/// bracket, or the character itself where it is neither.
pub open spec fn classify(c: char) -> ValidTypes {
    if c == '+' {
        ValidTypes::Operator(OperatorType::Add)
    } else if c == '-' {
        ValidTypes::Operator(OperatorType::Sub)
    } else if c == '*' {
        ValidTypes::Operator(OperatorType::Mul)
    } else if c == '/' {
        ValidTypes::Operator(OperatorType::Div)
    } else if c == '^' {
        ValidTypes::Operator(OperatorType::Pow)
    } else if c == '(' {
        ValidTypes::Bracket(BracketType::Open)
    } else if c == ')' {
        ValidTypes::Bracket(BracketType::Closed)
    } else {
        ValidTypes::Character(c)
    }
}

/// The raw token for a character.
pub open spec fn raw(c: char) -> ValidTypes {
    ValidTypes::Character(c)
}

/// Each character as a raw token.
pub open spec fn characters(text: Seq<char>) -> Seq<ValidTypes> {
    Seq::new(text.len(), |i: int| raw(text[i]))
}

/// The value of the digit run `pending` with the digit `c` behind it.
pub open spec fn extend(pending: Option<int>, c: char) -> int {
    10 * (match pending {
        Some(v) => v,
        None => 0,
    }) + digit_value(c)
}

/// The tokens that a finished digit run gives: none where there is no run,
/// one number where its value fits 32 bits, and no result where it does not.
pub open spec fn flush(pending: Option<int>) -> Option<Seq<ValidTypes>> {
    match pending {
        None => Some(Seq::empty()),
        Some(v) => if v <= i32::MAX {
            Some(seq![ValidTypes::Number(v as i32)])
        } else {
            None
        },
    }
}

/// `head` followed by `tail`, where both exist.
pub open spec fn followed_by(
    head: Option<Seq<ValidTypes>>,
    tail: Option<Seq<ValidTypes>>,
) -> Option<Seq<ValidTypes>> {
    match (head, tail) {
        (Some(h), Some(t)) => Some(h + t),
        _ => None,
    }
}

/// The tokens of `data`, read from the left with the value of the digit run
/// read so far in `pending`. A digit extends the run. Any other character
/// ends it and is classified. A token that is no raw character is kept as
/// it is and does not end the run. `None` where a run does not fit 32 bits.
pub open spec fn tokens_from(data: Seq<ValidTypes>, pending: Option<int>) -> Option<
    Seq<ValidTypes>,
>
    decreases data.len(),
{
    if data.len() == 0 {
        flush(pending)
    } else {
        let rest = data.skip(1);
        match data[0] {
            ValidTypes::Character(c) => if is_digit(c) {
                tokens_from(rest, Some(extend(pending, c)))
            } else {
                followed_by(
                    followed_by(flush(pending), Some(seq![classify(c)])),
                    tokens_from(rest, None),
                )
            },
            t => followed_by(Some(seq![t]), tokens_from(rest, pending)),
        }
    }
}

/// The tokens of `data`.
pub open spec fn tokenized(data: Seq<ValidTypes>) -> Option<Seq<ValidTypes>> {
    tokens_from(data, None)
}

/// A digit run whose value has outgrown 32 bits has no tokens, whatever
/// follows it.
pub proof fn lemma_overflow_stays(data: Seq<ValidTypes>, v: int)
    requires
        v > i32::MAX,
    ensures
        tokens_from(data, Some(v)) is None,
    decreases data.len(),
{
    if data.len() > 0 {
        let rest = data.skip(1);
        match data[0] {
            ValidTypes::Character(c) => {
                if is_digit(c) {
                    lemma_overflow_stays(rest, extend(Some(v), c));
                }
            },
            _ => {
                lemma_overflow_stays(rest, v);
            },
        }
    }
}

/// Whether `c` is a decimal digit.
pub fn is_digit_char(c: char) -> (r: bool)
    ensures
        r == is_digit(c),
{
    '0' <= c && c <= '9'
}

/// The token for a character that is no digit.
pub fn classify_char(c: char) -> (r: ValidTypes)
    ensures
        r == classify(c),
{
    if c == '+' {
        ValidTypes::Operator(OperatorType::Add)
    } else if c == '-' {
        ValidTypes::Operator(OperatorType::Sub)
    } else if c == '*' {
        ValidTypes::Operator(OperatorType::Mul)
    } else if c == '/' {
        ValidTypes::Operator(OperatorType::Div)
    } else if c == '^' {
        ValidTypes::Operator(OperatorType::Pow)
    } else if c == '(' {
        ValidTypes::Bracket(BracketType::Open)
    } else if c == ')' {
        ValidTypes::Bracket(BracketType::Closed)
    } else {
        ValidTypes::Character(c)
    }
}

impl From<char> for ValidTypes {
    /// The raw token for a character.
    fn from(value: char) -> (r: ValidTypes) {
        ValidTypes::Character(value)
    }
}

impl vstd::std_specs::convert::FromSpecImpl<char> for ValidTypes {
    open spec fn obeys_from_spec() -> bool {
        true
    }

    open spec fn from_spec(value: char) -> ValidTypes {
        raw(value)
    }
}

/// Each character as a raw token.
pub fn raw_tokens(chars: &Vec<char>) -> (r: Vec<ValidTypes>)
    ensures
        r@ == characters(chars@),
{
    let mut data: Vec<ValidTypes> = Vec::new();
    let mut i: usize = 0;
    while i < chars.len()
        invariant
            i <= chars.len(),
            data@.len() == i,
            forall|j: int| 0 <= j < i ==> data@[j] == raw(chars@[j]),
        decreases chars.len() - i,
    {
        data.push(ValidTypes::from(chars[i]));
        i = i + 1;
    }
    assert(data@ =~= characters(chars@));
    data
}

/// A token sequence under tokenization and evaluation.
#[derive(Debug, Clone)]
pub struct ValidTypesMapper {
    data: Vec<ValidTypes>,
}

impl View for ValidTypesMapper {
    type V = Seq<ValidTypes>;

    closed spec fn view(&self) -> Seq<ValidTypes> {
        self.data@
    }
}

impl ValidTypesMapper {
    /// A mapper over the given tokens.
    pub fn from_tokens(tokens: Vec<ValidTypes>) -> (r: ValidTypesMapper)
        ensures
            r@ == tokens@,
    {
        ValidTypesMapper { data: tokens }
    }

    /// The tokens held at present.
    pub fn tokens(&self) -> (r: Vec<ValidTypes>)
        ensures
            r@ == self@,
    {
        let mut out: Vec<ValidTypes> = Vec::new();
        let mut i: usize = 0;
        while i < self.data.len()
            invariant
                i <= self.data.len(),
                out@ == self.data@.subrange(0, i as int),
            decreases self.data.len() - i,
        {
            out.push(self.data[i]);
            assert(out@ =~= self.data@.subrange(0, i + 1));
            i = i + 1;
        }
        assert(out@ =~= self.data@);
        out
    }

    /// A mapper that holds each character of `text` as a raw token.
    pub fn new(text: &String) -> (r: ValidTypesMapper)
        ensures
            r@ == characters(text@),
    {
        let chars = chars_of(text.as_str());
        ValidTypesMapper { data: raw_tokens(&chars) }
    }

    /// Tokenizes the sequence in place: runs of digits become numbers, the
    /// seven symbols become operators and brackets. Fails, and leaves the
    /// sequence as it is, where a run of digits does not fit 32 bits.
    pub fn parse(&mut self) -> (r: Result<(), EvalError>)
        ensures
            match tokenized(old(self)@) {
                Some(tokens) => r is Ok && final(self)@ == tokens,
                None => r == Err::<(), EvalError>(EvalError::MalformedNumber) && final(self)@
                    == old(self)@,
            },
    {
        let mut out: Vec<ValidTypes> = Vec::new();
        let mut run: i32 = 0;
        let mut in_run: bool = false;
        let ghost pending: Option<int> = None;
        let mut i: usize = 0;
        proof {
            assert(self@.skip(0) =~= self@);
            if tokenized(self@) is Some {
                assert(out@ + tokenized(self@).unwrap() =~= tokenized(self@).unwrap());
            }
        }
        while i < self.data.len()
            invariant
                i <= self.data.len(),
                self@ == old(self)@,
                run >= 0,
                !in_run ==> run == 0,
                pending == (if in_run {
                    Some(run as int)
                } else {
                    None
                }),
                tokenized(self@) == followed_by(Some(out@), tokens_from(self@.skip(i as int), pending)),
            decreases self.data.len() - i,
        {
            let ghost here = self@.skip(i as int);
            let ghost rest = self@.skip(i + 1);
            let ghost done = out@;
            assert(here.skip(1) =~= rest);
            assert(here[0] == self@[i as int]);
            match self.data[i] {
                ValidTypes::Character(c) => {
                    if is_digit_char(c) {
                        let digit: i64 = c as u32 as i64 - '0' as u32 as i64;
                        let next: i64 = 10 * (run as i64) + digit;
                        if next > 0x7fff_ffff {
                            proof {
                                lemma_overflow_stays(rest, next as int);
                            }
                            return Err(EvalError::MalformedNumber);
                        }
                        run = next as i32;
                        in_run = true;
                        proof {
                            pending = Some(run as int);
                        }
                    } else {
                        if in_run {
                            out.push(ValidTypes::Number(run));
                            run = 0;
                            in_run = false;
                        }
                        out.push(classify_char(c));
                        proof {
                            let tail = tokens_from(rest, None);
                            if tail is Some {
                                let mid = followed_by(flush(pending), Some(seq![classify(c)])).unwrap();
                                assert(out@ =~= done + mid);
                                assert(out@ + tail.unwrap() =~= done + (mid + tail.unwrap()));
                            }
                            pending = None;
                        }
                    }
                },
                t => {
                    out.push(t);
                    proof {
                        let tail = tokens_from(rest, pending);
                        if tail is Some {
                            assert(out@ + tail.unwrap() =~= done + (seq![t] + tail.unwrap()));
                        }
                    }
                },
            }
            i = i + 1;
        }
        assert(self@.skip(i as int).len() == 0);
        if in_run {
            out.push(ValidTypes::Number(run));
        }
        assert(Some(out@) =~= tokenized(self@));
        self.data = out;
        Ok(())
    }

    /// Whether the operand pair around `pos` has an open bracket directly
    /// before it and a closed bracket directly after it.
    pub fn is_in_bracket(&self, pos: usize) -> (r: bool)
        ensures
            r == in_bracket(self@, pos as int),
    {
        if pos < 2 || self.data.len() < 3 || pos >= self.data.len() - 2 {
            return false;
        }
        self.data[pos - 2] == ValidTypes::Bracket(BracketType::Open) && self.data[pos + 2]
            == ValidTypes::Bracket(BracketType::Closed)
    }

    /// The position of the operation to reduce next: the leftmost operator
    /// of the highest score, where some score is positive.
    pub fn get_most_important_operation(&self) -> (r: Option<usize>)
        ensures
            match r {
                Some(p) => is_most_important(self@, p as int) && self@[p as int] is Operator,
                None => forall|j: int| 0 <= j < self@.len() ==> score(self@, j) <= 0,
            },
            r matches Some(p) ==> most_important(self@) == Some(p as int),
            r is None ==> most_important(self@) is None,
    {
        let mut depth: i128 = 0;
        let mut best_pos: usize = 0;
        let mut best_score: i128 = 0;
        let mut pos: usize = 0;
        while pos < self.data.len()
            invariant
                pos <= self.data.len(),
                depth == depth_before(self@, pos as int),
                -10 * pos <= depth <= 10 * pos,
                0 <= best_score <= 10 * pos + 3,
                forall|j: int| 0 <= j < pos ==> score(self@, j) <= best_score,
                best_score > 0 ==> best_pos < pos && score(self@, best_pos as int) == best_score,
                forall|j: int| 0 <= j < best_pos ==> score(self@, j) < best_score,
                best_score == 0 ==> best_pos == 0,
            decreases self.data.len() - pos,
        {
            match self.data[pos] {
                ValidTypes::Operator(op) => {
                    let candidate: i128 = depth + op.get_importance() as i128;
                    if candidate > best_score {
                        best_pos = pos;
                        best_score = candidate;
                    }
                },
                ValidTypes::Bracket(BracketType::Open) => {
                    depth = depth + 10;
                },
                ValidTypes::Bracket(BracketType::Closed) => {
                    depth = depth - 10;
                },
                _ => {},
            }
            pos = pos + 1;
        }
        if best_score > 0 {
            proof {
                lemma_most_important_is(self@, best_pos as int);
            }
            Some(best_pos)
        } else {
            None
        }
    }

    /// Replaces the operation at `at` (left operand, operator, right
    /// operand) by the number `value`; a bracket pair that directly encloses
    /// the operation goes with it.
    pub fn splice(&mut self, at: usize, value: i32)
        requires
            1 <= at,
            at + 1 < old(self)@.len(),
        ensures
            final(self)@ == spliced(old(self)@, at as int, value),
    {
        let len: usize = self.data.len();
        let bracketed: bool = self.is_in_bracket(at);
        let start: usize = if bracketed { at - 2 } else { at - 1 };
        let end: usize = if bracketed { at + 3 } else { at + 2 };
        let mut out: Vec<ValidTypes> = Vec::new();
        let mut j: usize = 0;
        while j < start
            invariant
                j <= start < len,
                len == self@.len(),
                out@ =~= self@.subrange(0, j as int),
            decreases start - j,
        {
            out.push(self.data[j]);
            j = j + 1;
        }
        out.push(ValidTypes::Number(value));
        let ghost head = out@;
        let mut k: usize = end;
        while k < len
            invariant
                end <= k <= len,
                len == self@.len(),
                out@ =~= head + self@.subrange(end as int, k as int),
            decreases len - k,
        {
            out.push(self.data[k]);
            k = k + 1;
        }
        self.data = out;
    }

    /// One reduction at the most important operation. Leaves the sequence
    /// as it is where there is none.
    pub fn reduce(&mut self) -> (r: Result<(), EvalError>)
        ensures
            match reduce_step(old(self)@) {
                Ok(next) => r is Ok && final(self)@ == next,
                Err(e) => r == Err::<(), EvalError>(e) && final(self)@ == old(self)@,
            },
    {
        let at: usize = match self.get_most_important_operation() {
            Some(p) => p,
            None => {
                return Err(EvalError::MalformedExpression);
            },
        };
        let len: usize = self.data.len();
        if at < 1 || at >= len - 1 {
            return Err(EvalError::MalformedExpression);
        }
        let a: i32 = match self.data[at - 1] {
            ValidTypes::Number(n) => n,
            _ => {
                return Err(EvalError::MalformedExpression);
            },
        };
        let op: OperatorType = match self.data[at] {
            ValidTypes::Operator(o) => o,
            _ => {
                return Err(EvalError::MalformedExpression);
            },
        };
        let b: i32 = match self.data[at + 1] {
            ValidTypes::Number(n) => n,
            _ => {
                return Err(EvalError::MalformedExpression);
            },
        };
        match op.get_operation(a, b) {
            Ok(v) => {
                self.splice(at, v);
                Ok(())
            },
            Err(e) => Err(e),
        }
    }

    /// Reduces the sequence, one most important operation at a time, until
    /// at most one token is left, and returns the value of that token: the
    /// number it holds, or zero where it is no number or the sequence is
    /// empty. Stops at the first sequence that has no reduction and says why.
    pub fn evaluate(&mut self) -> (r: Result<i32, EvalError>)
        ensures
            r == evaluate_tokens(old(self)@),
            final(self)@ == reduction_end(old(self)@),
    {
        let ghost start = self@;
        while self.data.len() > 1
            invariant
                start == old(self)@,
                evaluate_tokens(self@) == evaluate_tokens(start),
                reduction_end(self@) == reduction_end(start),
            decreases self.data.len(),
        {
            match self.reduce() {
                Ok(()) => {},
                Err(e) => {
                    return Err(e);
                },
            }
        }
        if self.data.len() == 1 {
            match self.data[0] {
                ValidTypes::Number(v) => Ok(v),
                _ => Ok(0),
            }
        } else {
            Ok(0)
        }
    }
}

} // verus!
