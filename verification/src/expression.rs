//! An expression as raw text, and its evaluation from text to integer.

use vstd::prelude::*;
use vstd::string::StringExecFns;
use crate::text::{chars_of, push_char};
use crate::valid_types::{EvalError, ValidTypesMapper, characters, tokenized, evaluate_tokens};

verus! {

/// `c` is a decimal digit or one of the symbols `+ - * / ^ ( )`.
pub open spec fn is_allowed(c: char) -> bool {
    ('0' <= c && c <= '9') || c == '+' || c == '-' || c == '*' || c == '/' || c == '^' || c == '('
        || c == ')'
}

/// `text` without the characters that are not allowed.
pub open spec fn allowed_only(text: Seq<char>) -> Seq<char>
    decreases text.len(),
{
    if text.len() == 0 {
        Seq::empty()
    } else if is_allowed(text.last()) {
        allowed_only(text.drop_last()).push(text.last())
    } else {
        allowed_only(text.drop_last())
    }
}

/// The value of an expression given as text: drop what is not allowed,
/// tokenize, reduce.
pub open spec fn evaluate_text(text: Seq<char>) -> Result<i32, EvalError> {
    match tokenized(characters(allowed_only(text))) {
        Some(tokens) => evaluate_tokens(tokens),
        None => Err(EvalError::MalformedNumber),
    }
}

/// Whether `c` is allowed in an expression.
pub fn is_allowed_char(c: char) -> (r: bool)
    ensures
        r == is_allowed(c),
{
    ('0' <= c && c <= '9') || c == '+' || c == '-' || c == '*' || c == '/' || c == '^' || c == '('
        || c == ')'
}

/// An arithmetic expression as the text it was given as.
#[derive(Debug)]
pub struct Expression {
    pub raw_expression: String,
}

impl Expression {
    /// An expression with the given text.
    pub fn new(raw_expression: String) -> (r: Expression)
        ensures
            r.raw_expression@ == raw_expression@,
    {
        Expression { raw_expression }
    }

    /// The value of the expression, or the reason why it has none.
    pub fn evaluate(&self) -> (r: Result<i32, EvalError>)
        ensures
            r == evaluate_text(self.raw_expression@),
    {
        let processed_expression = Expression::process_chars(self.raw_expression.as_str());
        Expression::translate(&processed_expression)
    }

    /// `text` without the characters that are not allowed.
    pub fn process_chars(text: &str) -> (r: String)
        ensures
            r@ == allowed_only(text@),
    {
        let chars = chars_of(text);
        let mut out = String::new();
        let mut i: usize = 0;
        assert(chars@.take(0) =~= Seq::<char>::empty());
        while i < chars.len()
            invariant
                i <= chars.len(),
                out@ == allowed_only(chars@.take(i as int)),
            decreases chars.len() - i,
        {
            let c: char = chars[i];
            assert(chars@.take(i + 1).drop_last() =~= chars@.take(i as int));
            assert(chars@.take(i + 1).last() == c);
            if is_allowed_char(c) {
                push_char(&mut out, c);
            }
            i = i + 1;
        }
        assert(chars@.take(i as int) =~= text@);
        out
    }

    /// The value of text that holds allowed characters only.
    pub fn translate(text: &String) -> (r: Result<i32, EvalError>)
        ensures
            r == (match tokenized(characters(text@)) {
                Some(tokens) => evaluate_tokens(tokens),
                None => Err(EvalError::MalformedNumber),
            }),
    {
        let mut parser = ValidTypesMapper::new(text);
        match parser.parse() {
            Ok(()) => parser.evaluate(),
            Err(e) => Err(e),
        }
    }

    /// The expression as a line of text: `raw_expression: ` and the text.
    pub fn to_text(&self) -> (r: String)
        ensures
            r@ == "raw_expression: "@ + self.raw_expression@,
    {
        String::from_str("raw_expression: ").concat(self.raw_expression.as_str())
    }
}

} // verus!
