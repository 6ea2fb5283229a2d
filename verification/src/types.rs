//! The tagged scalar value carried by traits, features and variants.

use vstd::prelude::*;
use vstd::string::*;
use crate::decimal::{decimal_text, magnitude, nat_text, push_nat, Decimal};
use crate::text::text_of;

verus! {

/// The tag of a value: it fixes how the value is compared.
#[derive(Clone, Copy, Debug, PartialEq, Eq, Structural)]
pub enum FlagsmithValueType {
    String,
    Bool,
    Integer,
    Float,
    Null,
}

/// A scalar value: a tag and the value's text.
#[derive(Debug, PartialEq, Eq)]
pub struct FlagsmithValue {
    pub value_type: FlagsmithValueType,
    pub value: String,
}

/// What a value is in contracts: its tag and the characters of its text.
pub struct ValueView {
    pub value_type: FlagsmithValueType,
    pub text: Seq<char>,
}

impl View for FlagsmithValue {
    type V = ValueView;

    open spec fn view(&self) -> ValueView {
        ValueView { value_type: self.value_type, text: self.value@ }
    }
}

impl Clone for FlagsmithValue {
    fn clone(&self) -> (r: Self)
        ensures
            r == *self,
    {
        FlagsmithValue { value_type: self.value_type, value: self.value.clone() }
    }
}

/// The text of a whole number: its digits, after a minus sign if it is
/// negative.
pub open spec fn integer_text(v: int) -> Seq<char> {
    if v < 0 {
        seq!['-'] + nat_text(magnitude(v))
    } else {
        nat_text(magnitude(v))
    }
}

impl FlagsmithValue {
    /// The value of a text.
    pub fn string(text: String) -> (r: FlagsmithValue)
        ensures
            r.value_type == FlagsmithValueType::String,
            r.value == text,
    {
        FlagsmithValue { value_type: FlagsmithValueType::String, value: text }
    }

    /// The value of a boolean: its text is `true` or `false`.
    pub fn boolean(b: bool) -> (r: FlagsmithValue)
        ensures
            r.value_type == FlagsmithValueType::Bool,
            r.value@ == if b { "true"@ } else { "false"@ },
    {
        let value = if b { "true".to_string() } else { "false".to_string() };
        FlagsmithValue { value_type: FlagsmithValueType::Bool, value }
    }

    /// The value of a whole number: its text is the number in decimal
    /// digits, with a minus sign if it is negative.
    pub fn integer(v: i64) -> (r: FlagsmithValue)
        ensures
            r.value_type == FlagsmithValueType::Integer,
            r.value@ == integer_text(v as int),
    {
        let mut out: Vec<char> = Vec::new();
        if v < 0 {
            out.push('-');
            push_nat(&mut out, (-(v as i128)) as u128);
        } else {
            push_nat(&mut out, v as u128);
            assert(out@ == nat_text(magnitude(v as int))) by {
                assert(Seq::<char>::empty() + nat_text(magnitude(v as int)) == nat_text(
                    magnitude(v as int),
                ));
            }
        }
        FlagsmithValue { value_type: FlagsmithValueType::Integer, value: text_of(&out) }
    }

    /// The value of a decimal: its text is the shortest numeral of the
    /// decimal.
    pub fn decimal(d: &Decimal) -> (r: FlagsmithValue)
        ensures
            r.value_type == FlagsmithValueType::Float,
            r.value@ == decimal_text(d@),
    {
        FlagsmithValue { value_type: FlagsmithValueType::Float, value: d.to_text() }
    }

    /// The value that stands for nothing: its text is empty.
    pub fn null() -> (r: FlagsmithValue)
        ensures
            r.value_type == FlagsmithValueType::Null,
            r.value@ == Seq::<char>::empty(),
    {
        FlagsmithValue { value_type: FlagsmithValueType::Null, value: String::new() }
    }
}

} // verus!
