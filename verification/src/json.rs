//! JSON text: how the engine writes values down as a JSON document, and how
//! it asks a JSONPath query for the first node it selects in such a document.

use vstd::prelude::*;
use vstd::string::*;
use serde_json::Value;
use serde_json_path::JsonPath;
use crate::decimal::{
    decimal_text, digit_run, i64_value, magnitude, nat_text, parse_i64, push_nat, scan_digits,
    sign_len, Decimal, UNIT,
};
use crate::numbers::{exponent, number_of, read_exponent, read_number, Number, Reading};
use crate::text::{chars_of, push_all, same_chars, slice_of, texts};
use crate::types::{integer_text, FlagsmithValue, FlagsmithValueType, ValueView};

verus! {

/// The kinds of node that a JSON document is made of. A number that is read
/// as a floating-point number (one written with a fraction or an exponent, or
/// a whole number too large for 64 bits) is a `Float`, any other number an
/// `Integer`.
#[derive(Clone, Copy, Debug, PartialEq, Eq, Structural)]
pub enum JsonKind {
    Null,
    Bool,
    Integer,
    Float,
    Text,
    Array,
    Object,
}

/// The first node that the JSONPath query `path` selects in the JSON
/// document `document`: its kind and its text. The text of a string is its
/// content, that of a number or boolean is the form in which it is written
/// back as JSON, and that of any other node is empty. There is none when
/// `path` is no JSONPath query, when `document` is no JSON text, or when the
/// query selects nothing.
pub uninterp spec fn json_path_first(path: Seq<char>, document: Seq<char>) -> Option<
    (JsonKind, Seq<char>),
>;

/// `serde_json::from_str` reads `document`, `serde_json_path::JsonPath::parse`
/// reads `path`, and `JsonPath::query` followed by `NodeList::first` gives the
/// first selected node, which is handed back by kind and text. A failure of
/// either parse and an empty node list give `None`.
#[verifier::external_body]
fn query_first(path: &str, document: &str) -> (r: Option<(JsonKind, String)>)
    ensures
        match r {
            Some(node) => json_path_first(path@, document@) == Some((node.0, node.1@)),
            None => json_path_first(path@, document@) is None,
        },
{
    let tree: Value = serde_json::from_str(document).ok()?;
    let query = JsonPath::parse(path).ok()?;
    Some(match query.query(&tree).first()? {
        Value::Null => (JsonKind::Null, String::new()),
        Value::Bool(b) => (JsonKind::Bool, b.to_string()),
        Value::Number(n) if n.is_f64() => (JsonKind::Float, n.to_string()),
        Value::Number(n) => (JsonKind::Integer, n.to_string()),
        Value::String(s) => (JsonKind::Text, s.clone()),
        Value::Array(_) => (JsonKind::Array, String::new()),
        Value::Object(_) => (JsonKind::Object, String::new()),
    })
}

/// The texts that a JSON array of strings holds, in order; none when the
/// text is not a JSON array of strings.
pub uninterp spec fn json_string_list(text: Seq<char>) -> Option<Seq<Seq<char>>>;

/// `serde_json::from_str` to a vector of strings: the strings of the JSON
/// array that `text` holds. A text that is no JSON array of strings gives
/// `None`.
#[verifier::external_body]
pub(crate) fn parse_string_list(text: &str) -> (r: Option<Vec<String>>)
    ensures
        match r {
            Some(list) => json_string_list(text@) == Some(texts(list@)),
            None => json_string_list(text@) is None,
        },
{
    serde_json::from_str(text).ok()
}

/// The value that a selected node stands for: strings, numbers and booleans
/// are values, everything else is not.
pub open spec fn node_value(node: Option<(JsonKind, Seq<char>)>) -> Option<ValueView> {
    match node {
        Some((JsonKind::Text, text)) => Some(
            ValueView { value_type: FlagsmithValueType::String, text },
        ),
        Some((JsonKind::Integer, text)) => Some(
            ValueView { value_type: FlagsmithValueType::Integer, text },
        ),
        Some((JsonKind::Float, text)) => Some(
            ValueView { value_type: FlagsmithValueType::Float, text },
        ),
        Some((JsonKind::Bool, text)) => Some(
            ValueView { value_type: FlagsmithValueType::Bool, text },
        ),
        _ => None,
    }
}

/// A node by kind and characters.
pub open spec fn node_view(node: Option<(JsonKind, String)>) -> Option<(JsonKind, Seq<char>)> {
    match node {
        Some(n) => Some((n.0, n.1@)),
        None => None,
    }
}

/// The value that a selected node stands for.
pub fn value_of_node(node: Option<(JsonKind, String)>) -> (r: Option<FlagsmithValue>)
    ensures
        match r {
            Some(v) => node_value(node_view(node)) == Some(v@),
            None => node_value(node_view(node)) is None,
        },
{
    match node {
        None => None,
        Some((kind, text)) => {
            let value_type = match kind {
                JsonKind::Text => FlagsmithValueType::String,
                JsonKind::Integer => FlagsmithValueType::Integer,
                JsonKind::Float => FlagsmithValueType::Float,
                JsonKind::Bool => FlagsmithValueType::Bool,
                _ => { return None; },
            };
            Some(FlagsmithValue { value_type, value: text })
        },
    }
}

/// The value that the first node selected by `path` in `document` stands for.
pub open spec fn path_value(path: Seq<char>, document: Seq<char>) -> Option<ValueView> {
    node_value(json_path_first(path, document))
}

/// The value that the first node selected by `path` in `document` stands for.
pub fn first_value(path: &str, document: &str) -> (r: Option<FlagsmithValue>)
    ensures
        match r {
            Some(v) => path_value(path@, document@) == Some(v@),
            None => path_value(path@, document@) is None,
        },
{
    value_of_node(query_first(path, document))
}

/// The hexadecimal digit of a value below sixteen.
pub open spec fn hex_digit(n: nat) -> char {
    if n < 10 {
        ((48 + n) as u8) as char
    } else {
        ((87 + n) as u8) as char
    }
}

/// How one character stands inside a JSON string: the quotation mark and
/// the backslash behind a backslash, the control characters that have a short
/// form in that form, every other control character by its code, and every
/// other character as it is.
pub open spec fn escaped_char(c: char) -> Seq<char> {
    let n = c as u32;
    if c == '"' {
        seq!['\\', '"']
    } else if c == '\\' {
        seq!['\\', '\\']
    } else if n == 0x08 {
        seq!['\\', 'b']
    } else if n == 0x09 {
        seq!['\\', 't']
    } else if n == 0x0A {
        seq!['\\', 'n']
    } else if n == 0x0C {
        seq!['\\', 'f']
    } else if n == 0x0D {
        seq!['\\', 'r']
    } else if n < 0x20 {
        seq!['\\', 'u', '0', '0', hex_digit((n / 16) as nat), hex_digit((n % 16) as nat)]
    } else {
        seq![c]
    }
}

/// The characters of `s` as they stand inside a JSON string.
pub open spec fn escaped(s: Seq<char>) -> Seq<char>
    decreases s.len(),
{
    if s.len() == 0 {
        Seq::<char>::empty()
    } else {
        escaped(s.drop_last()) + escaped_char(s.last())
    }
}

/// The JSON string that holds `s`.
pub open spec fn json_string(s: Seq<char>) -> Seq<char> {
    seq!['"'] + escaped(s) + seq!['"']
}

/// The JSON form of a whole number: its text.
pub open spec fn json_integer(v: int) -> Seq<char> {
    integer_text(v)
}

/// The JSON form of a decimal: it always has a fraction, so that it reads
/// back as a number with a fraction.
pub open spec fn json_decimal(units: int) -> Seq<char> {
    if magnitude(units) % (UNIT as nat) == 0 {
        decimal_text(units) + seq!['.', '0']
    } else {
        decimal_text(units)
    }
}

/// The JSON form of a boolean.
pub open spec fn json_bool(b: bool) -> Seq<char> {
    if b {
        "true"@
    } else {
        "false"@
    }
}

/// `s` without the zeros at its front, but for its last character.
pub open spec fn without_leading_zeros(s: Seq<char>) -> Seq<char>
    decreases s.len(),
{
    if s.len() > 1 && s[0] == '0' {
        without_leading_zeros(s.drop_first())
    } else {
        s
    }
}

/// The whole part of a numeral as JSON asks for it: without leading zeros,
/// and `0` where there is none.
pub open spec fn numeral_whole(s: Seq<char>, a: int, b: int) -> Seq<char> {
    if b == a {
        seq!['0']
    } else {
        without_leading_zeros(s.subrange(a, b))
    }
}

/// The fraction of a numeral as JSON asks for it: `0` where there is none.
pub open spec fn numeral_fraction(s: Seq<char>, c: int, d: int) -> Seq<char> {
    if d == c {
        seq!['0']
    } else {
        s.subrange(c, d)
    }
}

/// The exponent of a numeral as JSON asks for it; nothing where the numeral
/// has none.
pub open spec fn numeral_exponent(present: bool, e: int) -> Seq<char> {
    if !present {
        Seq::<char>::empty()
    } else if e < 0 {
        seq!['e', '-'] + nat_text(magnitude(e))
    } else {
        seq!['e'] + nat_text(magnitude(e))
    }
}

/// A numeral in the form that JSON asks for: a minus sign if there is one,
/// the whole part, a point, the fraction, and the exponent, if there is one.
/// There is none for what is no numeral, and none for a numeral of more than
/// a hundred digits or with an exponent of two hundred and more or of minus
/// three hundred and less, which a reader of the document might refuse.
pub open spec fn json_numeral(s: Seq<char>) -> Option<Seq<char>> {
    let a = sign_len(s);
    let b = digit_run(s, a);
    let c = if b < s.len() && s[b] == '.' { b + 1 } else { b };
    let d = digit_run(s, c);
    let sign = if a == 1 && s[0] == '-' { seq!['-'] } else { Seq::<char>::empty() };
    if (b - a) + (d - c) == 0 || (b - a) + (d - c) > 100 {
        None
    } else {
        match exponent(s, d) {
            Some(Some(e)) if -300 < e < 200 => Some(
                sign + numeral_whole(s, a, b) + seq!['.'] + numeral_fraction(s, c, d)
                    + numeral_exponent(d != s.len(), e),
            ),
            _ => None,
        }
    }
}

/// Appends the whole part of a numeral to `out`.
pub fn push_numeral_whole(out: &mut Vec<char>, s: &Vec<char>, a: usize, b: usize)
    requires
        a <= b <= s.len(),
    ensures
        final(out)@ == old(out)@ + numeral_whole(s@, a as int, b as int),
{
    if b == a {
        out.push('0');
    } else {
        let mut i: usize = a;
        while i + 1 < b && s[i] == '0'
            invariant
                a <= i < b <= s.len(),
                without_leading_zeros(s@.subrange(a as int, b as int)) == without_leading_zeros(
                    s@.subrange(i as int, b as int),
                ),
            decreases b - i,
        {
            assert(s@.subrange(i as int, b as int).drop_first() == s@.subrange(i + 1, b as int));
            i += 1;
        }
        let kept = slice_of(s, i, b);
        push_all(out, &kept);
    }
}

/// Appends the fraction of a numeral to `out`.
pub fn push_numeral_fraction(out: &mut Vec<char>, s: &Vec<char>, c: usize, d: usize)
    requires
        c <= d <= s.len(),
    ensures
        final(out)@ == old(out)@ + numeral_fraction(s@, c as int, d as int),
{
    if d == c {
        out.push('0');
    } else {
        let digits = slice_of(s, c, d);
        push_all(out, &digits);
    }
}

/// Appends the exponent of a numeral to `out`.
fn push_numeral_exponent(out: &mut Vec<char>, present: bool, e: i128)
    requires
        -1_000_000_000 < e < 1_000_000_000,
    ensures
        final(out)@ == old(out)@ + numeral_exponent(present, e as int),
{
    if !present {
        assert(out@ + Seq::<char>::empty() == out@);
    } else if e < 0 {
        out.push('e');
        out.push('-');
        push_nat(out, (-e) as u128);
        assert(out@ == old(out)@ + (seq!['e', '-'] + nat_text(magnitude(e as int))));
    } else {
        out.push('e');
        push_nat(out, e as u128);
        assert(out@ == old(out)@ + (seq!['e'] + nat_text(magnitude(e as int))));
    }
}

/// A numeral in the form that JSON asks for.
pub fn write_numeral(s: &Vec<char>) -> (r: Option<Vec<char>>)
    ensures
        match r {
            Some(t) => json_numeral(s@) == Some(t@),
            None => json_numeral(s@) is None,
        },
{
    let n = s.len();
    let a: usize = if n > 0 && (s[0] == '+' || s[0] == '-') { 1 } else { 0 };
    let b = scan_digits(s, a);
    let c: usize = if b < n && s[b] == '.' { b + 1 } else { b };
    let d = scan_digits(s, c);
    if (b - a) + (d - c) == 0 || (b - a) + (d - c) > 100 {
        return None;
    }
    let e = match read_exponent(s, d) {
        Some(Some(e)) => e,
        _ => { return None; },
    };
    if e <= -300 || e >= 200 {
        return None;
    }
    let mut out: Vec<char> = Vec::new();
    if a == 1 && s[0] == '-' {
        out.push('-');
    }
    let ghost sign = out@;
    let ghost whole = numeral_whole(s@, a as int, b as int);
    let ghost fraction = numeral_fraction(s@, c as int, d as int);
    let ghost tail = numeral_exponent(d != n, e as int);
    push_numeral_whole(&mut out, s, a, b);
    out.push('.');
    assert(out@ == sign + whole + seq!['.']);
    push_numeral_fraction(&mut out, s, c, d);
    push_numeral_exponent(&mut out, d != n, e);
    assert(out@ == sign + whole + seq!['.'] + fraction + tail);
    assert(exponent(s@, d as int) == Some(Some(e as int)));
    Some(out)
}

/// The JSON form of a number that is written as `s`: the decimal that `s`
/// denotes where it denotes one, the numeral itself where it lies beyond the
/// decimals of this library and a reader will take it, and else `null`.
pub open spec fn json_number(s: Seq<char>) -> Seq<char> {
    match number_of(s) {
        Some(Number::Finite(u)) => json_decimal(u),
        Some(Number::Huge(_)) | Some(Number::Between(_, _)) | Some(Number::Beyond) => match json_numeral(
            s,
        ) {
            Some(t) => t,
            None => "null"@,
        },
        _ => "null"@,
    }
}

/// The JSON form of a value. A value whose text does not fit its tag is
/// written as `null`, and so is a number that is infinite or not a number.
pub open spec fn json_value(v: ValueView) -> Seq<char> {
    match v.value_type {
        FlagsmithValueType::String => json_string(v.text),
        FlagsmithValueType::Integer => match i64_value(v.text) {
            Some(n) => json_integer(n),
            None => "null"@,
        },
        FlagsmithValueType::Float => json_number(v.text),
        FlagsmithValueType::Bool => if v.text == "true"@ {
            "true"@
        } else if v.text == "false"@ {
            "false"@
        } else {
            "null"@
        },
        FlagsmithValueType::Null => "null"@,
    }
}

/// Appends the characters of `s` to `out`.
pub fn push_str(out: &mut Vec<char>, s: &str)
    ensures
        final(out)@ == old(out)@ + s@,
{
    let chars = chars_of(s);
    push_all(out, &chars);
}

/// The hexadecimal digit of a value below sixteen.
pub fn hex_char(n: u8) -> (c: char)
    requires
        n < 16,
    ensures
        c == hex_digit(n as nat),
{
    if n < 10 {
        (48 + n) as char
    } else {
        (87 + n) as char
    }
}

/// Appends the JSON string that holds `s` to `out`.
pub fn push_json_string(out: &mut Vec<char>, s: &str)
    ensures
        final(out)@ == old(out)@ + json_string(s@),
{
    let chars = chars_of(s);
    out.push('"');
    let ghost base = out@;
    let mut i: usize = 0;
    assert(chars@.take(0) == Seq::<char>::empty());
    assert(base + Seq::<char>::empty() == base);
    while i < chars.len()
        invariant
            i <= chars.len(),
            out@ == base + escaped(chars@.take(i as int)),
        decreases chars.len() - i,
    {
        let c = chars[i];
        let n: u32 = c as u32;
        let ghost before = escaped(chars@.take(i as int));
        assert(chars@.take(i + 1).drop_last() == chars@.take(i as int));
        assert(base + (before + escaped_char(c)) == base + before + escaped_char(c));
        if c == '"' {
            out.push('\\');
            out.push('"');
            assert(out@ == base + before + seq!['\\', '"']);
        } else if c == '\\' {
            out.push('\\');
            out.push('\\');
            assert(out@ == base + before + seq!['\\', '\\']);
        } else if n == 0x08 {
            out.push('\\');
            out.push('b');
            assert(out@ == base + before + seq!['\\', 'b']);
        } else if n == 0x09 {
            out.push('\\');
            out.push('t');
            assert(out@ == base + before + seq!['\\', 't']);
        } else if n == 0x0A {
            out.push('\\');
            out.push('n');
            assert(out@ == base + before + seq!['\\', 'n']);
        } else if n == 0x0C {
            out.push('\\');
            out.push('f');
            assert(out@ == base + before + seq!['\\', 'f']);
        } else if n == 0x0D {
            out.push('\\');
            out.push('r');
            assert(out@ == base + before + seq!['\\', 'r']);
        } else if n < 0x20 {
            out.push('\\');
            out.push('u');
            out.push('0');
            out.push('0');
            out.push(hex_char((n / 16) as u8));
            out.push(hex_char((n % 16) as u8));
            assert(out@ == base + before + seq![
                '\\',
                'u',
                '0',
                '0',
                hex_digit((n / 16) as nat),
                hex_digit((n % 16) as nat),
            ]);
        } else {
            out.push(c);
            assert(out@ == base + before + seq![c]);
        }
        i += 1;
    }
    assert(chars@.take(chars.len() as int) == chars@);
    out.push('"');
    assert(out@ == old(out)@ + (seq!['"'] + escaped(s@) + seq!['"']));
}

/// Appends the JSON form of a whole number to `out`.
pub fn push_json_integer(out: &mut Vec<char>, v: i64)
    ensures
        final(out)@ == old(out)@ + json_integer(v as int),
{
    if v < 0 {
        out.push('-');
        push_nat(out, (-(v as i128)) as u128);
        assert(out@ == old(out)@ + (seq!['-'] + nat_text(magnitude(v as int))));
    } else {
        push_nat(out, v as u128);
    }
}

/// Appends the JSON form of a decimal to `out`.
pub fn push_json_decimal(out: &mut Vec<char>, d: &Decimal)
    ensures
        final(out)@ == old(out)@ + json_decimal(d@),
{
    d.push_text(out);
    if d.magnitude() % (UNIT as u128) == 0 {
        out.push('.');
        out.push('0');
        assert(out@ == old(out)@ + (decimal_text(d@) + seq!['.', '0']));
    }
}

/// Appends the JSON form of a boolean to `out`.
pub fn push_json_bool(out: &mut Vec<char>, b: bool)
    ensures
        final(out)@ == old(out)@ + json_bool(b),
{
    if b {
        push_str(out, "true");
    } else {
        push_str(out, "false");
    }
}

/// Appends the JSON form of a value to `out`.
pub fn push_json_value(out: &mut Vec<char>, v: &FlagsmithValue)
    ensures
        final(out)@ == old(out)@ + json_value(v@),
{
    match v.value_type {
        FlagsmithValueType::String => push_json_string(out, v.value.as_str()),
        FlagsmithValueType::Integer => {
            let chars = chars_of(v.value.as_str());
            match parse_i64(&chars) {
                Some(n) => push_json_integer(out, n),
                None => push_str(out, "null"),
            }
        },
        FlagsmithValueType::Float => {
            let chars = chars_of(v.value.as_str());
            match read_number(v.value.as_str()) {
                Some(Reading::Finite(d)) => push_json_decimal(out, &d),
                Some(Reading::Huge { .. }) | Some(Reading::Between { .. }) | Some(
                    Reading::Beyond,
                ) => match write_numeral(&chars) {
                    Some(numeral) => push_all(out, &numeral),
                    None => push_str(out, "null"),
                },
                _ => push_str(out, "null"),
            }
        },
        FlagsmithValueType::Bool => {
            let chars = chars_of(v.value.as_str());
            let yes = chars_of("true");
            let no = chars_of("false");
            if same_chars(&chars, &yes) {
                push_str(out, "true");
            } else if same_chars(&chars, &no) {
                push_str(out, "false");
            } else {
                push_str(out, "null");
            }
        },
        FlagsmithValueType::Null => push_str(out, "null"),
    }
}

} // verus!
