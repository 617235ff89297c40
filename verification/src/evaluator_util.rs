//! Tests on the raw text of attribute values and of text nodes.

use vstd::prelude::*;
use vstd::string::*;
use crate::text::{chars_of, count_char, count_of, str_eq};

verus! {

/// What `str::parse::<i64>` makes of `text`: the number, or `None` where it
/// reports an error.
pub uninterp spec fn parsed_i64(text: Seq<char>) -> Option<i64>;

/// `str::parse::<i64>` depends on the text alone; its result is named, with
/// the error dropped.
#[verifier::external_body]
fn parse_i64(text: &str) -> (res: Option<i64>)
    ensures
        res == parsed_i64(text@),
{
    text.parse::<i64>().ok()
}

/// Whether `s` holds as many `{` as `}`, and at least one.
pub open spec fn has_expression(s: Seq<char>) -> bool {
    count_char(s, '{') == count_char(s, '}') && count_char(s, '{') > 0
}

/// Whether `s` starts with `{` and ends with `}`.
pub open spec fn is_braced(s: Seq<char>) -> bool {
    s.len() > 0 && s[0] == '{' && s.last() == '}'
}

/// Whether `s` starts and ends with `"`, or starts and ends with `'`.
pub open spec fn is_quoted(s: Seq<char>) -> bool {
    s.len() > 0 && ((s[0] == '"' && s.last() == '"') || (s[0] == '\'' && s.last() == '\''))
}

/// Whether `text` may hold an expression: it has as many `{` as `}`, and at
/// least one.
pub fn has_valid_expression_inside(text: String) -> (res: bool)
    ensures
        res == has_expression(text@),
{
    let chars = chars_of(text.as_str());
    let open_c = count_of(&chars, '{');
    let close_c = count_of(&chars, '}');
    open_c == close_c && open_c > 0
}

/// Whether `text` is wrapped in curly brackets.
pub fn is_a_valid_attribute_value(text: &str) -> (res: bool)
    ensures
        res == is_braced(text@),
{
    let chars = chars_of(text);
    chars.len() > 0 && chars[0] == '{' && chars[chars.len() - 1] == '}'
}

/// Whether `text` parses as a 64-bit signed integer.
pub fn attribute_value_is_number(text: &str) -> (res: bool)
    ensures
        res == parsed_i64(text@) is Some,
{
    parse_i64(text).is_some()
}

/// Whether `text` is `true` or `false`.
pub fn attribute_value_is_bool(text: &str) -> (res: bool)
    ensures
        res == (text@ == "true"@ || text@ == "false"@),
{
    str_eq(text, "true") || str_eq(text, "false")
}

/// Whether `text` is wrapped in double quotes or in single quotes.
pub fn attribute_value_is_wrapped_in_quotes(text: &str) -> (res: bool)
    ensures
        res == is_quoted(text@),
{
    let chars = chars_of(text);
    if chars.len() == 0 {
        return false;
    }
    let first = chars[0];
    let last = chars[chars.len() - 1];
    (first == '"' && last == '"') || (first == '\'' && last == '\'')
}

} // verus!
