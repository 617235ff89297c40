//! Literals of the markup language and tests against them.

use vstd::prelude::*;
use crate::text::str_eq;

verus! {

pub const APP_WRAPPER_ID: &'static str = "root";

pub const RENDER_IF_ATTRIBUTE_NAME: &'static str = "render-if";

pub const RENDER_ELSE_IF_ATTRIBUTE_NAME: &'static str = "render-else-if";

pub const RENDER_ELSE_ATTRIBUTE_NAME: &'static str = "render-else";

pub const UNDEFINED_LITERAL: &'static str = "undefined";

pub const NULL_LITERAL: &'static str = "null";

pub const OPEN_CURLY_BRACKET: char = '{';

pub const CLOSE_CURLY_BRACKET: char = '}';

pub const OPEN_ANGLE_BRACKET: char = '<';

pub const CLOSE_ANGLE_BRACKET: char = '>';

pub const SELF_CLOSING_TAG: &'static str = "/>";

pub const CLOSING_TAG: &'static str = "</";

pub const ATTRIBUTE_KEY_VALUE_SEPARATOR: &'static str = "=";

pub const IMPORT_KEYWORD: &'static str = "import";

/// Whether `input` is the literal `true`.
pub fn is_input_true_literal(input: &str) -> (res: bool)
    ensures
        res == (input@ == "true"@),
{
    str_eq(input, "true")
}

/// Whether `input` is the literal `undefined`.
pub fn is_input_undefined_literal(input: &str) -> (res: bool)
    ensures
        res == (input@ == "undefined"@),
{
    str_eq(input, "undefined")
}

/// Whether `input` is the literal `null`.
pub fn is_input_null_literal(input: &str) -> (res: bool)
    ensures
        res == (input@ == "null"@),
{
    str_eq(input, "null")
}

/// Whether `input` is `{`.
pub fn is_input_open_curly_bracket(input: char) -> (res: bool)
    ensures
        res == (input == '{'),
{
    input == '{'
}

/// Whether `input` is `}`.
pub fn is_input_close_curly_bracket(input: char) -> (res: bool)
    ensures
        res == (input == '}'),
{
    input == '}'
}

/// Whether `input` is `>`.
pub fn is_input_close_angle_bracket(input: char) -> (res: bool)
    ensures
        res == (input == '>'),
{
    input == '>'
}

/// Whether `input` is `<`.
pub fn is_input_open_angle_bracket(input: char) -> (res: bool)
    ensures
        res == (input == '<'),
{
    input == '<'
}

/// Whether `input` is empty, which is what whitespace is once trimmed.
pub fn is_input_white_space_alias(input: &str) -> (res: bool)
    ensures
        res == (input@.len() == 0),
{
    input.unicode_len() == 0
}

/// Whether `input` is `=`, which parts an attribute's key from its value.
pub fn is_input_attribute_key_value_separator(input: &str) -> (res: bool)
    ensures
        res == (input@ == "="@),
{
    str_eq(input, "=")
}

/// Whether `input` is `/`.
pub fn is_input_forward_slash(input: &str) -> (res: bool)
    ensures
        res == (input@ == "/"@),
{
    str_eq(input, "/")
}

/// Whether `input` is the keyword `import`.
pub fn is_input_import_keyword(input: &str) -> (res: bool)
    ensures
        res == (input@ == "import"@),
{
    str_eq(input, "import")
}

/// Whether `input` is the keyword `from`.
pub fn is_input_from_keyword(input: &str) -> (res: bool)
    ensures
        res == (input@ == "from"@),
{
    str_eq(input, "from")
}

} // verus!
