//! How the raw text of an attribute or of a text node is to be evaluated:
//! which kind of value it is, and which of its parts are expressions.

use vstd::prelude::*;
use vstd::string::*;
use crate::error::Error;
use crate::evaluator_util::{
    attribute_value_is_bool, attribute_value_is_number, attribute_value_is_wrapped_in_quotes,
    has_expression, has_valid_expression_inside, is_braced, is_quoted, parsed_i64,
};
use crate::text::{chars_of, string_of, trim, trimmed};

verus! {

/// The kind of an attribute's value.
#[derive(Debug, Clone, Copy, PartialEq, Eq, Structural)]
pub enum AttributeTextVariant {
    Boolean,
    String,
    Number,
    Expression,
}

/// An attribute's value with its kind.
#[derive(Debug)]
pub struct TextInfo {
    pub variant: AttributeTextVariant,
    pub value: String,
}

/// A piece of text: literal characters, or an expression to be evaluated.
#[derive(Debug)]
pub enum TextPart {
    Literal(String),
    Expression(String),
}

/// The model of a piece of text.
pub enum PartView {
    Literal(Seq<char>),
    Expression(Seq<char>),
}

impl TextPart {
    /// The model of this piece.
    pub open spec fn view(&self) -> PartView {
        match self {
            TextPart::Literal(s) => PartView::Literal(s@),
            TextPart::Expression(s) => PartView::Expression(s@),
        }
    }
}

/// `s` without its first and its last character.
pub open spec fn inner(s: Seq<char>) -> Seq<char>
    recommends
        s.len() >= 2,
{
    s.subrange(1, s.len() - 1)
}

/// The kind and the value of the attribute text `text`, or `None` where it
/// is not wrapped in curly brackets once trimmed.
///
/// Inside the brackets a number is a `Number` and `true` or `false` a
/// `Boolean`. Quoted text of two characters or more is taken without its
/// quotes: an `Expression` where it may hold one, a `String` otherwise.
/// Anything else is an `Expression`, brackets included.
pub open spec fn text_variant(text: Seq<char>) -> Option<(AttributeTextVariant, Seq<char>)> {
    let t = trim(text);
    if !is_braced(t) || t.len() < 2 {
        None
    } else {
        Some(braced_variant(t, parsed_i64(inner(t)) is Some))
    }
}

/// The kind and the value of the text `t`, which is wrapped in curly
/// brackets, given whether what is inside them parses as a number.
pub open spec fn braced_variant(t: Seq<char>, is_number: bool) -> (
    AttributeTextVariant,
    Seq<char>,
) {
    let inside = inner(t);
    if is_number {
        (AttributeTextVariant::Number, inside)
    } else if inside == "true"@ || inside == "false"@ {
        (AttributeTextVariant::Boolean, inside)
    } else if is_quoted(inside) && inside.len() >= 2 {
        if has_expression(inner(inside)) {
            (AttributeTextVariant::Expression, inner(inside))
        } else {
            (AttributeTextVariant::String, inner(inside))
        }
    } else {
        (AttributeTextVariant::Expression, t)
    }
}

/// Whether `e` is the `ParsingError` for attribute text that is of no
/// supported kind; its message ends in the text.
pub open spec fn is_unsupported(e: Error, text: Seq<char>) -> bool {
    e is ParsingError && e.message()
        == "The following text value didn't have any of the supported types: "@ + text
}

/// Whether `e` is the error for the failed reading `split` of `text`.
pub open spec fn is_split_failure(e: Error, split: Split, text: Seq<char>) -> bool {
    match split {
        Split::Unbalanced => e is ParsingError && e.message()
            == "There was an error while parsing the following expression: "@ + text
            + ". You have probably messed up some curly brackets."@,
        Split::Nested => e is _InvestigationNeeded && e.message()
            == "A brace was closed inside another expression."@,
        _ => false,
    }
}

/// Whether `res` is what the reading `split` of `text` comes to: the pieces,
/// or the error for its failure.
pub open spec fn is_split(res: Result<Vec<TextPart>, Error>, split: Split, text: Seq<char>) -> bool {
    match split {
        Split::Going { parts, literal, expression, depth } => res is Ok && part_views(
            res->Ok_0@,
        ) == flush(parts, literal),
        _ => res is Err && is_split_failure(res->Err_0, split, text),
    }
}

/// Tells how the value of an attribute is to be treated. Text that is not
/// wrapped in curly brackets once trimmed is a `ParsingError`.
pub fn get_attribute_text_variant(text: String) -> (res: Result<TextInfo, Error>)
    ensures
        match text_variant(text@) {
            Some((variant, value)) => res is Ok && res->Ok_0.variant == variant
                && res->Ok_0.value@ == value,
            None => res is Err && is_unsupported(res->Err_0, text@),
        },
{
    let chars = chars_of(text.as_str());
    let t = trimmed(&chars);
    let n = t.len();
    if n < 2 || t[0] != '{' || t[n - 1] != '}' {
        let mut msg = String::from_str(
            "The following text value didn't have any of the supported types: ",
        );
        msg.append(text.as_str());
        return Err(Error::ParsingError(msg));
    }
    let inside_bracket = string_of(&t, 1, n - 1);
    let is_number = attribute_value_is_number(inside_bracket.as_str());
    Ok(variant_of_braced(&t, is_number))
}

/// Tells how text that is wrapped in curly brackets is to be treated, given
/// whether what is inside them parses as a number.
pub fn variant_of_braced(t: &Vec<char>, is_number: bool) -> (res: TextInfo)
    requires
        t.len() >= 2,
    ensures
        (res.variant, res.value@) == braced_variant(t@, is_number),
{
    let n = t.len();
    let inside_bracket = string_of(t, 1, n - 1);
    if is_number {
        TextInfo { variant: AttributeTextVariant::Number, value: inside_bracket }
    } else if attribute_value_is_bool(inside_bracket.as_str()) {
        TextInfo { variant: AttributeTextVariant::Boolean, value: inside_bracket }
    } else if n >= 4 && attribute_value_is_wrapped_in_quotes(inside_bracket.as_str()) {
        let inside_quotes = string_of(t, 2, n - 2);
        assert(inside_quotes@ =~= inner(inner(t@)));
        if has_valid_expression_inside(inside_quotes.clone()) {
            TextInfo { variant: AttributeTextVariant::Expression, value: inside_quotes }
        } else {
            TextInfo { variant: AttributeTextVariant::String, value: inside_quotes }
        }
    } else {
        let whole = string_of(t, 0, n);
        assert(whole@ =~= t@);
        TextInfo { variant: AttributeTextVariant::Expression, value: whole }
    }
}

/// Where the reading of text for its expressions stands.
pub enum Split {
    /// The pieces that are complete, the literal and the expression that
    /// are being read, and the number of braces that are open.
    Going { parts: Seq<PartView>, literal: Seq<char>, expression: Seq<char>, depth: nat },
    /// A `}` closed no `{`.
    Unbalanced,
    /// A `}` closed a `{` inside another expression.
    Nested,
}

/// `parts` with `literal` added as a piece, unless it is empty.
pub open spec fn flush(parts: Seq<PartView>, literal: Seq<char>) -> Seq<PartView> {
    if literal.len() > 0 {
        parts.push(PartView::Literal(literal))
    } else {
        parts
    }
}

/// The reading of `s` for its expressions, character by character. A `{`
/// opens a brace and a `}` closes one; neither is kept. Outside braces
/// characters are literal; inside, they belong to the expression, which is
/// complete when its brace closes.
pub open spec fn split_scan(s: Seq<char>) -> Split
    decreases s.len(),
{
    if s.len() == 0 {
        Split::Going { parts: Seq::empty(), literal: Seq::empty(), expression: Seq::empty(), depth: 0 }
    } else {
        match split_scan(s.drop_last()) {
            Split::Going { parts, literal, expression, depth } => {
                let c = s.last();
                if c == '{' {
                    Split::Going { parts, literal, expression, depth: depth + 1 }
                } else if c == '}' {
                    if depth == 0 {
                        Split::Unbalanced
                    } else if depth == 1 {
                        Split::Going {
                            parts: flush(parts, literal).push(PartView::Expression(expression)),
                            literal: Seq::empty(),
                            expression: Seq::empty(),
                            depth: 0,
                        }
                    } else {
                        Split::Nested
                    }
                } else if depth == 0 {
                    Split::Going { parts, literal: literal.push(c), expression, depth }
                } else {
                    Split::Going { parts, literal, expression: expression.push(c), depth }
                }
            },
            other => other,
        }
    }
}

/// The models of `parts`.
pub open spec fn part_views(parts: Seq<TextPart>) -> Seq<PartView> {
    Seq::new(parts.len(), |i: int| parts[i]@)
}

/// Parts text into its literal pieces and its expressions, in order. An
/// expression whose brace never closes is dropped. A `}` that closes no `{`
/// is a `ParsingError`; one that closes a `{` inside another expression is
/// an `_InvestigationNeeded` error.
pub fn split_expression_and_string(string_with_expression: &str) -> (res: Result<
    Vec<TextPart>,
    Error,
>)
    ensures
        is_split(res, split_scan(string_with_expression@), string_with_expression@),
{
    let chars = chars_of(string_with_expression);
    let mut parts: Vec<TextPart> = Vec::new();
    let mut literal = String::new();
    let mut expression = String::new();
    let mut depth: usize = 0;
    let mut i: usize = 0;
    assert(chars@.subrange(0, 0) =~= Seq::<char>::empty());
    assert(part_views(parts@) =~= Seq::<PartView>::empty());
    while i < chars.len()
        invariant
            i <= chars.len(),
            depth <= i,
            chars@ == string_with_expression@,
            split_scan(chars@.subrange(0, i as int)) == (Split::Going {
                parts: part_views(parts@),
                literal: literal@,
                expression: expression@,
                depth: depth as nat,
            }),
        decreases chars.len() - i,
    {
        let c = chars[i];
        let ghost before = part_views(parts@);
        proof {
            assert(chars@.subrange(0, i + 1).drop_last() =~= chars@.subrange(0, i as int));
            lemma_failure_stays(chars@, i + 1, chars@.len() as int);
            assert(chars@ =~= chars@.subrange(0, chars@.len() as int));
        }
        if c == '{' {
            depth += 1;
        } else if c == '}' {
            if depth == 0 {
                let mut msg = String::from_str(
                    "There was an error while parsing the following expression: ",
                );
                msg.append(string_with_expression);
                msg.append(". You have probably messed up some curly brackets.");
                return Err(Error::ParsingError(msg));
            } else if depth == 1 {
                if literal.as_str().unicode_len() > 0 {
                    parts.push(TextPart::Literal(literal));
                    assert(part_views(parts@) =~= before.push(PartView::Literal(literal@)));
                }
                let ghost flushed = part_views(parts@);
                parts.push(TextPart::Expression(expression));
                assert(part_views(parts@) =~= flushed.push(PartView::Expression(expression@)));
                literal = String::new();
                expression = String::new();
                depth = 0;
            } else {
                return Err(
                    Error::_InvestigationNeeded(
                        String::from_str("A brace was closed inside another expression."),
                    ),
                );
            }
        } else if depth == 0 {
            literal.push(c);
        } else {
            expression.push(c);
        }
        i += 1;
    }
    assert(chars@ =~= chars@.subrange(0, chars@.len() as int));
    let ghost before = part_views(parts@);
    if literal.as_str().unicode_len() > 0 {
        parts.push(TextPart::Literal(literal));
        assert(part_views(parts@) =~= before.push(PartView::Literal(literal@)));
    }
    Ok(parts)
}

/// Once the reading has failed on a prefix, it has failed alike on every
/// longer one.
pub proof fn lemma_failure_stays(s: Seq<char>, n: int, m: int)
    requires
        0 <= n <= m <= s.len(),
    ensures
        split_scan(s.subrange(0, n)) is Unbalanced ==> split_scan(s.subrange(0, m)) is Unbalanced,
        split_scan(s.subrange(0, n)) is Nested ==> split_scan(s.subrange(0, m)) is Nested,
    decreases m - n,
{
    if n < m {
        lemma_failure_stays(s, n, m - 1);
        assert(s.subrange(0, m).drop_last() =~= s.subrange(0, m - 1));
    }
}

/// The pieces of a text node's content: its literal pieces and expressions
/// where it may hold an expression, and the whole content as one literal
/// otherwise.
pub fn text_value_parts(text: &String) -> (res: Result<Vec<TextPart>, Error>)
    ensures
        !has_expression(text@) ==> res is Ok && part_views(res->Ok_0@) == seq![
            PartView::Literal(text@),
        ],
        has_expression(text@) ==> is_split(res, split_scan(text@), text@),
{
    if has_valid_expression_inside(text.clone()) {
        split_expression_and_string(text.as_str())
    } else {
        let mut parts: Vec<TextPart> = Vec::new();
        parts.push(TextPart::Literal(text.clone()));
        assert(part_views(parts@) =~= seq![PartView::Literal(text@)]);
        Ok(parts)
    }
}

/// The pieces of an attribute's value: those of its text where it is an
/// `Expression`, and its value as one literal where it is of another kind.
/// Text that is not wrapped in curly brackets once trimmed is a
/// `ParsingError`.
pub fn attribute_value_parts(value: String) -> (res: Result<Vec<TextPart>, Error>)
    ensures
        match text_variant(value@) {
            None => res is Err && is_unsupported(res->Err_0, value@),
            Some((AttributeTextVariant::Expression, v)) => is_split(res, split_scan(v), v),
            Some((_, v)) => res is Ok && part_views(res->Ok_0@) == seq![PartView::Literal(v)],
        },
{
    let TextInfo { value, variant } = match get_attribute_text_variant(value) {
        Ok(info) => info,
        Err(e) => {
            return Err(e);
        },
    };
    match variant {
        AttributeTextVariant::Expression => split_expression_and_string(value.as_str()),
        _ => {
            let ghost v = value@;
            let mut parts: Vec<TextPart> = Vec::new();
            parts.push(TextPart::Literal(value));
            assert(part_views(parts@) =~= seq![PartView::Literal(v)]);
            Ok(parts)
        },
    }
}

/// The text that `parts` stand for once their expressions are evaluated:
/// the literal pieces as they are, and in place of each expression the next
/// of `pieces`; nothing where `pieces` run out.
pub open spec fn assembled(parts: Seq<PartView>, pieces: Seq<Seq<char>>) -> Seq<char>
    decreases parts.len(),
{
    if parts.len() == 0 {
        Seq::empty()
    } else {
        match parts[0] {
            PartView::Literal(s) => s + assembled(parts.drop_first(), pieces),
            PartView::Expression(_) => if pieces.len() > 0 {
                pieces[0] + assembled(parts.drop_first(), pieces.drop_first())
            } else {
                assembled(parts.drop_first(), pieces)
            },
        }
    }
}

/// The views of `pieces`.
pub open spec fn piece_views(pieces: Seq<String>) -> Seq<Seq<char>> {
    Seq::new(pieces.len(), |i: int| pieces[i]@)
}

/// Puts the text together once the expressions are evaluated: the literal
/// pieces as they are, and in place of each expression the next of
/// `pieces`, which hold the results in order.
pub fn assemble(parts: &Vec<TextPart>, pieces: &Vec<String>) -> (res: String)
    ensures
        res@ == assembled(part_views(parts@), piece_views(pieces@)),
{
    let mut res = String::new();
    let mut i: usize = 0;
    let mut k: usize = 0;
    let ghost all_parts = part_views(parts@);
    let ghost all_pieces = piece_views(pieces@);
    assert(all_parts.skip(0) =~= all_parts);
    assert(all_pieces.skip(0) =~= all_pieces);
    assert(res@ + assembled(all_parts, all_pieces) =~= assembled(all_parts, all_pieces));
    while i < parts.len()
        invariant
            i <= parts.len(),
            k <= pieces.len(),
            all_parts == part_views(parts@),
            all_pieces == piece_views(pieces@),
            res@ + assembled(all_parts.skip(i as int), all_pieces.skip(k as int)) == assembled(
                all_parts,
                all_pieces,
            ),
        decreases parts.len() - i,
    {
        let ghost rest = all_parts.skip(i as int);
        let ghost left = all_pieces.skip(k as int);
        let ghost so_far = res@;
        proof {
            assert(rest.len() > 0);
            assert(rest[0] == parts@[i as int]@);
            assert(rest.drop_first() =~= all_parts.skip(i + 1));
        }
        match &parts[i] {
            TextPart::Literal(s) => {
                res.append(s.as_str());
                assert(res@ + assembled(all_parts.skip(i + 1), left) =~= so_far + (s@ + assembled(
                    rest.drop_first(),
                    left,
                )));
            },
            TextPart::Expression(_) => {
                if k < pieces.len() {
                    proof {
                        assert(left.len() > 0);
                        assert(left[0] == pieces@[k as int]@);
                        assert(left.drop_first() =~= all_pieces.skip(k + 1));
                    }
                    res.append(pieces[k].as_str());
                    assert(res@ + assembled(all_parts.skip(i + 1), all_pieces.skip(k + 1))
                        =~= so_far + (left[0] + assembled(rest.drop_first(), left.drop_first())));
                    k += 1;
                } else {
                    assert(left.len() == 0);
                }
            },
        }
        i += 1;
    }
    assert(all_parts.skip(i as int).len() == 0);
    assert(res@ + Seq::<char>::empty() =~= res@);
    res
}

} // verus!
