//! A pull-based lexer for markup: each step reads one token at a cursor and
//! names the state that decides how the next one is read.

use vstd::prelude::*;
use vstd::string::*;
use crate::error::{parsing_error, Error};
use crate::text::{char_is_alphanumeric, char_is_uppercase, char_is_whitespace, chars_of};

verus! {

/// The kind of the token read last; it decides how the next one is read.
#[derive(Debug, Clone, Copy, PartialEq, Eq, Structural)]
pub enum TokenizerState {
    Uninitialized,
    /// `<`
    OpenAngleBracket,
    /// `>`
    CloseAngleBracket,
    /// `/>`
    SelfClosingAngleBracket,
    /// `</`
    ClosingAngleBracket,
    TagNameOpen,
    TagNameClose,
    Component,
    Props,
    Text,
    Finalized,
}

/// One token: its kind and its text.
#[derive(Debug, PartialEq)]
pub struct CurrentState {
    pub state: TokenizerState,
    pub token: String,
}

/// Why markup is malformed.
pub enum Reason {
    /// A `}` in text closes no `{`.
    StrayBrace,
    /// No name follows `<` or `</`.
    NoTagName,
    /// The name holds a character that is not alphanumeric.
    InvalidName(Seq<char>),
    /// No `>` follows `/`.
    NoClosingBracket,
    /// The markup ends inside a tag's header or inside an attribute.
    NoKeyValue,
    /// An attribute's value starts with this character, not with `{`.
    ValueNotWrapped(char),
}

/// The message that tells of `reason`.
pub open spec fn reason_text(reason: Reason) -> Seq<char> {
    match reason {
        Reason::StrayBrace => "Found a `}` that closes no `{`."@,
        Reason::NoTagName => "No tag name was found after open angle bracket."@,
        Reason::InvalidName(name) => "Provided tag name `"@ + name
            + "` contains invalid characters."@,
        Reason::NoClosingBracket => "Expected a closing angle bracket, but did not find it."@,
        Reason::NoKeyValue => "Expected a key-value pair, but reached the end of markup."@,
        Reason::ValueNotWrapped(c) =>
            "Value of props and attributes must be wrapped around curly brackets. Provided char was "@.push(
            c,
        ),
    }
}

/// The message of the error for a name that was classified on behalf of a
/// state that reads no name.
pub open spec fn misuse_text() -> Seq<char> {
    "A tag name was reached without a `<` or a `</` before it."@
}

/// What one read yields, as a mathematical value.
pub enum Lexed {
    /// A token of the given kind and text.
    Token(TokenizerState, Seq<char>),
    /// The markup is malformed at this point.
    Malformed(Reason),
    /// A name was classified on behalf of a state that reads no name.
    Misuse,
}

/// What the read of a key or of a value yields.
pub enum Part {
    /// The text read.
    Text(Seq<char>),
    /// The markup is malformed at this point.
    Malformed(Reason),
}

/// Where the cursor stands after a read, and what was read.
pub struct Scan {
    pub index: int,
    pub lexed: Lexed,
}

/// Where a run of text ends.
pub enum TextEnd {
    /// At this position: a `<` outside braces, or the end of the markup.
    Stop(int),
    /// A `}` at this position closes no `{`.
    Unbalanced(int),
}

/// `n - 1`, or 0 where `n` is 0.
pub open spec fn pred(n: int) -> int {
    if n > 0 {
        n - 1
    } else {
        0
    }
}

/// The first position from `i` on, below `max`, that holds no whitespace;
/// `max` (or `i`, if that is larger) where there is none.
pub open spec fn first_non_space(s: Seq<char>, i: int, max: int) -> int
    decreases max - i,
{
    if 0 <= i < max && i < s.len() && char_is_whitespace(s[i]) {
        first_non_space(s, i + 1, max)
    } else {
        i
    }
}

/// Where the text that is being read at `i`, inside `depth` open braces,
/// ends.
pub open spec fn text_end(s: Seq<char>, i: int, depth: nat) -> TextEnd
    decreases s.len() - i,
{
    if !(0 <= i < s.len()) {
        TextEnd::Stop(s.len() as int)
    } else if s[i] == '<' && depth == 0 {
        TextEnd::Stop(i)
    } else if s[i] == '{' {
        text_end(s, i + 1, depth + 1)
    } else if s[i] == '}' {
        if depth == 0 {
            TextEnd::Unbalanced(i)
        } else {
            text_end(s, i + 1, (depth - 1) as nat)
        }
    } else {
        text_end(s, i + 1, depth)
    }
}

/// The end of the run of alphanumeric characters that starts at `i`.
pub open spec fn name_end(s: Seq<char>, i: int) -> int
    decreases s.len() - i,
{
    if 0 <= i < s.len() && char_is_alphanumeric(s[i]) {
        name_end(s, i + 1)
    } else {
        i
    }
}

/// The position of the first `=` from `i` on; a position at or past the end
/// where there is none.
pub open spec fn key_end(s: Seq<char>, i: int) -> int
    decreases s.len() - i,
{
    if 0 <= i < s.len() && s[i] != '=' {
        key_end(s, i + 1)
    } else {
        i
    }
}

/// `s` with its whitespace characters left out.
pub open spec fn without_spaces(s: Seq<char>) -> Seq<char>
    decreases s.len(),
{
    if s.len() == 0 {
        Seq::empty()
    } else if char_is_whitespace(s.last()) {
        without_spaces(s.drop_last())
    } else {
        without_spaces(s.drop_last()).push(s.last())
    }
}

/// The position of the `}` that brings the brace depth from `depth` back to
/// zero, reading from `i`; `None` where the markup ends first.
pub open spec fn value_end(s: Seq<char>, i: int, depth: nat) -> Option<int>
    decreases s.len() - i,
{
    if !(0 <= i < s.len()) {
        None
    } else if s[i] == '{' {
        value_end(s, i + 1, depth + 1)
    } else if s[i] == '}' {
        if depth <= 1 {
            Some(i)
        } else {
            value_end(s, i + 1, (depth - 1) as nat)
        }
    } else {
        value_end(s, i + 1, depth)
    }
}

/// Whether every character of `name` is alphanumeric.
pub open spec fn all_alphanumeric(name: Seq<char>) -> bool {
    forall|i: int| 0 <= i < name.len() ==> char_is_alphanumeric(#[trigger] name[i])
}

/// What a collected name stands for. An empty name, and one with a
/// character that is not alphanumeric, are malformed. A name that starts in upper case
/// is a component; any other is a tag, opening or closing by the bracket
/// that introduced it.
pub open spec fn classify(name: Seq<char>, caller: TokenizerState) -> Lexed {
    classify_with(
        name,
        caller,
        all_alphanumeric(name),
        name.len() > 0 && char_is_uppercase(name[0]),
    )
}

/// What a collected name stands for, given whether all its characters are
/// alphanumeric (`valid`) and whether its first one is upper case
/// (`uppercase`).
pub open spec fn classify_with(
    name: Seq<char>,
    caller: TokenizerState,
    valid: bool,
    uppercase: bool,
) -> Lexed {
    if !valid {
        Lexed::Malformed(Reason::InvalidName(name))
    } else if name.len() == 0 {
        Lexed::Malformed(Reason::NoTagName)
    } else if uppercase {
        Lexed::Token(TokenizerState::Component, name)
    } else if caller == TokenizerState::OpenAngleBracket {
        Lexed::Token(TokenizerState::TagNameOpen, name)
    } else if caller == TokenizerState::ClosingAngleBracket {
        Lexed::Token(TokenizerState::TagNameClose, name)
    } else {
        Lexed::Misuse
    }
}

/// The read at a `<` that stands at `j`: `</` where the next character that
/// is no whitespace is `/`, with the cursor on that `/`; else `<`, with the
/// cursor left on it.
pub open spec fn scan_after_open_angle(s: Seq<char>, j: int) -> Scan {
    let n = s.len() as int;
    let k = first_non_space(s, j + 1, n);
    if j < n && k < n && s[k] == '/' {
        Scan { index: k, lexed: Lexed::Token(TokenizerState::ClosingAngleBracket, seq!['<', '/']) }
    } else {
        Scan { index: j, lexed: Lexed::Token(TokenizerState::OpenAngleBracket, seq!['<']) }
    }
}

/// The read between tags, from `i`: the end of the markup, a bracket, or
/// text up to the next `<` outside braces.
pub open spec fn scan_uninitialized(s: Seq<char>, i: int) -> Scan {
    let n = s.len() as int;
    let j = first_non_space(s, i, n);
    if !(0 <= j < n) {
        Scan { index: pred(n), lexed: Lexed::Token(TokenizerState::Finalized, Seq::empty()) }
    } else if s[j] == '<' {
        scan_after_open_angle(s, j)
    } else {
        match text_end(s, j, 0) {
            TextEnd::Stop(e) => Scan {
                index: e - 1,
                lexed: Lexed::Token(TokenizerState::Text, s.subrange(j, e)),
            },
            TextEnd::Unbalanced(p) => Scan {
                index: p,
                lexed: Lexed::Malformed(Reason::StrayBrace),
            },
        }
    }
}

/// The read after `<` or `</`, from `i`: a name, classified.
pub open spec fn scan_open_angle(s: Seq<char>, i: int, caller: TokenizerState) -> Scan {
    let n = s.len() as int;
    let j = first_non_space(s, i, n);
    if !(0 <= j < n) {
        Scan { index: pred(n), lexed: Lexed::Malformed(Reason::NoTagName) }
    } else {
        let e = name_end(s, j);
        Scan { index: pred(e), lexed: classify(s.subrange(j, e), caller) }
    }
}

/// The read at a `/` that stands at `i`, with the markup taken to end at
/// `max`: `/>` where the next character that is no whitespace is `>`.
pub open spec fn scan_after_slash(s: Seq<char>, i: int, max: int) -> Scan {
    if !(0 <= i < max) {
        Scan { index: i, lexed: Lexed::Malformed(Reason::NoClosingBracket) }
    } else {
        let k = first_non_space(s, i + 1, max);
        if k < max && k < s.len() && s[k] == '>' {
            Scan {
                index: k,
                lexed: Lexed::Token(TokenizerState::SelfClosingAngleBracket, seq!['/', '>']),
            }
        } else {
            Scan { index: k, lexed: Lexed::Malformed(Reason::NoClosingBracket) }
        }
    }
}

/// The read of an attribute's key from `i`: the characters up to the first
/// `=`, whitespace left out, and the `=` itself.
pub open spec fn scan_key(s: Seq<char>, i: int) -> (int, Part) {
    let n = s.len() as int;
    let q = key_end(s, i);
    if !(0 <= i <= q < n) {
        (pred(n), Part::Malformed(Reason::NoKeyValue))
    } else {
        (q, Part::Text(without_spaces(s.subrange(i, q)).push('=')))
    }
}

/// The read of an attribute's value from `i`: after whitespace, a `{` and
/// all that follows up to the `}` that matches it, both included.
pub open spec fn scan_value(s: Seq<char>, i: int) -> (int, Part) {
    let n = s.len() as int;
    let v = first_non_space(s, i, n);
    if !(0 <= v < n) {
        (v, Part::Malformed(Reason::NoKeyValue))
    } else if s[v] != '{' {
        (v, Part::Malformed(Reason::ValueNotWrapped(s[v])))
    } else {
        match value_end(s, v + 1, 1) {
            Some(m) => (m, Part::Text(s.subrange(v, m + 1))),
            None => (pred(n), Part::Malformed(Reason::NoKeyValue)),
        }
    }
}

/// The read of one attribute from `i`: key and value, joined.
pub open spec fn scan_props(s: Seq<char>, i: int) -> Scan {
    let (q, key) = scan_key(s, i);
    match key {
        Part::Malformed(r) => Scan { index: q, lexed: Lexed::Malformed(r) },
        Part::Text(k) => {
            let (m, value) = scan_value(s, q + 1);
            match value {
                Part::Malformed(r) => Scan { index: m, lexed: Lexed::Malformed(r) },
                Part::Text(v) => Scan {
                    index: m,
                    lexed: Lexed::Token(TokenizerState::Props, k + v),
                },
            }
        },
    }
}

/// The read after a name or an attribute, from `i`: `>`, `/>` or one more
/// attribute.
pub open spec fn scan_name(s: Seq<char>, i: int) -> Scan {
    let n = s.len() as int;
    let j = first_non_space(s, i, n);
    if 0 <= j < n && s[j] == '>' {
        Scan { index: j, lexed: Lexed::Token(TokenizerState::CloseAngleBracket, seq!['>']) }
    } else if 0 <= j < n && s[j] == '/' {
        scan_after_slash(s, j, n)
    } else {
        scan_props(s, j)
    }
}

/// Whether `e` is the `ParsingError` that tells of `reason`.
pub open spec fn tells(e: Error, reason: Reason) -> bool {
    e is ParsingError && e.message() == reason_text(reason)
}

/// Whether a read's outcome is `lexed`: the same token, the `ParsingError`
/// that tells why the markup is malformed, or the `TypeError` for a misuse.
pub open spec fn yields(res: Result<CurrentState, Error>, lexed: Lexed) -> bool {
    match lexed {
        Lexed::Token(state, token) => res is Ok && res->Ok_0.state == state && res->Ok_0.token@
            == token,
        Lexed::Malformed(reason) => res is Err && tells(res->Err_0, reason),
        Lexed::Misuse => res is Err && res->Err_0 is TypeError && res->Err_0.message()
            == misuse_text(),
    }
}

/// Whether a read's outcome and the cursor it left are those of `scan`.
pub open spec fn agrees(res: Result<CurrentState, Error>, index: usize, scan: Scan) -> bool {
    index == scan.index && yields(res, scan.lexed)
}

/// Whether the outcome of reading a key or a value, and the cursor it left,
/// are those of `scan`: the same text, or the `ParsingError` that tells why
/// the markup is malformed.
pub open spec fn part_agrees(res: Result<String, Error>, index: usize, scan: (int, Part)) -> bool {
    &&& index == scan.0
    &&& match scan.1 {
        Part::Text(text) => res is Ok && res->Ok_0@ == text,
        Part::Malformed(reason) => res is Err && tells(res->Err_0, reason),
    }
}

/// Moves `index` to the first character from it on, below `max`, that is no
/// whitespace.
pub fn update_starting_tag_index(index: &mut usize, max: usize, markup: &Vec<char>)
    ensures
        *final(index) == first_non_space(markup@, *old(index) as int, max as int),
        *old(index) <= *final(index),
        *old(index) <= max ==> *final(index) <= max,
        *final(index) < max && *final(index) < markup.len() ==> !char_is_whitespace(
            markup@[*final(index) as int],
        ),
{
    loop
        invariant
            *old(index) <= *index,
            *old(index) <= max ==> *index <= max,
            first_non_space(markup@, *old(index) as int, max as int) == first_non_space(
                markup@,
                *index as int,
                max as int,
            ),
        ensures
            *index == first_non_space(markup@, *old(index) as int, max as int),
            *old(index) <= *index,
            *old(index) <= max ==> *index <= max,
            *index < max && *index < markup.len() ==> !char_is_whitespace(markup@[*index as int]),
        decreases max - *index,
    {
        if *index >= max || *index >= markup.len() {
            break ;
        }
        if !markup[*index].is_whitespace() {
            break ;
        }
        *index += 1;
    }
}

/// Decides what a `<` at `index` starts. With no text collected before it,
/// the token is `</` or `<`; with text collected, the text is the token and
/// the cursor steps back onto its last character.
pub fn get_state_after_open_angle_bracket(
    text: String,
    index: &mut usize,
    markup: &Vec<char>,
) -> (res: Result<CurrentState, Error>)
    ensures
        text@.len() == 0 ==> agrees(
            res,
            *final(index),
            scan_after_open_angle(markup@, *old(index) as int),
        ),
        text@.len() > 0 ==> agrees(
            res,
            *final(index),
            Scan {
                index: pred(*old(index) as int),
                lexed: Lexed::Token(TokenizerState::Text, text@),
            },
        ),
{
    let max = markup.len();
    if text.as_str().unicode_len() == 0 {
        let temp = *index;
        if temp < max {
            *index += 1;
            update_starting_tag_index(index, max, markup);
            if *index < max && markup[*index] == '/' {
                let token = String::from_str("</");
                proof {
                    reveal_strlit("</");
                    assert(token@ =~= seq!['<', '/']);
                }
                return Ok(CurrentState { token, state: TokenizerState::ClosingAngleBracket });
            }
            *index = temp;
        }
        let token = String::from_str("<");
        proof {
            reveal_strlit("<");
            assert(token@ =~= seq!['<']);
        }
        Ok(CurrentState { state: TokenizerState::OpenAngleBracket, token })
    } else {
        if *index > 0 {
            *index -= 1;
        }
        Ok(CurrentState { state: TokenizerState::Text, token: text })
    }
}

/// Reads the token that follows text, a `>` or a `/>`, or that starts the
/// markup. It skips whitespace; the end of the markup gives `Finalized`, a
/// `<` gives `</` or `<`, and anything else is text up to the next `<`
/// outside braces. A `}` that closes no `{` is an error. The cursor is left
/// on the token's last character.
pub fn proceed_from_uninitialized(markup: &Vec<char>, index: &mut usize) -> (res: Result<
    CurrentState,
    Error,
>)
    ensures
        agrees(res, *final(index), scan_uninitialized(markup@, *old(index) as int)),
{
    let max = markup.len();
    update_starting_tag_index(index, max, markup);
    if *index >= max {
        *index = if max > 0 {
            max - 1
        } else {
            0
        };
        return Ok(CurrentState { state: TokenizerState::Finalized, token: String::new() });
    }
    if markup[*index] == '<' {
        return get_state_after_open_angle_bracket(String::new(), index, markup);
    }
    let start: usize = *index;
    let mut text = String::new();
    let mut depth: usize = 0;
    assert(text@ =~= markup@.subrange(start as int, start as int));
    loop
        invariant
            max == markup.len(),
            start < max,
            markup@[start as int] != '<',
            start <= *index <= max,
            depth <= *index - start,
            text@ == markup@.subrange(start as int, *index as int),
            text_end(markup@, start as int, 0) == text_end(markup@, *index as int, depth as nat),
            start == first_non_space(markup@, *old(index) as int, max as int),
        decreases max - *index,
    {
        if *index == max {
            *index -= 1;
            return Ok(CurrentState { state: TokenizerState::Text, token: text });
        }
        let c = markup[*index];
        if c == '<' && depth == 0 {
            return get_state_after_open_angle_bracket(text, index, markup);
        }
        if c == '{' {
            depth += 1;
        } else if c == '}' {
            if depth == 0 {
                return Err(parsing_error("Found a `}` that closes no `{`."));
            }
            depth -= 1;
        }
        text.push(c);
        *index += 1;
        assert(text@ =~= markup@.subrange(start as int, *index as int));
    }
}

/// The characters of the name that starts at `i`: the run of alphanumeric
/// characters from there on.
pub open spec fn name_at(s: Seq<char>, i: int) -> Seq<char> {
    if 0 <= i < s.len() {
        s.subrange(i, name_end(s, i))
    } else {
        Seq::empty()
    }
}

/// `name_end` lies between its start and the end of the markup.
pub proof fn lemma_name_end_bounds(s: Seq<char>, i: int)
    requires
        0 <= i <= s.len(),
    ensures
        i <= name_end(s, i) <= s.len(),
    decreases s.len() - i,
{
    if i < s.len() && char_is_alphanumeric(s[i]) {
        lemma_name_end_bounds(s, i + 1);
    }
}

/// Appends the name that starts at `index` to `tag_name`, and leaves the
/// cursor on the name's last character. The name ends before the first
/// character that is not alphanumeric.
pub fn update_starting_tag_name(index: &mut usize, tag_name: &mut String, markup: &Vec<char>)
    ensures
        final(tag_name)@ == old(tag_name)@ + name_at(markup@, *old(index) as int),
        *final(index) == pred(name_end(markup@, *old(index) as int)),
{
    let start: usize = *index;
    assert(tag_name@ =~= old(tag_name)@ + Seq::<char>::empty());
    if start >= markup.len() {
        if *index > 0 {
            *index -= 1;
        }
        return ;
    }
    assert(markup@.subrange(start as int, start as int) =~= Seq::<char>::empty());
    loop
        invariant_except_break
            start <= *index <= markup.len(),
            start < markup.len(),
            tag_name@ == old(tag_name)@ + markup@.subrange(start as int, *index as int),
            name_end(markup@, start as int) == name_end(markup@, *index as int),
        ensures
            tag_name@ == old(tag_name)@ + name_at(markup@, start as int),
            *index == pred(name_end(markup@, start as int)),
        decreases markup.len() - *index,
    {
        if *index < markup.len() && markup[*index].is_alphanumeric() {
            tag_name.push(markup[*index]);
            *index += 1;
            assert(tag_name@ =~= old(tag_name)@ + markup@.subrange(start as int, *index as int));
        } else {
            if *index > 0 {
                *index -= 1;
            }
            break ;
        }
    }
}

/// Classifies a collected name. An empty name, or one with a character that
/// is not alphanumeric, is a `ParsingError`. A name that starts in upper
/// case is a `Component`, whatever the caller. Any other name is a
/// `TagNameOpen` for the caller `OpenAngleBracket`, a `TagNameClose` for the
/// caller `ClosingAngleBracket`, and a `TypeError` for every other caller.
pub fn get_state_after_tag_name(tag_name: String, caller: TokenizerState) -> (res: Result<
    CurrentState,
    Error,
>)
    ensures
        yields(res, classify(tag_name@, caller)),
{
    let collected_tag_name = chars_of(tag_name.as_str());
    let mut valid = true;
    let mut i: usize = 0;
    while i < collected_tag_name.len()
        invariant
            i <= collected_tag_name.len(),
            collected_tag_name@ == tag_name@,
            valid == forall|k: int| 0 <= k < i ==> char_is_alphanumeric(#[trigger] tag_name@[k]),
        decreases collected_tag_name.len() - i,
    {
        if !collected_tag_name[i].is_alphanumeric() {
            valid = false;
        }
        i += 1;
    }
    let uppercase = collected_tag_name.len() > 0 && collected_tag_name[0].is_uppercase();
    classify_name(tag_name, caller, valid, uppercase)
}

/// Classifies a collected name, given whether all its characters are
/// alphanumeric (`valid`) and whether its first one is upper case
/// (`uppercase`).
pub fn classify_name(
    tag_name: String,
    caller: TokenizerState,
    valid: bool,
    uppercase: bool,
) -> (res: Result<CurrentState, Error>)
    ensures
        yields(res, classify_with(tag_name@, caller, valid, uppercase)),
{
    if !valid {
        let mut msg = String::from_str("Provided tag name `");
        msg.append(tag_name.as_str());
        msg.append("` contains invalid characters.");
        return Err(Error::ParsingError(msg));
    }
    if tag_name.as_str().unicode_len() == 0 {
        return Err(parsing_error("No tag name was found after open angle bracket."));
    }
    if uppercase {
        Ok(CurrentState { token: tag_name, state: TokenizerState::Component })
    } else {
        match caller {
            TokenizerState::OpenAngleBracket => Ok(
                CurrentState { state: TokenizerState::TagNameOpen, token: tag_name },
            ),
            TokenizerState::ClosingAngleBracket => Ok(
                CurrentState { state: TokenizerState::TagNameClose, token: tag_name },
            ),
            _ => Err(
                Error::TypeError(
                    String::from_str(
                        "A tag name was reached without a `<` or a `</` before it.",
                    ),
                ),
            ),
        }
    }
}

/// Reads the name that follows `<` or `</` (`caller` says which). It skips
/// whitespace, collects the alphanumeric characters that follow and
/// classifies them. The cursor is left on the name's last character. The end
/// of the markup in place of a name is a `ParsingError`.
pub fn proceed_from_open_angle_bracket(
    markup: &Vec<char>,
    index: &mut usize,
    caller: TokenizerState,
) -> (res: Result<CurrentState, Error>)
    ensures
        agrees(res, *final(index), scan_open_angle(markup@, *old(index) as int, caller)),
{
    let max = markup.len();
    let mut tag_name = String::new();
    update_starting_tag_index(index, max, markup);
    if *index >= max {
        *index = if max > 0 {
            max - 1
        } else {
            0
        };
        return Err(parsing_error("No tag name was found after open angle bracket."));
    }
    update_starting_tag_name(index, &mut tag_name, markup);
    assert(tag_name@ =~= name_at(markup@, first_non_space(markup@, *old(index) as int, max as int)));
    get_state_after_tag_name(tag_name, caller)
}

/// Reads an attribute's key from `index`: every character up to the first
/// `=`, whitespace left out, and the `=`. The cursor is left on the `=`.
/// Markup that ends before a `=` is a `ParsingError`.
pub fn read_key_of_prop(index: &mut usize, markup: &Vec<char>) -> (res: Result<String, Error>)
    ensures
        part_agrees(res, *final(index), scan_key(markup@, *old(index) as int)),
{
    let max = markup.len();
    let start: usize = *index;
    let mut key = String::new();
    if start >= max {
        *index = if max > 0 {
            max - 1
        } else {
            0
        };
        return Err(parsing_error("Expected a key-value pair, but reached the end of markup."));
    }
    assert(markup@.subrange(start as int, start as int) =~= Seq::<char>::empty());
    loop
        invariant
            max == markup.len(),
            start == *old(index),
            start <= *index <= max,
            key@ == without_spaces(markup@.subrange(start as int, *index as int)),
            key_end(markup@, start as int) == key_end(markup@, *index as int),
        decreases max - *index,
    {
        if *index >= max {
            *index = if max > 0 {
                max - 1
            } else {
                0
            };
            return Err(parsing_error("Expected a key-value pair, but reached the end of markup."));
        }
        let c = markup[*index];
        if c == '=' {
            key.push(c);
            return Ok(key);
        }
        if !c.is_whitespace() {
            key.push(c);
        }
        *index += 1;
        proof {
            let before = markup@.subrange(start as int, *index - 1);
            let now = markup@.subrange(start as int, *index as int);
            assert(now.drop_last() =~= before);
            assert(now.last() == c);
        }
    }
}

/// Reads an attribute's value from `index`: after whitespace, a `{` and all
/// that follows up to the `}` that matches it, both included. The cursor is
/// left on that `}`. A value that does not start with `{`, and markup that
/// ends before the braces balance, are `ParsingError`s.
pub fn read_value_of_prop(index: &mut usize, markup: &Vec<char>) -> (res: Result<String, Error>)
    ensures
        part_agrees(res, *final(index), scan_value(markup@, *old(index) as int)),
{
    let max = markup.len();
    update_starting_tag_index(index, max, markup);
    if *index >= max {
        return Err(parsing_error("Expected a key-value pair, but reached the end of markup."));
    }
    if markup[*index] != '{' {
        let mut msg = String::from_str(
            "Value of props and attributes must be wrapped around curly brackets. Provided char was ",
        );
        msg.push(markup[*index]);
        return Err(Error::ParsingError(msg));
    }
    let start: usize = *index;
    let mut value = String::new();
    value.push('{');
    *index += 1;
    let mut depth: usize = 1;
    assert(value@ =~= markup@.subrange(start as int, *index as int));
    loop
        invariant
            max == markup.len(),
            start < *index <= max,
            1 <= depth <= *index - start,
            value@ == markup@.subrange(start as int, *index as int),
            value_end(markup@, start + 1, 1) == value_end(markup@, *index as int, depth as nat),
            start == first_non_space(markup@, *old(index) as int, max as int),
            markup@[start as int] == '{',
        decreases max - *index,
    {
        if *index == max {
            *index -= 1;
            return Err(parsing_error("Expected a key-value pair, but reached the end of markup."));
        }
        let c = markup[*index];
        value.push(c);
        assert(value@ =~= markup@.subrange(start as int, *index + 1));
        if c == '{' {
            depth += 1;
        } else if c == '}' {
            depth -= 1;
            if depth == 0 {
                return Ok(value);
            }
        }
        *index += 1;
    }
}

/// Decides what a `/` at `index` starts, with the markup taken to end at
/// `max`: `/>` where the next character that is no whitespace is `>`, with
/// the cursor on that `>`; a `ParsingError` otherwise.
pub fn get_state_after_slash(index: &mut usize, markup: &Vec<char>, max: usize) -> (res: Result<
    CurrentState,
    Error,
>)
    ensures
        agrees(res, *final(index), scan_after_slash(markup@, *old(index) as int, max as int)),
{
    if *index >= max {
        return Err(parsing_error("Expected a closing angle bracket, but did not find it."));
    }
    *index += 1;
    update_starting_tag_index(index, max, markup);
    if *index < max && *index < markup.len() && markup[*index] == '>' {
        let token = String::from_str("/>");
        proof {
            reveal_strlit("/>");
            assert(token@ =~= seq!['/', '>']);
        }
        Ok(CurrentState { state: TokenizerState::SelfClosingAngleBracket, token })
    } else {
        Err(parsing_error("Expected a closing angle bracket, but did not find it."))
    }
}

/// Reads one attribute from `index`: its key, then its value, joined into
/// one token. The cursor is left on the value's closing `}`.
pub fn get_state_from_props(index: &mut usize, markup: &Vec<char>) -> (res: Result<
    CurrentState,
    Error,
>)
    ensures
        agrees(res, *final(index), scan_props(markup@, *old(index) as int)),
{
    let key = match read_key_of_prop(index, markup) {
        Ok(key) => key,
        Err(e) => {
            return Err(e);
        },
    };
    assert(*index == key_end(markup@, *old(index) as int) && *index < markup.len());
    *index += 1;
    let value = match read_value_of_prop(index, markup) {
        Ok(value) => value,
        Err(e) => {
            return Err(e);
        },
    };
    let mut key_value_pair = key;
    key_value_pair.append(value.as_str());
    Ok(CurrentState { state: TokenizerState::Props, token: key_value_pair })
}

/// Reads the token that follows a name or an attribute: `>`, `/>` or one
/// more attribute. The cursor is left on the token's last character.
pub fn proceed_from_name(markup: &Vec<char>, index: &mut usize) -> (res: Result<
    CurrentState,
    Error,
>)
    ensures
        agrees(res, *final(index), scan_name(markup@, *old(index) as int)),
{
    let max = markup.len();
    update_starting_tag_index(index, max, markup);
    if *index < max && markup[*index] == '>' {
        let token = String::from_str(">");
        proof {
            reveal_strlit(">");
            assert(token@ =~= seq!['>']);
        }
        Ok(CurrentState { token, state: TokenizerState::CloseAngleBracket })
    } else if *index < max && markup[*index] == '/' {
        get_state_after_slash(index, markup, max)
    } else {
        get_state_from_props(index, markup)
    }
}

/// The read that the state `state` asks for, from `i`.
pub open spec fn scan_for(s: Seq<char>, state: TokenizerState, i: int) -> Scan {
    match state {
        TokenizerState::Finalized => Scan {
            index: i,
            lexed: Lexed::Token(TokenizerState::Finalized, Seq::empty()),
        },
        TokenizerState::Uninitialized
        | TokenizerState::SelfClosingAngleBracket
        | TokenizerState::CloseAngleBracket
        | TokenizerState::Text => scan_uninitialized(s, i),
        TokenizerState::OpenAngleBracket | TokenizerState::ClosingAngleBracket => scan_open_angle(
            s,
            i,
            state,
        ),
        TokenizerState::TagNameOpen
        | TokenizerState::TagNameClose
        | TokenizerState::Component
        | TokenizerState::Props => scan_name(s, i),
    }
}

/// One step of the lexer, as a mathematical value: the state and the cursor
/// after it, and what it read.
pub struct Step {
    pub state: TokenizerState,
    pub index: int,
    pub lexed: Lexed,
}

/// One step of the lexer over `s`, in state `state`, with the cursor at `i`.
/// A token moves the state to its kind and the cursor past its last
/// character; `Finalized` puts the cursor at the end of the markup and is
/// never left again. An error leaves the state as it was.
pub open spec fn step(s: Seq<char>, state: TokenizerState, i: int) -> Step {
    let scan = scan_for(s, state, i);
    match scan.lexed {
        Lexed::Token(kind, _) => if state == TokenizerState::Finalized {
            Step { state, index: i, lexed: scan.lexed }
        } else if kind == TokenizerState::Finalized {
            Step { state: kind, index: s.len() as int, lexed: scan.lexed }
        } else {
            Step { state: kind, index: scan.index + 1, lexed: scan.lexed }
        },
        _ => Step { state, index: scan.index, lexed: scan.lexed },
    }
}

/// `first_non_space` never moves back, and stays below `max` when it started
/// there.
pub proof fn lemma_first_non_space_bounds(s: Seq<char>, i: int, max: int)
    ensures
        i <= first_non_space(s, i, max),
        i <= max ==> first_non_space(s, i, max) <= max,
    decreases max - i,
{
    if 0 <= i < max && i < s.len() && char_is_whitespace(s[i]) {
        lemma_first_non_space_bounds(s, i + 1, max);
    }
}

/// Text ends at or after its start and within the markup; it is not empty
/// unless it starts at a `<` outside braces.
pub proof fn lemma_text_end_bounds(s: Seq<char>, i: int, depth: nat)
    requires
        0 <= i <= s.len(),
    ensures
        match text_end(s, i, depth) {
            TextEnd::Stop(e) => i <= e <= s.len() && (i < s.len() && !(s[i] == '<' && depth == 0)
                ==> i < e),
            TextEnd::Unbalanced(p) => i <= p < s.len(),
        },
    decreases s.len() - i,
{
    if i < s.len() {
        if s[i] == '<' && depth == 0 {
        } else if s[i] == '{' {
            lemma_text_end_bounds(s, i + 1, depth + 1);
        } else if s[i] == '}' {
            if depth > 0 {
                lemma_text_end_bounds(s, i + 1, (depth - 1) as nat);
            }
        } else {
            lemma_text_end_bounds(s, i + 1, depth);
        }
    }
}

/// `key_end` never moves back.
pub proof fn lemma_key_end_bounds(s: Seq<char>, i: int)
    ensures
        i <= key_end(s, i),
    decreases s.len() - i,
{
    if 0 <= i < s.len() && s[i] != '=' {
        lemma_key_end_bounds(s, i + 1);
    }
}

/// A value's closing brace lies at or after the start of the search and
/// within the markup.
pub proof fn lemma_value_end_bounds(s: Seq<char>, i: int, depth: nat)
    ensures
        value_end(s, i, depth) is Some ==> i <= value_end(s, i, depth)->0 < s.len(),
    decreases s.len() - i,
{
    if 0 <= i < s.len() {
        if s[i] == '{' {
            lemma_value_end_bounds(s, i + 1, depth + 1);
        } else if s[i] == '}' {
            if depth > 1 {
                lemma_value_end_bounds(s, i + 1, (depth - 1) as nat);
            }
        } else {
            lemma_value_end_bounds(s, i + 1, depth);
        }
    }
}

/// Every step that reads a token other than `Finalized` moves the cursor
/// forward and keeps it within the markup; `Finalized` puts it at the end.
pub proof fn lemma_step_progress(s: Seq<char>, state: TokenizerState, i: int)
    requires
        0 <= i,
    ensures
        step(s, state, i).lexed is Token && step(s, state, i).state != TokenizerState::Finalized
            ==> i < step(s, state, i).index <= s.len(),
        0 <= step(s, state, i).index,
{
    let n = s.len() as int;
    lemma_first_non_space_bounds(s, i, n);
    let j = first_non_space(s, i, n);
    match state {
        TokenizerState::Finalized => {},
        TokenizerState::Uninitialized
        | TokenizerState::SelfClosingAngleBracket
        | TokenizerState::CloseAngleBracket
        | TokenizerState::Text => {
            if 0 <= j < n {
                if s[j] == '<' {
                    lemma_first_non_space_bounds(s, j + 1, n);
                } else {
                    lemma_text_end_bounds(s, j, 0);
                }
            }
        },
        TokenizerState::OpenAngleBracket | TokenizerState::ClosingAngleBracket => {
            if 0 <= j < n {
                lemma_name_end_bounds(s, j);
                let e = name_end(s, j);
                assert(s.subrange(j, e).len() == e - j);
            }
        },
        TokenizerState::TagNameOpen
        | TokenizerState::TagNameClose
        | TokenizerState::Component
        | TokenizerState::Props => {
            if 0 <= j < n && s[j] == '>' {
            } else if 0 <= j < n && s[j] == '/' {
                lemma_first_non_space_bounds(s, j + 1, n);
            } else {
                lemma_key_end_bounds(s, j);
                let q = key_end(s, j);
                lemma_first_non_space_bounds(s, q + 1, n);
                let v = first_non_space(s, q + 1, n);
                lemma_value_end_bounds(s, v + 1, 1);
            }
        },
    }
}

/// A lexer over one markup: the characters, the cursor, and the state that
/// the last token left.
pub struct Tokenizer {
    pub markup: Vec<char>,
    pub index: usize,
    pub state: TokenizerState,
}

impl Tokenizer {
    /// What `next` does: the markup stays, and the state, the cursor and the
    /// outcome are those of `step`.
    pub open spec fn next_spec(
        pre: Tokenizer,
        post: Tokenizer,
        res: Result<CurrentState, Error>,
    ) -> bool {
        let st = step(pre.markup@, pre.state, pre.index as int);
        &&& post.markup@ == pre.markup@
        &&& post.state == st.state
        &&& post.index == st.index
        &&& yields(res, st.lexed)
    }

    /// Reads the next token and moves the lexer past it. After `Finalized`
    /// every call returns `Finalized` with an empty token and changes
    /// nothing.
    pub fn next(&mut self) -> (res: Result<CurrentState, Error>)
        ensures
            Self::next_spec(*old(self), *final(self), res),
            res is Ok && res->Ok_0.state != TokenizerState::Finalized ==> old(self).index
                < final(self).index <= old(self).markup.len(),
    {
        let result = match self.state {
            TokenizerState::Finalized => {
                return Ok(CurrentState { token: String::new(), state: TokenizerState::Finalized });
            },
            TokenizerState::Uninitialized
            | TokenizerState::SelfClosingAngleBracket
            | TokenizerState::CloseAngleBracket
            | TokenizerState::Text => proceed_from_uninitialized(&self.markup, &mut self.index),
            TokenizerState::OpenAngleBracket => proceed_from_open_angle_bracket(
                &self.markup,
                &mut self.index,
                TokenizerState::OpenAngleBracket,
            ),
            TokenizerState::ClosingAngleBracket => proceed_from_open_angle_bracket(
                &self.markup,
                &mut self.index,
                TokenizerState::ClosingAngleBracket,
            ),
            TokenizerState::TagNameOpen
            | TokenizerState::TagNameClose
            | TokenizerState::Component
            | TokenizerState::Props => proceed_from_name(&self.markup, &mut self.index),
        };
        match result {
            Ok(current) => {
                self.state = current.state;
                if current.state == TokenizerState::Finalized {
                    self.index = self.markup.len();
                } else {
                    proof {
                        let st = step(old(self).markup@, old(self).state, old(self).index as int);
                        lemma_step_progress(
                            old(self).markup@,
                            old(self).state,
                            old(self).index as int,
                        );
                        assert(st.index == self.index + 1);
                        assert(old(self).markup@.len() == old(self).markup.len());
                    }
                    self.index += 1;
                }
                Ok(current)
            },
            Err(e) => Err(e),
        }
    }
}

/// Reading is a function of the markup, the state and the cursor: two
/// lexers that agree on these read the same token or fail alike, and agree
/// on all three again afterwards.
pub proof fn lemma_next_is_a_function(
    a: Tokenizer,
    a_after: Tokenizer,
    a_res: Result<CurrentState, Error>,
    b: Tokenizer,
    b_after: Tokenizer,
    b_res: Result<CurrentState, Error>,
)
    requires
        a.markup@ == b.markup@,
        a.index == b.index,
        a.state == b.state,
        Tokenizer::next_spec(a, a_after, a_res),
        Tokenizer::next_spec(b, b_after, b_res),
    ensures
        a_after.markup@ == b_after.markup@,
        a_after.index == b_after.index,
        a_after.state == b_after.state,
        a_res is Ok <==> b_res is Ok,
        a_res is Ok ==> a_res->Ok_0.state == b_res->Ok_0.state && a_res->Ok_0.token@
            == b_res->Ok_0.token@,
        a_res is Err ==> (a_res->Err_0 is ParsingError <==> b_res->Err_0 is ParsingError) && (
        a_res->Err_0 is TypeError <==> b_res->Err_0 is TypeError),
{
}

/// `Finalized` is terminal: a call in that state returns `Finalized` with an
/// empty token and leaves the lexer as it was, and a call that returns
/// `Finalized` leaves the lexer in that state.
pub proof fn lemma_finalized_is_terminal(
    pre: Tokenizer,
    post: Tokenizer,
    res: Result<CurrentState, Error>,
)
    requires
        Tokenizer::next_spec(pre, post, res),
    ensures
        pre.state == TokenizerState::Finalized ==> {
            &&& res is Ok
            &&& res->Ok_0.state == TokenizerState::Finalized
            &&& res->Ok_0.token@ == Seq::<char>::empty()
            &&& post.state == TokenizerState::Finalized
            &&& post.index == pre.index
            &&& post.markup@ == pre.markup@
        },
        res is Ok && res->Ok_0.state == TokenizerState::Finalized ==> post.state
            == TokenizerState::Finalized,
{
}

/// Whether a name is a component or a tag depends on the case of its first
/// character alone: a well-formed name is a component exactly when that
/// character is upper case, so two well-formed names whose first characters
/// agree in case are classified alike.
pub proof fn lemma_classification_by_first_character(
    a: Seq<char>,
    b: Seq<char>,
    caller: TokenizerState,
)
    requires
        a.len() > 0,
        b.len() > 0,
        all_alphanumeric(a),
        all_alphanumeric(b),
        char_is_uppercase(a[0]) == char_is_uppercase(b[0]),
    ensures
        classify(a, caller) == Lexed::Token(TokenizerState::Component, a) <==> char_is_uppercase(
            a[0],
        ),
        classify(a, caller) is Token <==> classify(b, caller) is Token,
        classify(a, caller) is Token ==> classify(a, caller)->Token_0 == classify(
            b,
            caller,
        )->Token_0,
        classify(a, caller) is Misuse <==> classify(b, caller) is Misuse,
{
}

/// Whether `state` is one in which the lexer reads between tags.
pub open spec fn reads_between_tags(state: TokenizerState) -> bool {
    state == TokenizerState::Uninitialized || state == TokenizerState::SelfClosingAngleBracket
        || state == TokenizerState::CloseAngleBracket || state == TokenizerState::Text
}

/// Whether `state` is one in which the lexer reads inside the header of a
/// tag or of a component, after its name.
pub open spec fn reads_in_header(state: TokenizerState) -> bool {
    state == TokenizerState::TagNameOpen || state == TokenizerState::TagNameClose || state
        == TokenizerState::Component || state == TokenizerState::Props
}

/// Every token fits the state in which it was read: brackets that open, and
/// text, come between tags only; a name comes after the bracket that
/// introduces it only; an attribute, `>` and `/>` come inside a header
/// only; and no token is `Uninitialized`.
pub proof fn lemma_token_fits_state(s: Seq<char>, state: TokenizerState, i: int)
    ensures
        match step(s, state, i).lexed {
            Lexed::Token(kind, _) => match kind {
                TokenizerState::Uninitialized => false,
                TokenizerState::OpenAngleBracket
                | TokenizerState::ClosingAngleBracket
                | TokenizerState::Text => reads_between_tags(state),
                TokenizerState::TagNameOpen => state == TokenizerState::OpenAngleBracket,
                TokenizerState::TagNameClose => state == TokenizerState::ClosingAngleBracket,
                TokenizerState::Component => state == TokenizerState::OpenAngleBracket || state
                    == TokenizerState::ClosingAngleBracket,
                TokenizerState::Props
                | TokenizerState::CloseAngleBracket
                | TokenizerState::SelfClosingAngleBracket => reads_in_header(state),
                TokenizerState::Finalized => state == TokenizerState::Finalized
                    || reads_between_tags(state),
            },
            _ => true,
        },
{
}

/// A lexer at the start of `markup`.
pub fn tokenizer(markup: String) -> (res: Tokenizer)
    ensures
        res.markup@ == markup@,
        res.index == 0,
        res.state == TokenizerState::Uninitialized,
{
    Tokenizer { markup: chars_of(markup.as_str()), index: 0, state: TokenizerState::Uninitialized }
}

} // verus!
