use retort::error::Error;
use retort::tokenizer::{
    classify_name, get_state_after_slash, get_state_after_tag_name, get_state_from_props, proceed_from_name,
    proceed_from_open_angle_bracket, proceed_from_uninitialized, read_key_of_prop,
    read_value_of_prop, tokenizer, update_starting_tag_index, update_starting_tag_name,
    CurrentState, TokenizerState,
};

#[test]
fn test_empty_markup() {
    let markup: Vec<char> = "          \n   \t  \n".chars().collect();
    let mut index = 0usize;
    let CurrentState { state, token } = proceed_from_uninitialized(&markup, &mut index).unwrap();
    match state {
        TokenizerState::Finalized => {
            assert!(token == "" && index == markup.len() - 1)
        }
        _ => {
            assert!(false)
        }
    }
}

#[test]
fn test_text_markup() {
    let markup_string = "This is a plain test";
    let markup: Vec<char> = markup_string.chars().collect();
    let mut index = 0usize;
    let CurrentState { state, token } = proceed_from_uninitialized(&markup, &mut index).unwrap();
    match state {
        TokenizerState::Text => {
            assert!(token == markup_string && index == markup.len() - 1)
        }
        _ => {
            assert!(false)
        }
    }
}

#[test]
fn test_open_angle_bracket() {
    let markup_string = "    <div";
    let markup: Vec<char> = markup_string.chars().collect();
    let mut index = 0usize;
    let CurrentState { state, token } = proceed_from_uninitialized(&markup, &mut index).unwrap();
    match state {
        TokenizerState::OpenAngleBracket => {
            assert!(token == "<" && index == 4)
        }
        _ => {
            assert!(false)
        }
    }
}

#[test]
fn test_closing_angle_bracket() {
    let markup_string = "<div>hi<   /  div>";
    let markup: Vec<char> = markup_string.chars().collect();
    let mut index = 7usize;
    let CurrentState { state, token } = proceed_from_uninitialized(&markup, &mut index).unwrap();
    match state {
        TokenizerState::ClosingAngleBracket => {
            assert!(token == "</" && index == 11)
        }
        _ => {
            assert!(false)
        }
    }
}

#[test]
fn test_text_inside_tag() {
    let markup_string = "<div>hello world<div>hi</div></div>";
    let markup: Vec<char> = markup_string.chars().collect();
    let mut index = 5usize;
    let CurrentState { state, token } = proceed_from_uninitialized(&markup, &mut index).unwrap();
    match state {
        TokenizerState::Text => {
            assert!(token == "hello world" && index == 15)
        }
        _ => {
            assert!(false)
        }
    }
}

#[test]
fn test_update_starting_tag_index_from_whitespace() {
    let markup_string = "<div    \n\t   ></div>";
    let markup: Vec<char> = markup_string.chars().collect();
    let mut index = 4usize;
    update_starting_tag_index(&mut index, markup.len(), &markup);
    assert_eq!(index, 13);
}

#[test]
fn test_update_starting_tag_index_from_non_whitespace() {
    let markup_string = "<div    \n\t   ></div>";
    let markup: Vec<char> = markup_string.chars().collect();
    let mut index = 3usize;
    update_starting_tag_index(&mut index, markup.len(), &markup);
    assert_eq!(index, 3);
}

#[test]
fn test_update_starting_tag_index_from_last_char() {
    let markup_string = "<div></div>";
    let markup: Vec<char> = markup_string.chars().collect();
    let max = markup.len();
    let mut index = max as usize;
    update_starting_tag_index(&mut index, max, &markup);
    assert_eq!(index, max);
}

#[test]
fn test_update_starting_tag_name() {
    let markup_arr = vec![
        "<p id={\"hi\"}></p>".to_owned(),
        "<p></p>".to_owned(),
        "<p ></p>".to_owned(),
    ];
    let mut res: Vec<bool> = Vec::new();
    for markup_string in markup_arr {
        let markup: Vec<char> = markup_string.chars().collect();
        let mut index = 1usize;
        let mut tag_name: String = String::new();
        update_starting_tag_name(&mut index, &mut tag_name, &markup);
        res.push(index == 1 && tag_name == "p");
    }
    assert!(res.iter().all(|r| *r))
}

#[test]
fn test_get_state_after_tag_name_illegal_character() {
    let tag_name = String::from("article<");
    let result = get_state_after_tag_name(tag_name, TokenizerState::OpenAngleBracket);
    if result.is_err() {
        assert!(matches!(result.unwrap_err(), Error::ParsingError(_)));
    } else {
        assert!(false);
    }
}

#[test]
fn test_get_state_after_tag_name_with_component() {
    let tag_name = String::from("TableRow");
    let result = get_state_after_tag_name(tag_name.clone(), TokenizerState::OpenAngleBracket);
    if result.is_ok() {
        let CurrentState { state, token } = result.unwrap();
        assert!(matches!(state, TokenizerState::Component) && token == tag_name);
    } else {
        assert!(false);
    }
}

#[test]
fn test_get_state_after_tag_name_open() {
    let tag_name = String::from("span");
    let result = get_state_after_tag_name(tag_name.clone(), TokenizerState::OpenAngleBracket);
    if result.is_ok() {
        let CurrentState { state, token } = result.unwrap();
        assert!(matches!(state, TokenizerState::TagNameOpen) && token == tag_name);
    } else {
        assert!(false);
    }
}

#[test]
fn test_get_state_after_tag_name_close() {
    let tag_name = String::from("span");
    let result = get_state_after_tag_name(tag_name.clone(), TokenizerState::ClosingAngleBracket);
    if result.is_ok() {
        let CurrentState { state, token } = result.unwrap();
        assert!(matches!(state, TokenizerState::TagNameClose) && token == tag_name);
    } else {
        assert!(false);
    }
}

#[test]
fn test_get_state_after_tag_name_invalid_caller() {
    let tag_name = String::from("span");
    let invalid_callers: Vec<TokenizerState> = vec![
        TokenizerState::Uninitialized,
        TokenizerState::SelfClosingAngleBracket,
        TokenizerState::TagNameOpen,
        TokenizerState::TagNameClose,
        TokenizerState::Component,
        TokenizerState::Props,
        TokenizerState::Text,
        TokenizerState::Finalized,
    ];
    for caller in invalid_callers {
        let result = get_state_after_tag_name(tag_name.clone(), caller);
        if result.is_err() {
            assert!(matches!(result.unwrap_err(), Error::TypeError(_)));
        } else {
            assert!(false);
        }
    }
}

#[test]
fn test_proceed_from_open_angle_bracket_empty() {
    let markup_string = "< ";
    let markup: Vec<char> = markup_string.chars().collect();
    let mut index = 1usize;
    let proceed_from_open_angle_bracket_result =
        proceed_from_open_angle_bracket(&markup, &mut index, TokenizerState::OpenAngleBracket);
    assert!(matches!(
        proceed_from_open_angle_bracket_result,
        Result::Err(err) if matches!(err, Error::ParsingError(_))
    ))
}

#[test]
fn test_read_key_of_prop_invalid() {
    let markup_string = "<div id";
    let markup: Vec<char> = markup_string.chars().collect();
    let mut index = 5usize;
    let read_key_of_prop_result = read_key_of_prop(&mut index, &markup);
    assert!(matches!(read_key_of_prop_result, Err(err) if matches!(err, Error::ParsingError(_))))
}

#[test]
fn test_read_key_of_prop_valid() {
    let markup_string = "<div id={\"hi\"}></div>";
    let markup: Vec<char> = markup_string.chars().collect();
    let mut index = 5usize;
    let key = read_key_of_prop(&mut index, &markup).unwrap();
    assert!(key == "id=" && index == 7);
}

#[test]
fn test_read_value_of_prop_invalid_wrapper() {
    let markup_string = "<div id=\"hi\"></div>";
    let markup: Vec<char> = markup_string.chars().collect();
    let mut index = 8usize;
    let read_value_of_prop_result = read_value_of_prop(&mut index, &markup);
    assert!(matches!(read_value_of_prop_result, Err(err) if matches!(err, Error::ParsingError(_))));
}

#[test]
fn test_read_value_of_prop() {
    let markup_string = "<div id={\"hi\"}></div>";
    let markup: Vec<char> = markup_string.chars().collect();
    let mut index = 8usize;
    let read_value_of_prop_result = read_value_of_prop(&mut index, &markup);
    if read_value_of_prop_result.is_ok() {
        let read_value_of_prop = read_value_of_prop_result.unwrap();
        assert_eq!(read_value_of_prop, "{\"hi\"}");
        assert_eq!(index, 13);
    } else {
        assert!(false);
    }
}

#[test]
fn test_read_value_of_prop_invalid_bracket_sequence() {
    let markup_string = "<div id={{\"hi\"}></div>";
    let markup: Vec<char> = markup_string.chars().collect();
    let mut index = 8usize;
    let read_value_of_prop_result = read_value_of_prop(&mut index, &markup);
    assert!(matches!(read_value_of_prop_result, Err(err) if matches!(err, Error::ParsingError(_))))
}

#[test]
fn test_get_state_after_slash_valid() {
    let markup_string = "<img / >";
    let markup: Vec<char> = markup_string.chars().collect();
    let mut index = 5usize;
    let max = markup.len();
    let get_state_after_slash_result = get_state_after_slash(&mut index, &markup, max);
    assert!(
        matches!(get_state_after_slash_result, Ok(val) if matches!(val.state, TokenizerState::SelfClosingAngleBracket) && matches!(val.token.as_str(), "/>"))
    )
}

#[test]
fn test_get_state_after_slash_invalid() {
    let markup_string = "<img / <p>hi</p>";
    let markup: Vec<char> = markup_string.chars().collect();
    let mut index = 5usize;
    let max = markup.len();
    let get_state_after_slash_result = get_state_after_slash(&mut index, &markup, max);
    assert!(
        matches!(get_state_after_slash_result, Err(err) if matches!(err, Error::ParsingError(_)))
    )
}

#[test]
fn test_get_state_from_props() {
    let markup_string = "<img src = {state.src}/>";
    let markup: Vec<char> = markup_string.chars().collect();
    let mut index = 5usize;
    let prop_result = get_state_from_props(&mut index, &markup);
    if prop_result.is_ok() {
        let CurrentState { state, token } = prop_result.unwrap();
        assert!(matches!(state, TokenizerState::Props));
        assert_eq!(token, "src={state.src}");
    } else {
        assert!(false);
    }
}

#[test]
fn test_proceed_from_name() {
    let markup_string = "<h2>Hello world</h2  >";
    let markup: Vec<char> = markup_string.chars().collect();
    let mut index = 19usize;
    let proceed_from_name_result = proceed_from_name(&markup, &mut index);
    assert!(
        matches!(proceed_from_name_result, Ok(val) if matches!(val.state, TokenizerState::CloseAngleBracket) && matches!(val.token.as_str(), ">"))
    );
}

#[test]
fn tokenizer_test_1() {
    let markup = String::from(
        "  <div>
            <h2>{\"User: {username}\"}</h2>
            <p>{\"Age: {age}\"}</p>
            <img src={\"https://example.com/{username}\"} alt={\"Profile picture of {username}\"} />
            <a href={\"https://example.com/{username}\"} target={\"_blank\"}>View Profile</a>
          </div>",
    );
    let mut generator = tokenizer(markup);
    loop {
        let generator_res = generator.next();
        assert!(!matches!(generator_res, Err(_)));
        let CurrentState {
            state,
            token: _token,
        } = generator_res.unwrap();
        if matches!(state, TokenizerState::Finalized) {
            break;
        }
    }
}

fn expect(state: TokenizerState, token: &str) -> CurrentState {
    CurrentState {
        state,
        token: String::from(token),
    }
}

#[test]
fn tokenizer_test_2() {
    let markup = String::from("<div data-source={\"root\"} render-if={12+2==14}>
            <span data-source={\"hi\"}>hi</span>
              <img
              width={100} height={100} alt={2 + 2 == 4 ?   1 :0}/>
              <span style={\"color:red;font-size:2rem;font-family:sans-serif;padding:3rem\"}>hello world</span>
            </div> ");
    let expected_arr: Vec<CurrentState> = vec![
        expect(TokenizerState::OpenAngleBracket, "<"),
        expect(TokenizerState::TagNameOpen, "div"),
        expect(TokenizerState::Props, "data-source={\"root\"}"),
        expect(TokenizerState::Props, "render-if={12+2==14}"),
        expect(TokenizerState::CloseAngleBracket, ">"),
        expect(TokenizerState::OpenAngleBracket, "<"),
        expect(TokenizerState::TagNameOpen, "span"),
        expect(TokenizerState::Props, "data-source={\"hi\"}"),
        expect(TokenizerState::CloseAngleBracket, ">"),
        expect(TokenizerState::Text, "hi"),
        expect(TokenizerState::ClosingAngleBracket, "</"),
        expect(TokenizerState::TagNameClose, "span"),
        expect(TokenizerState::CloseAngleBracket, ">"),
        expect(TokenizerState::OpenAngleBracket, "<"),
        expect(TokenizerState::TagNameOpen, "img"),
        expect(TokenizerState::Props, "width={100}"),
        expect(TokenizerState::Props, "height={100}"),
        expect(TokenizerState::Props, "alt={2 + 2 == 4 ?   1 :0}"),
        expect(TokenizerState::SelfClosingAngleBracket, "/>"),
        expect(TokenizerState::OpenAngleBracket, "<"),
        expect(TokenizerState::TagNameOpen, "span"),
        expect(
            TokenizerState::Props,
            "style={\"color:red;font-size:2rem;font-family:sans-serif;padding:3rem\"}",
        ),
        expect(TokenizerState::CloseAngleBracket, ">"),
        expect(TokenizerState::Text, "hello world"),
        expect(TokenizerState::ClosingAngleBracket, "</"),
        expect(TokenizerState::TagNameClose, "span"),
        expect(TokenizerState::CloseAngleBracket, ">"),
        expect(TokenizerState::ClosingAngleBracket, "</"),
        expect(TokenizerState::TagNameClose, "div"),
        expect(TokenizerState::CloseAngleBracket, ">"),
    ];
    let mut generator = tokenizer(markup);
    for expected in expected_arr {
        let actual_result = generator.next();
        assert!(actual_result.is_ok());
        let actual = actual_result.unwrap();
        assert!(actual == expected);
    }
}

#[test]
fn mod_test_empty_markup() {
    let markup: Vec<char> = " ".chars().collect();
    let mut index = 0usize;
    let CurrentState { state, token } = proceed_from_uninitialized(&markup, &mut index).unwrap();
    match state {
        TokenizerState::Finalized => {
            assert!(token == "")
        }
        _ => {
            assert!(false)
        }
    }
}

#[test]
fn mod_test_open_angle_bracket() {
    let markup_string = "<div";
    let markup: Vec<char> = markup_string.chars().collect();
    let mut index = 0usize;
    let CurrentState { state, token } = proceed_from_uninitialized(&markup, &mut index).unwrap();
    match state {
        TokenizerState::OpenAngleBracket => {
            assert!(token == "<")
        }
        _ => {
            assert!(false)
        }
    }
}

#[test]
fn test_open_angle_bracket_with_extra_spaces() {
    let markup_string = "   <div";
    let markup: Vec<char> = markup_string.chars().collect();
    let mut index = 0usize;
    let CurrentState { state, token } = proceed_from_uninitialized(&markup, &mut index).unwrap();
    match state {
        TokenizerState::OpenAngleBracket => {
            assert!(token == "<")
        }
        _ => {
            assert!(false)
        }
    }
}

#[test]
fn mod_test_closing_angle_bracket() {
    let markup_string = "<div>hi</div>";
    let markup: Vec<char> = markup_string.chars().collect();
    let mut index = 7usize;
    let CurrentState { state, token } = proceed_from_uninitialized(&markup, &mut index).unwrap();
    match state {
        TokenizerState::ClosingAngleBracket => {
            assert!(token == "</")
        }
        _ => {
            assert!(false)
        }
    }
}

#[test]
fn test_closing_angle_bracket_with_extra_spaces() {
    let markup_string = "<div>hi<      /div>";
    let markup: Vec<char> = markup_string.chars().collect();
    let mut index = 7usize;
    let CurrentState { state, token } = proceed_from_uninitialized(&markup, &mut index).unwrap();
    match state {
        TokenizerState::ClosingAngleBracket => {
            assert!(token == "</")
        }
        _ => {
            assert!(false)
        }
    }
}

#[test]
fn finalized_is_returned_again_and_again() {
    let mut lexer = tokenizer(String::from("<br/>"));
    let mut seen = Vec::new();
    for _ in 0..8 {
        seen.push(lexer.next().unwrap());
    }
    assert_eq!(seen[0], expect(TokenizerState::OpenAngleBracket, "<"));
    assert_eq!(seen[1], expect(TokenizerState::TagNameOpen, "br"));
    assert_eq!(seen[2], expect(TokenizerState::SelfClosingAngleBracket, "/>"));
    for later in &seen[3..] {
        assert_eq!(*later, expect(TokenizerState::Finalized, ""));
    }
    assert_eq!(lexer.index, 5);
}

#[test]
fn empty_markup_is_finalized_without_panic() {
    let mut lexer = tokenizer(String::new());
    assert_eq!(lexer.next().unwrap(), expect(TokenizerState::Finalized, ""));
    assert_eq!(lexer.next().unwrap(), expect(TokenizerState::Finalized, ""));
    assert_eq!(lexer.index, 0);
}

#[test]
fn same_cursor_same_token() {
    let markup: Vec<char> = "<section class={\"a\"}>".chars().collect();
    let mut first = 1usize;
    let mut second = 1usize;
    let a = proceed_from_open_angle_bracket(&markup, &mut first, TokenizerState::OpenAngleBracket)
        .unwrap();
    let b = proceed_from_open_angle_bracket(&markup, &mut second, TokenizerState::OpenAngleBracket)
        .unwrap();
    assert_eq!(a, expect(TokenizerState::TagNameOpen, "section"));
    assert_eq!(a, b);
    assert_eq!(first, 7);
    assert_eq!(first, second);
}

#[test]
fn classification_goes_by_the_first_character() {
    let mut lexer = tokenizer(String::from("<Foo/>"));
    lexer.next().unwrap();
    assert_eq!(lexer.next().unwrap(), expect(TokenizerState::Component, "Foo"));
    let mut lexer = tokenizer(String::from("<foo/>"));
    lexer.next().unwrap();
    assert_eq!(lexer.next().unwrap(), expect(TokenizerState::TagNameOpen, "foo"));
    let mut lexer = tokenizer(String::from("<fOO/>"));
    lexer.next().unwrap();
    assert_eq!(lexer.next().unwrap(), expect(TokenizerState::TagNameOpen, "fOO"));
    let mut lexer = tokenizer(String::from("</Foo>"));
    lexer.next().unwrap();
    assert_eq!(lexer.next().unwrap(), expect(TokenizerState::Component, "Foo"));
}

#[test]
fn text_keeps_angle_brackets_inside_braces() {
    let mut lexer = tokenizer(String::from("<p>{a < b} and more</p>"));
    assert_eq!(lexer.next().unwrap(), expect(TokenizerState::OpenAngleBracket, "<"));
    assert_eq!(lexer.next().unwrap(), expect(TokenizerState::TagNameOpen, "p"));
    assert_eq!(lexer.next().unwrap(), expect(TokenizerState::CloseAngleBracket, ">"));
    assert_eq!(lexer.next().unwrap(), expect(TokenizerState::Text, "{a < b} and more"));
    assert_eq!(lexer.next().unwrap(), expect(TokenizerState::ClosingAngleBracket, "</"));
}

#[test]
fn unmatched_closing_brace_in_text_is_an_error() {
    let markup: Vec<char> = "<p>oops }</p>".chars().collect();
    let mut index = 3usize;
    let res = proceed_from_uninitialized(&markup, &mut index);
    assert!(matches!(res, Err(Error::ParsingError(_))));
    assert_eq!(index, 8);
}

#[test]
fn slash_without_closing_bracket_is_an_error() {
    let mut lexer = tokenizer(String::from("<img / x"));
    lexer.next().unwrap();
    lexer.next().unwrap();
    assert!(matches!(lexer.next(), Err(Error::ParsingError(_))));
}

#[test]
fn name_at_end_of_markup_does_not_panic() {
    let mut lexer = tokenizer(String::from("<div"));
    assert_eq!(lexer.next().unwrap(), expect(TokenizerState::OpenAngleBracket, "<"));
    assert_eq!(lexer.next().unwrap(), expect(TokenizerState::TagNameOpen, "div"));
    assert!(matches!(lexer.next(), Err(Error::ParsingError(_))));
}

#[test]
fn missing_name_is_an_error() {
    let mut lexer = tokenizer(String::from("<>"));
    lexer.next().unwrap();
    assert!(matches!(lexer.next(), Err(Error::ParsingError(_))));
}

#[test]
fn name_errors_have_their_messages() {
    let err = get_state_after_tag_name(String::from("article<"), TokenizerState::OpenAngleBracket)
        .unwrap_err();
    assert_eq!(
        err.to_string(),
        "Parsing error: Provided tag name `article<` contains invalid characters."
    );
    let err = get_state_after_tag_name(String::new(), TokenizerState::OpenAngleBracket).unwrap_err();
    assert_eq!(
        err.to_string(),
        "Parsing error: No tag name was found after open angle bracket."
    );
    let err = get_state_after_tag_name(String::from("span"), TokenizerState::Text).unwrap_err();
    assert_eq!(
        err.to_string(),
        "Type error: A tag name was reached without a `<` or a `</` before it."
    );
    let ok = get_state_after_tag_name(String::from("Span"), TokenizerState::Text).unwrap();
    assert_eq!(ok, expect(TokenizerState::Component, "Span"));
}

#[test]
fn an_error_leaves_the_state_as_it_was() {
    let mut lexer = tokenizer(String::from("<a b"));
    lexer.next().unwrap();
    lexer.next().unwrap();
    assert_eq!(lexer.state, TokenizerState::TagNameOpen);
    assert!(lexer.next().is_err());
    assert_eq!(lexer.state, TokenizerState::TagNameOpen);
    assert_eq!(lexer.index, 3);
}

#[test]
fn cursor_past_the_end_is_the_end() {
    let markup: Vec<char> = "ab".chars().collect();
    let mut index = 7usize;
    let res = proceed_from_uninitialized(&markup, &mut index).unwrap();
    assert_eq!(res, expect(TokenizerState::Finalized, ""));
    assert_eq!(index, 1);
    let mut index = 7usize;
    assert!(proceed_from_name(&markup, &mut index).is_err());
    assert_eq!(index, 1);
    let mut index = 7usize;
    assert!(get_state_after_slash(&mut index, &markup, 2).is_err());
    assert_eq!(index, 7);
}

#[test]
fn names_are_classified_from_what_is_known_of_them() {
    let ok = classify_name(String::from("Row"), TokenizerState::OpenAngleBracket, true, true).unwrap();
    assert_eq!(ok, expect(TokenizerState::Component, "Row"));
    let ok = classify_name(String::from("row"), TokenizerState::OpenAngleBracket, true, false).unwrap();
    assert_eq!(ok, expect(TokenizerState::TagNameOpen, "row"));
    let ok =
        classify_name(String::from("row"), TokenizerState::ClosingAngleBracket, true, false).unwrap();
    assert_eq!(ok, expect(TokenizerState::TagNameClose, "row"));
    assert!(matches!(
        classify_name(String::from("row"), TokenizerState::OpenAngleBracket, false, false),
        Err(Error::ParsingError(_))
    ));
    assert!(matches!(
        classify_name(String::new(), TokenizerState::OpenAngleBracket, true, false),
        Err(Error::ParsingError(_))
    ));
    assert!(matches!(
        classify_name(String::from("row"), TokenizerState::Props, true, false),
        Err(Error::TypeError(_))
    ));
}
