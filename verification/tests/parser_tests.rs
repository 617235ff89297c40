use retort::error::Error;
use retort::node::{Component, NodeType, VirtualNode};
use retort::parser::{parse, Parser, ParserStep};
use retort::string_map::StringMap;

fn tag_name(node: &VirtualNode) -> &str {
    match &node.node_type {
        NodeType::Tag(name) => name.as_str(),
        _ => panic!("not a tag"),
    }
}

fn text_of(node: &VirtualNode) -> &str {
    match &node.node_type {
        NodeType::Text(text) => text.as_str(),
        _ => panic!("not text"),
    }
}

#[test]
fn tag_with_text_child() {
    let root = parse(String::from("<div>hello</div>")).unwrap();
    assert_eq!(tag_name(&root), "div");
    assert_eq!(root.attributes.len(), 0);
    assert_eq!(root.children.len(), 1);
    assert_eq!(text_of(&root.children[0]), "hello");
    assert_eq!(root.children[0].children.len(), 0);
}

#[test]
fn tag_with_self_closing_child() {
    let root = parse(String::from("<div><span/></div>")).unwrap();
    assert_eq!(tag_name(&root), "div");
    assert_eq!(root.children.len(), 1);
    assert_eq!(tag_name(&root.children[0]), "span");
    assert_eq!(root.children[0].children.len(), 0);
}

#[test]
fn attribute_value_stays_raw() {
    let root = parse(String::from("<div id={\"x\"}/>")).unwrap();
    assert_eq!(tag_name(&root), "div");
    assert_eq!(root.attributes.len(), 1);
    assert_eq!(root.attributes.get("id").unwrap(), "{\"x\"}");
    assert_eq!(root.children.len(), 0);
}

#[test]
fn unterminated_tag_is_a_parsing_error() {
    assert!(matches!(parse(String::from("<div>")), Err(Error::ParsingError(_))));
}

#[test]
fn two_roots_are_a_parsing_error() {
    assert!(matches!(parse(String::from("<div/><span/>")), Err(Error::ParsingError(_))));
    assert!(matches!(
        parse(String::from("<div></div><span></span>")),
        Err(Error::ParsingError(_))
    ));
    assert!(matches!(parse(String::from("<div/> trailing")), Err(Error::ParsingError(_))));
}

#[test]
fn no_root_is_a_parsing_error() {
    assert!(matches!(parse(String::new()), Err(Error::ParsingError(_))));
    assert!(matches!(parse(String::from("  \n ")), Err(Error::ParsingError(_))));
}

#[test]
fn closing_tag_without_open_tag_is_a_parsing_error() {
    assert!(matches!(parse(String::from("</div>")), Err(Error::ParsingError(_))));
}

#[test]
fn lexer_errors_surface_as_parsing_errors() {
    assert!(matches!(parse(String::from("<div id=\"x\"/>")), Err(Error::ParsingError(_))));
    assert!(matches!(parse(String::from("<div>}</div>")), Err(Error::ParsingError(_))));
    assert!(matches!(parse(String::from("<div / x>")), Err(Error::ParsingError(_))));
}

#[test]
fn root_may_be_text_and_may_have_space_after_it() {
    let root = parse(String::from("  just text")).unwrap();
    assert_eq!(text_of(&root), "just text");
    let root = parse(String::from("<div></div>  \n")).unwrap();
    assert_eq!(tag_name(&root), "div");
}

#[test]
fn nesting_mirrors_the_markup() {
    let root = parse(String::from(
        "<ul class={\"list\"}><li>one</li><li><b>two</b> and more</li><hr /></ul>",
    ))
    .unwrap();
    assert_eq!(tag_name(&root), "ul");
    assert_eq!(root.attributes.get("class").unwrap(), "{\"list\"}");
    assert_eq!(root.children.len(), 3);
    assert_eq!(tag_name(&root.children[0]), "li");
    assert_eq!(text_of(&root.children[0].children[0]), "one");
    let second = &root.children[1];
    assert_eq!(second.children.len(), 2);
    assert_eq!(tag_name(&second.children[0]), "b");
    assert_eq!(text_of(&second.children[0].children[0]), "two");
    assert_eq!(text_of(&second.children[1]), "and more");
    assert_eq!(tag_name(&root.children[2]), "hr");
}

#[test]
fn mismatched_names_are_accepted() {
    let root = parse(String::from("<div>x</span>")).unwrap();
    assert_eq!(tag_name(&root), "div");
    assert_eq!(root.children.len(), 1);
}

#[test]
fn later_attribute_replaces_earlier_one() {
    let root = parse(String::from("<a k={1} k={2}/>")).unwrap();
    assert_eq!(root.attributes.len(), 1);
    assert_eq!(root.attributes.get("k").unwrap(), "{2}");
}

#[test]
fn component_without_import_is_a_reference_error() {
    assert!(matches!(parse(String::from("<div><Hello /></div>")), Err(Error::ReferenceError(_))));
}

#[test]
fn component_is_resolved_in_place() {
    let mut imports = StringMap::new();
    imports.insert(String::from("Hello"), String::from("/test/Hello/Hello.js"));
    let mut parser = Parser::new(String::from("<div><Hello name={\"a\"} /><p>x</p></div>"));
    match parser.advance(&imports).unwrap() {
        ParserStep::Resolve { name, path } => {
            assert_eq!(name, "Hello");
            assert_eq!(path, "/test/Hello/Hello.js");
        }
        ParserStep::Finished(_) => panic!("finished early"),
    }
    parser.supply(Component::new(String::from("{\"n\":1}"), String::from("<b/>")));
    let root = match parser.advance(&imports).unwrap() {
        ParserStep::Finished(root) => root,
        ParserStep::Resolve { .. } => panic!("asked twice"),
    };
    assert_eq!(tag_name(&root), "div");
    assert_eq!(root.children.len(), 2);
    match &root.children[0].node_type {
        NodeType::Component(component) => {
            assert_eq!(component.get_state(), "{\"n\":1}");
            assert_eq!(component.get_props(), "{}");
            assert_eq!(component.get_presenter(), "<b/>");
            assert_eq!(tag_name(component.get_vdom()), " ");
        }
        _ => panic!("not a component"),
    }
    assert_eq!(root.children[0].attributes.get("name").unwrap(), "{\"a\"}");
    assert_eq!(tag_name(&root.children[1]), "p");
}

fn message(res: Result<VirtualNode, Error>) -> String {
    match res {
        Err(e) => e.to_string(),
        Ok(_) => panic!("parsed"),
    }
}

#[test]
fn every_failure_has_its_message() {
    let one_root = "Parsing error: Presenter of each component must be wrapped inside one and only one wrapper.";
    assert_eq!(message(parse(String::from("<div>"))), one_root);
    assert_eq!(message(parse(String::from("<div/><span/>"))), one_root);
    assert_eq!(message(parse(String::new())), one_root);
    assert_eq!(
        message(parse(String::from("</div>"))),
        "Parsing error: Found a closing tag that closes no open tag."
    );
    assert_eq!(
        message(parse(String::from("<Hello/>"))),
        "Reference error: An import statement for `Hello` was supposed to exist, but it didn't."
    );
    assert_eq!(
        message(parse(String::from("<div>}</div>"))),
        "Parsing error: Found a `}` that closes no `{`."
    );
    assert_eq!(
        message(parse(String::from("<  >"))),
        "Parsing error: No tag name was found after open angle bracket."
    );
    assert_eq!(
        message(parse(String::from("< "))),
        "Parsing error: No tag name was found after open angle bracket."
    );
    assert_eq!(
        message(parse(String::from("<img / <p>"))),
        "Parsing error: Expected a closing angle bracket, but did not find it."
    );
    assert_eq!(
        message(parse(String::from("<div id"))),
        "Parsing error: Expected a key-value pair, but reached the end of markup."
    );
    assert_eq!(
        message(parse(String::from("<div id={{\"hi\"}></div>"))),
        "Parsing error: Expected a key-value pair, but reached the end of markup."
    );
    assert_eq!(
        message(parse(String::from("<div id=\"hi\"></div>"))),
        "Parsing error: Value of props and attributes must be wrapped around curly brackets. Provided char was \""
    );
}
