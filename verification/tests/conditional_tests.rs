use retort::conditional::{materialize, should_node_render, ConditionalState};
use retort::error::Error;
use retort::node::{NodeType, VirtualNode};

fn tag(name: &str, attribute: Option<(&str, &str)>) -> VirtualNode {
    let mut node = VirtualNode::new(NodeType::Tag(String::from(name)));
    if let Some((key, value)) = attribute {
        node.set_attribute(String::from(key), String::from(value));
    }
    node
}

fn names(picked: &[&VirtualNode]) -> Vec<String> {
    picked
        .iter()
        .map(|node| match &node.node_type {
            NodeType::Tag(name) => name.clone(),
            _ => panic!("not a tag"),
        })
        .collect()
}

#[test]
fn only_the_true_branch_is_included() {
    let siblings = vec![
        tag("a", Some(("render-if", "false"))),
        tag("b", Some(("render-else-if", "true"))),
        tag("c", Some(("render-else", ""))),
    ];
    let picked = materialize(&siblings).unwrap();
    assert_eq!(names(&picked), vec!["b"]);
}

#[test]
fn else_is_included_when_nothing_matched() {
    let siblings = vec![
        tag("a", Some(("render-if", "no"))),
        tag("plain", None),
        tag("b", Some(("render-else-if", "false"))),
        tag("c", Some(("render-else", ""))),
        tag("d", None),
    ];
    let picked = materialize(&siblings).unwrap();
    assert_eq!(names(&picked), vec!["plain", "c", "d"]);
}

#[test]
fn first_match_short_circuits_the_chain() {
    let siblings = vec![
        tag("a", Some(("render-if", "true"))),
        tag("b", Some(("render-else-if", "true"))),
        tag("c", Some(("render-else", ""))),
        tag("d", Some(("render-if", "true"))),
    ];
    let picked = materialize(&siblings).unwrap();
    assert_eq!(names(&picked), vec!["a", "d"]);
}

#[test]
fn else_if_without_if_is_a_parsing_error() {
    let siblings = vec![tag("a", None), tag("b", Some(("render-else-if", "true")))];
    assert!(matches!(materialize(&siblings), Err(Error::ParsingError(_))));
}

#[test]
fn else_without_if_is_a_parsing_error() {
    let siblings = vec![tag("c", Some(("render-else", "")))];
    assert!(matches!(materialize(&siblings), Err(Error::ParsingError(_))));
    let siblings = vec![
        tag("a", Some(("render-if", "true"))),
        tag("b", Some(("render-else", ""))),
        tag("c", Some(("render-else", ""))),
    ];
    assert!(matches!(materialize(&siblings), Err(Error::ParsingError(_))));
}

#[test]
fn empty_list_gives_empty_list() {
    let siblings: Vec<VirtualNode> = Vec::new();
    assert_eq!(materialize(&siblings).unwrap().len(), 0);
}

#[test]
fn one_sibling_at_a_time() {
    let node = tag("a", Some(("render-if", "true")));
    assert_eq!(
        should_node_render(&node, ConditionalState::NotReached).unwrap(),
        (true, ConditionalState::MatchedTrue)
    );
    let node = tag("a", Some(("render-if", "TRUE")));
    assert_eq!(
        should_node_render(&node, ConditionalState::MatchedTrue).unwrap(),
        (false, ConditionalState::MatchedFalse)
    );
    let node = tag("a", Some(("render-else-if", "true")));
    assert_eq!(
        should_node_render(&node, ConditionalState::MatchedTrue).unwrap(),
        (false, ConditionalState::MatchedTrue)
    );
    assert_eq!(
        should_node_render(&node, ConditionalState::MatchedFalse).unwrap(),
        (true, ConditionalState::MatchedTrue)
    );
    let node = tag("a", Some(("render-else", "")));
    assert_eq!(
        should_node_render(&node, ConditionalState::MatchedFalse).unwrap(),
        (true, ConditionalState::NotReached)
    );
    assert_eq!(
        should_node_render(&node, ConditionalState::MatchedTrue).unwrap(),
        (false, ConditionalState::NotReached)
    );
    let node = tag("a", None);
    assert_eq!(
        should_node_render(&node, ConditionalState::MatchedFalse).unwrap(),
        (true, ConditionalState::MatchedFalse)
    );
}

#[test]
fn misplaced_siblings_have_their_messages() {
    let siblings = vec![tag("b", Some(("render-else-if", "true"))), tag("c", Some(("render-else", "")))];
    assert_eq!(
        materialize(&siblings).unwrap_err().to_string(),
        "Parsing error: Didn't expect a `render-else-if` attribute."
    );
    let siblings = vec![tag("c", Some(("render-else", ""))), tag("b", Some(("render-else-if", "")))];
    assert_eq!(
        materialize(&siblings).unwrap_err().to_string(),
        "Parsing error: Didn't expect a `render-else` attribute."
    );
}

#[test]
fn render_if_goes_before_the_other_two() {
    let mut node = tag("a", Some(("render-else", "")));
    node.set_attribute(String::from("render-if"), String::from("true"));
    assert_eq!(
        should_node_render(&node, ConditionalState::NotReached).unwrap(),
        (true, ConditionalState::MatchedTrue)
    );
    let mut node = tag("a", Some(("render-else", "")));
    node.set_attribute(String::from("render-else-if"), String::from("true"));
    assert_eq!(
        should_node_render(&node, ConditionalState::MatchedTrue).unwrap(),
        (false, ConditionalState::MatchedTrue)
    );
}
