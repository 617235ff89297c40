//! The tree builder and nesting: read in order, the tokens that spell a tree
//! build that tree again.

use vstd::prelude::*;
use crate::node::{leaf, KindView, NodeView};
use crate::parser::{apply, attach, complete, run, Applied, Outcome, ParserView};
use crate::tokenizer::{key_end, step, Lexed, TokenizerState};

verus! {

/// What a list of tokens does to the tree builder: each is applied in turn,
/// until one ends the run.
pub open spec fn apply_all(
    stack: Seq<NodeView>,
    root: Option<NodeView>,
    tokens: Seq<Lexed>,
    imports: Map<Seq<char>, Seq<char>>,
) -> Applied
    decreases tokens.len(),
{
    if tokens.len() == 0 {
        Applied::Continue(stack, root)
    } else {
        match apply(stack, root, tokens[0], imports) {
            Applied::Continue(s, r) => apply_all(s, r, tokens.drop_first(), imports),
            stop => stop,
        }
    }
}

/// Markup, as what it spells: text, or an element with its name, its
/// attribute tokens in order (`key=value`), and either `/>` or children and
/// a closing tag.
pub enum Shape {
    Text(Seq<char>),
    Element { name: Seq<char>, attributes: Seq<Seq<char>>, children: Seq<Shape>, self_closing: bool },
}

/// Whether a shape is well formed: every attribute token holds a `=`, a
/// self-closing element has no children, and the children are well formed.
pub open spec fn well_formed(shape: Shape) -> bool
    decreases shape,
{
    match shape {
        Shape::Text(_) => true,
        Shape::Element { name, attributes, children, self_closing } => {
            &&& forall|k: int|
                0 <= k < attributes.len() ==> key_end(#[trigger] attributes[k], 0)
                    < attributes[k].len()
            &&& self_closing ==> children.len() == 0
            &&& forall|i: int| 0 <= i < children.len() ==> well_formed(#[trigger] children[i])
        },
    }
}

/// The attributes that the first `n` of `tokens` spell; a later token
/// replaces an earlier one of the same key.
pub open spec fn attributes_of(tokens: Seq<Seq<char>>, n: nat) -> Map<Seq<char>, Seq<char>>
    decreases n,
{
    if n == 0 || n > tokens.len() {
        Map::empty()
    } else {
        let token = tokens[n - 1];
        let p = key_end(token, 0);
        attributes_of(tokens, (n - 1) as nat).insert(
            token.subrange(0, p),
            token.subrange(p + 1, token.len() as int),
        )
    }
}

/// The trees of the first `n` children of an element.
pub open spec fn trees_upto(shape: Shape, n: nat) -> Seq<NodeView>
    decreases shape, n,
{
    match shape {
        Shape::Element { name, attributes, children, self_closing } => if n == 0 || n
            > children.len() {
            Seq::empty()
        } else {
            trees_upto(shape, (n - 1) as nat).push(tree_of(children[n - 1]))
        },
        Shape::Text(_) => Seq::empty(),
    }
}

/// The tree that a shape spells: nesting, kinds, names, text and raw
/// attribute values as the markup has them.
pub open spec fn tree_of(shape: Shape) -> NodeView
    decreases shape, children_of(shape).len() + 1,
{
    match shape {
        Shape::Text(t) => leaf(KindView::Text(t)),
        Shape::Element { name, attributes, children, self_closing } => NodeView {
            kind: KindView::Tag(name),
            attributes: attributes_of(attributes, attributes.len()),
            children: trees_upto(shape, children.len()),
        },
    }
}

/// The children of a shape; text has none.
pub open spec fn children_of(shape: Shape) -> Seq<Shape> {
    match shape {
        Shape::Text(_) => Seq::empty(),
        Shape::Element { name, attributes, children, self_closing } => children,
    }
}

/// The tokens of `<name`.
pub open spec fn open_tokens(name: Seq<char>) -> Seq<Lexed> {
    seq![
        Lexed::Token(TokenizerState::OpenAngleBracket, seq!['<']),
        Lexed::Token(TokenizerState::TagNameOpen, name),
    ]
}

/// The tokens of `>`, with which a header ends.
pub open spec fn header_end() -> Seq<Lexed> {
    seq![Lexed::Token(TokenizerState::CloseAngleBracket, seq!['>'])]
}

/// The tokens of `/>`.
pub open spec fn self_close() -> Seq<Lexed> {
    seq![Lexed::Token(TokenizerState::SelfClosingAngleBracket, seq!['/', '>'])]
}

/// The tokens of `</name>`.
pub open spec fn close_tokens(name: Seq<char>) -> Seq<Lexed> {
    seq![
        Lexed::Token(TokenizerState::ClosingAngleBracket, seq!['<', '/']),
        Lexed::Token(TokenizerState::TagNameClose, name),
        Lexed::Token(TokenizerState::CloseAngleBracket, seq!['>']),
    ]
}

/// The first `n` attribute tokens, as the lexer yields them.
pub open spec fn attribute_tokens(tokens: Seq<Seq<char>>, n: nat) -> Seq<Lexed>
    decreases n,
{
    if n == 0 || n > tokens.len() {
        Seq::empty()
    } else {
        attribute_tokens(tokens, (n - 1) as nat).push(
            Lexed::Token(TokenizerState::Props, tokens[n - 1]),
        )
    }
}

/// The tokens that spell the first `n` children of an element.
pub open spec fn tokens_upto(shape: Shape, n: nat) -> Seq<Lexed>
    decreases shape, n,
{
    match shape {
        Shape::Element { name, attributes, children, self_closing } => if n == 0 || n
            > children.len() {
            Seq::empty()
        } else {
            tokens_upto(shape, (n - 1) as nat) + tokens_of(children[n - 1])
        },
        Shape::Text(_) => Seq::empty(),
    }
}

/// The tokens that spell a shape: text is one token; an element is its
/// header with its attributes, and then `/>`, or `>`, the tokens of its
/// children in order, and its closing tag.
pub open spec fn tokens_of(shape: Shape) -> Seq<Lexed>
    decreases shape, children_of(shape).len() + 1,
{
    match shape {
        Shape::Text(t) => seq![Lexed::Token(TokenizerState::Text, t)],
        Shape::Element { name, attributes, children, self_closing } => {
            let header = open_tokens(name) + attribute_tokens(attributes, attributes.len());
            if self_closing {
                header + self_close()
            } else {
                header + header_end() + tokens_upto(shape, children.len()) + close_tokens(name)
            }
        },
    }
}

/// An element's node while it is open: the first `k` attributes are read,
/// and the first `n` children are complete.
pub open spec fn partial(shape: Shape, k: nat, n: nat) -> NodeView {
    match shape {
        Shape::Text(t) => leaf(KindView::Text(t)),
        Shape::Element { name, attributes, children, self_closing } => NodeView {
            kind: KindView::Tag(name),
            attributes: attributes_of(attributes, k),
            children: trees_upto(shape, n),
        },
    }
}

/// Applying two lists of tokens one after the other is applying their
/// concatenation.
pub proof fn lemma_apply_all_concat(
    stack: Seq<NodeView>,
    root: Option<NodeView>,
    a: Seq<Lexed>,
    b: Seq<Lexed>,
    imports: Map<Seq<char>, Seq<char>>,
)
    ensures
        apply_all(stack, root, a + b, imports) == match apply_all(stack, root, a, imports) {
            Applied::Continue(s, r) => apply_all(s, r, b, imports),
            stop => stop,
        },
    decreases a.len(),
{
    if a.len() == 0 {
        assert(a + b =~= b);
    } else {
        assert((a + b)[0] == a[0]);
        assert((a + b).drop_first() =~= a.drop_first() + b);
        match apply(stack, root, a[0], imports) {
            Applied::Continue(s, r) => {
                lemma_apply_all_concat(s, r, a.drop_first(), b, imports);
            },
            _ => {},
        }
    }
}

/// One token that goes on does what `apply` says.
proof fn lemma_apply_one(
    stack: Seq<NodeView>,
    root: Option<NodeView>,
    token: Lexed,
    imports: Map<Seq<char>, Seq<char>>,
)
    ensures
        apply_all(stack, root, seq![token], imports) == apply(stack, root, token, imports),
{
    let t = seq![token];
    assert(t.drop_first().len() == 0);
    match apply(stack, root, token, imports) {
        Applied::Continue(s, r) => {
            assert(apply_all(s, r, t.drop_first(), imports) == Applied::Continue(s, r));
        },
        _ => {},
    }
}

/// The start of a header opens a node of its name, with nothing in it yet.
proof fn lemma_open(stack: Seq<NodeView>, name: Seq<char>, imports: Map<Seq<char>, Seq<char>>)
    ensures
        apply_all(stack, None, open_tokens(name), imports) == Applied::Continue(
            stack.push(leaf(KindView::Tag(name))),
            None,
        ),
{
    let t = open_tokens(name);
    let t1 = t.drop_first();
    let t2 = t1.drop_first();
    assert(t2.len() == 0);
    let pushed = stack.push(leaf(KindView::Tag(name)));
    assert(apply_all(pushed, None, t2, imports) == Applied::Continue(pushed, None));
    assert(apply_all(stack, None, t1, imports) == Applied::Continue(pushed, None));
}

/// A closing tag completes the innermost open node.
proof fn lemma_close(
    stack: Seq<NodeView>,
    node: NodeView,
    name: Seq<char>,
    imports: Map<Seq<char>, Seq<char>>,
)
    ensures
        apply_all(stack.push(node), None, close_tokens(name), imports) == complete(
            stack,
            None,
            node,
        ),
{
    let t = close_tokens(name);
    let t1 = t.drop_first();
    let t2 = t1.drop_first();
    let t3 = t2.drop_first();
    assert(t3.len() == 0);
    let open = stack.push(node);
    assert(open.drop_last() =~= stack);
    assert(open.last() == node);
    match complete(stack, None, node) {
        Applied::Continue(s, r) => {
            assert(apply_all(s, r, t3, imports) == Applied::Continue(s, r));
            assert(apply_all(s, r, t2, imports) == Applied::Continue(s, r));
            assert(apply_all(open, None, t1, imports) == Applied::Continue(s, r));
        },
        _ => {},
    }
}

/// The first `k` attribute tokens of a header store the attributes that
/// they spell in the open node.
proof fn lemma_builds_attributes(
    stack: Seq<NodeView>,
    shape: Shape,
    k: nat,
    imports: Map<Seq<char>, Seq<char>>,
)
    requires
        shape is Element,
        well_formed(shape),
        k <= shape->attributes.len(),
    ensures
        apply_all(
            stack.push(partial(shape, 0, 0)),
            None,
            attribute_tokens(shape->attributes, k),
            imports,
        ) == Applied::Continue(stack.push(partial(shape, k, 0)), None),
    decreases k,
{
    if k > 0 {
        let tokens = shape->attributes;
        let token = tokens[k - 1];
        let before = stack.push(partial(shape, (k - 1) as nat, 0));
        lemma_builds_attributes(stack, shape, (k - 1) as nat, imports);
        lemma_apply_one(before, None, Lexed::Token(TokenizerState::Props, token), imports);
        lemma_apply_all_concat(
            stack.push(partial(shape, 0, 0)),
            None,
            attribute_tokens(tokens, (k - 1) as nat),
            seq![Lexed::Token(TokenizerState::Props, token)],
            imports,
        );
        assert(attribute_tokens(tokens, k) =~= attribute_tokens(tokens, (k - 1) as nat) + seq![
            Lexed::Token(TokenizerState::Props, token),
        ]);
        assert(before.drop_last() =~= stack);
        assert(crate::parser::with_attribute(before, token) == stack.push(partial(shape, k, 0)));
    }
}

/// The tokens of the first `n` children of an open element fill it with
/// the trees of those children.
pub proof fn lemma_builds_children(
    stack: Seq<NodeView>,
    shape: Shape,
    n: nat,
    imports: Map<Seq<char>, Seq<char>>,
)
    requires
        shape is Element,
        well_formed(shape),
        n <= shape->children.len(),
    ensures
        apply_all(
            stack.push(partial(shape, shape->attributes.len(), 0)),
            None,
            tokens_upto(shape, n),
            imports,
        ) == Applied::Continue(stack.push(partial(shape, shape->attributes.len(), n)), None),
    decreases shape, n,
{
    let k = shape->attributes.len();
    if n > 0 {
        let child = shape->children[n - 1];
        let before = stack.push(partial(shape, k, (n - 1) as nat));
        lemma_builds_children(stack, shape, (n - 1) as nat, imports);
        lemma_builds(before, child, imports);
        lemma_apply_all_concat(
            stack.push(partial(shape, k, 0)),
            None,
            tokens_upto(shape, (n - 1) as nat),
            tokens_of(child),
            imports,
        );
        assert(before.drop_last() =~= stack);
        assert(attach(before, tree_of(child)) == stack.push(partial(shape, k, n)));
    }
}

/// The tokens of a well-formed shape complete its tree: it becomes the last
/// child of the innermost open node, or the root where none is open.
pub proof fn lemma_builds(stack: Seq<NodeView>, shape: Shape, imports: Map<Seq<char>, Seq<char>>)
    requires
        well_formed(shape),
    ensures
        apply_all(stack, None, tokens_of(shape), imports) == complete(
            stack,
            None,
            tree_of(shape),
        ),
    decreases shape, children_of(shape).len() + 1,
{
    match shape {
        Shape::Text(t) => {
            lemma_apply_one(stack, None, Lexed::Token(TokenizerState::Text, t), imports);
        },
        Shape::Element { name, attributes, children, self_closing } => {
            let k = attributes.len();
            let n = children.len();
            let header = open_tokens(name) + attribute_tokens(attributes, k);
            let opened = stack.push(partial(shape, k, 0));
            assert(partial(shape, 0, 0) == leaf(KindView::Tag(name)));
            assert(partial(shape, k, n) == tree_of(shape));
            lemma_open(stack, name, imports);
            lemma_builds_attributes(stack, shape, k, imports);
            lemma_apply_all_concat(
                stack,
                None,
                open_tokens(name),
                attribute_tokens(attributes, k),
                imports,
            );
            assert(apply_all(stack, None, header, imports) == Applied::Continue(opened, None));
            assert(opened.drop_last() =~= stack);
            if self_closing {
                lemma_apply_one(
                    opened,
                    None,
                    Lexed::Token(TokenizerState::SelfClosingAngleBracket, seq!['/', '>']),
                    imports,
                );
                lemma_apply_all_concat(stack, None, header, self_close(), imports);
            } else {
                lemma_apply_one(
                    opened,
                    None,
                    Lexed::Token(TokenizerState::CloseAngleBracket, seq!['>']),
                    imports,
                );
                lemma_apply_all_concat(stack, None, header, header_end(), imports);
                lemma_builds_children(stack, shape, n, imports);
                lemma_apply_all_concat(
                    stack,
                    None,
                    header + header_end(),
                    tokens_upto(shape, n),
                    imports,
                );
                lemma_close(stack, tree_of(shape), name, imports);
                lemma_apply_all_concat(
                    stack,
                    None,
                    header + header_end() + tokens_upto(shape, n),
                    close_tokens(name),
                    imports,
                );
            }
        },
    }
}

/// Nesting is mirrored: the tokens that spell a well-formed shape, followed
/// by the end of the markup, build exactly the tree of that shape as the
/// one root, with every child in its place at every depth.
pub proof fn lemma_tokens_build_their_tree(shape: Shape, imports: Map<Seq<char>, Seq<char>>)
    requires
        well_formed(shape),
    ensures
        apply_all(
            Seq::empty(),
            None,
            tokens_of(shape) + seq![Lexed::Token(TokenizerState::Finalized, Seq::empty())],
            imports,
        ) == Applied::Stop(Outcome::Done(tree_of(shape))),
{
    let end = seq![Lexed::Token(TokenizerState::Finalized, Seq::<char>::empty())];
    lemma_builds(Seq::empty(), shape, imports);
    lemma_apply_all_concat(Seq::empty(), None, tokens_of(shape), end, imports);
    assert(end.drop_first().len() == 0);
}

/// Whether the lexer, started on `s` in state `state` with the cursor at
/// `i`, reads exactly the tokens `tokens`, one after the other.
pub open spec fn lexes(s: Seq<char>, state: TokenizerState, i: int, tokens: Seq<Lexed>) -> bool
    decreases tokens.len(),
{
    tokens.len() == 0 || {
        let st = step(s, state, i);
        st.lexed == tokens[0] && lexes(s, st.state, st.index, tokens.drop_first())
    }
}

/// A run follows the tokens that the lexer reads: where they end the run,
/// the run ends as they say.
pub proof fn lemma_run_follows_tokens(
    v: ParserView,
    tokens: Seq<Lexed>,
    imports: Map<Seq<char>, Seq<char>>,
)
    requires
        0 <= v.index,
        lexes(v.markup, v.state, v.index, tokens),
        apply_all(v.stack, v.root, tokens, imports) is Stop,
    ensures
        Applied::Stop(run(v, imports).1) == apply_all(v.stack, v.root, tokens, imports),
    decreases tokens.len(),
{
    let st = step(v.markup, v.state, v.index);
    let moved = ParserView { state: st.state, index: st.index, ..v };
    crate::tokenizer::lemma_step_progress(v.markup, v.state, v.index);
    match apply(v.stack, v.root, st.lexed, imports) {
        Applied::Continue(stack, root) => {
            lemma_run_follows_tokens(
                ParserView { stack, root, ..moved },
                tokens.drop_first(),
                imports,
            );
        },
        Applied::Stop(outcome) => {},
    }
}

/// Markup that spells a well-formed shape parses to the tree of that
/// shape: where the lexer reads from the markup the tokens of the shape and
/// then its end, the run from the start of the markup yields exactly that
/// tree as the one root.
pub proof fn lemma_markup_of_a_shape_parses(
    markup: Seq<char>,
    shape: Shape,
    imports: Map<Seq<char>, Seq<char>>,
)
    requires
        well_formed(shape),
        lexes(
            markup,
            TokenizerState::Uninitialized,
            0,
            tokens_of(shape) + seq![Lexed::Token(TokenizerState::Finalized, Seq::empty())],
        ),
    ensures
        run(crate::parser::Parser::new_view(markup), imports).1 == Outcome::Done(tree_of(shape)),
{
    let tokens = tokens_of(shape) + seq![Lexed::Token(TokenizerState::Finalized, Seq::empty())];
    lemma_tokens_build_their_tree(shape, imports);
    lemma_run_follows_tokens(crate::parser::Parser::new_view(markup), tokens, imports);
}

/// A run that ends with a root has read the markup to its end, with no node
/// left open and that root the only one completed.
pub proof fn lemma_done_is_one_root(v: ParserView, imports: Map<Seq<char>, Seq<char>>)
    ensures
        run(v, imports).1 is Done ==> {
            &&& run(v, imports).0.state == TokenizerState::Finalized
            &&& run(v, imports).0.stack.len() == 0
            &&& run(v, imports).0.root == Some(run(v, imports).1->Done_0)
        },
    decreases v.markup.len() - v.index,
{
    let st = step(v.markup, v.state, v.index);
    let moved = ParserView { state: st.state, index: st.index, ..v };
    match apply(v.stack, v.root, st.lexed, imports) {
        Applied::Continue(stack, root) => {
            if v.index < st.index <= v.markup.len() {
                lemma_done_is_one_root(ParserView { stack, root, ..moved }, imports);
            }
        },
        Applied::Stop(outcome) => {},
    }
}

/// Text is a leaf everywhere in the tree: a text node has no children and
/// no attributes.
pub open spec fn text_is_leaf(node: NodeView) -> bool
    decreases node,
{
    &&& node.kind is Text ==> node.children.len() == 0 && node.attributes == Map::<
        Seq<char>,
        Seq<char>,
    >::empty()
    &&& forall|i: int| 0 <= i < node.children.len() ==> text_is_leaf(#[trigger] node.children[i])
}

/// No open node is text, and text is a leaf in everything built so far.
pub open spec fn well_shaped(stack: Seq<NodeView>, root: Option<NodeView>) -> bool {
    &&& open_nodes_shaped(stack)
    &&& root is Some ==> text_is_leaf(root->0)
}

/// Whether every open node is well shaped and none is text.
pub open spec fn open_nodes_shaped(stack: Seq<NodeView>) -> bool {
    forall|i: int|
        0 <= i < stack.len() ==> text_is_leaf(#[trigger] stack[i]) && !(stack[i].kind is Text)
}

/// A well-shaped node stays so as the last child of the innermost open
/// node.
proof fn lemma_attach_keeps_shape(stack: Seq<NodeView>, node: NodeView)
    requires
        stack.len() > 0,
        open_nodes_shaped(stack),
        text_is_leaf(node),
    ensures
        open_nodes_shaped(attach(stack, node)),
{
    let top = stack.last();
    let grown = NodeView { children: top.children.push(node), ..top };
    assert(text_is_leaf(top) && !(top.kind is Text));
    assert forall|k: int| 0 <= k < grown.children.len() implies text_is_leaf(
        #[trigger] grown.children[k],
    ) by {
        if k < top.children.len() {
            assert(grown.children[k] == top.children[k]);
        }
    }
    assert(text_is_leaf(grown));
    let after = attach(stack, node);
    assert forall|i: int| 0 <= i < after.len() implies text_is_leaf(#[trigger] after[i]) && !(
    after[i].kind is Text) by {
        if i < stack.len() - 1 {
            assert(after[i] == stack[i]);
        } else {
            assert(after[i] == grown);
        }
    }
}

/// One token keeps what is built well shaped.
pub proof fn lemma_apply_keeps_shape(
    stack: Seq<NodeView>,
    root: Option<NodeView>,
    lexed: Lexed,
    imports: Map<Seq<char>, Seq<char>>,
)
    requires
        well_shaped(stack, root),
    ensures
        match apply(stack, root, lexed, imports) {
            Applied::Continue(s, r) => well_shaped(s, r),
            Applied::Stop(Outcome::Done(node)) => text_is_leaf(node),
            _ => true,
        },
{
    assert(open_nodes_shaped(stack));
    match lexed {
        Lexed::Token(kind, token) => {
            if kind != TokenizerState::Finalized && root is None {
                match kind {
                    TokenizerState::TagNameOpen => {
                        let node = leaf(KindView::Tag(token));
                        assert(text_is_leaf(node));
                        let after = stack.push(node);
                        assert forall|i: int| 0 <= i < after.len() implies text_is_leaf(
                            #[trigger] after[i],
                        ) && !(after[i].kind is Text) by {
                            if i < stack.len() {
                                assert(after[i] == stack[i]);
                            }
                        }
                    },
                    TokenizerState::Props => {
                        if stack.len() > 0 {
                            let top = stack.last();
                            assert(text_is_leaf(top) && !(top.kind is Text));
                            let after = crate::parser::with_attribute(stack, token);
                            let changed = after.last();
                            assert(changed.children == top.children);
                            assert(text_is_leaf(changed));
                            assert forall|i: int| 0 <= i < after.len() implies text_is_leaf(
                                #[trigger] after[i],
                            ) && !(after[i].kind is Text) by {
                                if i < stack.len() - 1 {
                                    assert(after[i] == stack[i]);
                                }
                            }
                        }
                    },
                    TokenizerState::TagNameClose | TokenizerState::SelfClosingAngleBracket => {
                        if stack.len() > 0 {
                            let top = stack.last();
                            let below = stack.drop_last();
                            assert(text_is_leaf(top));
                            assert forall|i: int| 0 <= i < below.len() implies text_is_leaf(
                                #[trigger] below[i],
                            ) && !(below[i].kind is Text) by {
                                assert(below[i] == stack[i]);
                            }
                            if below.len() > 0 {
                                lemma_attach_keeps_shape(below, top);
                            }
                        }
                    },
                    TokenizerState::Text => {
                        let node = leaf(KindView::Text(token));
                        assert(text_is_leaf(node));
                        if stack.len() > 0 {
                            lemma_attach_keeps_shape(stack, node);
                        }
                    },
                    _ => {},
                }
            }
        },
        _ => {},
    }
}

/// In every tree that the builder yields, text is a leaf; and where a run
/// stops for a component, what is built so far is well shaped still.
pub proof fn lemma_run_keeps_shape(v: ParserView, imports: Map<Seq<char>, Seq<char>>)
    requires
        well_shaped(v.stack, v.root),
    ensures
        match run(v, imports).1 {
            Outcome::Done(node) => text_is_leaf(node),
            Outcome::Resolve(_, _) => well_shaped(run(v, imports).0.stack, run(v, imports).0.root),
            _ => true,
        },
    decreases v.markup.len() - v.index,
{
    let st = step(v.markup, v.state, v.index);
    let moved = ParserView { state: st.state, index: st.index, ..v };
    lemma_apply_keeps_shape(v.stack, v.root, st.lexed, imports);
    match apply(v.stack, v.root, st.lexed, imports) {
        Applied::Continue(stack, root) => {
            if v.index < st.index <= v.markup.len() {
                lemma_run_keeps_shape(ParserView { stack, root, ..moved }, imports);
            }
        },
        Applied::Stop(outcome) => {},
    }
}

} // verus!
