//! The tree builder: it drives the lexer, keeps a stack of the nodes that
//! are still open, and yields the one root of the markup. Where a component
//! has to be resolved it hands the import path out and waits for the
//! component to be supplied.

use vstd::prelude::*;
use vstd::string::*;
use crate::error::{parsing_error, Error};
use crate::node::{leaf, Component, KindView, NodeType, NodeView, VirtualNode};
use crate::string_map::StringMap;
use crate::text::{chars_of, string_of};
use crate::tokenizer::{
    key_end, misuse_text, step, tells, tokenizer, CurrentState, Lexed, Reason, Tokenizer,
    TokenizerState,
};

verus! {

/// Why a parse failed.
pub enum Failure {
    /// The markup is malformed; the lexer tells why.
    Malformed(Reason),
    /// The markup does not reduce to exactly one root.
    Root,
    /// An attribute belongs to no tag.
    Attribute,
    /// A closing tag or a `/>` closes no open node.
    Closing,
    /// The component of this name is not in the import table.
    Reference(Seq<char>),
    /// The lexer was driven from a state that reads no name.
    Type,
}

/// How a run of the tree builder ends.
pub enum Outcome {
    /// The markup is read to its end and this is its one root.
    Done(NodeView),
    /// The component of this name has to be resolved from this path.
    Resolve(Seq<char>, Seq<char>),
    /// The parse failed.
    Failed(Failure),
}

/// What one token does to the tree builder.
pub enum Applied {
    /// The stack of open nodes and the completed root after the token.
    Continue(Seq<NodeView>, Option<NodeView>),
    /// The run ends.
    Stop(Outcome),
}

/// `stack` with `node` made the last child of its top.
pub open spec fn attach(stack: Seq<NodeView>, node: NodeView) -> Seq<NodeView>
    recommends
        stack.len() > 0,
{
    let top = stack.last();
    stack.drop_last().push(NodeView { children: top.children.push(node), ..top })
}

/// A completed `node` becomes the root where no node is open, and the last
/// child of the innermost open node otherwise.
pub open spec fn complete(stack: Seq<NodeView>, root: Option<NodeView>, node: NodeView) -> Applied {
    if stack.len() == 0 {
        Applied::Continue(stack, Some(node))
    } else {
        Applied::Continue(attach(stack, node), root)
    }
}

/// `stack` with the attribute that `token` spells (`key=value`) stored in
/// its top; the value stays raw.
pub open spec fn with_attribute(stack: Seq<NodeView>, token: Seq<char>) -> Seq<NodeView>
    recommends
        stack.len() > 0,
{
    let p = key_end(token, 0);
    let top = stack.last();
    stack.drop_last().push(
        NodeView {
            attributes: top.attributes.insert(
                token.subrange(0, p),
                token.subrange(p + 1, token.len() as int),
            ),
            ..top
        },
    )
}

/// What the token `lexed` does, given the open nodes, the completed root and
/// the import table.
///
/// The end of the markup yields the root if there is one and no node is
/// open, and fails otherwise. Once the root is complete only the `>` that
/// ends its closing tag may follow. An opening name pushes a tag; a
/// component name asks for the component at its import path, and fails
/// where the table has none; an attribute goes to the innermost open node; a
/// closing name or a `/>` completes that node, whatever its name; text is a
/// leaf.
pub open spec fn apply(
    stack: Seq<NodeView>,
    root: Option<NodeView>,
    lexed: Lexed,
    imports: Map<Seq<char>, Seq<char>>,
) -> Applied {
    match lexed {
        Lexed::Malformed(reason) => Applied::Stop(Outcome::Failed(Failure::Malformed(reason))),
        Lexed::Misuse => Applied::Stop(Outcome::Failed(Failure::Type)),
        Lexed::Token(kind, token) => if kind == TokenizerState::Finalized {
            if stack.len() == 0 && root is Some {
                Applied::Stop(Outcome::Done(root->0))
            } else {
                Applied::Stop(Outcome::Failed(Failure::Root))
            }
        } else if root is Some {
            if kind == TokenizerState::CloseAngleBracket {
                Applied::Continue(stack, root)
            } else {
                Applied::Stop(Outcome::Failed(Failure::Root))
            }
        } else {
            match kind {
                TokenizerState::TagNameOpen => Applied::Continue(
                    stack.push(leaf(KindView::Tag(token))),
                    root,
                ),
                TokenizerState::Component => if imports.contains_key(token) {
                    Applied::Stop(Outcome::Resolve(token, imports[token]))
                } else {
                    Applied::Stop(Outcome::Failed(Failure::Reference(token)))
                },
                TokenizerState::Props => if stack.len() == 0 || key_end(token, 0) >= token.len() {
                    Applied::Stop(Outcome::Failed(Failure::Attribute))
                } else {
                    Applied::Continue(with_attribute(stack, token), root)
                },
                TokenizerState::TagNameClose | TokenizerState::SelfClosingAngleBracket => if stack.len()
                    == 0 {
                    Applied::Stop(Outcome::Failed(Failure::Closing))
                } else {
                    complete(stack.drop_last(), root, stack.last())
                },
                TokenizerState::Text => complete(stack, root, leaf(KindView::Text(token))),
                _ => Applied::Continue(stack, root),
            }
        },
    }
}

/// The model of a tree builder: the lexer's markup, state and cursor, the
/// open nodes from the outermost to the innermost, and the completed root.
pub struct ParserView {
    pub markup: Seq<char>,
    pub state: TokenizerState,
    pub index: int,
    pub stack: Seq<NodeView>,
    pub root: Option<NodeView>,
}

/// A run of the tree builder from `v`: it reads tokens and applies them
/// until one ends the run. The result is the builder as the run leaves it
/// (the lexer past the last token read, the stack and the root as they were
/// before that token) and how the run ended.
pub open spec fn run(v: ParserView, imports: Map<Seq<char>, Seq<char>>) -> (ParserView, Outcome)
    decreases v.markup.len() - v.index,
{
    let st = step(v.markup, v.state, v.index);
    let moved = ParserView { state: st.state, index: st.index, ..v };
    match apply(v.stack, v.root, st.lexed, imports) {
        Applied::Continue(stack, root) => if v.index < st.index <= v.markup.len() {
            run(ParserView { stack, root, ..moved }, imports)
        } else {
            (moved, Outcome::Failed(Failure::Root))
        },
        Applied::Stop(outcome) => (moved, outcome),
    }
}

/// The models of the nodes of `stack`.
pub open spec fn stack_view(stack: Seq<VirtualNode>) -> Seq<NodeView> {
    Seq::new(stack.len(), |i: int| stack[i]@)
}

/// Whether `e` is the error that stands for `f`, with its message. All are
/// `ParsingError`s but the `ReferenceError`, which names the component, and
/// the `TypeError`.
pub open spec fn is_failure(e: Error, f: Failure) -> bool {
    match f {
        Failure::Malformed(reason) => tells(e, reason),
        Failure::Root => e is ParsingError && e.message()
            == "Presenter of each component must be wrapped inside one and only one wrapper."@,
        Failure::Attribute => e is ParsingError && e.message()
            == "Found an attribute that belongs to no tag."@,
        Failure::Closing => e is ParsingError && e.message()
            == "Found a closing tag that closes no open tag."@,
        Failure::Reference(name) => e is ReferenceError && e.message()
            == "An import statement for `"@ + name + "` was supposed to exist, but it didn't."@,
        Failure::Type => e is TypeError && e.message() == misuse_text(),
    }
}

/// What a run of the tree builder hands back when it does not fail.
pub enum ParserStep {
    /// The component `name` has to be resolved from `path` and supplied
    /// before the run goes on.
    Resolve { name: String, path: String },
    /// The root of the markup.
    Finished(VirtualNode),
}

/// A tree builder over one markup.
pub struct Parser {
    pub tokens: Tokenizer,
    pub stack: Vec<VirtualNode>,
    pub root: Option<VirtualNode>,
}

/// The position of the first `=` in `chars`, or their number where there is
/// none.
fn find_separator(chars: &Vec<char>) -> (res: usize)
    ensures
        res == key_end(chars@, 0),
        res <= chars.len(),
{
    let mut i: usize = 0;
    while i < chars.len() && chars[i] != '='
        invariant
            i <= chars.len(),
            key_end(chars@, 0) == key_end(chars@, i as int),
        decreases chars.len() - i,
    {
        i += 1;
    }
    i
}

impl Parser {
    /// The model of this tree builder.
    pub open spec fn view(&self) -> ParserView {
        ParserView {
            markup: self.tokens.markup@,
            state: self.tokens.state,
            index: self.tokens.index as int,
            stack: stack_view(self.stack@),
            root: match self.root {
                Some(node) => Some(node@),
                None => None,
            },
        }
    }

    /// The model of a tree builder at the start of `markup`.
    pub open spec fn new_view(markup: Seq<char>) -> ParserView {
        ParserView {
            markup,
            state: TokenizerState::Uninitialized,
            index: 0,
            stack: Seq::empty(),
            root: None,
        }
    }

    /// Every node held is well formed.
    pub open spec fn wf(&self) -> bool {
        &&& forall|i: int| 0 <= i < self.stack@.len() ==> (#[trigger] self.stack@[i]).wf()
        &&& self.root is Some ==> self.root->0.wf()
    }

    /// A tree builder at the start of `markup`, with no node open and no
    /// root.
    pub fn new(markup: String) -> (res: Parser)
        ensures
            res.wf(),
            res@ == Self::new_view(markup@),
    {
        let res = Parser { tokens: tokenizer(markup), stack: Vec::new(), root: None };
        assert(res@.stack =~= Seq::<NodeView>::empty());
        res
    }

    /// Pushes the node of a resolved component. It is open until its `/>`.
    pub fn supply(&mut self, component: Component)
        requires
            old(self).wf(),
        ensures
            final(self).wf(),
            final(self)@ == (ParserView {
                stack: old(self)@.stack.push(leaf(KindView::Component(component))),
                ..old(self)@
            }),
    {
        let node = VirtualNode::new(NodeType::Component(component));
        self.stack.push(node);
        assert(self@.stack =~= old(self)@.stack.push(leaf(KindView::Component(component))));
    }

    /// Hands a completed node to the innermost open node, or makes it the
    /// root where none is open.
    fn complete(&mut self, node: VirtualNode)
        requires
            old(self).wf(),
            node.wf(),
            old(self).root is None,
        ensures
            final(self).wf(),
            final(self).tokens == old(self).tokens,
            Applied::Continue(final(self)@.stack, final(self)@.root) == complete(
                old(self)@.stack,
                old(self)@.root,
                node@,
            ),
    {
        match self.stack.pop() {
            None => {
                self.root = Some(node);
                assert(self@.stack =~= old(self)@.stack);
            },
            Some(parent) => {
                let mut parent = parent;
                parent.append_child(node);
                self.stack.push(parent);
                assert(self@.stack =~= attach(old(self)@.stack, node@));
            },
        }
    }

    /// Stores the attribute that `token` spells in the innermost open node.
    /// Returns whether there was such a node and `token` held a `=`.
    fn set_attribute(&mut self, token: &String) -> (res: bool)
        requires
            old(self).wf(),
        ensures
            final(self).wf(),
            final(self).tokens == old(self).tokens,
            final(self).root == old(self).root,
            res == !(old(self)@.stack.len() == 0 || key_end(token@, 0) >= token@.len()),
            res ==> final(self)@.stack == with_attribute(old(self)@.stack, token@),
    {
        let chars = chars_of(token.as_str());
        let p = find_separator(&chars);
        if p >= chars.len() {
            return false;
        }
        match self.stack.pop() {
            None => false,
            Some(owner) => {
                let mut owner = owner;
                let key = string_of(&chars, 0, p);
                let value = string_of(&chars, p + 1, chars.len());
                owner.set_attribute(key, value);
                self.stack.push(owner);
                assert(self@.stack =~= with_attribute(old(self)@.stack, token@));
                true
            },
        }
    }

    /// Whether `res` reports `outcome`: the root, the component to resolve,
    /// or the error that stands for the failure.
    pub open spec fn reports(res: Result<ParserStep, Error>, outcome: Outcome) -> bool {
        match outcome {
            Outcome::Done(node) => res matches Ok(ParserStep::Finished(root)) && root@ == node
                && root.wf(),
            Outcome::Resolve(name, path) => res matches Ok(ParserStep::Resolve { name: n, path: p })
                && n@ == name && p@ == path,
            Outcome::Failed(f) => res is Err && is_failure(res->Err_0, f),
        }
    }

    /// Reads and applies tokens until the markup ends, a component has to be
    /// resolved, or the parse fails. After `Resolve` the builder stands
    /// where the run left it, and goes on once the component is supplied.
    pub fn advance(&mut self, imports: &StringMap) -> (res: Result<ParserStep, Error>)
        requires
            old(self).wf(),
            imports.wf(),
        ensures
            final(self).wf(),
            Self::reports(res, run(old(self)@, imports@).1),
            run(old(self)@, imports@).1 is Resolve ==> final(self)@ == run(old(self)@, imports@).0,
    {
        loop
            invariant
                self.wf(),
                imports.wf(),
                run(old(self)@, imports@) == run(self@, imports@),
            decreases self.tokens.markup.len() - self.tokens.index,
        {
            let ghost before = self@;
            let ghost st = step(before.markup, before.state, before.index);
            let CurrentState { state, token } = match self.tokens.next() {
                Ok(current) => current,
                Err(e) => {
                    return Err(e);
                },
            };
            assert(st.lexed == Lexed::Token(state, token@));
            if state == TokenizerState::Finalized {
                if self.stack.len() == 0 {
                    match self.root.take() {
                        Some(root) => {
                            return Ok(ParserStep::Finished(root));
                        },
                        None => {},
                    }
                }
                return Err(
                    parsing_error(
                        "Presenter of each component must be wrapped inside one and only one wrapper.",
                    ),
                );
            }
            if self.root.is_some() {
                if state != TokenizerState::CloseAngleBracket {
                    return Err(
                        parsing_error(
                            "Presenter of each component must be wrapped inside one and only one wrapper.",
                        ),
                    );
                }
            } else {
                match state {
                    TokenizerState::TagNameOpen => {
                        let node = VirtualNode::new(NodeType::Tag(token));
                        self.stack.push(node);
                        assert(self@.stack =~= before.stack.push(leaf(KindView::Tag(token@))));
                    },
                    TokenizerState::Component => {
                        match imports.get(token.as_str()) {
                            Some(path) => {
                                let path = path.clone();
                                return Ok(ParserStep::Resolve { name: token, path });
                            },
                            None => {
                                let mut msg = String::from_str("An import statement for `");
                                msg.append(token.as_str());
                                msg.append("` was supposed to exist, but it didn't.");
                                return Err(Error::ReferenceError(msg));
                            },
                        }
                    },
                    TokenizerState::Props => {
                        if !self.set_attribute(&token) {
                            return Err(
                                parsing_error("Found an attribute that belongs to no tag."),
                            );
                        }
                    },
                    TokenizerState::TagNameClose | TokenizerState::SelfClosingAngleBracket => {
                        match self.stack.pop() {
                            Some(completed_node) => {
                                assert(self@.stack =~= before.stack.drop_last());
                                self.complete(completed_node);
                            },
                            None => {
                                return Err(
                                    parsing_error("Found a closing tag that closes no open tag."),
                                );
                            },
                        }
                    },
                    TokenizerState::Text => {
                        let node = VirtualNode::new(NodeType::Text(token));
                        self.complete(node);
                    },
                    _ => {
                        assert(self@.stack =~= before.stack);
                    },
                }
            }
        }
    }
}

/// Builds the tree of markup that names no component: the import table is
/// empty, so a component name fails with a `ReferenceError`. The result is
/// the one root of the markup; markup with no root, with more than one, or
/// with an open tag left at its end fails with a `ParsingError`, as
/// malformed markup does.
pub fn parse(markup: String) -> (res: Result<VirtualNode, Error>)
    ensures
        match run(Parser::new_view(markup@), Map::empty()).1 {
            Outcome::Done(node) => res is Ok && res->Ok_0@ == node && res->Ok_0.wf(),
            Outcome::Resolve(_, _) => false,
            Outcome::Failed(f) => res is Err && is_failure(res->Err_0, f),
        },
{
    let imports = StringMap::new();
    let mut parser = Parser::new(markup);
    match parser.advance(&imports) {
        Ok(ParserStep::Finished(root)) => Ok(root),
        Ok(ParserStep::Resolve { name, path }) => {
            proof {
                lemma_resolve_needs_import(Parser::new_view(markup@), Map::empty());
            }
            Err(Error::ReferenceError(name))
        },
        Err(e) => Err(e),
    }
}

/// A run asks only for components that the import table holds, at the path
/// that it holds for them.
pub proof fn lemma_resolve_needs_import(v: ParserView, imports: Map<Seq<char>, Seq<char>>)
    ensures
        match run(v, imports).1 {
            Outcome::Resolve(name, path) => imports.contains_key(name) && imports[name] == path,
            _ => true,
        },
    decreases v.markup.len() - v.index,
{
    let st = step(v.markup, v.state, v.index);
    let moved = ParserView { state: st.state, index: st.index, ..v };
    match apply(v.stack, v.root, st.lexed, imports) {
        Applied::Continue(stack, root) => {
            if v.index < st.index <= v.markup.len() {
                lemma_resolve_needs_import(ParserView { stack, root, ..moved }, imports);
            }
        },
        Applied::Stop(outcome) => {},
    }
}

} // verus!
