//! The virtual node tree and its mathematical model.

use vstd::prelude::*;
use vstd::string::*;
use crate::string_map::StringMap;

verus! {

/// What a node is: a resolved component, a tag with its name, or text with
/// its content.
#[derive(Debug)]
pub enum NodeType {
    Component(Component),
    Tag(String),
    Text(String),
}

/// A component as the tree builder sees it: its state, presenter and props
/// as text, the tree built from its presenter, and a number by which the
/// host finds again what it keeps for the component (its effects).
#[derive(Debug)]
pub struct Component {
    state: String,
    presenter: String,
    props: String,
    vdom: Box<VirtualNode>,
    handle: u64,
}

/// A node of the tree: its kind, its attributes with their raw values, and
/// its children in order.
#[derive(Debug)]
pub struct VirtualNode {
    pub node_type: NodeType,
    pub attributes: StringMap,
    pub children: Vec<VirtualNode>,
}

/// The model of a node's kind.
pub enum KindView {
    Component(Component),
    Tag(Seq<char>),
    Text(Seq<char>),
}

/// The model of a node.
pub struct NodeView {
    pub kind: KindView,
    pub attributes: Map<Seq<char>, Seq<char>>,
    pub children: Seq<NodeView>,
}

/// A node of the given kind with no attributes and no children.
pub open spec fn leaf(kind: KindView) -> NodeView {
    NodeView { kind, attributes: Map::empty(), children: Seq::empty() }
}

impl NodeType {
    /// The model of this kind.
    pub open spec fn view(&self) -> KindView {
        match self {
            NodeType::Component(c) => KindView::Component(*c),
            NodeType::Tag(n) => KindView::Tag(n@),
            NodeType::Text(t) => KindView::Text(t@),
        }
    }
}

impl VirtualNode {
    /// The model of the tree below this node.
    pub open spec fn view(&self) -> NodeView
        decreases self,
    {
        NodeView {
            kind: self.node_type@,
            attributes: self.attributes@,
            children: Seq::new(
                self.children@.len(),
                |i: int|
                    if 0 <= i < self.children.len() {
                        self.children[i].view()
                    } else {
                        arbitrary()
                    },
            ),
        }
    }

    /// Every node of the tree holds well-formed attributes.
    pub open spec fn wf(&self) -> bool
        decreases self,
    {
        &&& self.attributes.wf()
        &&& forall|i: int|
            0 <= i < self.children.len() ==> (#[trigger] self.children[i]).wf()
    }

    /// A node of the given kind with no attributes and no children.
    pub fn new(node_type: NodeType) -> (res: VirtualNode)
        ensures
            res.wf(),
            res@ == leaf(node_type@),
    {
        let res = VirtualNode { node_type, attributes: StringMap::new(), children: Vec::new() };
        assert(res@.children =~= Seq::<NodeView>::empty());
        res
    }

    /// Makes `child` the last child of this node.
    pub fn append_child(&mut self, child: VirtualNode)
        requires
            old(self).wf(),
            child.wf(),
        ensures
            final(self).wf(),
            final(self)@ == (NodeView {
                children: old(self)@.children.push(child@),
                ..old(self)@
            }),
    {
        self.children.push(child);
        assert(self@.children =~= old(self)@.children.push(child@));
    }

    /// Stores the raw `value` under `key` among this node's attributes.
    pub fn set_attribute(&mut self, key: String, value: String)
        requires
            old(self).wf(),
        ensures
            final(self).wf(),
            final(self)@ == (NodeView {
                attributes: old(self)@.attributes.insert(key@, value@),
                ..old(self)@
            }),
    {
        self.attributes.insert(key, value);
        assert(self@.children =~= old(self)@.children);
    }
}

impl Component {
    /// A component with the given state and presenter, empty props (`{}`),
    /// the handle 0 and, for its tree, a lone tag named by one space.
    pub fn new(state: String, presenter: String) -> (res: Component)
        ensures
            res.state_text() == state@,
            res.presenter_text() == presenter@,
            res.props_text() == "{}"@,
            res.tree() == leaf(KindView::Tag(" "@)),
            res.tree_wf(),
            res.handle() == 0,
    {
        let empty_vdom = VirtualNode::new(NodeType::Tag(String::from_str(" ")));
        Component {
            state,
            presenter,
            props: String::from_str("{}"),
            vdom: Box::new(empty_vdom),
            handle: 0,
        }
    }

    /// The state, as text.
    pub closed spec fn state_text(&self) -> Seq<char> {
        self.state@
    }

    /// The presenter, as text.
    pub closed spec fn presenter_text(&self) -> Seq<char> {
        self.presenter@
    }

    /// The props, as text.
    pub closed spec fn props_text(&self) -> Seq<char> {
        self.props@
    }

    /// The host's handle.
    pub closed spec fn handle(&self) -> u64 {
        self.handle
    }

    /// The model of the component's tree.
    pub closed spec fn tree(&self) -> NodeView {
        self.vdom@
    }

    /// Whether the component's tree is well formed.
    pub closed spec fn tree_wf(&self) -> bool {
        self.vdom.wf()
    }

    /// The component's tree.
    pub fn get_vdom(&self) -> (res: &Box<VirtualNode>)
        ensures
            res@ == self.tree(),
            res.wf() == self.tree_wf(),
    {
        &self.vdom
    }

    /// The component's state.
    pub fn get_state(&self) -> (res: &String)
        ensures
            res@ == self.state_text(),
    {
        &self.state
    }

    /// The component's props.
    pub fn get_props(&self) -> (res: &String)
        ensures
            res@ == self.props_text(),
    {
        &self.props
    }

    /// The component's presenter.
    pub fn get_presenter(&self) -> (res: &String)
        ensures
            res@ == self.presenter_text(),
    {
        &self.presenter
    }

    /// Replaces the component's tree.
    pub fn set_vdom(&mut self, v_node: VirtualNode)
        ensures
            final(self).tree() == v_node@,
            final(self).tree_wf() == v_node.wf(),
            final(self).state_text() == old(self).state_text(),
            final(self).presenter_text() == old(self).presenter_text(),
            final(self).props_text() == old(self).props_text(),
            final(self).handle() == old(self).handle(),
    {
        self.vdom = Box::new(v_node);
    }

    /// Replaces the component's state.
    pub fn set_state(&mut self, state: String)
        ensures
            final(self).state_text() == state@,
            final(self).tree() == old(self).tree(),
            final(self).tree_wf() == old(self).tree_wf(),
            final(self).presenter_text() == old(self).presenter_text(),
            final(self).props_text() == old(self).props_text(),
            final(self).handle() == old(self).handle(),
    {
        self.state = state;
    }

    /// Replaces the component's props.
    pub fn set_props(&mut self, props: String)
        ensures
            final(self).props_text() == props@,
            final(self).tree() == old(self).tree(),
            final(self).tree_wf() == old(self).tree_wf(),
            final(self).presenter_text() == old(self).presenter_text(),
            final(self).state_text() == old(self).state_text(),
            final(self).handle() == old(self).handle(),
    {
        self.props = props;
    }

    /// Replaces the component's presenter.
    pub fn set_presenter(&mut self, presenter: String)
        ensures
            final(self).presenter_text() == presenter@,
            final(self).tree() == old(self).tree(),
            final(self).tree_wf() == old(self).tree_wf(),
            final(self).props_text() == old(self).props_text(),
            final(self).state_text() == old(self).state_text(),
            final(self).handle() == old(self).handle(),
    {
        self.presenter = presenter;
    }

    /// The host's handle.
    pub fn get_handle(&self) -> (res: u64)
        ensures
            res == self.handle(),
    {
        self.handle
    }

    /// Replaces the host's handle.
    pub fn set_handle(&mut self, handle: u64)
        ensures
            final(self).handle() == handle,
            final(self).tree() == old(self).tree(),
            final(self).tree_wf() == old(self).tree_wf(),
            final(self).props_text() == old(self).props_text(),
            final(self).state_text() == old(self).state_text(),
            final(self).presenter_text() == old(self).presenter_text(),
    {
        self.handle = handle;
    }
}

} // verus!
