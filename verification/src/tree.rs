//! The window tree as the compositor reports it, and its mathematical model.

use vstd::prelude::*;

verus! {

/// A rectangle in pixels.
#[derive(Clone, Copy, Debug, PartialEq, Eq, Structural)]
pub struct Rect {
    pub x: i32,
    pub y: i32,
    pub width: i32,
    pub height: i32,
}

/// A rectangle over the mathematical integers.
pub struct RectView {
    pub x: int,
    pub y: int,
    pub width: int,
    pub height: int,
}

impl View for Rect {
    type V = RectView;

    open spec fn view(&self) -> RectView {
        RectView {
            x: self.x as int,
            y: self.y as int,
            width: self.width as int,
            height: self.height as int,
        }
    }
}

/// The kind of a node of the window tree.
#[derive(Clone, Copy, Debug, PartialEq, Eq, Structural)]
pub enum NodeKind {
    /// The root of the tree, above the outputs.
    Root,
    /// One monitor.
    Output,
    /// One workspace of an output.
    Workspace,
    /// A tiled container: a window, or a group of containers.
    Container,
    /// A floating container.
    FloatingContainer,
    /// Any other kind, such as a dock area.
    Other,
}

/// How a node lays out its children.
#[derive(Clone, Copy, Debug, PartialEq, Eq, Structural)]
pub enum LayoutMode {
    /// The node reports no layout of its own.
    NoLayout,
    /// The children lie side by side, or one above the other.
    Tiled,
    /// The children lie on top of each other, and their title bars share
    /// one decoration strip, one bar above the other.
    Stacked,
    /// The children lie on top of each other, with their title bars side by
    /// side.
    Tabbed,
    /// The node floats above the tiled ones.
    Floating,
}

/// A node of the compositor's window tree.
#[derive(Debug, PartialEq, Eq)]
pub struct WindowTreeNode {
    /// The compositor's id of the node.
    pub id: i64,
    /// What the node is.
    pub node_kind: NodeKind,
    /// The node's rectangle in screen coordinates.
    pub outer_rect: Rect,
    /// The drawable area, relative to `outer_rect`.
    pub content_rect: Rect,
    /// The title bar and border chrome.
    pub decoration_rect: Rect,
    /// How the node lays out its children.
    pub layout_mode: LayoutMode,
    /// Whether the node itself holds the keyboard focus.
    pub focused: bool,
    /// The ids of the node's children, most recently focused first.
    pub focus: Vec<i64>,
    /// The tiled, tabbed or stacked children, left to right.
    pub children: Vec<WindowTreeNode>,
    /// The floating children.
    pub floating_children: Vec<WindowTreeNode>,
    /// The name of an output, the title of a window.
    pub name: Option<String>,
}

/// The model of a [`WindowTreeNode`]: the same tree over sequences and
/// mathematical integers.
pub struct NodeView {
    pub id: i64,
    pub node_kind: NodeKind,
    pub outer_rect: RectView,
    pub content_rect: RectView,
    pub decoration_rect: RectView,
    pub layout_mode: LayoutMode,
    pub focused: bool,
    pub focus: Seq<i64>,
    pub children: Seq<NodeView>,
    pub floating_children: Seq<NodeView>,
    pub name: Option<Seq<char>>,
}

/// The model of a node: the node's own fields, and the models of its
/// children in their order.
pub open spec fn node_view(node: WindowTreeNode) -> NodeView
    decreases node,
{
    NodeView {
        id: node.id,
        node_kind: node.node_kind,
        outer_rect: node.outer_rect@,
        content_rect: node.content_rect@,
        decoration_rect: node.decoration_rect@,
        layout_mode: node.layout_mode,
        focused: node.focused,
        focus: node.focus@,
        children: Seq::new(
            node.children@.len(),
            |i: int|
                if 0 <= i < node.children@.len() {
                    node_view(node.children@[i])
                } else {
                    arbitrary()
                },
        ),
        floating_children: Seq::new(
            node.floating_children@.len(),
            |i: int|
                if 0 <= i < node.floating_children@.len() {
                    node_view(node.floating_children@[i])
                } else {
                    arbitrary()
                },
        ),
        name: match node.name {
            Some(s) => Some(s@),
            None => None,
        },
    }
}

impl View for WindowTreeNode {
    type V = NodeView;

    open spec fn view(&self) -> NodeView {
        node_view(*self)
    }
}

/// The models of a sequence of nodes, in their order.
pub open spec fn views(nodes: Seq<WindowTreeNode>) -> Seq<NodeView> {
    Seq::new(nodes.len(), |i: int| nodes[i]@)
}

impl Clone for WindowTreeNode {
    /// A deep copy: the copy has the same model.
    fn clone(&self) -> (res: Self)
        ensures
            res@ == self@,
        decreases self,
    {
        let mut children: Vec<WindowTreeNode> = Vec::new();
        let mut i: usize = 0;
        while i < self.children.len()
            invariant
                i <= self.children.len(),
                children.len() == i,
                forall|j: int| 0 <= j < i ==> children[j]@ == self.children[j]@,
            decreases self.children.len() - i,
        {
            children.push(self.children[i].clone());
            i += 1;
        }
        let mut floating_children: Vec<WindowTreeNode> = Vec::new();
        let mut i: usize = 0;
        while i < self.floating_children.len()
            invariant
                i <= self.floating_children.len(),
                floating_children.len() == i,
                children.len() == self.children.len(),
                forall|j: int|
                    0 <= j < children.len() ==> children[j]@ == self.children[j]@,
                forall|j: int|
                    0 <= j < i ==> floating_children[j]@ == self.floating_children[j]@,
            decreases self.floating_children.len() - i,
        {
            floating_children.push(self.floating_children[i].clone());
            i += 1;
        }
        let name = match &self.name {
            Some(s) => Some(s.clone()),
            None => None,
        };
        let res = WindowTreeNode {
            id: self.id,
            node_kind: self.node_kind,
            outer_rect: self.outer_rect,
            content_rect: self.content_rect,
            decoration_rect: self.decoration_rect,
            layout_mode: self.layout_mode,
            focused: self.focused,
            focus: self.focus.clone(),
            children,
            floating_children,
            name,
        };
        assert(res@.focus =~= self@.focus);
        assert(res@.children =~= self@.children);
        assert(res@.floating_children =~= self@.floating_children);
        res
    }
}

} // verus!
