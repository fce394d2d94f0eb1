//! The nodes that a tree is built from.

use vstd::prelude::*;
use vstd::std_specs::convert::IntoSpec;
use crate::tree::{Tree, TreeError};
use crate::widget::Widget;
use crate::widgets::background::Background;
use crate::widgets::block::Block;
use crate::widgets::empty::Empty;
use crate::widgets::image::Image;

verus! {

/// The layout solver's description of how a node wants to be laid out.
/// Nothing here looks inside.
#[verifier::external_type_specification]
#[verifier::external_body]
pub struct ExStyle(taffy::Style);

/// The style that `taffy::Style::default` gives: that of a node for which
/// nothing has been asked.
#[verifier::external_body]
fn default_style() -> (style: taffy::Style) {
    taffy::Style::default()
}

/// Names a node of a tree: the nodes are numbered as they are registered.
#[derive(Clone, Copy, Debug, PartialEq, Eq, Structural)]
pub struct NodeId {
    index: usize,
}

impl NodeId {
    /// The node's number.
    pub closed spec fn index(self) -> int {
        self.index as int
    }

    /// The name of the node with the given number.
    pub closed spec fn at(index: int) -> NodeId {
        NodeId { index: index as usize }
    }

    /// A name made of a number has that number.
    pub proof fn lemma_at(index: int)
        requires
            0 <= index <= usize::MAX,
        ensures
            NodeId::at(index).index() == index,
    {
    }

    pub(crate) fn new(index: usize) -> (id: NodeId)
        ensures
            id.index() == index,
            id == NodeId::at(index as int),
    {
        NodeId { index }
    }

    /// The node's number.
    pub fn get(self) -> (index: usize)
        ensures
            index == self.index(),
    {
        self.index
    }
}

/// What a node draws. Of the widgets that are known here the tree can say
/// what they draw; of any other widget only the widget itself can.
#[verifier::reject_recursive_types(C)]
pub enum NodeWidget<C> {
    /// Nothing.
    Empty,
    /// A box with a background and a border.
    Block(Block),
    /// A picture that fills the node.
    Image(Image),
    /// Any other widget.
    Other(Box<dyn Widget<C>>),
}

/// A node before it is part of a tree: how it wants to be laid out, its
/// children in the order in which they were added, and what it draws.
#[verifier::reject_recursive_types(C)]
pub struct Node<C> {
    layout: taffy::Style,
    children: Vec<NodeId>,
    widget: Option<NodeWidget<C>>,
}

impl<C> Node<C> {
    /// The children, in the order in which they were added.
    pub closed spec fn children(&self) -> Seq<NodeId> {
        self.children@
    }

    /// What the node draws, if anything.
    pub closed spec fn widget(&self) -> Option<NodeWidget<C>> {
        self.widget
    }

    /// Whether the node draws anything itself.
    pub open spec fn has_widget(&self) -> bool {
        self.widget().is_some()
    }

    /// How the node wants to be laid out.
    pub closed spec fn style(&self) -> taffy::Style {
        self.layout
    }

    /// A node without children that draws nothing.
    pub fn empty() -> (node: Node<C>)
        ensures
            node.children() == Seq::<NodeId>::empty(),
            !node.has_widget(),
    {
        Node { layout: default_style(), children: Vec::new(), widget: None }
    }

    /// Adds a child behind those that are there.
    pub fn and_child(self, node: NodeId) -> (r: Node<C>)
        ensures
            r.children() == self.children().push(node),
            r.widget() == self.widget(),
            r.style() == self.style(),
    {
        let mut this = self;
        this.children.push(node);
        this
    }

    /// Gives the node something to draw: a widget that is known here, or
    /// any other widget in a box.
    pub fn with_widget<W: Into<NodeWidget<C>>>(self, widget: W) -> (r: Node<C>)
        ensures
            r.children() == self.children(),
            r.has_widget(),
            W::obeys_into_spec() ==> r.widget() == Some(widget.into_spec()),
            r.style() == self.style(),
    {
        let mut this = self;
        this.widget = Some(widget.into());
        this
    }

    /// Says how the node wants to be laid out.
    pub fn with_layout(self, layout: taffy::Style) -> (r: Node<C>)
        ensures
            r.children() == self.children(),
            r.widget() == self.widget(),
            r.style() == layout,
    {
        let mut this = self;
        this.layout = layout;
        this
    }

    /// How the node wants to be laid out.
    pub fn layout(&self) -> (layout: &taffy::Style)
        ensures
            *layout == self.style(),
    {
        &self.layout
    }

    /// The children, in the order in which they were added.
    pub fn get_children(&self) -> (children: &Vec<NodeId>)
        ensures
            children@ == self.children(),
    {
        &self.children
    }

    /// Makes the node part of the tree. Its children have to be nodes of
    /// the tree already.
    pub fn register(self, tree: &mut Tree<C>) -> (r: Result<NodeId, TreeError>)
        ensures
            match r {
                Ok(id) => {
                    &&& id.index() == old(tree).len()
                    &&& id == NodeId::at(old(tree).len())
                    &&& final(tree).len() == old(tree).len() + 1
                    &&& final(tree).shape() == old(tree).shape().push(self.children())
                    &&& final(tree).widgets() == old(tree).widgets().push(self.has_widget())
                    &&& final(tree).widget_seq() == old(tree).widget_seq().push(self.widget())
                    &&& final(tree).styles() == old(tree).styles().push(self.style())
                    &&& final(tree).spec_background() == old(tree).spec_background()
                },
                Err(e) => {
                    &&& e == TreeError::UnknownChild
                    &&& *final(tree) == *old(tree)
                },
            },
            r.is_ok() <==> forall|k: int|
                0 <= k < self.children().len() ==> (#[trigger] self.children()[k]).index() < old(
                    tree,
                ).len(),
    {
        tree.add(self)
    }

    /// The node taken apart.
    pub(crate) fn into_parts(self) -> (parts: (taffy::Style, Vec<NodeId>, Option<NodeWidget<C>>))
        ensures
            parts.0 == self.style(),
            parts.1@ == self.children(),
            parts.2 == self.widget(),
    {
        (self.layout, self.children, self.widget)
    }
}

/// Everything that a node can draw can stand in a node of its own.
pub trait WidgetExt<C>: Into<NodeWidget<C>> {
    /// A node without children that draws this widget.
    fn node(self) -> (node: Node<C>)
        ensures
            node.children() == Seq::<NodeId>::empty(),
            node.has_widget(),
            Self::obeys_into_spec() ==> node.widget() == Some(self.into_spec()),
    ;
}

impl<C, W: Into<NodeWidget<C>>> WidgetExt<C> for W {
    fn node(self) -> (node: Node<C>) {
        Node::empty().with_widget(self)
    }
}

/// The widget that draws nothing is held as nothing to draw.
impl<C> From<Empty> for NodeWidget<C> {
    fn from(widget: Empty) -> (held: NodeWidget<C>) {
        NodeWidget::Empty
    }
}

impl<C> vstd::std_specs::convert::FromSpecImpl<Empty> for NodeWidget<C> {
    open spec fn obeys_from_spec() -> bool {
        true
    }

    open spec fn from_spec(widget: Empty) -> NodeWidget<C> {
        NodeWidget::Empty
    }
}

/// A block is held as the block that it is.
impl<C> From<Block> for NodeWidget<C> {
    fn from(widget: Block) -> (held: NodeWidget<C>) {
        NodeWidget::Block(widget)
    }
}

impl<C> vstd::std_specs::convert::FromSpecImpl<Block> for NodeWidget<C> {
    open spec fn obeys_from_spec() -> bool {
        true
    }

    open spec fn from_spec(widget: Block) -> NodeWidget<C> {
        NodeWidget::Block(widget)
    }
}

/// A picture is held as the picture that it is.
impl<C> From<Image> for NodeWidget<C> {
    fn from(widget: Image) -> (held: NodeWidget<C>) {
        NodeWidget::Image(widget)
    }
}

impl<C> vstd::std_specs::convert::FromSpecImpl<Image> for NodeWidget<C> {
    open spec fn obeys_from_spec() -> bool {
        true
    }

    open spec fn from_spec(widget: Image) -> NodeWidget<C> {
        NodeWidget::Image(widget)
    }
}

/// A background is held in a box: what it draws depends on the widget
/// inside it.
impl<C: 'static> From<Background<C>> for NodeWidget<C> {
    fn from(widget: Background<C>) -> (held: NodeWidget<C>) {
        NodeWidget::Other(Box::new(widget))
    }
}

impl<C: 'static> vstd::std_specs::convert::FromSpecImpl<Background<C>> for NodeWidget<C> {
    open spec fn obeys_from_spec() -> bool {
        true
    }

    open spec fn from_spec(widget: Background<C>) -> NodeWidget<C> {
        NodeWidget::Other(Box::new(widget))
    }
}

/// Any widget in a box is held as it comes.
impl<C> From<Box<dyn Widget<C>>> for NodeWidget<C> {
    fn from(widget: Box<dyn Widget<C>>) -> (held: NodeWidget<C>) {
        NodeWidget::Other(widget)
    }
}

impl<C> vstd::std_specs::convert::FromSpecImpl<Box<dyn Widget<C>>> for NodeWidget<C> {
    open spec fn obeys_from_spec() -> bool {
        true
    }

    open spec fn from_spec(widget: Box<dyn Widget<C>>) -> NodeWidget<C> {
        NodeWidget::Other(widget)
    }
}

} // verus!
