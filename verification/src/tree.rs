//! The tree of nodes.

use vstd::prelude::*;
use crate::color::{laid_over, Rgba};
use crate::node::{Node, NodeId, NodeWidget};
use crate::buffer::{
    lemma_offset_bound, lemma_offset_split, lemma_position_of_offset, offset_of, position_of,
    Buffer,
};
use crate::rect::Rect;
use crate::vec2::Vec2;
use crate::widget::Sides;
use crate::widgets::block::{block_pixel, lemma_opaque_block, on_ring, Block};
use crate::widgets::image::{at_most_max, bound_of, fits_memory, shown, shown_size, Image};
use crate::render::{PaintStep, Pass, area_at, children_come_first, paint_order, plan_list, plan_of, plan_tree, shape_of, tree_plan};
use crate::view::View;
use vstd::view::View as _;
use crate::widget::{AvailableSpace, Layout, RenderError, Size, Widget};

verus! {

/// Why a node could not be made part of a tree.
#[derive(Clone, Copy, Debug, PartialEq, Eq, Structural)]
pub enum TreeError {
    /// One of the node's children is no node of the tree.
    UnknownChild,
}

/// What the tree keeps of its nodes, each part under the node's number.
#[verifier::reject_recursive_types(C)]
pub struct Nodes<C> {
    pub layouts: Vec<taffy::Style>,
    pub children: Vec<Vec<NodeId>>,
    pub widgets: Vec<Option<NodeWidget<C>>>,
}

/// All nodes of one image, and the colour that the image has where nothing
/// is drawn. A node names its children by their numbers, and every child
/// has a lower number than its parent, so that no node is its own
/// descendant.
#[verifier::reject_recursive_types(C)]
pub struct Tree<C> {
    nodes: Nodes<C>,
    background: Rgba,
}

impl<C> Nodes<C> {
    /// For each node its children, in the order in which they were added.
    pub open spec fn shape(&self) -> Seq<Seq<NodeId>> {
        shape_of(self.children@)
    }

    /// For each node whether it draws anything itself.
    pub open spec fn drawing(&self) -> Seq<bool> {
        Seq::new(self.widgets@.len(), |i: int| self.widgets@[i].is_some())
    }

    pub open spec fn wf(&self) -> bool {
        &&& self.layouts@.len() == self.children@.len()
        &&& self.widgets@.len() == self.children@.len()
        &&& children_come_first(self.shape())
    }
}

impl<C> Tree<C> {
    /// How many nodes there are.
    pub closed spec fn len(&self) -> int {
        self.nodes.children@.len() as int
    }

    /// For each node its children, in the order in which they were added.
    pub closed spec fn shape(&self) -> Seq<Seq<NodeId>> {
        self.nodes.shape()
    }

    /// For each node whether it draws anything itself.
    pub closed spec fn widgets(&self) -> Seq<bool> {
        self.nodes.drawing()
    }

    /// For each node what it draws, if anything.
    pub closed spec fn widget_seq(&self) -> Seq<Option<NodeWidget<C>>> {
        self.nodes.widgets@
    }

    /// For each node how it wants to be laid out.
    pub closed spec fn styles(&self) -> Seq<taffy::Style> {
        self.nodes.layouts@
    }

    pub closed spec fn spec_background(&self) -> Rgba {
        self.background
    }

    #[verifier::type_invariant]
    pub closed spec fn inv(&self) -> bool {
        self.nodes.wf()
    }

    /// What holds of every tree: there is an entry for each node, and
    /// every child has a lower number than its parent.
    pub open spec fn wf(&self) -> bool {
        &&& self.shape().len() == self.len()
        &&& self.widgets().len() == self.len()
        &&& self.widget_seq().len() == self.len()
        &&& forall|i: int|
            0 <= i < self.len() ==> #[trigger] self.widgets()[i] == self.widget_seq()[i].is_some()
        &&& self.styles().len() == self.len()
        &&& children_come_first(self.shape())
    }

    /// A tree without nodes.
    pub fn new(background: Rgba) -> (tree: Tree<C>)
        ensures
            tree.wf(),
            tree.len() == 0,
            tree.shape() == Seq::<Seq<NodeId>>::empty(),
            tree.widgets() == Seq::<bool>::empty(),
            tree.widget_seq() == Seq::<Option<NodeWidget<C>>>::empty(),
            tree.styles() == Seq::<taffy::Style>::empty(),
            tree.spec_background() == background,
    {
        let nodes = Nodes { layouts: Vec::new(), children: Vec::new(), widgets: Vec::new() };
        assert(nodes.shape() =~= Seq::<Seq<NodeId>>::empty());
        assert(nodes.drawing() =~= Seq::<bool>::empty());
        Tree { nodes, background }
    }

    /// The colour of the image where nothing is drawn.
    pub fn background(&self) -> (color: Rgba)
        ensures
            color == self.spec_background(),
    {
        self.background
    }

    /// How many nodes there are.
    pub fn node_count(&self) -> (n: usize)
        ensures
            self.wf(),
            n == self.len(),
    {
        proof {
            use_type_invariant(self);
        }
        self.nodes.children.len()
    }

    /// The name of the node with the given number, if the tree has it.
    pub fn node_id(&self, index: usize) -> (id: Option<NodeId>)
        ensures
            id.is_some() <==> index < self.len(),
            id.is_some() ==> id.unwrap().index() == index,
    {
        if index < self.nodes.children.len() {
            Some(NodeId::new(index))
        } else {
            None
        }
    }

    /// The children of a node, in the order in which they were added, if
    /// the tree has the node.
    pub fn children(&self, id: NodeId) -> (children: Option<&Vec<NodeId>>)
        ensures
            self.wf(),
            children.is_some() <==> id.index() < self.len(),
            children.is_some() ==> children.unwrap()@ == self.shape()[id.index()],
    {
        proof {
            use_type_invariant(self);
        }
        if id.get() < self.nodes.children.len() {
            Some(&self.nodes.children[id.get()])
        } else {
            None
        }
    }

    /// How a node wants to be laid out, if the tree has the node.
    pub fn layout(&self, id: NodeId) -> (layout: Option<&taffy::Style>)
        ensures
            layout.is_some() <==> id.index() < self.len(),
            layout.is_some() ==> *layout.unwrap() == self.styles()[id.index()],
    {
        proof {
            use_type_invariant(self);
        }
        if id.get() < self.nodes.layouts.len() {
            Some(&self.nodes.layouts[id.get()])
        } else {
            None
        }
    }

    /// Whether the tree has the node and the node draws anything itself.
    pub fn has_widget(&self, id: NodeId) -> (has: bool)
        ensures
            has == (id.index() < self.len() && self.widgets()[id.index()]),
    {
        proof {
            use_type_invariant(self);
        }
        if id.get() < self.nodes.widgets.len() {
            self.nodes.widgets[id.get()].is_some()
        } else {
            false
        }
    }

    pub(crate) fn add(&mut self, node: Node<C>) -> (r: Result<NodeId, TreeError>)
        ensures
            final(self).wf(),
            match r {
                Ok(id) => {
                    &&& id.index() == old(self).len()
                    &&& id == NodeId::at(old(self).len())
                    &&& final(self).len() == old(self).len() + 1
                    &&& final(self).shape() == old(self).shape().push(node.children())
                    &&& final(self).widgets() == old(self).widgets().push(node.has_widget())
                    &&& final(self).widget_seq() == old(self).widget_seq().push(node.widget())
                    &&& final(self).styles() == old(self).styles().push(node.style())
                    &&& final(self).spec_background() == old(self).spec_background()
                },
                Err(e) => {
                    &&& e == TreeError::UnknownChild
                    &&& *final(self) == *old(self)
                },
            },
            r.is_ok() <==> forall|k: int|
                0 <= k < node.children().len() ==> (#[trigger] node.children()[k]).index() < old(
                    self,
                ).len(),
    {
        proof {
            use_type_invariant(&*self);
        }
        let n = self.nodes.children.len();
        let kids = node.get_children();
        let mut k: usize = 0;
        while k < kids.len()
            invariant
                k <= kids@.len(),
                kids@ == node.children(),
                *self == *old(self),
                self.wf(),
                n == self.len(),
                forall|j: int| 0 <= j < k ==> 0 <= (#[trigger] node.children()[j]).index() < n,
            decreases kids@.len() - k,
        {
            if kids[k].get() >= n {
                assert(!(node.children()[k as int].index() < n));
                return Err(TreeError::UnknownChild);
            }
            k = k + 1;
        }
        proof {
            use_type_invariant(&*self);
        }
        let ghost before = self.nodes;
        let mut nodes = Nodes { layouts: Vec::new(), children: Vec::new(), widgets: Vec::new() };
        assert(nodes.shape() =~= Seq::<Seq<NodeId>>::empty());
        core::mem::swap(&mut nodes, &mut self.nodes);
        let (layout, children, widget) = node.into_parts();
        nodes.layouts.push(layout);
        nodes.children.push(children);
        nodes.widgets.push(widget);
        proof {
            assert(nodes.shape() =~= before.shape().push(node.children()));
            assert(nodes.drawing() =~= before.drawing().push(node.has_widget()));
            assert forall|i: int, j: int|
                0 <= i < nodes.shape().len() && 0 <= j < nodes.shape()[i].len() implies 0 <= (
            #[trigger] nodes.shape()[i][j]).index() < i by {
                if i < n {
                    assert(nodes.shape()[i] == before.shape()[i]);
                    assert(0 <= before.shape()[i][j].index() < i);
                } else {
                    assert(nodes.shape()[i] == node.children());
                }
            }
        }
        core::mem::swap(&mut nodes, &mut self.nodes);
        Ok(NodeId::new(n))
    }

    /// Asks a node's widget for the size it would like. A node that draws
    /// nothing, or that the tree does not have, asks for nothing.
    pub fn size(
        &mut self,
        ctx: &mut C,
        id: NodeId,
        known: Size<Option<i32>>,
        available: Size<AvailableSpace>,
    ) -> (size: Size<i32>)
        ensures
            final(self).len() == old(self).len(),
            final(self).shape() == old(self).shape(),
            final(self).widgets() == old(self).widgets(),
            final(self).styles() == old(self).styles(),
            final(self).spec_background() == old(self).spec_background(),
            match measured(widget_at(old(self).widget_seq(), id.index()), known, available) {
                Some(wanted) => {
                    &&& size.width == wanted.0
                    &&& size.height == wanted.1
                    &&& *final(ctx) == *old(ctx)
                    &&& final(self).widget_seq() == old(self).widget_seq()
                },
                None => true,
            },
    {
        proof {
            use_type_invariant(&*self);
        }
        let index = id.get();
        if index >= self.nodes.widgets.len() {
            return Size { width: 0, height: 0 };
        }
        let ghost before = self.nodes;
        let mut slot: Option<NodeWidget<C>> = None;
        core::mem::swap(&mut slot, &mut self.nodes.widgets[index]);
        let ghost held = slot;
        let size = match &mut slot {
            None => Size { width: 0, height: 0 },
            Some(NodeWidget::Empty) => Size { width: 0, height: 0 },
            Some(NodeWidget::Block(_)) => Size { width: 0, height: 0 },
            Some(NodeWidget::Image(image)) => image.measure(known, available),
            Some(NodeWidget::Other(widget)) => widget.size(ctx, known, available),
        };
        core::mem::swap(&mut slot, &mut self.nodes.widgets[index]);
        proof {
            assert(self.nodes.drawing() =~= before.drawing());
            if measured(held, known, available).is_some() {
                assert(self.nodes.widgets@ =~= before.widgets@);
            }
        }
        size
    }

    /// The calls of widgets that paint the tree from the given root, in
    /// their order, given where the layout has put each node.
    pub fn paint_plan(&self, layouts: &Vec<Layout>, root: NodeId) -> (r: Result<
        Vec<PaintStep>,
        RenderError,
    >)
        ensures
            match tree_plan(self.shape(), layouts@, root) {
                Ok(plan) => r.is_ok() && r.unwrap()@ == plan,
                Err(e) => r == Err::<Vec<PaintStep>, RenderError>(e),
            },
    {
        proof {
            use_type_invariant(self);
        }
        plan_tree(&self.nodes.children, layouts, root)
    }

    /// Paints the tree from the given root into a new image, given where
    /// the layout has put each node. The image has the size of the root
    /// and the background colour wherever no widget draws. The widgets are
    /// called as `paint_plan` says, each with a view of its node's
    /// rectangle. The first widget that fails ends the painting, and no
    /// image comes out.
    ///
    /// Where every widget of the tree is one whose drawing is known here,
    /// in any rectangle or at least in those of the plan,
    /// the image is what the steps of the plan make of the background, one
    /// after the other.
    #[verifier::loop_isolation(false)]
    pub fn render(&mut self, ctx: &mut C, root: NodeId, layouts: &Vec<Layout>) -> (r: Result<
        Buffer<Rgba>,
        RenderError,
    >)
        ensures
            final(self).len() == old(self).len(),
            final(self).shape() == old(self).shape(),
            final(self).widgets() == old(self).widgets(),
            final(self).styles() == old(self).styles(),
            final(self).spec_background() == old(self).spec_background(),
            match tree_plan(old(self).shape(), layouts@, root) {
                Err(e) => r == Err::<Buffer<Rgba>, RenderError>(e),
                Ok(plan) => {
                    let size = layouts@[root.index()].size;
                    if size.x * size.y > usize::MAX {
                        r == Err::<Buffer<Rgba>, RenderError>(RenderError::OutOfRange)
                    } else {
                        &&& r.is_ok() ==> r.unwrap().spec_size() == size
                        &&& all_known(old(self).widget_seq()) || plan_known(
                            old(self).widget_seq(),
                            plan,
                        ) ==> {
                            &&& *final(ctx) == *old(ctx)
                            &&& final(self).widget_seq() == old(self).widget_seq()
                            &&& match painted(
                                old(self).widget_seq(),
                                layouts@,
                                size,
                                plan,
                                0,
                                Seq::new(
                                    (size.x * size.y) as nat,
                                    |i: int| old(self).spec_background(),
                                ),
                            ) {
                                Ok(pixels) => r.is_ok() && r.unwrap().pixels() == pixels,
                                Err(e) => r == Err::<Buffer<Rgba>, RenderError>(e),
                            }
                        }
                    }
                },
            },
    {
        proof {
            use_type_invariant(&*self);
        }
        let plan = match plan_tree(&self.nodes.children, layouts, root) {
            Ok(plan) => plan,
            Err(e) => {
                return Err(e);
            },
        };
        let size = layouts[root.get()].size;
        assert(size.x >= 0 && size.y >= 0);
        assert(0 <= size.x * size.y <= 0x7fff_ffff * 0x7fff_ffff) by (nonlinear_arith)
            requires
                0 <= size.x <= 0x7fff_ffff,
                0 <= size.y <= 0x7fff_ffff,
        ;
        let pixels: u64 = (size.x as u64) * (size.y as u64);
        if pixels > usize::MAX as u64 {
            return Err(RenderError::OutOfRange);
        }
        let mut image = Buffer::new(size, self.background);
        let ghost blank = image.pixels();
        let ghost before = self.nodes;
        let ghost start = *ctx;
        let ghost known = all_known(before.widgets@) || plan_known(before.widgets@, plan@);
        assert(known ==> plan_known(before.widgets@, plan@));
        let ghost whole = painted(before.widgets@, layouts@, size, plan@, 0, blank);
        assert(before.shape() == old(self).shape());
        assert(before.drawing() == old(self).widgets());
        let mut i: usize = 0;
        while i < plan.len()
            invariant
                i <= plan@.len(),
                self.nodes.children@.len() == old(self).len(),
                image.spec_size() == size,
                layouts@.len() == self.nodes.children@.len(),
                self.nodes.wf(),
                self.nodes.shape() == before.shape(),
                self.nodes.drawing() == before.drawing(),
                self.nodes.layouts == before.layouts,
                self.background == old(self).background,
                known ==> self.nodes.widgets@ == before.widgets@ && *ctx == start && painted(
                    before.widgets@,
                    layouts@,
                    size,
                    plan@,
                    i as int,
                    image.pixels(),
                ) == whole,
            decreases plan@.len() - i,
        {
            let step = plan[i];
            let index = step.node.get();
            if index < self.nodes.widgets.len() {
                let layout = layouts[index];
                let ghost nodes = self.nodes;
                let mut slot: Option<NodeWidget<C>> = None;
                core::mem::swap(&mut slot, &mut self.nodes.widgets[index]);
                let ghost held = slot;
                let result = paint_step(&mut slot, ctx, &mut image, step, &layout);
                core::mem::swap(&mut slot, &mut self.nodes.widgets[index]);
                proof {
                    assert(self.nodes.drawing() =~= nodes.drawing());
                    if known {
                        assert(step_known(held, step.area));
                        assert(self.nodes.widgets@ =~= nodes.widgets@);
                        assert(widget_at(before.widgets@, index as int) == held);
                    }
                }
                match result {
                    Err(e) => {
                        return Err(e);
                    },
                    Ok(()) => {},
                }
            } else {
                assert(widget_at(before.widgets@, index as int).is_none());
            }
            i = i + 1;
        }
        Ok(image)
    }
}

/// The widget of the node with the given number, if there is such a node
/// and it has one.
pub open spec fn widget_at<C>(widgets: Seq<Option<NodeWidget<C>>>, index: int) -> Option<
    NodeWidget<C>,
> {
    if 0 <= index < widgets.len() {
        widgets[index]
    } else {
        None
    }
}

/// Whether it is known here what the widget draws in any rectangle:
/// nothing, a block, or an image with a repeatable filter.
pub open spec fn draws_known<C>(widget: Option<NodeWidget<C>>) -> bool {
    match widget {
        None => true,
        Some(NodeWidget::Empty) => true,
        Some(NodeWidget::Block(_)) => true,
        Some(NodeWidget::Image(image)) => image.filter().is_repeatable(),
        Some(NodeWidget::Other(_)) => false,
    }
}

/// Whether it is known here what every widget draws in any rectangle.
pub open spec fn all_known<C>(widgets: Seq<Option<NodeWidget<C>>>) -> bool {
    forall|i: int| 0 <= i < widgets.len() ==> draws_known(#[trigger] widgets[i])
}

/// Whether it is known here what the widget draws in the rectangle: as
/// `draws_known`, and an image with any filter that is shown in its own
/// size.
pub open spec fn step_known<C>(widget: Option<NodeWidget<C>>, area: Rect) -> bool {
    match widget {
        Some(NodeWidget::Image(image)) => image.is_known_at(area.width(), area.height()),
        _ => draws_known(widget),
    }
}

/// Whether it is known here what the widgets draw at every step of the
/// plan.
pub open spec fn plan_known<C>(widgets: Seq<Option<NodeWidget<C>>>, plan: Seq<PaintStep>) -> bool {
    forall|k: int|
        0 <= k < plan.len() ==> step_known(
            widget_at(widgets, (#[trigger] plan[k]).node.index()),
            plan[k].area,
        )
}

/// The size that a widget asks for, where that is known here.
pub open spec fn measured<C>(
    widget: Option<NodeWidget<C>>,
    known: Size<Option<i32>>,
    available: Size<AvailableSpace>,
) -> Option<(int, int)> {
    match widget {
        None => Some((0, 0)),
        Some(NodeWidget::Empty) => Some((0, 0)),
        Some(NodeWidget::Block(_)) => Some((0, 0)),
        Some(NodeWidget::Image(image)) => Some(
            at_most_max(
                shown_size(
                    image.image().spec_size().x as int,
                    image.image().spec_size().y as int,
                    bound_of(known.width, available.width),
                    bound_of(known.height, available.height),
                    image.shrinks(),
                    image.grows(),
                ),
            ),
        ),
        Some(NodeWidget::Other(_)) => None,
    }
}

/// What a block that is drawn into `area` makes of the pixels of an image
/// of the given size.
pub open spec fn block_step(
    block: Block,
    size: Vec2,
    pixels: Seq<Rgba>,
    area: Rect,
    border: Sides,
) -> Seq<Rgba> {
    Seq::new(
        pixels.len(),
        |i: int|
            block_pixel(
                pixels[i],
                block.background(),
                block.border(),
                area.width(),
                area.height(),
                border,
                position_of(size.x as int, i).x - area.west(),
                position_of(size.x as int, i).y - area.north(),
            ),
    )
}

/// What an image widget that is drawn into `area` makes of the pixels of
/// an image of the given size.
pub open spec fn image_step(image: Image, size: Vec2, pixels: Seq<Rgba>, area: Rect) -> Seq<Rgba> {
    Seq::new(
        pixels.len(),
        |i: int|
            shown(
                image.prepared_pixels(area.width(), area.height()),
                area,
                pixels[i],
                position_of(size.x as int, i),
            ),
    )
}

/// What one step of the plan makes of the pixels of the image, where that
/// is known here. Blocks and images draw before their children; an image
/// that is too large for the memory fails.
pub open spec fn step_image<C>(
    widget: Option<NodeWidget<C>>,
    pass: Pass,
    size: Vec2,
    pixels: Seq<Rgba>,
    area: Rect,
    layout: Layout,
) -> Result<Seq<Rgba>, RenderError> {
    match (widget, pass) {
        (Some(NodeWidget::Block(block)), Pass::Below) => Ok(
            block_step(block, size, pixels, area, layout.border),
        ),
        (Some(NodeWidget::Image(image)), Pass::Below) => if fits_memory(image.image(), area) {
            Ok(image_step(image, size, pixels, area))
        } else {
            Err(RenderError::OutOfRange)
        },
        _ => Ok(pixels),
    }
}

/// What the steps of the plan from step `k` on make of the pixels of the
/// image, or the error of the first step that fails.
pub open spec fn painted<C>(
    widgets: Seq<Option<NodeWidget<C>>>,
    layouts: Seq<Layout>,
    size: Vec2,
    plan: Seq<PaintStep>,
    k: int,
    pixels: Seq<Rgba>,
) -> Result<Seq<Rgba>, RenderError>
    decreases plan.len() - k,
{
    if k < 0 || k >= plan.len() {
        Ok(pixels)
    } else {
        match step_image(
            widget_at(widgets, plan[k].node.index()),
            plan[k].pass,
            size,
            pixels,
            plan[k].area,
            layouts[plan[k].node.index()],
        ) {
            Err(e) => Err(e),
            Ok(next) => painted(widgets, layouts, size, plan, k + 1, next),
        }
    }
}

/// Carries out one step of the plan: has the widget draw into its node's
/// rectangle of the image.
fn paint_step<C>(
    widget: &mut Option<NodeWidget<C>>,
    ctx: &mut C,
    image: &mut Buffer<Rgba>,
    step: PaintStep,
    layout: &Layout,
) -> (r: Result<(), RenderError>)
    ensures
        final(image).spec_size() == old(image).spec_size(),
        final(widget).is_some() == old(widget).is_some(),
        step_known(*old(widget), step.area) ==> {
            &&& *final(widget) == *old(widget)
            &&& *final(ctx) == *old(ctx)
            &&& match step_image(
                *old(widget),
                step.pass,
                old(image).spec_size(),
                old(image).pixels(),
                step.area,
                *layout,
            ) {
                Ok(pixels) => r.is_ok() && final(image).pixels() == pixels,
                Err(e) => r == Err::<(), RenderError>(e),
            }
        },
{
    proof {
        use_type_invariant(&*image);
        step.area.lemma_in_range();
    }
    let ghost before = *image;
    match widget {
        None => Ok(()),
        Some(NodeWidget::Empty) => Ok(()),
        Some(NodeWidget::Block(block)) => {
            match step.pass {
                Pass::Below => {
                    let whole = View::new(&mut *image);
                    proof {
                        whole.area.lemma_in_range();
                    }
                    let mut view = whole.zoom(step.area);
                    block.draw(&mut view, layout.border);
                    proof {
                        use_type_invariant(&*image);
                        let f = |q: Vec2|
                            block_pixel(
                                before.pixel(q),
                                block.background(),
                                block.border(),
                                step.area.width(),
                                step.area.height(),
                                layout.border,
                                q.x - step.area.west(),
                                q.y - step.area.north(),
                            );
                        image.lemma_pixels_by_position(f);
                        let w = before.spec_size().x as int;
                        let h = before.spec_size().y as int;
                        assert forall|i: int| 0 <= i < before.pixels().len() implies before.pixel(
                            position_of(w, i),
                        ) == before.pixels()[i] by {
                            lemma_position_of_offset(w, h, i);
                        }
                        assert(image.pixels() =~= block_step(
                            *block,
                            before.spec_size(),
                            before.pixels(),
                            step.area,
                            layout.border,
                        ));
                    }
                    Ok(())
                },
                Pass::Above => Ok(()),
            }
        },
        Some(NodeWidget::Image(picture)) => {
            match step.pass {
                Pass::Below => {
                    let whole = View::new(&mut *image);
                    proof {
                        whole.area.lemma_in_range();
                    }
                    let mut view = whole.zoom(step.area);
                    let r = picture.paint(&mut view);
                    proof {
                        use_type_invariant(&*image);
                        if r.is_ok() && picture.is_known_at(
                            step.area.width(),
                            step.area.height(),
                        ) {
                            let f = |q: Vec2|
                                shown(
                                    picture.prepared_pixels(
                                        step.area.width(),
                                        step.area.height(),
                                    ),
                                    step.area,
                                    before.pixel(q),
                                    q,
                                );
                            image.lemma_pixels_by_position(f);
                            let w = before.spec_size().x as int;
                            let h = before.spec_size().y as int;
                            assert forall|i: int|
                                0 <= i < before.pixels().len() implies before.pixel(
                                position_of(w, i),
                            ) == before.pixels()[i] by {
                                lemma_position_of_offset(w, h, i);
                            }
                            assert(image.pixels() =~= image_step(
                                *picture,
                                before.spec_size(),
                                before.pixels(),
                                step.area,
                            ));
                        }
                    }
                    r
                },
                Pass::Above => Ok(()),
            }
        },
        Some(NodeWidget::Other(other)) => {
            let whole = View::new(&mut *image);
            proof {
                whole.area.lemma_in_range();
            }
            let mut view = whole.zoom(step.area);
            match step.pass {
                Pass::Below => other.draw_below(ctx, &mut view, layout),
                Pass::Above => other.draw_above(ctx, &mut view, layout),
            }
        },
    }
}

/// The plan of a tree of one node that is laid out at the origin: the
/// node draws before and after its children, of which there are none, and
/// both times over the whole image.
pub proof fn lemma_lone_node_plan(shape: Seq<Seq<NodeId>>, layouts: Seq<Layout>, root: NodeId)
    requires
        shape.len() == 1,
        shape[0].len() == 0,
        layouts.len() == 1,
        root.index() == 0,
        layouts[0].location == (Vec2 { x: 0, y: 0 }),
        layouts[0].size.x >= 0,
        layouts[0].size.y >= 0,
    ensures
        tree_plan(shape, layouts, root) == Ok::<Seq<PaintStep>, RenderError>(
            seq![
                PaintStep {
                    node: NodeId::at(0),
                    pass: Pass::Below,
                    area: area_at(layouts[0], 0, 0),
                },
                PaintStep {
                    node: NodeId::at(0),
                    pass: Pass::Above,
                    area: area_at(layouts[0], 0, 0),
                },
            ],
        ),
        NodeId::at(0).index() == 0,
        area_at(layouts[0], 0, 0).has_bounds(
            0,
            layouts[0].size.y - 1,
            0,
            layouts[0].size.x - 1,
        ),
{
    let layout = layouts[0];
    NodeId::lemma_at(0);
    Rect::lemma_with_bounds(0, layout.size.y - 1, 0, layout.size.x - 1);
    let area = area_at(layout, 0, 0);
    let id = NodeId::at(0);
    assert(paint_order(shape[0], layouts) == Seq::<NodeId>::empty());
    assert(plan_list(shape, layouts, 0, Seq::<NodeId>::empty(), 0, 0) == Some(
        Seq::<PaintStep>::empty(),
    ));
    let plan = seq![
        PaintStep { node: id, pass: Pass::Below, area },
        PaintStep { node: id, pass: Pass::Above, area },
    ];
    assert(plan_of(shape, layouts, 0, 0, 0).unwrap() =~= plan);
}

/// A tree of one block with opaque colours, laid out at the origin with
/// a border of the given sides, comes out as a frame: the plan has the
/// block draw once over the whole image, and each pixel has the border's
/// colour on the ring and the block's background inside, whatever the
/// tree's own background is.
pub proof fn lemma_framed_block<C>(
    shape: Seq<Seq<NodeId>>,
    widgets: Seq<Option<NodeWidget<C>>>,
    layouts: Seq<Layout>,
    root: NodeId,
    block: Block,
    background: Rgba,
)
    requires
        shape.len() == 1,
        shape[0].len() == 0,
        widgets.len() == 1,
        widgets[0] == Some(NodeWidget::<C>::Block(block)),
        layouts.len() == 1,
        root.index() == 0,
        block.background().is_opaque(),
        block.border().is_opaque(),
        layouts[0].location == (Vec2 { x: 0, y: 0 }),
        layouts[0].size.x >= 0,
        layouts[0].size.y >= 0,
        layouts[0].border.left >= 0,
        layouts[0].border.right >= 0,
        layouts[0].border.top >= 0,
        layouts[0].border.bottom >= 0,
    ensures
        tree_plan(shape, layouts, root).is_ok(),
        ({
            let size = layouts[0].size;
            let image = painted(
                widgets,
                layouts,
                size,
                tree_plan(shape, layouts, root).unwrap(),
                0,
                Seq::new((size.x * size.y) as nat, |i: int| background),
            );
            &&& image.is_ok()
            &&& image.unwrap().len() == size.x * size.y
            &&& forall|x: int, y: int|
                0 <= x < size.x && 0 <= y < size.y ==> image.unwrap()[#[trigger] offset_of(
                    size.x as int,
                    x,
                    y,
                )] == if on_ring(size.x as int, size.y as int, layouts[0].border, x, y) {
                    block.border()
                } else {
                    block.background()
                }
        }),
{
    let layout = layouts[0];
    let w = layout.size.x as int;
    let h = layout.size.y as int;
    lemma_lone_node_plan(shape, layouts, root);
    let area = area_at(layout, 0, 0);
    let plan = tree_plan(shape, layouts, root).unwrap();
    assert(0 <= w * h) by (nonlinear_arith)
        requires
            0 <= w,
            0 <= h,
    ;
    let blank = Seq::new((w * h) as nat, |i: int| background);
    let drawn = block_step(block, layout.size, blank, area, layout.border);
    assert(painted(widgets, layouts, layout.size, plan, 2, drawn) == Ok::<
        Seq<Rgba>,
        RenderError,
    >(drawn));
    assert(painted(widgets, layouts, layout.size, plan, 1, drawn) == Ok::<
        Seq<Rgba>,
        RenderError,
    >(drawn));
    assert(painted(widgets, layouts, layout.size, plan, 0, blank) == Ok::<
        Seq<Rgba>,
        RenderError,
    >(drawn));
    assert forall|x: int, y: int| 0 <= x < w && 0 <= y < h implies drawn[#[trigger] offset_of(
        w,
        x,
        y,
    )] == if on_ring(w, h, layout.border, x, y) {
        block.border()
    } else {
        block.background()
    } by {
        let i = offset_of(w, x, y);
        lemma_offset_bound(w, h, x, y);
        lemma_offset_split(w, x, y);
        lemma_opaque_block(
            blank[i],
            block.background(),
            block.border(),
            w,
            h,
            layout.border,
            x,
            y,
        );
    }
}

/// A tree of one image that is laid out at the origin in the image's own
/// size, and is not dithered, comes out as the image laid over the tree's
/// background, whatever the image's filter is.
pub proof fn lemma_lone_image<C>(
    shape: Seq<Seq<NodeId>>,
    widgets: Seq<Option<NodeWidget<C>>>,
    layouts: Seq<Layout>,
    root: NodeId,
    image: Image,
    background: Rgba,
)
    requires
        shape.len() == 1,
        shape[0].len() == 0,
        widgets.len() == 1,
        widgets[0] == Some(NodeWidget::<C>::Image(image)),
        layouts.len() == 1,
        root.index() == 0,
        layouts[0].location == (Vec2 { x: 0, y: 0 }),
        image.image().wf(),
        image.keeps_size(layouts[0].size.x as int, layouts[0].size.y as int),
        image.dither_palette().is_none(),
        16 * (layouts[0].size.x * layouts[0].size.y) <= isize::MAX,
    ensures
        tree_plan(shape, layouts, root).is_ok(),
        plan_known(widgets, tree_plan(shape, layouts, root).unwrap()),
        ({
            let size = layouts[0].size;
            let painted = painted(
                widgets,
                layouts,
                size,
                tree_plan(shape, layouts, root).unwrap(),
                0,
                Seq::new((size.x * size.y) as nat, |i: int| background),
            );
            &&& painted.is_ok()
            &&& painted.unwrap().len() == size.x * size.y
            &&& forall|x: int, y: int|
                0 <= x < size.x && 0 <= y < size.y ==> painted.unwrap()[#[trigger] offset_of(
                    size.x as int,
                    x,
                    y,
                )] == laid_over(image.image().pixels()[offset_of(size.x as int, x, y)], background)
        }),
{
    let layout = layouts[0];
    let w = layout.size.x as int;
    let h = layout.size.y as int;
    lemma_lone_node_plan(shape, layouts, root);
    let area = area_at(layout, 0, 0);
    let plan = tree_plan(shape, layouts, root).unwrap();
    assert(0 < w * h) by (nonlinear_arith)
        requires
            0 < w,
            0 < h,
    ;
    let blank = Seq::new((w * h) as nat, |i: int| background);
    let drawn = image_step(image, layout.size, blank, area);
    assert(fits_memory(image.image(), area));
    assert(painted(widgets, layouts, layout.size, plan, 2, drawn) == Ok::<
        Seq<Rgba>,
        RenderError,
    >(drawn));
    assert(painted(widgets, layouts, layout.size, plan, 1, drawn) == Ok::<
        Seq<Rgba>,
        RenderError,
    >(drawn));
    assert(painted(widgets, layouts, layout.size, plan, 0, blank) == Ok::<
        Seq<Rgba>,
        RenderError,
    >(drawn));
    assert forall|x: int, y: int| 0 <= x < w && 0 <= y < h implies drawn[#[trigger] offset_of(
        w,
        x,
        y,
    )] == laid_over(image.image().pixels()[offset_of(w, x, y)], background) by {
        lemma_offset_bound(w, h, x, y);
        lemma_offset_split(w, x, y);
    }
}

} // verus!
