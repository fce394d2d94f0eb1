//! In which order, and where, the nodes of a tree are painted.
//!
//! A node is painted in two passes: once before its children and once
//! after them. The children are taken in the order that the layout has
//! given them, which need not be the order in which they were added.

use vstd::prelude::*;
use crate::node::NodeId;
use crate::rect::Rect;
use crate::vec2::{fits_i32, Vec2};
use crate::widget::{Layout, RenderError};

verus! {

/// One of the two times at which a node is painted.
#[derive(Clone, Copy, Debug, PartialEq, Eq, Structural)]
pub enum Pass {
    /// Before the node's children.
    Below,
    /// After the node's children.
    Above,
}

/// One call of a widget: which node, at which time, and where in the
/// image.
#[derive(Clone, Copy, Debug, PartialEq, Eq, Structural)]
pub struct PaintStep {
    pub node: NodeId,
    pub pass: Pass,
    /// The node's rectangle, counted from the image's north-west corner.
    pub area: Rect,
}

/// The place that the layout has given a node among its siblings.
pub open spec fn order_of(layouts: Seq<Layout>, id: NodeId) -> int {
    layouts[id.index()].order as int
}

/// `sorted` with `child` put behind the last node that is not to be
/// painted after it.
pub open spec fn insert_by_order(sorted: Seq<NodeId>, child: NodeId, layouts: Seq<Layout>) -> Seq<
    NodeId,
>
    decreases sorted.len(),
{
    if sorted.len() == 0 {
        seq![child]
    } else if order_of(layouts, sorted.last()) <= order_of(layouts, child) {
        sorted.push(child)
    } else {
        insert_by_order(sorted.drop_last(), child, layouts).push(sorted.last())
    }
}

/// The children in the order in which they are painted: by the place that
/// the layout has given them, and where two have the same place, in the
/// order in which they were added.
pub open spec fn paint_order(children: Seq<NodeId>, layouts: Seq<Layout>) -> Seq<NodeId>
    decreases children.len(),
{
    if children.len() == 0 {
        Seq::empty()
    } else {
        insert_by_order(paint_order(children.drop_last(), layouts), children.last(), layouts)
    }
}

/// Where `insert_by_order` puts the child.
proof fn lemma_insert_at(sorted: Seq<NodeId>, child: NodeId, layouts: Seq<Layout>, at: int)
    requires
        0 <= at <= sorted.len(),
        forall|k: int|
            at <= k < sorted.len() ==> order_of(layouts, #[trigger] sorted[k]) > order_of(
                layouts,
                child,
            ),
        at == 0 || order_of(layouts, sorted[at - 1]) <= order_of(layouts, child),
    ensures
        insert_by_order(sorted, child, layouts) == sorted.insert(at, child),
    decreases sorted.len(),
{
    if sorted.len() == 0 {
        assert(seq![child] =~= sorted.insert(at, child));
    } else if at == sorted.len() {
        assert(sorted.push(child) =~= sorted.insert(at, child));
    } else {
        assert(order_of(layouts, sorted[sorted.len() - 1]) > order_of(layouts, child));
        let front = sorted.drop_last();
        assert forall|k: int| at <= k < front.len() implies order_of(layouts, #[trigger] front[k])
            > order_of(layouts, child) by {
            assert(front[k] == sorted[k]);
        }
        if at > 0 {
            assert(front[at - 1] == sorted[at - 1]);
        }
        lemma_insert_at(front, child, layouts, at);
        assert(front.insert(at, child).push(sorted.last()) =~= sorted.insert(at, child));
    }
}

/// Whether the nodes stand in the order of their places.
pub open spec fn in_order(nodes: Seq<NodeId>, layouts: Seq<Layout>) -> bool {
    forall|i: int, j: int|
        0 <= i < j < nodes.len() ==> order_of(layouts, nodes[i]) <= order_of(layouts, nodes[j])
}

/// Putting a node into an ordered sequence keeps the order and adds the
/// node to what the sequence holds.
proof fn lemma_insert_keeps_order(sorted: Seq<NodeId>, child: NodeId, layouts: Seq<Layout>)
    requires
        in_order(sorted, layouts),
    ensures
        in_order(insert_by_order(sorted, child, layouts), layouts),
        insert_by_order(sorted, child, layouts).len() == sorted.len() + 1,
        insert_by_order(sorted, child, layouts).to_multiset() == sorted.to_multiset().insert(
            child,
        ),
        forall|k: int|
            0 <= k < sorted.len() + 1 ==> #[trigger] insert_by_order(sorted, child, layouts)[k]
                == child || sorted.contains(insert_by_order(sorted, child, layouts)[k]),
    decreases sorted.len(),
{
    let out = insert_by_order(sorted, child, layouts);
    if sorted.len() == 0 {
        vstd::seq_lib::to_multiset_build(sorted, child);
        assert(out =~= sorted.push(child));
    } else if order_of(layouts, sorted.last()) <= order_of(layouts, child) {
        vstd::seq_lib::to_multiset_build(sorted, child);
        assert forall|i: int, j: int| 0 <= i < j < out.len() implies order_of(layouts, out[i])
            <= order_of(layouts, out[j]) by {
            if j == sorted.len() {
                if i < sorted.len() - 1 {
                    assert(order_of(layouts, sorted[i]) <= order_of(
                        layouts,
                        sorted[sorted.len() - 1],
                    ));
                }
            }
        }
        assert forall|k: int| 0 <= k < sorted.len() + 1 implies #[trigger] out[k] == child
            || sorted.contains(out[k]) by {
            if k < sorted.len() {
                assert(sorted[k] == out[k]);
            }
        }
    } else {
        let front = sorted.drop_last();
        let last = sorted.last();
        assert forall|i: int, j: int| 0 <= i < j < front.len() implies order_of(layouts, front[i])
            <= order_of(layouts, front[j]) by {
            assert(front[i] == sorted[i] && front[j] == sorted[j]);
        }
        lemma_insert_keeps_order(front, child, layouts);
        let inner = insert_by_order(front, child, layouts);
        assert(out == inner.push(last));
        vstd::seq_lib::to_multiset_build(inner, last);
        vstd::seq_lib::to_multiset_build(front, last);
        assert(front.push(last) =~= sorted);
        assert(out.to_multiset() =~= sorted.to_multiset().insert(child));
        assert forall|i: int, j: int| 0 <= i < j < out.len() implies order_of(layouts, out[i])
            <= order_of(layouts, out[j]) by {
            if j == out.len() - 1 {
                assert(out[i] == inner[i]);
                if inner[i] != child {
                    assert(front.contains(inner[i]));
                    let w = choose|w: int| 0 <= w < front.len() && front[w] == inner[i];
                    assert(sorted[w] == front[w]);
                    assert(order_of(layouts, sorted[w]) <= order_of(
                        layouts,
                        sorted[sorted.len() - 1],
                    ));
                }
            } else {
                assert(out[i] == inner[i] && out[j] == inner[j]);
            }
        }
        assert forall|k: int| 0 <= k < sorted.len() + 1 implies #[trigger] out[k] == child
            || sorted.contains(out[k]) by {
            if k < inner.len() {
                assert(out[k] == inner[k]);
                if inner[k] != child {
                    let w = choose|w: int| 0 <= w < front.len() && front[w] == inner[k];
                    assert(sorted[w] == front[w]);
                }
            } else {
                assert(out[k] == sorted[sorted.len() - 1]);
            }
        }
    }
}

/// The order of painting is an order of the same children by their
/// places.
pub proof fn lemma_paint_order(children: Seq<NodeId>, layouts: Seq<Layout>)
    ensures
        in_order(paint_order(children, layouts), layouts),
        paint_order(children, layouts).len() == children.len(),
        paint_order(children, layouts).to_multiset() == children.to_multiset(),
    decreases children.len(),
{
    if children.len() == 0 {
        assert(paint_order(children, layouts) =~= children);
    } else {
        let front = children.drop_last();
        lemma_paint_order(front, layouts);
        lemma_insert_keeps_order(paint_order(front, layouts), children.last(), layouts);
        vstd::seq_lib::to_multiset_build(front, children.last());
        assert(front.push(children.last()) =~= children);
    }
}

/// The children in the order in which they are painted.
pub fn sorted_children(children: &Vec<NodeId>, layouts: &Vec<Layout>) -> (sorted: Vec<NodeId>)
    requires
        forall|k: int| 0 <= k < children@.len() ==> 0 <= (#[trigger] children@[k]).index()
            < layouts@.len(),
    ensures
        sorted@ == paint_order(children@, layouts@),
{
    let mut sorted: Vec<NodeId> = Vec::new();
    let mut n: usize = 0;
    proof {
        assert(children@.take(0) =~= Seq::<NodeId>::empty());
    }
    while n < children.len()
        invariant
            n <= children@.len(),
            sorted@ == paint_order(children@.take(n as int), layouts@),
            sorted@.len() == n,
            forall|k: int|
                0 <= k < children@.len() ==> 0 <= (#[trigger] children@[k]).index()
                    < layouts@.len(),
            forall|k: int|
                0 <= k < sorted@.len() ==> 0 <= (#[trigger] sorted@[k]).index() < layouts@.len(),
        decreases children@.len() - n,
    {
        let child = children[n];
        let order = layouts[child.get()].order;
        let mut at: usize = sorted.len();
        while at > 0 && layouts[sorted[at - 1].get()].order > order
            invariant
                at <= sorted@.len(),
                order == order_of(layouts@, child),
                forall|k: int|
                    0 <= k < sorted@.len() ==> 0 <= (#[trigger] sorted@[k]).index()
                        < layouts@.len(),
                forall|k: int|
                    at <= k < sorted@.len() ==> order_of(layouts@, #[trigger] sorted@[k]) > order,
            decreases at,
        {
            at = at - 1;
        }
        proof {
            lemma_insert_at(sorted@, child, layouts@, at as int);
            assert(children@.take(n + 1).drop_last() =~= children@.take(n as int));
            assert(children@.take(n + 1).last() == child);
        }
        sorted.insert(at, child);
        n = n + 1;
    }
    proof {
        assert(children@.take(n as int) =~= children@);
    }
    sorted
}

/// Whether a node with this layout, whose parent's north-west corner is
/// `(ox, oy)`, has a rectangle: its size is not negative and its corners
/// lie in the range of `i32`.
pub open spec fn area_fits(layout: Layout, ox: int, oy: int) -> bool {
    &&& layout.size.x >= 0
    &&& layout.size.y >= 0
    &&& fits_i32(ox + layout.location.x)
    &&& fits_i32(oy + layout.location.y)
    &&& fits_i32(ox + layout.location.x + layout.size.x - 1)
    &&& fits_i32(oy + layout.location.y + layout.size.y - 1)
}

/// The rectangle of a node with this layout whose parent's north-west
/// corner is `(ox, oy)`.
pub open spec fn area_at(layout: Layout, ox: int, oy: int) -> Rect {
    Rect::with_bounds(
        oy + layout.location.y,
        oy + layout.location.y + layout.size.y - 1,
        ox + layout.location.x,
        ox + layout.location.x + layout.size.x - 1,
    )
}

/// The steps that paint the node and all that is below it, if every
/// rectangle fits: the node before its children, then the children in the
/// order of painting, each with all that is below it, then the node after
/// its children.
pub open spec fn plan_of(
    shape: Seq<Seq<NodeId>>,
    layouts: Seq<Layout>,
    node: int,
    ox: int,
    oy: int,
) -> Option<Seq<PaintStep>>
    decreases node, 1int, 0int,
{
    if !(0 <= node < shape.len() && node < layouts.len()) || !area_fits(layouts[node], ox, oy) {
        None
    } else {
        let id = NodeId::at(node);
        let area = area_at(layouts[node], ox, oy);
        match plan_list(
            shape,
            layouts,
            node,
            paint_order(shape[node], layouts),
            ox + layouts[node].location.x,
            oy + layouts[node].location.y,
        ) {
            None => None,
            Some(inner) => Some(
                seq![PaintStep { node: id, pass: Pass::Below, area }] + inner + seq![
                    PaintStep { node: id, pass: Pass::Above, area },
                ],
            ),
        }
    }
}

/// The steps that paint the given children of `parent` one after the
/// other, if every rectangle fits.
pub open spec fn plan_list(
    shape: Seq<Seq<NodeId>>,
    layouts: Seq<Layout>,
    parent: int,
    kids: Seq<NodeId>,
    ox: int,
    oy: int,
) -> Option<Seq<PaintStep>>
    decreases parent, 0int, kids.len(),
{
    if kids.len() == 0 {
        Some(Seq::empty())
    } else if !(0 <= kids[0].index() < parent) {
        None
    } else {
        match plan_of(shape, layouts, kids[0].index(), ox, oy) {
            None => None,
            Some(first) => match plan_list(shape, layouts, parent, kids.drop_first(), ox, oy) {
                None => None,
                Some(rest) => Some(first + rest),
            },
        }
    }
}

/// Whether each node's children have lower numbers than the node.
pub open spec fn children_come_first(shape: Seq<Seq<NodeId>>) -> bool {
    forall|i: int, k: int|
        0 <= i < shape.len() && 0 <= k < shape[i].len() ==> 0 <= (#[trigger] shape[i][k]).index()
            < i
}

/// For each node its children.
pub open spec fn shape_of(children: Seq<Vec<NodeId>>) -> Seq<Seq<NodeId>> {
    Seq::new(children.len(), |i: int| children[i]@)
}

/// What `plan_list` gives for some children that are done and the rest.
proof fn lemma_plan_list_step(
    shape: Seq<Seq<NodeId>>,
    layouts: Seq<Layout>,
    parent: int,
    kids: Seq<NodeId>,
    i: int,
    ox: int,
    oy: int,
)
    requires
        0 <= i < kids.len(),
    ensures
        plan_list(shape, layouts, parent, kids.skip(i), ox, oy) == (if !(0 <= kids[i].index()
            < parent) {
            None
        } else {
            match plan_of(shape, layouts, kids[i].index(), ox, oy) {
                None => None,
                Some(first) => match plan_list(
                    shape,
                    layouts,
                    parent,
                    kids.skip(i + 1),
                    ox,
                    oy,
                ) {
                    None => None,
                    Some(rest) => Some(first + rest),
                },
            }
        }),
{
    assert(kids.skip(i)[0] == kids[i]);
    assert(kids.skip(i).drop_first() == kids.skip(i + 1));
}

/// Adds to `steps` the steps that paint the node and all that is below it.
pub(crate) fn plan_node(
    children: &Vec<Vec<NodeId>>,
    layouts: &Vec<Layout>,
    node: usize,
    ox: i32,
    oy: i32,
    steps: &mut Vec<PaintStep>,
) -> (r: Result<(), RenderError>)
    requires
        children_come_first(shape_of(children@)),
        layouts@.len() == children@.len(),
        node < children@.len(),
    ensures
        match plan_of(shape_of(children@), layouts@, node as int, ox as int, oy as int) {
            Some(plan) => r.is_ok() && final(steps)@ == old(steps)@ + plan,
            None => r == Err::<(), RenderError>(RenderError::OutOfRange),
        },
    decreases node,
{
    let ghost shape = shape_of(children@);
    let layout = layouts[node];
    let west: i64 = ox as i64 + layout.location.x as i64;
    let north: i64 = oy as i64 + layout.location.y as i64;
    let east: i64 = west + layout.size.x as i64 - 1;
    let south: i64 = north + layout.size.y as i64 - 1;
    if layout.size.x < 0 || layout.size.y < 0 || west < -0x8000_0000 || west > 0x7fff_ffff || north
        < -0x8000_0000 || north > 0x7fff_ffff || east < -0x8000_0000 || east > 0x7fff_ffff || south
        < -0x8000_0000 || south > 0x7fff_ffff {
        return Err(RenderError::OutOfRange);
    }
    let nw = Vec2::new(west as i32, north as i32);
    let area = Rect::from_nw(nw, layout.size);
    let id = NodeId::new(node);
    proof {
        Rect::lemma_with_bounds(north as int, south as int, west as int, east as int);
        area.lemma_same_bounds(area_at(layout, ox as int, oy as int));
    }
    let ghost start = steps@;
    steps.push(PaintStep { node: id, pass: Pass::Below, area });
    assert(shape[node as int] == children@[node as int]@);
    assert forall|k: int| 0 <= k < children@[node as int]@.len() implies 0 <= (
    #[trigger] children@[node as int]@[k]).index() < layouts@.len() by {
        assert(0 <= shape[node as int][k].index() < node);
    }
    let kids = sorted_children(&children[node], layouts);
    proof {
        lemma_paint_order(shape[node as int], layouts@);
        kids@.to_multiset_ensures();
        shape[node as int].to_multiset_ensures();
    }
    let ghost total = plan_list(shape, layouts@, node as int, kids@, west as int, north as int);
    let ghost whole = plan_of(shape, layouts@, node as int, ox as int, oy as int);
    let ghost below = PaintStep { node: id, pass: Pass::Below, area };
    let ghost above = PaintStep { node: id, pass: Pass::Above, area };
    let ghost mut done: Seq<PaintStep> = Seq::empty();
    let mut i: usize = 0;
    assert(kids@.skip(0) == kids@);
    assert(whole == (match total {
        None => None,
        Some(inner) => Some(seq![below] + inner + seq![above]),
    }));
    assert forall|k: int| 0 <= k < kids@.len() implies shape[node as int].contains(
        #[trigger] kids@[k],
    ) by {
        assert(kids@.contains(kids@[k]));
        assert(kids@.to_multiset().count(kids@[k]) > 0);
        assert(shape[node as int].to_multiset().count(kids@[k]) > 0);
    }
    while i < kids.len()
        invariant
            i <= kids@.len(),
            shape == shape_of(children@),
            children_come_first(shape),
            layouts@.len() == children@.len(),
            node < children@.len(),
            nw.x == west,
            nw.y == north,
            forall|k: int| 0 <= k < kids@.len() ==> shape[node as int].contains(#[trigger] kids@[k]),
            total == plan_list(shape, layouts@, node as int, kids@, west as int, north as int),
            whole == plan_of(shape, layouts@, node as int, ox as int, oy as int),
            whole == (match total {
                None => None,
                Some(inner) => Some(seq![below] + inner + seq![above]),
            }),
            below == (PaintStep { node: id, pass: Pass::Below, area }),
            steps@ == start.push(PaintStep { node: id, pass: Pass::Below, area }) + done,
            match plan_list(
                shape,
                layouts@,
                node as int,
                kids@.skip(i as int),
                west as int,
                north as int,
            ) {
                Some(rest) => total == Some(done + rest),
                None => total.is_none(),
            },
        decreases kids@.len() - i,
    {
        let kid = kids[i].get();
        proof {
            assert(shape[node as int].contains(kids@[i as int]));
            let w = choose|w: int|
                0 <= w < shape[node as int].len() && shape[node as int][w] == kids@[i as int];
            assert(0 <= shape[node as int][w].index() < node);
            lemma_plan_list_step(
                shape,
                layouts@,
                node as int,
                kids@,
                i as int,
                west as int,
                north as int,
            );
        }
        let ghost before = steps@;
        match plan_node(children, layouts, kid, nw.x, nw.y, steps) {
            Err(e) => {
                return Err(e);
            },
            Ok(()) => {},
        }
        proof {
            let first = plan_of(shape, layouts@, kid as int, west as int, north as int).unwrap();
            assert(steps@ == before + first);
            let old_done = done;
            done = done + first;
            assert(steps@ =~= start.push(PaintStep { node: id, pass: Pass::Below, area }) + done);
            match plan_list(
                shape,
                layouts@,
                node as int,
                kids@.skip(i + 1),
                west as int,
                north as int,
            ) {
                Some(rest) => {
                    assert(old_done + (first + rest) =~= done + rest);
                },
                None => {},
            }
        }
        i = i + 1;
    }
    proof {
        assert(kids@.skip(kids@.len() as int) =~= Seq::<NodeId>::empty());
        assert(total == Some(done));
    }
    steps.push(PaintStep { node: id, pass: Pass::Above, area });
    proof {
        assert(steps@ =~= start + whole.unwrap());
    }
    Ok(())
}

/// The steps that paint a tree from the given root, or why there are
/// none: there has to be one layout for each node, the root has to be a
/// node and to stand at the origin, and every node needs a rectangle.
pub open spec fn tree_plan(shape: Seq<Seq<NodeId>>, layouts: Seq<Layout>, root: NodeId) -> Result<
    Seq<PaintStep>,
    RenderError,
> {
    if layouts.len() != shape.len() || !(0 <= root.index() < shape.len()) {
        Err(RenderError::LayoutMismatch)
    } else if layouts[root.index()].location != (Vec2 { x: 0, y: 0 }) {
        Err(RenderError::RootNotAtOrigin)
    } else {
        match plan_of(shape, layouts, root.index(), 0, 0) {
            None => Err(RenderError::OutOfRange),
            Some(plan) => Ok(plan),
        }
    }
}

/// The steps that paint a tree from the given root.
pub(crate) fn plan_tree(children: &Vec<Vec<NodeId>>, layouts: &Vec<Layout>, root: NodeId) -> (r:
    Result<Vec<PaintStep>, RenderError>)
    requires
        children_come_first(shape_of(children@)),
    ensures
        match tree_plan(shape_of(children@), layouts@, root) {
            Ok(plan) => r.is_ok() && r.unwrap()@ == plan,
            Err(e) => r == Err::<Vec<PaintStep>, RenderError>(e),
        },
{
    if layouts.len() != children.len() || root.get() >= children.len() {
        return Err(RenderError::LayoutMismatch);
    }
    let location = layouts[root.get()].location;
    if location.x != 0 || location.y != 0 {
        return Err(RenderError::RootNotAtOrigin);
    }
    let mut steps: Vec<PaintStep> = Vec::new();
    match plan_node(children, layouts, root.get(), 0, 0, &mut steps) {
        Err(e) => Err(e),
        Ok(()) => {
            proof {
                let plan = plan_of(shape_of(children@), layouts@, root.index(), 0, 0).unwrap();
                assert(Seq::<PaintStep>::empty() + plan =~= plan);
            }
            Ok(steps)
        },
    }
}

} // verus!
