use showbits::buffer::Buffer;
use showbits::color::{black, transparent, white, Rgba};
use showbits::node::{Node, NodeId, NodeWidget, WidgetExt};
use showbits::rect::Rect;
use showbits::render::{Pass, PaintStep};
use showbits::tree::{Tree, TreeError};
use showbits::vec2::Vec2;
use showbits::view::View;
use showbits::widget::{AvailableSpace, Layout, RenderError, Sides, Size, Widget};
use showbits::widgets::block::Block;
use showbits::widgets::empty::Empty;

fn layout(order: u32, x: i32, y: i32, w: i32, h: i32, border: i32) -> Layout {
    Layout {
        order,
        location: Vec2::new(x, y),
        size: Vec2::new(w, h),
        border: Sides { left: border, right: border, top: border, bottom: border },
    }
}

#[test]
fn block_with_border_paints_ring() {
    let mut tree: Tree<()> = Tree::new(white());
    let root = Block::new().with_border(black()).node().register(&mut tree).unwrap();
    let layouts = vec![layout(0, 0, 0, 100, 40, 2)];
    let image = tree.render(&mut (), root, &layouts).unwrap();
    assert_eq!(image.size(), Vec2::new(100, 40));
    for y in 0..40 {
        for x in 0..100 {
            let ring = x < 2 || x >= 98 || y < 2 || y >= 38;
            let expected = if ring { black() } else { white() };
            assert_eq!(*image.at(Vec2::new(x, y)).unwrap(), expected, "at {x}, {y}");
        }
    }
}

#[test]
fn tree_without_widgets_is_background() {
    let mut tree: Tree<()> = Tree::new(Rgba::new(10, 20, 30, 255));
    let child = Node::empty().register(&mut tree).unwrap();
    let root = Node::empty().and_child(child).register(&mut tree).unwrap();
    let layouts = vec![layout(0, 1, 1, 2, 2, 0), layout(0, 0, 0, 4, 3, 0)];
    let image = tree.render(&mut (), root, &layouts).unwrap();
    assert_eq!(image.size(), Vec2::new(4, 3));
    for y in 0..3 {
        for x in 0..4 {
            assert_eq!(*image.at(Vec2::new(x, y)).unwrap(), Rgba::new(10, 20, 30, 255));
        }
    }
}

#[test]
fn register_rejects_unknown_child() {
    let mut tree: Tree<()> = Tree::new(white());
    let a = Node::empty().register(&mut tree).unwrap();
    assert_eq!(a.get(), 0);
    let mut other: Tree<()> = Tree::new(white());
    let _x = Node::empty().register(&mut other).unwrap();
    let y = Node::empty().register(&mut other).unwrap();
    assert_eq!(y.get(), 1);
    let r = Node::<()>::empty().and_child(y).register(&mut tree);
    assert_eq!(r, Err(TreeError::UnknownChild));
    assert_eq!(tree.node_count(), 1);
}

#[test]
fn children_are_painted_in_layout_order() {
    let mut tree: Tree<()> = Tree::new(white());
    let a = Empty::new().node().register(&mut tree).unwrap();
    let b = Empty::new().node().register(&mut tree).unwrap();
    let c = Empty::new().node().register(&mut tree).unwrap();
    let root = Node::empty().and_child(a).and_child(b).and_child(c).register(&mut tree).unwrap();
    // b is painted first, then a and c, which share a place, as they were added
    let layouts = vec![
        layout(1, 10, 0, 5, 5, 0),
        layout(0, 20, 0, 5, 5, 0),
        layout(1, 30, 0, 5, 5, 0),
        layout(0, 0, 0, 50, 10, 0),
    ];
    let plan = tree.paint_plan(&layouts, root).unwrap();
    let nodes: Vec<(usize, Pass)> = plan.iter().map(|s| (s.node.get(), s.pass)).collect();
    assert_eq!(
        nodes,
        vec![
            (3, Pass::Below),
            (1, Pass::Below),
            (1, Pass::Above),
            (0, Pass::Below),
            (0, Pass::Above),
            (2, Pass::Below),
            (2, Pass::Above),
            (3, Pass::Above),
        ]
    );
    assert_eq!(plan[1].area, Rect::from_nw(Vec2::new(20, 0), Vec2::new(5, 5)));
}

#[test]
fn nested_nodes_add_up_their_positions() {
    let mut tree: Tree<()> = Tree::new(white());
    let inner = Block::new().with_background(black()).node().register(&mut tree).unwrap();
    let middle = Node::empty().and_child(inner).register(&mut tree).unwrap();
    let root = Node::empty().and_child(middle).register(&mut tree).unwrap();
    let layouts = vec![
        layout(0, 1, 2, 2, 1, 0),
        layout(0, 3, 1, 5, 5, 0),
        layout(0, 0, 0, 10, 8, 0),
    ];
    let plan = tree.paint_plan(&layouts, root).unwrap();
    assert_eq!(
        plan[2],
        PaintStep {
            node: inner,
            pass: Pass::Below,
            area: Rect::from_nw(Vec2::new(4, 3), Vec2::new(2, 1)),
        }
    );
    let image = tree.render(&mut (), root, &layouts).unwrap();
    for y in 0..8 {
        for x in 0..10 {
            let inside = (x == 4 || x == 5) && y == 3;
            let expected = if inside { black() } else { white() };
            assert_eq!(*image.at(Vec2::new(x, y)).unwrap(), expected);
        }
    }
}

#[test]
fn render_rejects_bad_layouts() {
    let mut tree: Tree<()> = Tree::new(white());
    let root = Node::empty().register(&mut tree).unwrap();
    assert_eq!(tree.render(&mut (), root, &vec![]).err(), Some(RenderError::LayoutMismatch));
    assert_eq!(
        tree.render(&mut (), root, &vec![layout(0, 1, 0, 4, 4, 0)]).err(),
        Some(RenderError::RootNotAtOrigin)
    );
    assert_eq!(
        tree.render(&mut (), root, &vec![layout(0, 0, 0, -1, 4, 0)]).err(),
        Some(RenderError::OutOfRange)
    );
}

struct Failing;

fn boxed<W: Widget<u32> + 'static>(widget: W) -> Box<dyn Widget<u32>> {
    Box::new(widget)
}

impl Widget<u32> for Failing {
    fn draw_below(&mut self, ctx: &mut u32, _view: &mut View<'_>, _layout: &Layout) -> Result<(), RenderError> {
        *ctx += 1;
        Err(RenderError::Widget("no ink".to_string()))
    }
}

struct Counting;

impl Widget<u32> for Counting {
    fn draw_above(&mut self, ctx: &mut u32, _view: &mut View<'_>, _layout: &Layout) -> Result<(), RenderError> {
        *ctx += 10;
        Ok(())
    }
}

#[test]
fn widget_error_aborts_render() {
    let mut tree: Tree<u32> = Tree::new(white());
    let first = boxed(Counting).node().register(&mut tree).unwrap();
    let second = boxed(Failing).node().register(&mut tree).unwrap();
    let third = boxed(Counting).node().register(&mut tree).unwrap();
    let root = Node::empty()
        .and_child(first)
        .and_child(second)
        .and_child(third)
        .register(&mut tree)
        .unwrap();
    let layouts = vec![
        layout(0, 0, 0, 1, 1, 0),
        layout(1, 0, 0, 1, 1, 0),
        layout(2, 0, 0, 1, 1, 0),
        layout(0, 0, 0, 4, 4, 0),
    ];
    let mut calls = 0;
    let r = tree.render(&mut calls, root, &layouts);
    assert_eq!(r.err(), Some(RenderError::Widget("no ink".to_string())));
    assert_eq!(calls, 11);
}

#[test]
fn view_set_blends_and_replace_overwrites() {
    let mut buffer = Buffer::new(Vec2::new(4, 4), white());
    let mut view = View::new(&mut buffer).zoom(Rect::from_nw(Vec2::new(1, 1), Vec2::new(2, 2)));
    assert_eq!(view.size(), Vec2::new(2, 2));
    view.set(Vec2::new(0, 0), black());
    view.set(Vec2::new(1, 0), transparent());
    view.replace(Vec2::new(1, 1), transparent());
    view.set(Vec2::new(0, 1), Rgba::new(0, 0, 0, 128));
    view.set(Vec2::new(5, 5), black());
    assert_eq!(view.get(Vec2::new(0, 0)), Some(black()));
    assert_eq!(view.get(Vec2::new(1, 0)), Some(white()));
    assert_eq!(view.get(Vec2::new(1, 1)), Some(transparent()));
    assert_eq!(view.get(Vec2::new(0, 1)), Some(Rgba::new(127, 127, 127, 255)));
    assert_eq!(view.get(Vec2::new(-1, -1)), Some(white()));
    assert_eq!(view.get(Vec2::new(3, 0)), None);
    assert_eq!(view.get(Vec2::new(-2, 0)), None);
    assert_eq!(*buffer.at(Vec2::new(1, 1)).unwrap(), black());
}

#[test]
fn zoom_twice_is_zoom_by_composed_rect() {
    let a = Rect::from_nw(Vec2::new(2, 3), Vec2::new(6, 6));
    let b = Rect::from_nw(Vec2::new(1, 2), Vec2::new(2, 2));
    let mut one = Buffer::new(Vec2::new(10, 10), white());
    let mut two = Buffer::new(Vec2::new(10, 10), white());
    {
        let mut v = View::new(&mut one).zoom(a).zoom(b);
        v.rect(v.area(), black());
    }
    {
        let mut v = View::new(&mut two).zoom(b + a.corner_nw());
        v.rect(v.area(), black());
    }
    for y in 0..10 {
        for x in 0..10 {
            let p = Vec2::new(x, y);
            assert_eq!(one.at(p), two.at(p));
            let inside = (3..5).contains(&x) && (5..7).contains(&y);
            assert_eq!(*one.at(p).unwrap() == black(), inside);
        }
    }
}

#[test]
fn buffer_bounds_need_both_axes() {
    let mut buffer = Buffer::new(Vec2::new(3, 2), 0u8);
    assert!(buffer.at(Vec2::new(2, 1)).is_some());
    assert!(buffer.at(Vec2::new(3, 1)).is_none());
    assert!(buffer.at(Vec2::new(2, 2)).is_none());
    assert!(buffer.at(Vec2::new(-1, 0)).is_none());
    assert!(buffer.at(Vec2::new(0, -1)).is_none());
    assert!(buffer.at(Vec2::new(5, -1)).is_none());
    buffer.set(Vec2::new(4, 0), 9);
    buffer.set(Vec2::new(1, 1), 7);
    *buffer.at_mut(Vec2::new(0, 0)).unwrap() = 5;
    assert!(buffer.at_mut(Vec2::new(0, 2)).is_none());
    let all: Vec<u8> = (0..2)
        .flat_map(|y| (0..3).map(move |x| (x, y)))
        .map(|(x, y)| *buffer.at(Vec2::new(x, y)).unwrap())
        .collect();
    assert_eq!(all, vec![5, 0, 0, 0, 7, 0]);
    assert_eq!(buffer.index(Vec2::new(1, 1)), Some(4));
    let empty = Buffer::new(Vec2::new(0, 5), 1u8);
    assert!(empty.at(Vec2::new(0, 0)).is_none());
}

#[test]
fn boxed_block_draws_like_block_node() {
    let red = Rgba::new(200, 0, 0, 255);
    let block = || Block::new().with_background(red).with_border(black());
    let layouts = vec![layout(0, 0, 0, 7, 5, 1)];

    let mut known: Tree<()> = Tree::new(white());
    let root = Node::empty().with_widget(block()).register(&mut known).unwrap();
    let by_kind = known.render(&mut (), root, &layouts).unwrap();

    let mut tagged: Tree<()> = Tree::new(white());
    let root = Node::empty()
        .with_widget(NodeWidget::Block(block()))
        .register(&mut tagged)
        .unwrap();
    let by_tag = tagged.render(&mut (), root, &layouts).unwrap();

    let mut boxed: Tree<()> = Tree::new(white());
    let in_box: Box<dyn Widget<()>> = Box::new(block());
    let root = Node::empty().with_widget(in_box).register(&mut boxed).unwrap();
    let by_box = boxed.render(&mut (), root, &layouts).unwrap();

    for y in 0..5 {
        for x in 0..7 {
            let at = Vec2::new(x, y);
            let ring = x < 1 || x >= 6 || y < 1 || y >= 4;
            let expected = if ring { black() } else { red };
            assert_eq!(*by_kind.at(at).unwrap(), expected, "at {x}, {y}");
            assert_eq!(by_tag.at(at), by_kind.at(at));
            assert_eq!(by_box.at(at), by_kind.at(at));
        }
    }
}

#[test]
fn later_step_paints_over_earlier_one() {
    let mut tree: Tree<()> = Tree::new(white());
    let red = Rgba::new(200, 0, 0, 255);
    let child = Block::new().with_background(red).node().register(&mut tree).unwrap();
    let root = Block::new()
        .with_background(black())
        .node()
        .and_child(child)
        .register(&mut tree)
        .unwrap();
    let layouts = vec![layout(0, 1, 0, 2, 1, 0), layout(0, 0, 0, 4, 1, 0)];
    let out = tree.render(&mut (), root, &layouts).unwrap();
    let row: Vec<Rgba> = (0..4).map(|x| *out.at(Vec2::new(x, 0)).unwrap()).collect();
    assert_eq!(row, vec![black(), red, red, black()]);
}

#[test]
fn known_widgets_without_content_ask_nothing() {
    let mut tree: Tree<()> = Tree::new(white());
    let block = Block::new().node().register(&mut tree).unwrap();
    let empty = Empty::new().node().register(&mut tree).unwrap();
    let bare = Node::empty().register(&mut tree).unwrap();
    let known = Size { width: Some(30), height: Some(20) };
    let room = Size { width: AvailableSpace::MaxContent, height: AvailableSpace::MaxContent };
    for id in [block, empty, bare] {
        let asked = tree.size(&mut (), id, known, room);
        assert_eq!((asked.width, asked.height), (0, 0));
    }
    assert!(tree.has_widget(block) && tree.has_widget(empty) && !tree.has_widget(bare));
}
