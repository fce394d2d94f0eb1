use std::io::Cursor;

use showbits::buffer::Buffer;
use showbits::color::{black, transparent, white, Rgba};
use showbits::dither::DitherAlgorithm;
use showbits::drawer::{CellsDrawing, NewTypstDrawing, TicTacToeDrawing};
use showbits::node::{Node, WidgetExt};
use showbits::plugin::{
    bool_from_bytes, i64_from_bytes, read_request, size_from_bytes, str_from_bytes, DitherRequest,
    PluginError,
};
use showbits::tree::Tree;
use showbits::typst::Typst;
use showbits::vec2::Vec2;
use showbits::view::View;
use showbits::widget::{AvailableSpace, Layout, Sides, Size, Widget};
use showbits::widgets::background::Background;
use showbits::widgets::block::Block;
use showbits::widgets::empty::Empty;
use showbits::widgets::image::{fitted_size, from_bytes, to_bytes, FilterType, Image};

fn chessboard(width: i32, height: i32) -> Buffer<Rgba> {
    let mut image = Buffer::new(Vec2::new(width, height), white());
    for y in 0..height {
        for x in 0..width {
            if (x + y) % 2 == 0 {
                image.set(Vec2::new(x, y), Rgba::new(x as u8, y as u8, 7, 255));
            }
        }
    }
    image
}

fn pixels(image: &Buffer<Rgba>) -> Vec<Rgba> {
    let size = image.size();
    let mut all = vec![];
    for y in 0..size.y {
        for x in 0..size.x {
            all.push(*image.at(Vec2::new(x, y)).unwrap());
        }
    }
    all
}

fn known(width: Option<i32>, height: Option<i32>) -> Size<Option<i32>> {
    Size { width, height }
}

fn room(width: AvailableSpace, height: AvailableSpace) -> Size<AvailableSpace> {
    Size { width, height }
}

#[test]
fn bytes_hold_pixels_row_by_row() {
    let image = chessboard(3, 2);
    let bytes = to_bytes(&image);
    assert_eq!(bytes.len(), 24);
    assert_eq!(&bytes[..8], &[0, 0, 7, 255, 255, 255, 255, 255]);
    assert_eq!(&bytes[16..20], &[1, 1, 7, 255]);
    let back = from_bytes(&bytes, 3, 2);
    assert_eq!(back.size(), Vec2::new(3, 2));
    assert_eq!(pixels(&back), pixels(&image));
}

#[test]
fn spooled_image_survives_png() {
    let image = chessboard(384, 3);
    let raw = image::RgbaImage::from_raw(384, 3, to_bytes(&image)).unwrap();
    let mut file: Vec<u8> = Vec::new();
    raw.write_to(&mut Cursor::new(&mut file), image::ImageFormat::Png).unwrap();
    let read = image::load_from_memory(&file).unwrap().into_rgba8();
    let back = from_bytes(read.as_raw(), read.width(), read.height());
    assert_eq!(back.size(), image.size());
    assert_eq!(pixels(&back), pixels(&image));
}

#[test]
fn image_measures_within_bounds() {
    let widget = Image::new(chessboard(40, 20));
    let free = room(AvailableSpace::MaxContent, AvailableSpace::MaxContent);
    let size = widget.measure(known(None, None), free);
    assert_eq!((size.width, size.height), (40, 20));
    let size = widget.measure(known(Some(10), None), free);
    assert_eq!((size.width, size.height), (10, 5));
    let size = widget.measure(known(None, Some(7)), free);
    assert_eq!((size.width, size.height), (14, 7));
    let size = widget.measure(
        known(None, None),
        room(AvailableSpace::Definite(30), AvailableSpace::Definite(3)),
    );
    assert_eq!((size.width, size.height), (6, 3));
    let size = widget.measure(known(Some(80), None), free);
    assert_eq!((size.width, size.height), (40, 20));
    let size = widget.measure(known(None, None), room(AvailableSpace::MinContent, AvailableSpace::MaxContent));
    assert_eq!((size.width, size.height), (0, 0));
    let size = widget.measure(known(Some(-5), None), free);
    assert_eq!((size.width, size.height), (0, 0));

    let growing = Image::new(chessboard(40, 20)).with_grow(true).with_shrink(false);
    let size = growing.measure(known(Some(80), None), free);
    assert_eq!((size.width, size.height), (80, 40));
    let size = growing.measure(known(Some(10), None), free);
    assert_eq!((size.width, size.height), (40, 20));
    let size = growing.measure(known(Some(i32::MAX), Some(i32::MAX)), free);
    assert_eq!((size.width, size.height), (i32::MAX, 1073741823));
    let tall = Image::new(chessboard(20, 40)).with_grow(true);
    let size = tall.measure(known(Some(i32::MAX), None), free);
    assert_eq!((size.width, size.height), (i32::MAX, i32::MAX));

    let empty = Image::new(Buffer::new(Vec2::new(0, 9), white()));
    let size = empty.measure(known(Some(80), None), free);
    assert_eq!((size.width, size.height), (0, 0));
}

#[test]
fn image_is_resized_and_dithered() {
    let source = chessboard(2, 2);
    let widget = Image::new(chessboard(2, 2)).with_filter(FilterType::Nearest);
    let same = widget.prepared(2, 2).unwrap();
    assert_eq!(pixels(&same), pixels(&source));
    let doubled = widget.prepared(4, 4).unwrap();
    assert_eq!(doubled.size(), Vec2::new(4, 4));
    for y in 0..4 {
        for x in 0..4 {
            assert_eq!(doubled.at(Vec2::new(x, y)), source.at(Vec2::new(x / 2, y / 2)));
        }
    }
    assert!(widget.prepared(u32::MAX, 1).is_none());
    for filter in [FilterType::Triangle, FilterType::CatmullRom, FilterType::Gaussian, FilterType::Lanczos3] {
        let other = Image::new(chessboard(2, 2)).with_filter(filter);
        assert_eq!(other.prepared(5, 3).unwrap().size(), Vec2::new(5, 3));
        assert_eq!(pixels(&other.prepared(2, 2).unwrap()), pixels(&source));
    }
    assert_eq!(widget.prepared(0, 3).unwrap().size(), Vec2::new(0, 3));

    let dithered = Image::new(chessboard(2, 2))
        .with_filter(FilterType::Nearest)
        .with_dither_palette(vec![black(), white()])
        .with_dither_algorithm(DitherAlgorithm::Stucki)
        .prepared(2, 2)
        .unwrap();
    assert_eq!(pixels(&dithered), vec![black(), white(), white(), black()]);
}

#[test]
fn image_fills_its_node() {
    let mut tree: Tree<()> = Tree::new(white());
    let image = Image::new(Buffer::new(Vec2::new(1, 1), black()))
        .with_filter(FilterType::Nearest)
        .node()
        .register(&mut tree)
        .unwrap();
    let root = Node::empty().and_child(image).register(&mut tree).unwrap();
    let border = Sides { left: 0, right: 0, top: 0, bottom: 0 };
    let layouts = vec![
        Layout { order: 0, location: Vec2::new(1, 2), size: Vec2::new(3, 2), border },
        Layout { order: 0, location: Vec2::new(0, 0), size: Vec2::new(5, 5), border },
    ];
    let out = tree.render(&mut (), root, &layouts).unwrap();
    for y in 0..5 {
        for x in 0..5 {
            let inside = (1..4).contains(&x) && (2..4).contains(&y);
            assert_eq!(*out.at(Vec2::new(x, y)).unwrap() == black(), inside);
        }
    }
    assert_eq!(tree.size(&mut (), image, known(Some(7), None), room(AvailableSpace::MaxContent, AvailableSpace::MaxContent)).width, 1);
    assert_eq!(tree.size(&mut (), root, known(Some(7), None), room(AvailableSpace::MaxContent, AvailableSpace::MaxContent)).width, 0);
    assert!(tree.has_widget(image) && !tree.has_widget(root));
    assert_eq!(tree.children(root).unwrap(), &vec![image]);
    assert_eq!(tree.node_id(1), Some(root));
    assert_eq!(tree.node_id(2), None);
    assert!(tree.layout(root).is_some());
    assert_eq!(tree.background(), white());
}

#[test]
fn view_stamps_an_image() {
    let mut buffer = Buffer::new(Vec2::new(4, 3), white());
    let mut stamp = Buffer::new(Vec2::new(2, 2), black());
    stamp.set(Vec2::new(1, 1), transparent());
    {
        let mut view = View::new(&mut buffer)
            .zoom(showbits::rect::Rect::from_nw(Vec2::new(3, 1), Vec2::new(1, 1)));
        view.image(&stamp);
    }
    let expected = vec![
        white(), white(), white(), white(),
        white(), white(), white(), black(),
        white(), white(), white(), black(),
    ];
    assert_eq!(pixels(&buffer), expected);
}

#[test]
fn background_fills_before_its_widget() {
    let mut tree: Tree<()> = Tree::new(white());
    let inner: Box<dyn Widget<()>> = Box::new(Block::new().with_border(black()));
    let node = Background::new(inner, Rgba::new(9, 9, 9, 255)).node().register(&mut tree).unwrap();
    let border = Sides { left: 1, right: 0, top: 0, bottom: 0 };
    let layouts = vec![Layout { order: 0, location: Vec2::new(0, 0), size: Vec2::new(2, 1), border }];
    let out = tree.render(&mut (), node, &layouts).unwrap();
    assert_eq!(pixels(&out), vec![black(), Rgba::new(9, 9, 9, 255)]);
    let mut nothing: Box<dyn Widget<()>> = Box::new(Empty::default());
    let asked = nothing.size(&mut (), known(None, None), room(AvailableSpace::MinContent, AvailableSpace::MinContent));
    assert_eq!((asked.width, asked.height), (0, 0));
}

#[test]
fn background_fill_covers_window() {
    let mut buffer = Buffer::new(Vec2::new(3, 2), white());
    let inner: Box<dyn Widget<()>> = Box::new(Empty::new());
    let widget = Background::new(inner, Rgba::new(0, 0, 0, 128));
    {
        let mut view = View::new(&mut buffer)
            .zoom(showbits::rect::Rect::from_nw(Vec2::new(1, 0), Vec2::new(1, 2)));
        widget.fill(&mut view);
    }
    let grey = Rgba::new(127, 127, 127, 255);
    assert_eq!(pixels(&buffer), vec![white(), grey, white(), white(), grey, white()]);
}

#[test]
fn widget_without_content_asks_nothing_and_draws_nothing() {
    let mut buffer = Buffer::new(Vec2::new(2, 2), Rgba::new(1, 2, 3, 4));
    let mut widget = Empty::new();
    let mut calls = 7u32;
    let border = Sides { left: 1, right: 1, top: 1, bottom: 1 };
    let layout = Layout { order: 0, location: Vec2::new(0, 0), size: Vec2::new(2, 2), border };
    {
        let mut view = View::new(&mut buffer);
        assert_eq!(widget.draw_below(&mut calls, &mut view, &layout), Ok(()));
        assert_eq!(widget.draw_above(&mut calls, &mut view, &layout), Ok(()));
    }
    let asked = widget.size(
        &mut calls,
        known(Some(5), Some(6)),
        room(AvailableSpace::Definite(9), AvailableSpace::MaxContent),
    );
    assert_eq!((asked.width, asked.height), (0, 0));
    assert_eq!(calls, 7);
    assert_eq!(pixels(&buffer), vec![Rgba::new(1, 2, 3, 4); 4]);
    let mut image = Image::new(chessboard(40, 20));
    let asked = Widget::<u32>::size(
        &mut image,
        &mut calls,
        known(Some(10), None),
        room(AvailableSpace::MaxContent, AvailableSpace::MaxContent),
    );
    assert_eq!((asked.width, asked.height), (10, 5));
    assert_eq!(calls, 7);
}

#[test]
fn block_sides_do_not_overlap() {
    let mut buffer = Buffer::new(Vec2::new(5, 4), white());
    let half = Rgba::new(0, 0, 0, 128);
    {
        let mut view = View::new(&mut buffer);
        Block::new().with_border(half).draw(&mut view, Sides { left: 1, right: 2, top: 1, bottom: 1 });
    }
    let grey = Rgba::new(127, 127, 127, 255);
    let expected = vec![
        grey, grey, grey, grey, grey,
        grey, white(), white(), grey, grey,
        grey, white(), white(), grey, grey,
        grey, grey, grey, grey, grey,
    ];
    assert_eq!(pixels(&buffer), expected);
    let mut small = Buffer::new(Vec2::new(2, 2), white());
    {
        let mut view = View::new(&mut small);
        Block::default()
            .with_border(black())
            .with_background(Rgba::new(1, 2, 3, 255))
            .draw(&mut view, Sides { left: 1, right: 0, top: 2, bottom: -3 });
    }
    assert_eq!(pixels(&small), vec![black(); 4]);
}

fn le(n: i64) -> Vec<u8> {
    n.to_le_bytes().to_vec()
}

#[test]
fn plugin_numbers_are_little_endian() {
    assert_eq!(i64_from_bytes(&[1, 2, 0, 0, 0, 0, 0, 0]), Ok(513));
    assert_eq!(i64_from_bytes(&[0xff; 8]), Ok(-1));
    for n in [0, 1, -1, 255, 256, i64::MAX, i64::MIN, -123456789012345, 0x0102030405060708] {
        assert_eq!(i64_from_bytes(&le(n)), Ok(n));
    }
    assert_eq!(i64_from_bytes(&[1, 2, 3]), Err(PluginError::NotEightBytes));
    assert_eq!(i64_from_bytes(&[0; 9]), Err(PluginError::NotEightBytes));
    assert_eq!(bool_from_bytes(&le(0)), Ok(false));
    assert_eq!(bool_from_bytes(&le(-7)), Ok(true));
    assert_eq!(bool_from_bytes(&[]), Err(PluginError::NotEightBytes));
    assert_eq!(size_from_bytes(&le(-1)), Ok(None));
    assert_eq!(size_from_bytes(&le(0)), Ok(Some(0)));
    assert_eq!(size_from_bytes(&le(u32::MAX as i64)), Ok(Some(u32::MAX)));
    assert_eq!(size_from_bytes(&le(u32::MAX as i64 + 1)), Err(PluginError::SizeTooLarge));
    assert_eq!(size_from_bytes(&[0]), Err(PluginError::NotEightBytes));
    assert_eq!(str_from_bytes("gr\u{fc}n".as_bytes()), Ok("gr\u{fc}n"));
    assert_eq!(str_from_bytes(&[0x67, 0xff]), Err(PluginError::NotUtf8));
}

#[test]
fn plugin_request_is_read_in_order() {
    let request = read_request(&le(384), &le(-1), &le(1), b"stucki");
    assert_eq!(
        request,
        Ok(DitherRequest {
            max_width: Some(384),
            max_height: None,
            bright: true,
            algorithm: Some(DitherAlgorithm::Stucki),
        })
    );
    assert_eq!(read_request(&le(1 << 40), &[], &[], &[0xff]), Err(PluginError::SizeTooLarge));
    assert_eq!(read_request(&le(1), &[], &[], &[0xff]), Err(PluginError::NotEightBytes));
    assert_eq!(read_request(&le(1), &le(1), &le(0), &[0xff]), Err(PluginError::NotUtf8));
}

#[test]
fn unknown_algorithm_shows_when_the_image_is_dithered() {
    let request = read_request(&le(1), &le(1), &le(0), b"bayer").unwrap();
    assert_eq!(request.algorithm, None);
    let image = Buffer::new(Vec2::new(2, 2), black());
    assert_eq!(request.dither(image).err(), Some(PluginError::UnknownAlgorithm));

    let request = read_request(&le(-1), &le(-1), &le(0), b"floyd-steinberg").unwrap();
    let mut image = Buffer::new(Vec2::new(2, 1), Rgba::new(250, 250, 250, 7));
    image.set(Vec2::new(1, 0), Rgba::new(3, 3, 3, 200));
    let out = request.dither(image).unwrap();
    assert_eq!(pixels(&out), vec![Rgba::new(255, 255, 255, 7), Rgba::new(0, 0, 0, 200)]);
}

#[test]
fn image_is_fitted_within_bounds() {
    assert_eq!(fitted_size(4, 8, Some(4), Some(6)), (3, 6));
    assert_eq!(fitted_size(4, 8, None, None), (4, 8));
    assert_eq!(fitted_size(4, 8, Some(8), None), (8, 16));
    assert_eq!(fitted_size(4, 8, None, Some(2)), (1, 2));
    assert_eq!(fitted_size(4, 8, Some(100), Some(100)), (50, 100));
    assert_eq!(fitted_size(1, 15, None, Some(1000)), (66, 1000));
    assert_eq!(fitted_size(7, 5, Some(384), None), (384, 274));
    assert_eq!(fitted_size(4, 8, Some(4), Some(8)), (4, 8));
    assert_eq!(fitted_size(0, 8, Some(4), Some(6)), (0, 0));
    assert_eq!(fitted_size(4, 8, Some(0), Some(6)), (0, 0));
    assert_eq!(fitted_size(u32::MAX, 1, None, Some(u32::MAX)), (u32::MAX, u32::MAX));
}

#[test]
fn board_has_lines_between_fields_only() {
    let sides = |x, y| {
        let s = TicTacToeDrawing::border(x, y, 2);
        (s.left, s.right, s.top, s.bottom)
    };
    assert_eq!(sides(0, 0), (0, 2, 0, 2));
    assert_eq!(sides(1, 1), (2, 2, 2, 2));
    assert_eq!(sides(2, 2), (2, 0, 2, 0));
    assert_eq!(sides(2, 0), (2, 0, 0, 2));
}

#[test]
fn cells_drawing_grows_cells() {
    let drawing = CellsDrawing { rule: 30, rows: 6, scale: 16 };
    let cells = drawing.cells().unwrap();
    assert_eq!(cells.size(), Vec2::new(24, 6));
    assert!(CellsDrawing { rule: 30, rows: 6, scale: 0 }.cells().is_none());
    assert!(CellsDrawing { rule: 30, rows: u32::MAX, scale: 1 }.cells().is_none());
    let typst = NewTypstDrawing::new(Typst::new().with_main_file(b"= Hi".to_vec()));
    assert_eq!(typst.0.get_file_bytes("/main.typ"), Some(&b"= Hi".to_vec()));
}

#[test]
fn image_in_its_own_size_comes_out_as_it_is() {
    let picture = chessboard(5, 3);
    for filter in [
        FilterType::Nearest,
        FilterType::Triangle,
        FilterType::CatmullRom,
        FilterType::Gaussian,
        FilterType::Lanczos3,
    ] {
        let mut tree: Tree<()> = Tree::new(black());
        let root = Node::empty()
            .with_widget(Image::new(chessboard(5, 3)).with_filter(filter))
            .register(&mut tree)
            .unwrap();
        let border = Sides { left: 0, right: 0, top: 0, bottom: 0 };
        let layouts =
            vec![Layout { order: 0, location: Vec2::new(0, 0), size: Vec2::new(5, 3), border }];
        let out = tree.render(&mut (), root, &layouts).unwrap();
        assert_eq!(pixels(&out), pixels(&picture));
    }
}
