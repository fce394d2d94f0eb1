use showbits::buffer::Buffer;
use showbits::cells::{
    apply_rule, b2c, c2b, cells_size, generate_image, grow, is_interesting, neighbors_at,
    read_row, CellsSize,
};
use showbits::color::{black, white, Rgba};
use showbits::dither::{dither, DitherAlgorithm, DitherError};
use showbits::typst::Typst;
use showbits::util::{bool_from_str, is_safe, sanitize};
use showbits::vec2::Vec2;

fn uniform(width: i32, height: i32, color: Rgba) -> Buffer<Rgba> {
    Buffer::new(Vec2::new(width, height), color)
}

fn pixels(image: &Buffer<Rgba>) -> Vec<Rgba> {
    let size = image.size();
    let mut all = vec![];
    for y in 0..size.y {
        for x in 0..size.x {
            all.push(*image.at(Vec2::new(x, y)).unwrap());
        }
    }
    all
}

fn linear(value: u8) -> i64 {
    let color: palette::LinSrgb = palette::Srgb::new(value, value, value).into_linear();
    color.into_format::<u16>().red as i64
}

#[test]
fn black_and_white_images_stay_as_they_are() {
    let palette = vec![black(), white()];
    for algorithm in [DitherAlgorithm::FloydSteinberg, DitherAlgorithm::Stucki] {
        for color in [black(), white(), Rgba::new(0, 0, 0, 7), Rgba::new(255, 255, 255, 0)] {
            let image = uniform(7, 5, color);
            let out = algorithm.dither(uniform(7, 5, color), &palette);
            assert_eq!(out.size(), Vec2::new(7, 5));
            assert_eq!(pixels(&out), pixels(&image));
        }
    }
}

#[test]
fn dithering_is_deterministic() {
    let mut image = uniform(9, 9, white());
    for y in 0..9 {
        for x in 0..9 {
            let v = (x * 28 + y * 3) as u8;
            image.set(Vec2::new(x, y), Rgba::new(v, 255 - v, v / 2, (x + y) as u8));
        }
    }
    let palette = vec![black(), white()];
    let a = DitherAlgorithm::Stucki.dither(image.clone(), &palette);
    let b = DitherAlgorithm::Stucki.dither(image.clone(), &palette);
    assert_eq!(pixels(&a), pixels(&b));
    for (out, given) in pixels(&a).iter().zip(pixels(&image)) {
        assert!(*out == Rgba::new(0, 0, 0, given.a) || *out == Rgba::new(255, 255, 255, given.a));
    }
}

/// A row of grey dithered by hand: each pixel hands its error to the right.
fn row_by_hand(values: &[u8], shares: &[(usize, i64)], divisor: i64) -> Vec<bool> {
    let mut errors = vec![0i64; values.len()];
    let mut white = vec![];
    for (i, value) in values.iter().enumerate() {
        let light = linear(*value) + errors[i];
        let is_white = (65535 - light) * (65535 - light) < light * light;
        white.push(is_white);
        let error = light - if is_white { 65535 } else { 0 };
        for (offset, weight) in shares {
            if i + offset < values.len() {
                errors[i + offset] += error * weight / divisor;
            }
        }
    }
    white
}

#[test]
fn grey_row_matches_hand_computation() {
    let values: Vec<u8> = (0..40).map(|i| (100 + 3 * i) as u8).collect();
    let mut image = uniform(40, 1, white());
    for (x, v) in values.iter().enumerate() {
        image.set(Vec2::new(x as i32, 0), Rgba::new(*v, *v, *v, 255));
    }
    let palette = vec![black(), white()];
    let floyd = DitherAlgorithm::FloydSteinberg.dither(image.clone(), &palette);
    let expected = row_by_hand(&values, &[(1, 7)], 16);
    assert!(expected.contains(&true) && expected.contains(&false));
    let got: Vec<bool> = pixels(&floyd).iter().map(|p| *p == white()).collect();
    assert_eq!(got, expected);
    let stucki = DitherAlgorithm::Stucki.dither(image.clone(), &palette);
    let expected = row_by_hand(&values, &[(1, 8), (2, 4)], 42);
    let got: Vec<bool> = pixels(&stucki).iter().map(|p| *p == white()).collect();
    assert_eq!(got, expected);
}

#[test]
fn error_goes_to_the_row_below() {
    // one grey pixel above three black ones: its error lightens the row below
    let grey = 187;
    let mut image = uniform(3, 2, black());
    image.set(Vec2::new(1, 0), Rgba::new(grey, grey, grey, 255));
    let out = DitherAlgorithm::FloydSteinberg.dither(image, &vec![black(), white()]);
    let light = linear(grey);
    assert!(light < 32768);
    // the pixel itself turns black and hands 3/16, 5/16 and 1/16 down
    assert_eq!(pixels(&out), vec![black(); 6]);
    let share = light * 5 / 16;
    assert!(share * 2 < 65535);
}

#[test]
fn nearest_colour_wins_and_first_wins_ties() {
    let red = Rgba::new(255, 0, 0, 255);
    let blue = Rgba::new(0, 0, 255, 255);
    let image = uniform(1, 1, Rgba::new(200, 0, 10, 9));
    let out = DitherAlgorithm::FloydSteinberg.dither(image, &vec![blue, red]);
    assert_eq!(pixels(&out), vec![Rgba::new(255, 0, 0, 9)]);
    let purple = uniform(1, 1, Rgba::new(255, 0, 255, 255));
    let out = DitherAlgorithm::Stucki.dither(purple, &vec![blue, red]);
    assert_eq!(pixels(&out), vec![blue]);
    let kept = DitherAlgorithm::Stucki.dither(uniform(2, 2, red), &vec![]);
    assert_eq!(pixels(&kept), vec![red; 4]);
}

#[test]
fn algorithms_have_names() {
    assert_eq!(DitherAlgorithm::from_name("floyd-steinberg"), Some(DitherAlgorithm::FloydSteinberg));
    assert_eq!(DitherAlgorithm::from_name("stucki"), Some(DitherAlgorithm::Stucki));
    assert_eq!(DitherAlgorithm::from_name("Stucki"), None);
    assert_eq!(DitherAlgorithm::from_name(""), None);
    assert_eq!(dither(uniform(2, 2, white()), "atkinson").err(), Some(DitherError::UnknownAlgorithm));
    let out = dither(uniform(2, 2, white()), "stucki").unwrap();
    assert_eq!(pixels(&out), vec![white(); 4]);
    assert_eq!(DitherAlgorithm::FloydSteinberg.tap_list().iter().map(|t| t.weight).sum::<i32>(), 16);
    assert_eq!(DitherAlgorithm::Stucki.tap_list().iter().map(|t| t.weight).sum::<i32>(), 42);
    assert_eq!(DitherAlgorithm::FloydSteinberg.tap_divisor(), 16);
    assert_eq!(DitherAlgorithm::Stucki.tap_divisor(), 42);
}

#[test]
fn rule_90_draws_a_triangle() {
    let mut first = vec![false; 7];
    first[3] = true;
    let image = grow(&first, 4, 90);
    let rows: Vec<String> = (0..4)
        .map(|y| read_row(&image, y).iter().map(|c| if *c { '#' } else { '.' }).collect())
        .collect();
    assert_eq!(rows, vec!["...#...", "..#.#..", ".#...#.", "#.#.#.#"]);
    assert!(is_interesting(&image));
    assert_eq!(neighbors_at(&image, 0, 3), [false, true, false]);
    assert_eq!(neighbors_at(&image, 6, 3), [false, true, false]);
    assert_eq!(neighbors_at(&image, 3, 1), [true, false, true]);
}

#[test]
fn rules_are_read_bit_by_bit() {
    for rule in [0u8, 30, 90, 110, 184, 255] {
        for case in 0..8u8 {
            let neighbors = [case & 4 != 0, case & 2 != 0, case & 1 != 0];
            assert_eq!(apply_rule(rule, neighbors), rule & (1 << case) != 0);
        }
    }
    assert_eq!(b2c(true), black());
    assert_eq!(b2c(false), white());
    assert!(c2b(black()));
    assert!(!c2b(white()));
    assert!(!c2b(Rgba::new(0, 0, 0, 254)));
}

#[test]
fn repeating_rows_are_not_interesting() {
    let still = grow(&vec![true, false, true], 3, 204);
    assert!(!is_interesting(&still));
    let blinking = grow(&vec![false; 4], 8, 1);
    assert!(!is_interesting(&blinking));
    let one_row = grow(&vec![true, true], 1, 0);
    assert!(is_interesting(&one_row));
    let random = generate_image(5, 12, 30);
    assert_eq!(random.size(), Vec2::new(12, 5));
    for y in 1..5u32 {
        for x in 0..12u32 {
            let expected = apply_rule(30, neighbors_at(&random, x, y - 1));
            assert_eq!(c2b(*random.at(Vec2::new(x as i32, y as i32)).unwrap()), expected);
        }
    }
    for y in 0..5 {
        for x in 0..12 {
            let pixel = *random.at(Vec2::new(x, y)).unwrap();
            assert!(pixel == black() || pixel == white());
            assert_eq!(pixel, b2c(c2b(pixel)));
        }
    }
}

#[test]
fn cells_sizes_are_clamped() {
    assert_eq!(cells_size(None, None), CellsSize { scale: 4, rows: 128, cols: 96 });
    assert_eq!(cells_size(Some(0), Some(0)), CellsSize { scale: 1, rows: 1, cols: 384 });
    assert_eq!(cells_size(Some(99), Some(99)), CellsSize { scale: 16, rows: 64, cols: 24 });
    assert_eq!(cells_size(Some(3), None), CellsSize { scale: 3, rows: 170, cols: 128 });
    assert_eq!(cells_size(Some(3), Some(342)), CellsSize { scale: 3, rows: 341, cols: 128 });
}

#[test]
fn sanitize_keeps_what_the_printer_knows() {
    assert_eq!(sanitize("Hello, world!\n"), "Hello, world!\n");
    assert_eq!(sanitize("tab\there\r\n"), "tabhere\n");
    assert_eq!(sanitize("Gr\u{fc}\u{df}e \u{2502}\u{2500}\u{2510} \u{3c0}\u{2248}3"), "Gr\u{fc}\u{df}e \u{2502}\u{2500}\u{2510} \u{3c0}\u{2248}3");
    assert_eq!(sanitize("\u{20ac}5 \u{1f600} \u{a0}\u{7f}"), "5  ");
    assert_eq!(sanitize(""), "");
    assert!(is_safe('~') && is_safe('!') && is_safe(' ') && is_safe('\u{25a0}') && is_safe('\u{c7}'));
    assert!(!is_safe('\u{7f}') && !is_safe('\u{0}') && !is_safe('\u{a0}') && !is_safe('\u{e3}'));
    let upper: String = (128..=254u8)
        .map(|b| "ÇüéâäàåçêëèïîìÄÅÉæÆôöòûùÿÖÜ¢£¥₧ƒáíóúñÑªº¿⌐¬½¼¡«»░▒▓│┤╡╢╖╕╣║╗╝╜╛┐└┴┬├─┼╞╟╚╔╩╦╠═╬╧╨╤╥╙╘╒╓╫╪┘┌█▄▌▐▀αßΓπΣσµτΦΘΩδ∞φε∩≡±≥≤⌠⌡÷≈°∙·√ⁿ²■".chars().nth(b as usize - 128).unwrap())
        .collect();
    assert_eq!(upper.chars().count(), 127);
    assert_eq!(sanitize(&upper), upper);
}

#[test]
fn truth_values_are_spelled_out() {
    assert_eq!(bool_from_str("true"), Some(true));
    assert_eq!(bool_from_str("false"), Some(false));
    assert_eq!(bool_from_str("True"), None);
    assert_eq!(bool_from_str(""), None);
    assert_eq!(bool_from_str("1"), None);
}

#[test]
fn typst_files_replace_by_path() {
    let typst = Typst::new()
        .with_file("/lib/main.typ".to_string(), b"lib".to_vec())
        .with_file("/data.json".to_string(), b"{}".to_vec())
        .with_main_file(b"first".to_vec());
    assert_eq!(typst.get_file_bytes("/main.typ"), Some(&b"first".to_vec()));
    assert_eq!(typst.get_file_bytes("/nothing"), None);
    let mut typst = typst;
    typst.add_main_file(b"second".to_vec());
    typst.add_file("/data.json".to_string(), b"[1]".to_vec());
    assert_eq!(typst.get_file_bytes("/main.typ"), Some(&b"second".to_vec()));
    assert_eq!(typst.get_file_bytes("/data.json"), Some(&b"[1]".to_vec()));
    assert_eq!(typst.get_file_bytes("/lib/main.typ"), Some(&b"lib".to_vec()));
    assert_eq!(Typst::default().get_file_bytes("/main.typ"), None);
}

#[test]
fn colour_column_matches_hand_computation() {
    // black and white differ from orange in all of red, green and blue; in a
    // column one pixel wide only the 5 of 16 parts that go straight down stay
    let orange = Rgba::new(255, 170, 0, 255);
    let image = uniform(1, 60, orange);
    let out = DitherAlgorithm::FloydSteinberg.dither(image, &vec![black(), white()]);
    let own = [linear(255), linear(170), linear(0)];
    let mut error = [0i64; 3];
    let mut expected = vec![];
    for _ in 0..60 {
        let light = [own[0] + error[0], own[1] + error[1], own[2] + error[2]];
        let to_black: i128 = light.iter().map(|c| (*c as i128) * (*c as i128)).sum();
        let to_white: i128 =
            light.iter().map(|c| ((65535 - *c) as i128) * ((65535 - *c) as i128)).sum();
        let is_white = to_white < to_black;
        expected.push(if is_white { white() } else { black() });
        for c in 0..3 {
            let rest = light[c] - if is_white { 65535 } else { 0 };
            error[c] = rest * 5 / 16;
        }
    }
    assert!(expected.contains(&white()) && expected.contains(&black()));
    assert_eq!(pixels(&out), expected);
}

#[test]
fn mixed_black_and_white_image_stays_as_it_is() {
    let mut image = uniform(7, 5, black());
    for y in 0..5 {
        for x in 0..7 {
            if (x * 3 + y) % 4 < 2 {
                image.set(Vec2::new(x, y), Rgba::new(255, 255, 255, (x * 30 + y) as u8));
            }
        }
    }
    for name in ["floyd-steinberg", "stucki"] {
        let out = dither(image.clone(), name).unwrap();
        assert_eq!(pixels(&out), pixels(&image));
    }
}
