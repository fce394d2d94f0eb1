//! One-dimensional cellular automata, drawn row below row.
//!
//! A cell is alive (black) or dead (white). Each row follows from the row
//! above it: what a cell becomes depends on the cell above and on that
//! cell's left and right neighbours, and the rule's number says for each of
//! the eight cases whether the cell lives. Beyond the edges all cells are
//! dead.

use vstd::prelude::*;
use crate::buffer::Buffer;
use crate::color::Rgba;
use crate::printer::WIDTH;
use crate::vec2::Vec2;

verus! {

/// The colour of a cell.
pub open spec fn color_of(alive: bool) -> Rgba {
    if alive {
        Rgba { r: 0, g: 0, b: 0, a: 255 }
    } else {
        Rgba { r: 255, g: 255, b: 255, a: 255 }
    }
}

/// Whether a pixel shows a living cell: only opaque black does.
pub open spec fn is_alive(color: Rgba) -> bool {
    color == (Rgba { r: 0, g: 0, b: 0, a: 255 })
}

/// Whether the cell at column `x` of row `y` lives. Outside of the image
/// no cell does.
pub open spec fn cell(image: Buffer<Rgba>, x: int, y: int) -> bool {
    0 <= x < image.spec_size().x && 0 <= y < image.spec_size().y && is_alive(
        image.pixel(Vec2 { x: x as i32, y: y as i32 }),
    )
}

/// The number of the case that three cells make: the left one counts 4,
/// the middle one 2 and the right one 1.
pub open spec fn case_of(left: bool, mid: bool, right: bool) -> int {
    (if left { 4int } else { 0 }) + (if mid { 2int } else { 0 }) + (if right { 1int } else { 0 })
}

/// Two to the power of `case`, for the eight cases.
pub open spec fn case_weight(case: int) -> int {
    if case == 0 {
        1
    } else if case == 1 {
        2
    } else if case == 2 {
        4
    } else if case == 3 {
        8
    } else if case == 4 {
        16
    } else if case == 5 {
        32
    } else if case == 6 {
        64
    } else {
        128
    }
}

/// Whether the rule lets the cell below the three cells live: the rule's
/// number has a binary digit for each case.
pub open spec fn rule_says(rule: u8, left: bool, mid: bool, right: bool) -> bool {
    (rule as int / case_weight(case_of(left, mid, right))) % 2 == 1
}

/// Whether the row `y` of the image follows from the row above it.
pub open spec fn row_follows(image: Buffer<Rgba>, rule: u8, y: int) -> bool {
    forall|x: int|
        0 <= x < image.spec_size().x ==> #[trigger] image.pixel(Vec2 { x: x as i32, y: y as i32 })
            == color_of(
            rule_says(rule, cell(image, x - 1, y - 1), cell(image, x, y - 1), cell(
                image,
                x + 1,
                y - 1,
            )),
        )
}

/// Whether the rows `y` and `z` of the image show the same cells.
pub open spec fn same_rows(image: Buffer<Rgba>, y: int, z: int) -> bool {
    forall|x: int| 0 <= x < image.spec_size().x ==> cell(image, x, y) == cell(image, x, z)
}

/// Whether the automaton has not yet run into a cycle: no row shows the
/// same cells as one of the five rows above it.
pub open spec fn interesting(image: Buffer<Rgba>) -> bool {
    forall|y: int, z: int|
        0 <= z < y < image.spec_size().y && y - z <= 5 ==> !#[trigger] same_rows(image, y, z)
}

/// The colour of a cell.
pub fn b2c(alive: bool) -> (color: Rgba)
    ensures
        color == color_of(alive),
        is_alive(color) == alive,
{
    if alive {
        Rgba { r: 0, g: 0, b: 0, a: 255 }
    } else {
        Rgba { r: 255, g: 255, b: 255, a: 255 }
    }
}

/// Whether a pixel shows a living cell.
pub fn c2b(color: Rgba) -> (alive: bool)
    ensures
        alive == is_alive(color),
{
    color.r == 0 && color.g == 0 && color.b == 0 && color.a == 255
}

/// Whether the cell at column `x` of row `y` lives.
fn cell_at(image: &Buffer<Rgba>, x: i64, y: i64) -> (alive: bool)
    ensures
        alive == cell(*image, x as int, y as int),
{
    proof {
        use_type_invariant(image);
    }
    if x < 0 || x > 0x7fff_ffff || y < 0 || y > 0x7fff_ffff {
        return false;
    }
    match image.at(Vec2::new(x as i32, y as i32)) {
        Some(pixel) => c2b(*pixel),
        None => false,
    }
}

/// The cell at column `x` of row `y` between its two neighbours.
pub fn neighbors_at(image: &Buffer<Rgba>, x: u32, y: u32) -> (cells: [bool; 3])
    requires
        x < image.spec_size().x,
        y < image.spec_size().y,
    ensures
        cells[0] == cell(*image, x - 1, y as int),
        cells[1] == cell(*image, x as int, y as int),
        cells[2] == cell(*image, x + 1, y as int),
{
    let left = cell_at(image, x as i64 - 1, y as i64);
    let mid = cell_at(image, x as i64, y as i64);
    let right = cell_at(image, x as i64 + 1, y as i64);
    [left, mid, right]
}

/// Whether the rule lets the cell below the three cells live.
pub fn apply_rule(rule: u8, neighbors: [bool; 3]) -> (alive: bool)
    ensures
        alive == rule_says(rule, neighbors[0], neighbors[1], neighbors[2]),
{
    let left: u8 = if neighbors[0] { 4 } else { 0 };
    let mid: u8 = if neighbors[1] { 2 } else { 0 };
    let right: u8 = if neighbors[2] { 1 } else { 0 };
    let case: u8 = left + mid + right;
    let weight: u8 = if case == 0 {
        1
    } else if case == 1 {
        2
    } else if case == 2 {
        4
    } else if case == 3 {
        8
    } else if case == 4 {
        16
    } else if case == 5 {
        32
    } else if case == 6 {
        64
    } else {
        128
    };
    (rule / weight) % 2 == 1
}

/// A byte taken at random with `rand::random`. Nothing is known of it.
#[verifier::external_body]
fn random_u8() -> (byte: u8) {
    rand::random()
}

/// A row of `cols` cells, each of them alive or dead at random.
pub fn random_row(cols: u32) -> (row: Vec<bool>)
    ensures
        row@.len() == cols,
{
    let mut row: Vec<bool> = Vec::new();
    let mut x: u32 = 0;
    while x < cols
        invariant
            x <= cols,
            row@.len() == x,
        decreases cols - x,
    {
        row.push(random_u8() % 2 == 1);
        x = x + 1;
    }
    row
}

/// A rule taken at random.
pub fn random_rule() -> (rule: u8) {
    random_u8()
}

/// The automaton that starts with the given row and runs for `rows` rows
/// by the given rule, as an image with a row for each step.
pub fn grow(first: &Vec<bool>, rows: u32, rule: u8) -> (image: Buffer<Rgba>)
    requires
        first@.len() <= i32::MAX,
        rows <= i32::MAX,
        first@.len() * rows <= usize::MAX,
    ensures
        image.spec_size().x == first@.len(),
        image.spec_size().y == rows,
        rows > 0 ==> forall|x: int|
            0 <= x < first@.len() ==> cell(image, x, 0) == #[trigger] first@[x],
        forall|y: int| 1 <= y < rows ==> #[trigger] row_follows(image, rule, y),
        forall|x: int, y: int|
            0 <= x < first@.len() && 0 <= y < rows ==> #[trigger] image.pixel(
                Vec2 { x: x as i32, y: y as i32 },
            ) == color_of(cell(image, x, y)),
{
    let cols: i32 = first.len() as i32;
    let size = Vec2::new(cols, rows as i32);
    let mut image = Buffer::new(size, b2c(false));
    assert forall|x: int, y: int| 0 <= x < cols && 0 <= y < rows implies #[trigger] image.pixel(
        Vec2 { x: x as i32, y: y as i32 },
    ) == color_of(false) by {
        crate::buffer::lemma_offset_bound(cols as int, rows as int, x, y);
    }
    if rows == 0 {
        return image;
    }
    let mut x: i32 = 0;
    while x < cols
        invariant
            0 <= x <= cols,
            cols == first@.len(),
            rows > 0,
            image.spec_size() == size,
            size.x == cols,
            size.y == rows,
            forall|i: int| 0 <= i < x ==> #[trigger] image.pixel(Vec2 { x: i as i32, y: 0 })
                == color_of(first@[i]),
            forall|i: int, j: int|
                0 <= i < cols && 0 <= j < rows && !(j == 0 && i < x) ==> #[trigger] image.pixel(
                    Vec2 { x: i as i32, y: j as i32 },
                ) == color_of(false),
        decreases cols - x,
    {
        proof {
            use_type_invariant(&image);
        }
        let ghost before = image;
        let pos = Vec2::new(x, 0);
        image.set(pos, b2c(first[x as usize]));
        proof {
            assert forall|i: int, j: int| 0 <= i < cols && 0 <= j < rows implies #[trigger] image.pixel(
                Vec2 { x: i as i32, y: j as i32 },
            ) == (if i == x && j == 0 {
                color_of(first@[x as int])
            } else {
                before.pixel(Vec2 { x: i as i32, y: j as i32 })
            }) by {
                before.lemma_one_pixel_set(
                    image,
                    pos,
                    color_of(first@[x as int]),
                    Vec2 { x: i as i32, y: j as i32 },
                );
            }
            assert forall|i: int| 0 <= i < x + 1 implies #[trigger] image.pixel(
                Vec2 { x: i as i32, y: 0 },
            ) == color_of(first@[i]) by {
                before.lemma_one_pixel_set(
                    image,
                    pos,
                    color_of(first@[x as int]),
                    Vec2 { x: i as i32, y: 0 },
                );
            }
        }
        x = x + 1;
    }
    let mut y: i32 = 1;
    while y < rows as i32
        invariant
            1 <= y <= rows,
            cols == first@.len(),
            image.spec_size() == size,
            size.x == cols,
            size.y == rows,
            forall|i: int| 0 <= i < cols ==> #[trigger] image.pixel(Vec2 { x: i as i32, y: 0 })
                == color_of(first@[i]),
            forall|j: int| 1 <= j < y ==> #[trigger] row_follows(image, rule, j),
            forall|i: int, j: int|
                0 <= i < cols && 0 <= j < rows ==> #[trigger] image.pixel(
                    Vec2 { x: i as i32, y: j as i32 },
                ) == color_of(cell(image, i, j)),
        decreases rows - y,
    {
        let ghost start = image;
        let mut x: i32 = 0;
        while x < cols
            invariant
                1 <= y < rows,
                0 <= x <= cols,
                cols == first@.len(),
                image.spec_size() == size,
                start.spec_size() == size,
                size.x == cols,
                size.y == rows,
                forall|i: int, j: int|
                    0 <= i < cols && 0 <= j < rows && !(j == y && i < x) ==> #[trigger] image.pixel(
                        Vec2 { x: i as i32, y: j as i32 },
                    ) == start.pixel(Vec2 { x: i as i32, y: j as i32 }),
                forall|i: int|
                    0 <= i < x ==> #[trigger] image.pixel(Vec2 { x: i as i32, y: y }) == color_of(
                        rule_says(
                            rule,
                            cell(start, i - 1, y - 1),
                            cell(start, i, y - 1),
                            cell(start, i + 1, y - 1),
                        ),
                    ),
            decreases cols - x,
        {
            proof {
                use_type_invariant(&image);
            }
            let ghost before = image;
            let neighbors = neighbors_at(&image, x as u32, (y - 1) as u32);
            let state = apply_rule(rule, neighbors);
            let pos = Vec2::new(x, y);
            image.set(pos, b2c(state));
            proof {
                assert(cell(before, x - 1, y - 1) == cell(start, x - 1, y - 1));
                assert(cell(before, x as int, y - 1) == cell(start, x as int, y - 1));
                assert(cell(before, x + 1, y - 1) == cell(start, x + 1, y - 1));
                assert forall|i: int, j: int|
                    0 <= i < cols && 0 <= j < rows implies #[trigger] image.pixel(
                    Vec2 { x: i as i32, y: j as i32 },
                ) == (if i == x && j == y {
                    color_of(state)
                } else {
                    before.pixel(Vec2 { x: i as i32, y: j as i32 })
                }) by {
                    before.lemma_one_pixel_set(
                        image,
                        pos,
                        color_of(state),
                        Vec2 { x: i as i32, y: j as i32 },
                    );
                }
                assert forall|i: int| 0 <= i < x + 1 implies #[trigger] image.pixel(
                    Vec2 { x: i as i32, y: y },
                ) == color_of(
                    rule_says(
                        rule,
                        cell(start, i - 1, y - 1),
                        cell(start, i, y - 1),
                        cell(start, i + 1, y - 1),
                    ),
                ) by {
                    before.lemma_one_pixel_set(
                        image,
                        pos,
                        color_of(state),
                        Vec2 { x: i as i32, y: y },
                    );
                }
            }
            x = x + 1;
        }
        proof {
            assert forall|i: int, j: int| 0 <= i < cols && 0 <= j < rows && j != y implies cell(
                image,
                i,
                j,
            ) == cell(start, i, j) by {
                assert(image.pixel(Vec2 { x: i as i32, y: j as i32 }) == start.pixel(
                    Vec2 { x: i as i32, y: j as i32 },
                ));
            }
            assert forall|i: int| 0 <= i < cols implies #[trigger] image.pixel(
                Vec2 { x: i as i32, y: 0 },
            ) == color_of(first@[i]) by {
                assert(image.pixel(Vec2 { x: i as i32, y: 0int as i32 }) == start.pixel(
                    Vec2 { x: i as i32, y: 0int as i32 },
                ));
            }
            assert forall|j: int| 1 <= j < y + 1 implies #[trigger] row_follows(image, rule, j) by {
                if j < y {
                    assert(row_follows(start, rule, j));
                    assert forall|i: int| 0 <= i < cols implies #[trigger] image.pixel(
                        Vec2 { x: i as i32, y: j as i32 },
                    ) == color_of(
                        rule_says(
                            rule,
                            cell(image, i - 1, j - 1),
                            cell(image, i, j - 1),
                            cell(image, i + 1, j - 1),
                        ),
                    ) by {
                        assert(image.pixel(Vec2 { x: i as i32, y: j as i32 }) == start.pixel(
                            Vec2 { x: i as i32, y: j as i32 },
                        ));
                    }
                }
            }
            assert forall|i: int, j: int|
                0 <= i < cols && 0 <= j < rows implies #[trigger] image.pixel(
                Vec2 { x: i as i32, y: j as i32 },
            ) == color_of(cell(image, i, j)) by {
                if j != y {
                    assert(image.pixel(Vec2 { x: i as i32, y: j as i32 }) == start.pixel(
                        Vec2 { x: i as i32, y: j as i32 },
                    ));
                }
            }
        }
        y = y + 1;
    }
    image
}

/// An automaton of `rows` rows and `cols` columns that starts with a row
/// taken at random.
pub fn generate_image(rows: u32, cols: u32, rule: u8) -> (image: Buffer<Rgba>)
    requires
        cols <= i32::MAX,
        rows <= i32::MAX,
        cols * rows <= usize::MAX,
    ensures
        image.spec_size().x == cols,
        image.spec_size().y == rows,
        forall|y: int| 1 <= y < rows ==> #[trigger] row_follows(image, rule, y),
        forall|x: int, y: int|
            0 <= x < cols && 0 <= y < rows ==> #[trigger] image.pixel(
                Vec2 { x: x as i32, y: y as i32 },
            ) == color_of(cell(image, x, y)),
{
    let first = random_row(cols);
    grow(&first, rows, rule)
}

/// The cells of row `y`.
pub fn read_row(image: &Buffer<Rgba>, y: u32) -> (row: Vec<bool>)
    requires
        y < image.spec_size().y,
    ensures
        row@.len() == image.spec_size().x,
        forall|x: int| 0 <= x < row@.len() ==> #[trigger] row@[x] == cell(*image, x, y as int),
{
    let size = image.size();
    let mut row: Vec<bool> = Vec::new();
    let mut x: i32 = 0;
    while x < size.x
        invariant
            0 <= x <= size.x,
            size == image.spec_size(),
            row@.len() == x,
            forall|i: int| 0 <= i < x ==> #[trigger] row@[i] == cell(*image, i, y as int),
        decreases size.x - x,
    {
        row.push(cell_at(image, x as i64, y as i64));
        x = x + 1;
    }
    row
}

/// Whether the rows `y` and `z` show the same cells.
fn rows_equal(image: &Buffer<Rgba>, y: i32, z: i32) -> (same: bool)
    ensures
        same == same_rows(*image, y as int, z as int),
{
    let size = image.size();
    let mut x: i32 = 0;
    while x < size.x
        invariant
            0 <= x <= size.x,
            size == image.spec_size(),
            forall|i: int| 0 <= i < x ==> cell(*image, i, y as int) == cell(*image, i, z as int),
        decreases size.x - x,
    {
        if cell_at(image, x as i64, y as i64) != cell_at(image, x as i64, z as i64) {
            return false;
        }
        x = x + 1;
    }
    true
}

/// Whether no row shows the same cells as one of the five rows above it.
pub fn is_interesting(image: &Buffer<Rgba>) -> (r: bool)
    ensures
        r == interesting(*image),
{
    let size = image.size();
    let mut y: i32 = 0;
    while y < size.y
        invariant
            0 <= y <= size.y,
            size == image.spec_size(),
            forall|j: int, z: int|
                0 <= z < j < y && j - z <= 5 ==> !#[trigger] same_rows(*image, j, z),
        decreases size.y - y,
    {
        let mut d: i32 = 1;
        while d <= 5 && d <= y
            invariant
                0 <= y < size.y,
                1 <= d <= 6,
                size == image.spec_size(),
                forall|z: int| 0 <= z < y && y - d < z ==> !#[trigger] same_rows(*image, y as int, z),
            decreases 6 - d,
        {
            if rows_equal(image, y, y - d) {
                return false;
            }
            d = d + 1;
        }
        y = y + 1;
    }
    true
}

/// How large an automaton is drawn.
#[derive(Clone, Copy, Debug, PartialEq, Eq, Structural)]
pub struct CellsSize {
    /// How many pixels wide and high a cell is drawn: between 1 and 16.
    pub scale: u32,
    /// How many rows of cells there are: at least one, and no more than
    /// make 1024 pixels.
    pub rows: u32,
    /// How many cells fit into the printable width.
    pub cols: u32,
}

/// `v`, or the bound that it goes beyond.
pub open spec fn clamped(v: int, low: int, high: int) -> int {
    if v < low {
        low
    } else if v > high {
        high
    } else {
        v
    }
}

/// The size of an automaton, given what was asked for: by default a cell
/// is 4 pixels wide and there are 512 pixels of rows.
pub open spec fn cells_size_of(scale: Option<u32>, rows: Option<u32>) -> CellsSize {
    let scale = clamped(
        match scale {
            Some(s) => s as int,
            None => 4,
        },
        1,
        16,
    );
    let rows = clamped(
        match rows {
            Some(r) => r as int,
            None => 512int / scale,
        },
        1,
        1024int / scale,
    );
    CellsSize { scale: scale as u32, rows: rows as u32, cols: (WIDTH as int / scale) as u32 }
}

/// The size of an automaton, given what was asked for.
pub fn cells_size(scale: Option<u32>, rows: Option<u32>) -> (size: CellsSize)
    ensures
        size == cells_size_of(scale, rows),
        1 <= size.scale <= 16,
        1 <= size.rows <= 1024,
        24 <= size.cols <= 384,
{
    let asked: u32 = match scale {
        Some(s) => s,
        None => 4,
    };
    let scale: u32 = if asked < 1 {
        1
    } else if asked > 16 {
        16
    } else {
        asked
    };
    assert(64 <= 1024u32 / scale <= 1024 && 24 <= 384u32 / scale <= 384 && 512u32 / scale <= 512) by {
        assert(scale == 1 || scale == 2 || scale == 3 || scale == 4 || scale == 5 || scale == 6
            || scale == 7 || scale == 8 || scale == 9 || scale == 10 || scale == 11 || scale == 12
            || scale == 13 || scale == 14 || scale == 15 || scale == 16);
    }
    let most: u32 = 1024 / scale;
    let asked_rows: u32 = match rows {
        Some(r) => r,
        None => 512 / scale,
    };
    let rows: u32 = if asked_rows < 1 {
        1
    } else if asked_rows > most {
        most
    } else {
        asked_rows
    };
    CellsSize { scale, rows, cols: 384 / scale }
}

} // verus!
