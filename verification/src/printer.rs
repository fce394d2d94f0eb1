//! The printer's raster image command.
//!
//! An image is sent with the obsolete `GS v 0` command, eight pixels of a
//! row to a byte, the leftmost pixel in the highest bit. One command can
//! carry only so many rows, so a tall image is sent as several commands. The
//! paper is not moved between them, and the pieces join without a seam.

use vstd::prelude::*;
use crate::buffer::{lemma_offset_split, Buffer};
use crate::color::Rgba;
use crate::vec2::Vec2;

verus! {

/// Width of the printable area in pixels, a multiple of 8.
pub const WIDTH: u32 = 384;

/// The most rows that one raster command carries here. Most printers take
/// up to 2303, this stays well below.
pub const CHUNK_HEIGHT: u32 = 1023;

/// The first byte of the raster command (the ASCII group separator).
pub const GS: u8 = 0x1d;

/// The length of what stands before the pixels in a raster command.
pub const HEADER_LEN: usize = 8;

/// Why an image cannot be sent.
#[derive(Clone, Copy, Debug, PartialEq, Eq, Structural)]
pub enum EncodingError {
    /// The width is not a multiple of 8.
    WidthNotMultipleOfEight,
    /// The width is not the one asked for.
    WidthMismatch,
    /// The width in bytes does not fit into the command's two bytes.
    TooWide,
    /// The most rows for a command is zero or does not fit into the
    /// command's two bytes.
    BadChunkHeight,
}

/// One step of sending an image to the printer.
#[derive(Clone, Debug, PartialEq, Eq)]
pub enum PrinterCommand {
    /// Reset the printer.
    Init,
    /// Move the paper on by so many lines.
    Feeds(u8),
    /// Send these bytes as they are.
    Custom(Vec<u8>),
    /// Have everything sent so far printed.
    Print,
}

/// A command as a value to reason about, with the bytes as a sequence.
pub enum CommandView {
    Init,
    Feeds(u8),
    Custom(Seq<u8>),
    Print,
}

impl View for PrinterCommand {
    type V = CommandView;

    open spec fn view(&self) -> CommandView {
        match self {
            PrinterCommand::Init => CommandView::Init,
            PrinterCommand::Feeds(lines) => CommandView::Feeds(*lines),
            PrinterCommand::Custom(bytes) => CommandView::Custom(bytes@),
            PrinterCommand::Print => CommandView::Print,
        }
    }
}

/// Whether a pixel prints as a black dot: its red, green and blue are on
/// average below the middle between black and white.
pub open spec fn is_mark(pixel: Rgba) -> bool {
    2 * (pixel.r + pixel.g + pixel.b) < 3 * 255
}

/// Whether the image's pixel at column `x` of row `y` prints as a black dot.
pub open spec fn mark_at(image: Buffer<Rgba>, x: int, y: int) -> bool {
    is_mark(image.pixel(Vec2 { x: x as i32, y: y as i32 }))
}

/// What a dot in place `j` of a byte is worth, the leftmost being place 0.
pub open spec fn weight(j: int) -> int {
    if j == 0 {
        128
    } else if j == 1 {
        64
    } else if j == 2 {
        32
    } else if j == 3 {
        16
    } else if j == 4 {
        8
    } else if j == 5 {
        4
    } else if j == 6 {
        2
    } else {
        1
    }
}

/// What the dot at `(x, y)` adds to its byte when it stands in place `j`.
pub open spec fn dot(image: Buffer<Rgba>, x: int, y: int, j: int) -> int {
    if mark_at(image, x, y) {
        weight(j)
    } else {
        0
    }
}

/// The byte for the eight pixels of row `y` that start at column `x`.
pub open spec fn byte_at(image: Buffer<Rgba>, x: int, y: int) -> int {
    dot(image, x, y, 0) + dot(image, x + 1, y, 1) + dot(image, x + 2, y, 2) + dot(
        image,
        x + 3,
        y,
        3,
    ) + dot(image, x + 4, y, 4) + dot(image, x + 5, y, 5) + dot(image, x + 6, y, 6) + dot(
        image,
        x + 7,
        y,
        7,
    )
}

/// Whether place `j` of a byte holds a dot.
pub open spec fn bit_of(byte: int, j: int) -> bool {
    (byte / weight(j)) % 2 == 1
}

/// The eight bytes that open a raster command for `rows` rows of
/// `width_bytes` bytes each: the command, the mode (0, normal resolution),
/// and both numbers with their low byte first.
pub open spec fn header(width_bytes: int, rows: int) -> Seq<u8> {
    seq![
        GS,
        0x76u8,
        0x30u8,
        0u8,
        (width_bytes % 256) as u8,
        (width_bytes / 256) as u8,
        (rows % 256) as u8,
        (rows / 256) as u8,
    ]
}

/// How many bytes a row of the image takes.
pub open spec fn row_bytes(image: Buffer<Rgba>) -> int {
    (image.spec_size().x as int) / 8
}

/// The packed pixels of the rows `first..first + rows`, row by row.
pub open spec fn payload(image: Buffer<Rgba>, first: int, rows: int) -> Seq<u8> {
    let width_bytes = row_bytes(image);
    Seq::new(
        (width_bytes * rows) as nat,
        |k: int| byte_at(image, 8 * (k % width_bytes), first + k / width_bytes) as u8,
    )
}

/// The raster command for the rows `first..first + rows` of the image.
pub open spec fn raster_command(image: Buffer<Rgba>, first: int, rows: int) -> Seq<u8> {
    header(row_bytes(image), rows) + payload(image, first, rows)
}

/// Into how many commands an image of `height` rows is cut.
pub open spec fn chunk_count(height: int, chunk_height: int) -> int {
    (height + chunk_height - 1) / chunk_height
}

/// How many rows the command with number `i` carries.
pub open spec fn chunk_rows(height: int, chunk_height: int, i: int) -> int {
    if height - i * chunk_height < chunk_height {
        height - i * chunk_height
    } else {
        chunk_height
    }
}

/// The raster commands for the whole image, from the top down.
pub open spec fn raster_commands(image: Buffer<Rgba>, chunk_height: int) -> Seq<Seq<u8>> {
    Seq::new(
        chunk_count(image.spec_size().y as int, chunk_height) as nat,
        |i: int|
            raster_command(
                image,
                i * chunk_height,
                chunk_rows(image.spec_size().y as int, chunk_height, i),
            ),
    )
}

/// Which error, if any, keeps an image of the given width from being cut
/// into commands of at most `chunk_height` rows.
pub open spec fn encoding_error(width: int, chunk_height: int) -> Option<EncodingError> {
    if width % 8 != 0 {
        Some(EncodingError::WidthNotMultipleOfEight)
    } else if width / 8 > 0xffff {
        Some(EncodingError::TooWide)
    } else if chunk_height == 0 || chunk_height > 0xffff {
        Some(EncodingError::BadChunkHeight)
    } else {
        None
    }
}

/// Whether the pixel prints as a black dot. This goes by what looks right,
/// not by what is physically accurate.
pub fn pixel_to_bit(pixel: Rgba) -> (mark: bool)
    ensures
        mark == is_mark(pixel),
{
    let sum: u32 = pixel.r as u32 + pixel.g as u32 + pixel.b as u32;
    2 * sum < 765
}

/// Whether the image's pixel at `(x, y)` prints as a black dot.
fn mark_of(image: &Buffer<Rgba>, x: u32, y: u32) -> (mark: bool)
    requires
        x < image.spec_size().x,
        y < image.spec_size().y,
    ensures
        mark == mark_at(*image, x as int, y as int),
{
    match image.at(Vec2::new(x as i32, y as i32)) {
        Some(pixel) => pixel_to_bit(*pixel),
        None => false,
    }
}

/// Packs the eight pixels of row `y` that start at column `x` into a byte.
pub fn get_horizontal_byte_starting_at(image: &Buffer<Rgba>, x: u32, y: u32) -> (byte: u8)
    requires
        x + 7 < image.spec_size().x,
        y < image.spec_size().y,
    ensures
        byte == byte_at(*image, x as int, y as int),
{
    let b7: u8 = if mark_of(image, x, y) { 0b1000_0000 } else { 0 };
    let b6: u8 = if mark_of(image, x + 1, y) { 0b0100_0000 } else { 0 };
    let b5: u8 = if mark_of(image, x + 2, y) { 0b0010_0000 } else { 0 };
    let b4: u8 = if mark_of(image, x + 3, y) { 0b0001_0000 } else { 0 };
    let b3: u8 = if mark_of(image, x + 4, y) { 0b0000_1000 } else { 0 };
    let b2: u8 = if mark_of(image, x + 5, y) { 0b0000_0100 } else { 0 };
    let b1: u8 = if mark_of(image, x + 6, y) { 0b0000_0010 } else { 0 };
    let b0: u8 = if mark_of(image, x + 7, y) { 0b0000_0001 } else { 0 };
    b7 + b6 + b5 + b4 + b3 + b2 + b1 + b0
}

/// The raster command for the rows `first..first + rows` of the image.
pub fn encode_chunk(image: &Buffer<Rgba>, first: u32, rows: u32) -> (command: Vec<u8>)
    requires
        image.spec_size().x % 8 == 0,
        image.spec_size().x / 8 <= 0xffff,
        rows <= 0xffff,
        first + rows <= image.spec_size().y,
    ensures
        command@ == raster_command(*image, first as int, rows as int),
{
    let size = image.size();
    let width_bytes: u32 = (size.x as u32) / 8;
    let mut command: Vec<u8> = Vec::new();
    command.push(GS);
    command.push(0x76);
    command.push(0x30);
    command.push(0);
    command.push((width_bytes % 256) as u8);
    command.push((width_bytes / 256) as u8);
    command.push((rows % 256) as u8);
    command.push((rows / 256) as u8);
    assert(command@ == header(width_bytes as int, rows as int));
    let ghost head = command@;
    let mut r: u32 = 0;
    while r < rows
        invariant
            r <= rows,
            size == image.spec_size(),
            size.x == 8 * width_bytes,
            first + rows <= size.y,
            head.len() == 8,
            command@.len() == 8 + width_bytes * r,
            command@.subrange(0, 8) == head,
            forall|k: int|
                0 <= k < width_bytes * r ==> #[trigger] command@[8 + k] == byte_at(
                    *image,
                    8 * (k % (width_bytes as int)),
                    first + k / (width_bytes as int),
                ) as u8,
        decreases rows - r,
    {
        let mut c: u32 = 0;
        while c < width_bytes
            invariant
                r < rows,
                c <= width_bytes,
                size == image.spec_size(),
                size.x == 8 * width_bytes,
                first + rows <= size.y,
                head.len() == 8,
                command@.len() == 8 + width_bytes * r + c,
                command@.subrange(0, 8) == head,
                forall|k: int|
                    0 <= k < width_bytes * r + c ==> #[trigger] command@[8 + k] == byte_at(
                        *image,
                        8 * (k % (width_bytes as int)),
                        first + k / (width_bytes as int),
                    ) as u8,
            decreases width_bytes - c,
        {
            let byte = get_horizontal_byte_starting_at(image, 8 * c, first + r);
            let ghost before = command@;
            command.push(byte);
            proof {
                assert(width_bytes * r == r * width_bytes) by (nonlinear_arith);
                lemma_offset_split(width_bytes as int, c as int, r as int);
                assert(command@.subrange(0, 8) == before.subrange(0, 8));
                assert forall|k: int| 0 <= k < width_bytes * r + c + 1 implies #[trigger] command@[8
                    + k] == byte_at(
                    *image,
                    8 * (k % (width_bytes as int)),
                    first + k / (width_bytes as int),
                ) as u8 by {
                    if k < width_bytes * r + c {
                        assert(command@[8 + k] == before[8 + k]);
                    }
                }
            }
            c = c + 1;
        }
        assert(width_bytes * r + width_bytes == width_bytes * (r + 1)) by (nonlinear_arith);
        r = r + 1;
    }
    proof {
        let want = raster_command(*image, first as int, rows as int);
        assert(command@.len() == want.len());
        assert forall|k: int| 0 <= k < want.len() implies command@[k] == want[k] by {
            if k < 8 {
                assert(command@[k] == command@.subrange(0, 8)[k]);
            } else {
                assert(command@[8 + (k - 8)] == command@[k]);
            }
        }
        assert(command@ =~= want);
    }
    command
}

/// `count` pieces of `piece` rows cover `height` rows, and one piece fewer
/// does not.
proof fn lemma_chunk_count(height: int, piece: int, count: int)
    requires
        piece > 0,
        0 <= height,
        0 <= count,
        count * piece >= height,
        count == 0 || (count - 1) * piece < height,
    ensures
        chunk_count(height, piece) == count,
{
    if count == 0 {
        assert(count * piece == 0);
        vstd::arithmetic::div_mod::lemma_fundamental_div_mod_converse(
            height + piece - 1,
            piece,
            0,
            height + piece - 1,
        );
    } else {
        let rest = height + piece - 1 - count * piece;
        assert((count - 1) * piece == count * piece - piece) by (nonlinear_arith);
        assert(count * piece == piece * count) by (nonlinear_arith);
        vstd::arithmetic::div_mod::lemma_fundamental_div_mod_converse(
            height + piece - 1,
            piece,
            count,
            rest,
        );
    }
}

/// The raster commands for the whole image, from the top down, each of them
/// for at most `chunk_height` rows.
pub fn encode_raster(image: &Buffer<Rgba>, chunk_height: u32) -> (r: Result<
    Vec<Vec<u8>>,
    EncodingError,
>)
    ensures
        match encoding_error(image.spec_size().x as int, chunk_height as int) {
            Some(e) => r == Err::<Vec<Vec<u8>>, EncodingError>(e),
            None => r.is_ok() && r.unwrap()@.len() == raster_commands(
                *image,
                chunk_height as int,
            ).len() && forall|i: int|
                0 <= i < r.unwrap()@.len() ==> (#[trigger] r.unwrap()@[i])@ == raster_commands(
                    *image,
                    chunk_height as int,
                )[i],
        },
{
    let size = image.size();
    if size.x % 8 != 0 {
        return Err(EncodingError::WidthNotMultipleOfEight);
    }
    if size.x / 8 > 0xffff {
        return Err(EncodingError::TooWide);
    }
    if chunk_height == 0 || chunk_height > 0xffff {
        return Err(EncodingError::BadChunkHeight);
    }
    let height: u32 = size.y as u32;
    let mut commands: Vec<Vec<u8>> = Vec::new();
    let mut first: u32 = 0;
    let ghost mut count: int = 0;
    while first < height
        invariant
            size == image.spec_size(),
            height == size.y,
            size.x % 8 == 0,
            size.x / 8 <= 0xffff,
            0 < chunk_height <= 0xffff,
            0 <= count,
            first == count * chunk_height,
            count == 0 || (count - 1) * chunk_height < height,
            commands@.len() == count,
            forall|i: int|
                0 <= i < count ==> (#[trigger] commands@[i])@ == raster_command(
                    *image,
                    i * chunk_height,
                    chunk_rows(height as int, chunk_height as int, i),
                ),
        decreases height + chunk_height - first,
    {
        let rows: u32 = if height - first < chunk_height {
            height - first
        } else {
            chunk_height
        };
        let command = encode_chunk(image, first, rows);
        commands.push(command);
        proof {
            assert((count + 1) * chunk_height == count * chunk_height + chunk_height)
                by (nonlinear_arith);
            assert((count + 1 - 1) * chunk_height == count * chunk_height);
            count = count + 1;
        }
        first = first + chunk_height;
    }
    proof {
        lemma_chunk_count(height as int, chunk_height as int, count);
    }
    Ok(commands)
}

/// What is sent to print an image: a reset, the raster commands from the
/// top down with nothing between them, and the order to print.
pub open spec fn print_commands(image: Buffer<Rgba>) -> Seq<CommandView> {
    let raster = raster_commands(image, CHUNK_HEIGHT as int);
    Seq::new(
        raster.len() + 2,
        |i: int|
            if i == 0 {
                CommandView::Init
            } else if i == raster.len() + 1 {
                CommandView::Print
            } else {
                CommandView::Custom(raster[i - 1])
            },
    )
}

/// The commands that print the image. The image has to be as wide as the
/// printable area.
pub fn print_image_commands(image: &Buffer<Rgba>) -> (r: Result<
    Vec<PrinterCommand>,
    EncodingError,
>)
    ensures
        image.spec_size().x != WIDTH ==> r == Err::<Vec<PrinterCommand>, EncodingError>(
            EncodingError::WidthMismatch,
        ),
        image.spec_size().x == WIDTH ==> r.is_ok() && r.unwrap()@.len() == print_commands(
            *image,
        ).len() && forall|i: int|
            0 <= i < r.unwrap()@.len() ==> (#[trigger] r.unwrap()@[i])@ == print_commands(
                *image,
            )[i],
{
    let size = image.size();
    if size.x != 384 {
        return Err(EncodingError::WidthMismatch);
    }
    let mut chunks = match encode_raster(image, CHUNK_HEIGHT) {
        Ok(chunks) => chunks,
        Err(e) => {
            return Err(e);
        },
    };
    let ghost raster = raster_commands(*image, CHUNK_HEIGHT as int);
    let mut commands: Vec<PrinterCommand> = Vec::new();
    commands.push(PrinterCommand::Init);
    let n = chunks.len();
    let mut i: usize = 0;
    while i < n
        invariant
            i <= n,
            n == chunks@.len(),
            n == raster.len(),
            forall|k: int| i <= k < n ==> (#[trigger] chunks@[k])@ == raster[k],
            commands@.len() == i + 1,
            commands@[0]@ == CommandView::Init,
            forall|k: int|
                0 <= k < i ==> (#[trigger] commands@[k + 1])@ == CommandView::Custom(raster[k]),
        decreases n - i,
    {
        let mut chunk: Vec<u8> = Vec::new();
        core::mem::swap(&mut chunk, &mut chunks[i]);
        let ghost before = commands@;
        commands.push(PrinterCommand::Custom(chunk));
        assert forall|k: int| 0 <= k < i + 1 implies (#[trigger] commands@[k + 1])@
            == CommandView::Custom(raster[k]) by {
            if k < i {
                assert(commands@[k + 1] == before[k + 1]);
            }
        }
        i = i + 1;
    }
    commands.push(PrinterCommand::Print);
    proof {
        let want = print_commands(*image);
        assert forall|k: int| 0 <= k < commands@.len() implies (#[trigger] commands@[k])@
            == want[k] by {
            if 0 < k < n + 1 {
                assert(commands@[(k - 1) + 1] == commands@[k]);
            }
        }
    }
    Ok(commands)
}

/// The commands that move the paper on by three lines.
pub fn feed_commands() -> (commands: Vec<PrinterCommand>)
    ensures
        commands@.len() == 3,
        commands@[0]@ == CommandView::Init,
        commands@[1]@ == CommandView::Feeds(3),
        commands@[2]@ == CommandView::Print,
{
    let mut commands: Vec<PrinterCommand> = Vec::new();
    commands.push(PrinterCommand::Init);
    commands.push(PrinterCommand::Feeds(3));
    commands.push(PrinterCommand::Print);
    commands
}

/// How many bytes of packed pixels the commands carry together.
pub open spec fn payload_len(commands: Seq<Seq<u8>>) -> int
    decreases commands.len(),
{
    if commands.len() == 0 {
        0
    } else {
        payload_len(commands.drop_last()) + commands.last().len() - HEADER_LEN
    }
}

/// In `value == (high * 2 + bit) * unit + low` with `low` below `unit`,
/// the place that `unit` stands for holds `bit`.
proof fn lemma_place(value: int, high: int, bit: int, low: int, unit: int)
    requires
        0 <= bit <= 1,
        0 <= low < unit,
        value == (high * 2 + bit) * unit + low,
    ensures
        (value / unit) % 2 == bit,
{
    let quotient = high * 2 + bit;
    vstd::arithmetic::div_mod::lemma_fundamental_div_mod_converse(value, unit, quotient, low);
    vstd::arithmetic::div_mod::lemma_fundamental_div_mod_converse(quotient, 2, high, bit);
}

/// One for a dot, zero for none.
pub open spec fn one_if(mark: bool) -> int {
    if mark {
        1
    } else {
        0
    }
}

/// The byte for eight pixels is the sum of its dots' weights.
proof fn lemma_byte_is_sum(image: Buffer<Rgba>, x: int, y: int)
    ensures
        byte_at(image, x, y) == 128 * one_if(mark_at(image, x, y)) + 64 * one_if(
            mark_at(image, x + 1, y),
        ) + 32 * one_if(mark_at(image, x + 2, y)) + 16 * one_if(mark_at(image, x + 3, y)) + 8
            * one_if(mark_at(image, x + 4, y)) + 4 * one_if(mark_at(image, x + 5, y)) + 2 * one_if(
            mark_at(image, x + 6, y),
        ) + one_if(mark_at(image, x + 7, y)),
{
    assert(dot(image, x, y, 0) == 128 * one_if(mark_at(image, x, y)));
    assert(dot(image, x + 1, y, 1) == 64 * one_if(mark_at(image, x + 1, y)));
    assert(dot(image, x + 2, y, 2) == 32 * one_if(mark_at(image, x + 2, y)));
    assert(dot(image, x + 3, y, 3) == 16 * one_if(mark_at(image, x + 3, y)));
    assert(dot(image, x + 4, y, 4) == 8 * one_if(mark_at(image, x + 4, y)));
    assert(dot(image, x + 5, y, 5) == 4 * one_if(mark_at(image, x + 5, y)));
    assert(dot(image, x + 6, y, 6) == 2 * one_if(mark_at(image, x + 6, y)));
    assert(dot(image, x + 7, y, 7) == one_if(mark_at(image, x + 7, y)));
}

/// The one among eight numbers that stands at place `j`.
pub open spec fn pick(
    m0: int,
    m1: int,
    m2: int,
    m3: int,
    m4: int,
    m5: int,
    m6: int,
    m7: int,
    j: int,
) -> int {
    if j == 0 {
        m0
    } else if j == 1 {
        m1
    } else if j == 2 {
        m2
    } else if j == 3 {
        m3
    } else if j == 4 {
        m4
    } else if j == 5 {
        m5
    } else if j == 6 {
        m6
    } else {
        m7
    }
}

/// A sum of eight weighted zeros and ones holds each of them in its place.
proof fn lemma_packed(
    byte: int,
    m0: int,
    m1: int,
    m2: int,
    m3: int,
    m4: int,
    m5: int,
    m6: int,
    m7: int,
    j: int,
)
    requires
        0 <= j < 8,
        0 <= m0 <= 1,
        0 <= m1 <= 1,
        0 <= m2 <= 1,
        0 <= m3 <= 1,
        0 <= m4 <= 1,
        0 <= m5 <= 1,
        0 <= m6 <= 1,
        0 <= m7 <= 1,
        byte == 128 * m0 + 64 * m1 + 32 * m2 + 16 * m3 + 8 * m4 + 4 * m5 + 2 * m6 + m7,
    ensures
        0 <= byte <= 255,
        (byte / weight(j)) % 2 == pick(m0, m1, m2, m3, m4, m5, m6, m7, j),
{
    if j == 0 {
        assert(weight(j) == 128);
        lemma_place(byte, 0, m0, 64 * m1 + 32 * m2 + 16 * m3 + 8 * m4 + 4 * m5 + 2 * m6 + m7, 128);
    } else if j == 1 {
        assert(weight(j) == 64);
        lemma_place(byte, m0, m1, 32 * m2 + 16 * m3 + 8 * m4 + 4 * m5 + 2 * m6 + m7, 64);
    } else if j == 2 {
        assert(weight(j) == 32);
        lemma_place(byte, 2 * m0 + m1, m2, 16 * m3 + 8 * m4 + 4 * m5 + 2 * m6 + m7, 32);
    } else if j == 3 {
        assert(weight(j) == 16);
        lemma_place(byte, 4 * m0 + 2 * m1 + m2, m3, 8 * m4 + 4 * m5 + 2 * m6 + m7, 16);
    } else if j == 4 {
        assert(weight(j) == 8);
        lemma_place(byte, 8 * m0 + 4 * m1 + 2 * m2 + m3, m4, 4 * m5 + 2 * m6 + m7, 8);
    } else if j == 5 {
        assert(weight(j) == 4);
        lemma_place(byte, 16 * m0 + 8 * m1 + 4 * m2 + 2 * m3 + m4, m5, 2 * m6 + m7, 4);
    } else if j == 6 {
        assert(weight(j) == 2);
        lemma_place(byte, 32 * m0 + 16 * m1 + 8 * m2 + 4 * m3 + 2 * m4 + m5, m6, m7, 2);
    } else {
        assert(weight(j) == 1);
        lemma_place(byte, 64 * m0 + 32 * m1 + 16 * m2 + 8 * m3 + 4 * m4 + 2 * m5 + m6, m7, 0, 1);
    }
}

/// A byte made of eight dots holds each dot in its place.
pub proof fn lemma_byte_holds_dots(image: Buffer<Rgba>, x: int, y: int, j: int)
    requires
        0 <= j < 8,
    ensures
        0 <= byte_at(image, x, y) <= 255,
        bit_of(byte_at(image, x, y), j) == mark_at(image, x + j, y),
{
    lemma_byte_is_sum(image, x, y);
    lemma_packed(
        byte_at(image, x, y),
        one_if(mark_at(image, x, y)),
        one_if(mark_at(image, x + 1, y)),
        one_if(mark_at(image, x + 2, y)),
        one_if(mark_at(image, x + 3, y)),
        one_if(mark_at(image, x + 4, y)),
        one_if(mark_at(image, x + 5, y)),
        one_if(mark_at(image, x + 6, y)),
        one_if(mark_at(image, x + 7, y)),
        j,
    );
}

/// The rows of the pieces before piece `n` are `n * piece` rows, or all
/// rows when there are no more pieces.
proof fn lemma_payload_len(image: Buffer<Rgba>, piece: int, n: int)
    requires
        image.wf(),
        image.spec_size().x % 8 == 0,
        piece > 0,
        0 <= n <= chunk_count(image.spec_size().y as int, piece),
    ensures
        payload_len(raster_commands(image, piece).take(n)) == row_bytes(image) * (if n
            * piece < image.spec_size().y {
            n * piece
        } else {
            image.spec_size().y as int
        }),
    decreases n,
{
    let commands = raster_commands(image, piece);
    let height = image.spec_size().y as int;
    let width_bytes = row_bytes(image);
    if n == 0 {
        assert(commands.take(0).len() == 0);
        assert(0 * piece == 0);
        assert(width_bytes * 0 == 0);
    } else {
        lemma_payload_len(image, piece, n - 1);
        lemma_last_chunk(height, piece, n - 1);
        let rows = chunk_rows(height, piece, n - 1);
        assert(commands.take(n).drop_last() == commands.take(n - 1));
        assert(commands.take(n).last() == commands[n - 1]);
        assert(payload(image, (n - 1) * piece, rows).len() == width_bytes * rows) by {
            assert(0 <= width_bytes * rows) by (nonlinear_arith)
                requires
                    0 <= width_bytes,
                    0 <= rows,
            ;
        }
        assert(commands[n - 1].len() == 8 + width_bytes * rows);
        assert((n - 1) * piece + piece == n * piece) by (nonlinear_arith);
        let before = if (n - 1) * piece < height {
            (n - 1) * piece
        } else {
            height
        };
        let after = if n * piece < height {
            n * piece
        } else {
            height
        };
        assert(before + rows == after);
        assert(width_bytes * before + width_bytes * rows == width_bytes * after)
            by (nonlinear_arith)
            requires
                before + rows == after,
        ;
    }
}

/// Piece `i` of an image that has such a piece starts inside the image and
/// holds at least one row, at most `piece` rows.
proof fn lemma_last_chunk(height: int, piece: int, i: int)
    requires
        piece > 0,
        0 <= height,
        0 <= i < chunk_count(height, piece),
    ensures
        i * piece < height,
        0 < chunk_rows(height, piece, i) <= piece,
        i * piece + chunk_rows(height, piece, i) <= height,
{
    let total = height + piece - 1;
    vstd::arithmetic::div_mod::lemma_fundamental_div_mod(total, piece);
    vstd::arithmetic::div_mod::lemma_mod_bound(total, piece);
    let count = total / piece;
    assert(i * piece <= (count - 1) * piece) by (nonlinear_arith)
        requires
            i <= count - 1,
            piece > 0,
    ;
    assert((count - 1) * piece == piece * count - piece) by (nonlinear_arith);
}

/// The row `y` of an image stands in piece `y / piece`, as that piece's row
/// `y % piece`.
proof fn lemma_row_in_chunk(height: int, piece: int, y: int)
    requires
        piece > 0,
        0 <= y < height,
    ensures
        0 <= y / piece < chunk_count(height, piece),
        0 <= y % piece < chunk_rows(height, piece, y / piece),
        (y / piece) * piece + y % piece == y,
{
    vstd::arithmetic::div_mod::lemma_fundamental_div_mod(y, piece);
    vstd::arithmetic::div_mod::lemma_mod_bound(y, piece);
    let i = y / piece;
    assert(i * piece == piece * i) by (nonlinear_arith);
    assert(i >= 0) by (nonlinear_arith)
        requires
            piece * i + y % piece == y,
            0 <= y % piece < piece,
            y >= 0,
            piece > 0,
    ;
    let total = height + piece - 1;
    vstd::arithmetic::div_mod::lemma_fundamental_div_mod(total, piece);
    vstd::arithmetic::div_mod::lemma_mod_bound(total, piece);
    let count = total / piece;
    assert(i < count) by (nonlinear_arith)
        requires
            piece * i <= y,
            y < height,
            height + piece - 1 == piece * count + total % piece,
            0 <= total % piece < piece,
            piece > 0,
    ;
}

/// Whether the commands have a byte for the pixel at `(x, y)`: in command
/// `y / chunk_height`, after the header, in row `y % chunk_height`, the
/// byte `x / 8`.
pub open spec fn has_place(
    commands: Seq<Seq<u8>>,
    row_bytes: int,
    chunk_height: int,
    x: int,
    y: int,
) -> bool {
    &&& 0 <= y / chunk_height < commands.len()
    &&& 0 <= HEADER_LEN + (y % chunk_height) * row_bytes + x / 8 < commands[y
        / chunk_height].len()
}

/// Whether the commands hold a dot for the pixel at `(x, y)`.
pub open spec fn dot_sent(
    commands: Seq<Seq<u8>>,
    row_bytes: int,
    chunk_height: int,
    x: int,
    y: int,
) -> bool {
    bit_of(
        commands[y / chunk_height][HEADER_LEN + (y % chunk_height) * row_bytes + x / 8] as int,
        x % 8,
    )
}

/// The raster commands hold the image, and nothing else: no command has
/// more than `chunk_height` rows, each command has a byte for every eight
/// pixels of each of its rows, all of them together have a byte for every
/// eight pixels of the image, and every pixel's dot stands at its place.
pub proof fn lemma_raster_commands_hold_image(image: Buffer<Rgba>, chunk_height: int)
    requires
        image.wf(),
        image.spec_size().x % 8 == 0,
        chunk_height > 0,
    ensures
        forall|i: int|
            0 <= i < raster_commands(image, chunk_height).len() ==> 0 < #[trigger] chunk_rows(
                image.spec_size().y as int,
                chunk_height,
                i,
            ) <= chunk_height,
        forall|i: int|
            0 <= i < raster_commands(image, chunk_height).len() ==> (#[trigger] raster_commands(
                image,
                chunk_height,
            )[i]).len() == HEADER_LEN + row_bytes(image) * chunk_rows(
                image.spec_size().y as int,
                chunk_height,
                i,
            ),
        payload_len(raster_commands(image, chunk_height)) == row_bytes(image)
            * image.spec_size().y,
        forall|x: int, y: int|
            0 <= x < image.spec_size().x && 0 <= y < image.spec_size().y ==> #[trigger] has_place(
                raster_commands(image, chunk_height),
                row_bytes(image),
                chunk_height,
                x,
                y,
            ),
        forall|x: int, y: int|
            0 <= x < image.spec_size().x && 0 <= y < image.spec_size().y ==> #[trigger] dot_sent(
                raster_commands(image, chunk_height),
                row_bytes(image),
                chunk_height,
                x,
                y,
            ) == mark_at(image, x, y),
{
    let commands = raster_commands(image, chunk_height);
    let width = image.spec_size().x as int;
    let height = image.spec_size().y as int;
    let width_bytes = row_bytes(image);
    let count = chunk_count(height, chunk_height);
    assert(count >= 0) by {
        vstd::arithmetic::div_mod::lemma_fundamental_div_mod(
            height + chunk_height - 1,
            chunk_height,
        );
        vstd::arithmetic::div_mod::lemma_mod_bound(height + chunk_height - 1, chunk_height);
        assert(count >= 0) by (nonlinear_arith)
            requires
                height + chunk_height - 1 == chunk_height * count + (height + chunk_height - 1)
                    % chunk_height,
                0 <= (height + chunk_height - 1) % chunk_height < chunk_height,
                height >= 0,
                chunk_height > 0,
        ;
    }
    assert forall|i: int| 0 <= i < commands.len() implies 0 < #[trigger] chunk_rows(
        height,
        chunk_height,
        i,
    ) <= chunk_height by {
        lemma_last_chunk(height, chunk_height, i);
    }
    assert forall|i: int| 0 <= i < commands.len() implies (#[trigger] commands[i]).len()
        == HEADER_LEN + width_bytes * chunk_rows(height, chunk_height, i) by {
        lemma_last_chunk(height, chunk_height, i);
        let rows = chunk_rows(height, chunk_height, i);
        assert(0 <= width_bytes * rows) by (nonlinear_arith)
            requires
                0 <= width_bytes,
                0 <= rows,
        ;
    }
    assert(payload_len(commands) == width_bytes * height) by {
        lemma_payload_len(image, chunk_height, count);
        assert(commands.take(count) == commands);
        if count == 0 {
            assert(0 * chunk_height == 0);
            if height > 0 {
                lemma_row_in_chunk(height, chunk_height, 0);
            }
        } else {
            lemma_last_chunk(height, chunk_height, count - 1);
            vstd::arithmetic::div_mod::lemma_fundamental_div_mod(
                height + chunk_height - 1,
                chunk_height,
            );
            vstd::arithmetic::div_mod::lemma_mod_bound(height + chunk_height - 1, chunk_height);
            assert(count * chunk_height == chunk_height * count) by (nonlinear_arith);
        }
    }
    assert forall|x: int, y: int| 0 <= x < width && 0 <= y < height implies #[trigger] has_place(
        commands,
        width_bytes,
        chunk_height,
        x,
        y,
    ) && dot_sent(commands, width_bytes, chunk_height, x, y) == mark_at(image, x, y) by {
        lemma_row_in_chunk(height, chunk_height, y);
        let i = y / chunk_height;
        let row = y % chunk_height;
        let rows = chunk_rows(height, chunk_height, i);
        let column = x / 8;
        let k = row * width_bytes + column;
        lemma_offset_split(width_bytes, column, row);
        assert(0 <= k < width_bytes * rows) by (nonlinear_arith)
            requires
                0 <= row < rows,
                0 <= column < width_bytes,
                k == row * width_bytes + column,
        ;
        lemma_byte_holds_dots(image, 8 * column, y, x % 8);
        let command = commands[i];
        assert(command == header(width_bytes, rows) + payload(image, i * chunk_height, rows));
        assert(command[8 + k] == payload(image, i * chunk_height, rows)[k]);
    }
    assert forall|x: int, y: int| 0 <= x < width && 0 <= y < height implies #[trigger] dot_sent(
        commands,
        width_bytes,
        chunk_height,
        x,
        y,
    ) == mark_at(image, x, y) by {
        assert(has_place(commands, width_bytes, chunk_height, x, y));
    }
}

} // verus!
