//! What can be asked to be drawn and printed.
//!
//! Each kind of drawing is a value that says what to draw. Laying it out
//! and setting its text is not done here; what can be decided without
//! that is.

use vstd::prelude::*;
use crate::buffer::Buffer;
use crate::cells::{generate_image, row_follows};
use crate::color::Rgba;
use crate::dither::DitherAlgorithm;
use crate::printer::WIDTH;
use crate::typst::Typst;
use crate::widget::Sides;

verus! {

/// Print what is waiting in the spool.
pub struct BacklogDrawing;

/// A calendar of one month, a box for each day to be crossed out.
pub struct CalendarDrawing {
    pub year: i16,
    pub month: i8,
}

/// A cellular automaton.
pub struct CellsDrawing {
    pub rule: u8,
    pub rows: u32,
    pub scale: u32,
}

/// A message from a chat.
pub struct ChatMessageDrawing {
    pub username: String,
    pub content: String,
}

/// An Easter egg, painted at random.
pub struct EggDrawing;

/// An image, dithered.
pub struct ImageDrawing {
    pub image: Buffer<Rgba>,
    pub bright: bool,
    pub algo: DitherAlgorithm,
    pub scale: u32,
}

/// A typeset document.
pub struct NewTypstDrawing(pub Typst);

/// A photo with a title.
pub struct PhotoDrawing {
    pub image: Buffer<Rgba>,
    pub title: String,
}

/// A text.
pub struct TextDrawing(pub String);

/// An empty board for noughts and crosses.
pub struct TicTacToeDrawing;

/// Typeset markup.
pub struct TypstDrawing(pub String);

/// How many lines the paper is moved on behind a drawing.
pub const FEED: u32 = 64;

impl NewTypstDrawing {
    pub fn new(typst: Typst) -> (drawing: NewTypstDrawing)
        ensures
            drawing.0@ == typst@,
    {
        NewTypstDrawing(typst)
    }
}

/// The sides on which the field in column `x` and row `y` of a board of
/// three by three fields has a line: the sides that it shares with another
/// field. The lines of two neighbours lie side by side, and the board has
/// no line around it.
pub open spec fn field_border(x: int, y: int, width: i32) -> Sides {
    Sides {
        left: if x >= 1 { width } else { 0 },
        right: if x <= 1 { width } else { 0 },
        top: if y >= 1 { width } else { 0 },
        bottom: if y <= 1 { width } else { 0 },
    }
}

impl TicTacToeDrawing {
    /// The sides on which a field of the board has a line, each line
    /// `width` pixels wide.
    pub fn border(x: u32, y: u32, width: i32) -> (sides: Sides)
        ensures
            sides == field_border(x as int, y as int, width),
    {
        Sides {
            left: if x >= 1 { width } else { 0 },
            right: if x <= 1 { width } else { 0 },
            top: if y >= 1 { width } else { 0 },
            bottom: if y <= 1 { width } else { 0 },
        }
    }
}

impl CellsDrawing {
    /// The automaton before it is enlarged: as many cells in a row as fit
    /// into the printable width at this scale, the first row taken at
    /// random. There is none for a scale of 0, or for more rows than
    /// `i32` can count, or for more cells than the memory can hold.
    pub fn cells(&self) -> (image: Option<Buffer<Rgba>>)
        ensures
            image.is_some() <==> self.scale > 0 && self.rows <= i32::MAX && (WIDTH as int
                / self.scale as int) * self.rows <= usize::MAX,
            image.is_some() ==> image.unwrap().spec_size().x == WIDTH as int / self.scale as int
                && image.unwrap().spec_size().y == self.rows && forall|y: int|
                1 <= y < self.rows ==> #[trigger] row_follows(image.unwrap(), self.rule, y),
    {
        if self.scale == 0 || self.rows > 0x7fff_ffff {
            return None;
        }
        let cols: u32 = WIDTH / self.scale;
        assert(cols <= 384) by (nonlinear_arith)
            requires
                cols == 384int / self.scale as int,
                self.scale > 0,
        ;
        assert(cols * self.rows <= 384 * 0x7fff_ffff) by (nonlinear_arith)
            requires
                0 <= cols <= 384,
                0 <= self.rows <= 0x7fff_ffff,
        ;
        if (cols as u64) * (self.rows as u64) > usize::MAX as u64 {
            return None;
        }
        Some(generate_image(self.rows, cols, self.rule))
    }
}

} // verus!
