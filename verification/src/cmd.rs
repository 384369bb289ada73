use vstd::prelude::*;

verus! {

/// A cell position on the terminal: column `x`, row `y`.
#[derive(Debug, Default, Copy, Clone, PartialEq, Eq)]
pub struct Point {
    pub x: u16,
    pub y: u16,
}

/// A 24-bit colour.
#[derive(Debug, Default, Copy, Clone, PartialEq, Eq)]
pub struct RgbColor {
    pub r: u8,
    pub g: u8,
    pub b: u8,
}

/// One glyph to be placed on the canvas, with optional colours
/// (`None` stands for the terminal's default colour).
#[derive(Debug, Copy, Clone, PartialEq, Eq)]
pub struct CellUpdate {
    pub pos: Point,
    pub glyph: char,
    pub fg_color: Option<RgbColor>,
    pub bg_color: Option<RgbColor>,
}

impl CellUpdate {
    /// The update that [`CellUpdate::default`] returns: a blank at the origin
    /// in the default colours.
    pub open spec fn spec_default() -> CellUpdate {
        CellUpdate { pos: Point { x: 0, y: 0 }, glyph: ' ', fg_color: None, bg_color: None }
    }
}

impl Default for CellUpdate {
    fn default() -> (r: Self)
        ensures
            r == CellUpdate::spec_default(),
    {
        CellUpdate { pos: Point { x: 0, y: 0 }, glyph: ' ', fg_color: None, bg_color: None }
    }
}

/// A command read from the driven process.
#[derive(Debug, Copy, Clone, PartialEq, Eq)]
pub enum Cmd {
    Draw(CellUpdate),
    Clear,
    Flush,
    QuerySize,
}

} // verus!
