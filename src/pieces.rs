use vstd::prelude::*;
use crate::geometry::GridPos;

verus! {

/// The base shade of a tile.
#[derive(Clone, Copy, Debug, PartialEq, Eq, Structural)]
pub enum Shade {
    Light,
    Dark,
}

/// The shade of the tile at `p`: light where `row + col` is even, dark where it is odd.
pub open spec fn shade_at(p: GridPos) -> Shade {
    if (p.row + p.col) % 2 == 0 {
        Shade::Light
    } else {
        Shade::Dark
    }
}

/// Computes the base shade of the tile at `p`.
pub fn shade_of(p: GridPos) -> (r: Shade)
    requires
        p.wf(),
    ensures
        r == shade_at(p),
{
    if (p.row + p.col) % 2 == 0 {
        Shade::Light
    } else {
        Shade::Dark
    }
}

/// An opaque colour, one byte per channel.
#[derive(Clone, Copy, Debug, PartialEq, Eq, Structural)]
pub struct Rgb {
    pub r: u8,
    pub g: u8,
    pub b: u8,
}

/// The colour a tile is painted with: its shade, and whether it is highlighted.
pub open spec fn color_of(shade: Shade, highlighted: bool) -> Rgb {
    match (shade, highlighted) {
        (Shade::Light, false) => Rgb { r: 234, g: 221, b: 202 },
        (Shade::Dark, false) => Rgb { r: 111, g: 78, b: 55 },
        (Shade::Light, true) => Rgb { r: 137, g: 196, b: 244 },
        (Shade::Dark, true) => Rgb { r: 112, g: 169, b: 215 },
    }
}

/// One square of the board.
#[derive(Clone, Copy, Debug, PartialEq, Eq, Structural)]
pub struct Tile {
    pub shade: Shade,
    pub occupied: bool,
    pub highlighted: bool,
}

impl Tile {
    pub fn set_highlighted(&mut self, on: bool)
        ensures
            *final(self) == (Tile { highlighted: on, ..*old(self) }),
    {
        self.highlighted = on;
    }

    pub fn set_occupied(&mut self, on: bool)
        ensures
            *final(self) == (Tile { occupied: on, ..*old(self) }),
    {
        self.occupied = on;
    }

    /// The colour to paint this tile with.
    pub fn color(&self) -> (r: Rgb)
        ensures
            r == color_of(self.shade, self.highlighted),
    {
        match (self.shade, self.highlighted) {
            (Shade::Light, false) => Rgb { r: 234, g: 221, b: 202 },
            (Shade::Dark, false) => Rgb { r: 111, g: 78, b: 55 },
            (Shade::Light, true) => Rgb { r: 137, g: 196, b: 244 },
            (Shade::Dark, true) => Rgb { r: 112, g: 169, b: 215 },
        }
    }
}

#[derive(Clone, Copy, Debug, PartialEq, Eq, Structural)]
pub enum PieceKind {
    Pawn,
    Queen,
    Rook,
    Knight,
    Bishop,
    King,
}

#[derive(Clone, Copy, Debug, PartialEq, Eq, Structural)]
pub enum PieceColor {
    Black,
    White,
}

/// A movable piece. Its sprite is chosen by the renderer from `kind` and `color`.
#[derive(Clone, Copy, Debug, PartialEq, Eq, Structural)]
pub struct Piece {
    pub kind: PieceKind,
    pub color: PieceColor,
    pub pos: GridPos,
    pub selected: bool,
    pub has_moved: bool,
}

impl Piece {
    /// A piece that has not moved yet and is not selected.
    pub fn new(kind: PieceKind, color: PieceColor, pos: GridPos) -> (r: Piece)
        ensures
            r == (Piece { kind, color, pos, selected: false, has_moved: false }),
    {
        Piece { kind, color, pos, selected: false, has_moved: false }
    }

    pub fn select(&mut self)
        ensures
            *final(self) == (Piece { selected: true, ..*old(self) }),
    {
        self.selected = true;
    }

    pub fn deselect(&mut self)
        ensures
            *final(self) == (Piece { selected: false, ..*old(self) }),
    {
        self.selected = false;
    }

    /// Puts the piece on `pos` and records that it has moved.
    pub fn move_to(&mut self, pos: GridPos)
        ensures
            *final(self) == (Piece { pos, has_moved: true, ..*old(self) }),
    {
        self.pos = pos;
        self.has_moved = true;
    }
}

} // verus!
