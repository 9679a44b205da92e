use vstd::prelude::*;

verus! {

/// Grid cell occupied by an entity.
#[derive(Clone, Copy, PartialEq, Eq, Structural, Debug)]
pub struct Position {
    pub x: i32,
    pub y: i32,
}

/// A plain point; the global player-position resource is one of these.
#[derive(Clone, Copy, PartialEq, Eq, Structural, Debug)]
pub struct Point {
    pub x: i32,
    pub y: i32,
}

/// A display color, one byte per channel.
#[derive(Clone, Copy, PartialEq, Eq, Structural, Debug)]
pub struct Color {
    pub r: u8,
    pub g: u8,
    pub b: u8,
}

/// Display appearance of an entity: a console code point and two colors.
#[derive(Clone, Copy, PartialEq, Eq, Structural, Debug)]
pub struct Renderable {
    pub glyph: u16,
    pub fg: Color,
    pub bg: Color,
}

/// Per-entity field-of-view cache.
#[derive(Clone, Debug)]
pub struct Viewshed {
    pub visible_tiles: Vec<Point>,
    pub range: i32,
    pub dirty: bool,
}

/// Human-readable label used for log messages.
#[derive(Clone, Debug)]
pub struct Name {
    pub name: String,
}

/// One key press, already decoded from the console backend.
#[derive(Clone, Copy, PartialEq, Eq, Structural, Debug)]
pub enum Key {
    A,
    Left,
    D,
    Right,
    W,
    Up,
    S,
    Down,
    Other,
}

} // verus!
