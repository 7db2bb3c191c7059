//! Screen geometry and colours of the terminal client.

use vstd::prelude::*;

verus! {

/// What a view asks of its caller after handling an input.
#[derive(Clone, Copy, PartialEq, Eq, Structural, Debug)]
pub enum Flow {
    Redraw,
    Submit,
}

/// A rectangle of terminal cells: its corner and its size.
#[derive(Clone, Copy, PartialEq, Eq, Structural, Default, Debug)]
pub struct Rect {
    pub x: u16,
    pub y: u16,
    pub w: u16,
    pub h: u16,
}

impl Rect {
    /// The rectangle `i` cells in from every side.
    pub fn shrink_center(self, i: u16) -> (r: Rect)
        requires
            self.x + i <= u16::MAX,
            self.y + i <= u16::MAX,
            2 * i <= self.w,
            2 * i <= self.h,
        ensures
            r == (Rect { x: (self.x + i) as u16, y: (self.y + i) as u16, w: (self.w - 2 * i) as u16, h: (self.h - 2 * i) as u16 }),
    {
        Rect { x: self.x + i, y: self.y + i, w: self.w - 2 * i, h: self.h - 2 * i }
    }

    /// The rectangle moved `rows` back along its first coordinate.
    pub fn up(&self, rows: u16) -> (r: Rect)
        requires
            self.x >= rows,
        ensures
            r == (Rect { x: (self.x - rows) as u16, ..*self }),
    {
        let mut rect = *self;
        rect.x = rect.x - rows;
        rect
    }

    /// The rectangle moved `rows` on along its first coordinate.
    pub fn down(&self, rows: u16) -> (r: Rect)
        requires
            self.x + rows <= u16::MAX,
        ensures
            r == (Rect { x: (self.x + rows) as u16, ..*self }),
    {
        let mut rect = *self;
        rect.x = rect.x + rows;
        rect
    }
}

impl From<(u16, u16, u16, u16)> for Rect {
    fn from(t: (u16, u16, u16, u16)) -> (r: Rect) {
        Rect { x: t.0, y: t.1, w: t.2, h: t.3 }
    }
}

impl vstd::std_specs::convert::FromSpecImpl<(u16, u16, u16, u16)> for Rect {
    open spec fn obeys_from_spec() -> bool {
        true
    }

    open spec fn from_spec(t: (u16, u16, u16, u16)) -> Rect {
        Rect { x: t.0, y: t.1, w: t.2, h: t.3 }
    }
}

/// A colour by its red, green and blue parts.
#[derive(Clone, Copy, PartialEq, Eq, Structural, Debug)]
pub struct Rgb {
    pub r: u8,
    pub g: u8,
    pub b: u8,
}

/// The client's palette.
#[derive(Clone, Copy, PartialEq, Eq, Structural, Debug)]
pub struct Colors {
    pub background: Rgb,
    pub current: Rgb,
    pub foreground: Rgb,
    pub comment: Rgb,
    pub cyan: Rgb,
    pub green: Rgb,
    pub orange: Rgb,
    pub pink: Rgb,
    pub purple: Rgb,
    pub red: Rgb,
    pub yellow: Rgb,
}

/// The client's default palette.
pub open spec fn default_colors() -> Colors {
    Colors {
        background: Rgb { r: 40, g: 42, b: 54 },
        current: Rgb { r: 68, g: 71, b: 90 },
        foreground: Rgb { r: 248, g: 248, b: 242 },
        comment: Rgb { r: 98, g: 114, b: 164 },
        cyan: Rgb { r: 139, g: 233, b: 253 },
        green: Rgb { r: 80, g: 250, b: 123 },
        orange: Rgb { r: 255, g: 184, b: 108 },
        pink: Rgb { r: 255, g: 121, b: 198 },
        purple: Rgb { r: 189, g: 147, b: 249 },
        red: Rgb { r: 255, g: 85, b: 85 },
        yellow: Rgb { r: 241, g: 250, b: 140 },
    }
}

impl Colors {
    /// The client's default palette.
    pub fn palette() -> (r: Colors)
        ensures
            r == default_colors(),
    {
        Colors {
            background: Rgb { r: 40, g: 42, b: 54 },
            current: Rgb { r: 68, g: 71, b: 90 },
            foreground: Rgb { r: 248, g: 248, b: 242 },
            comment: Rgb { r: 98, g: 114, b: 164 },
            cyan: Rgb { r: 139, g: 233, b: 253 },
            green: Rgb { r: 80, g: 250, b: 123 },
            orange: Rgb { r: 255, g: 184, b: 108 },
            pink: Rgb { r: 255, g: 121, b: 198 },
            purple: Rgb { r: 189, g: 147, b: 249 },
            red: Rgb { r: 255, g: 85, b: 85 },
            yellow: Rgb { r: 241, g: 250, b: 140 },
        }
    }
}

/// The terminal's size and the palette.
#[derive(Clone, Copy, PartialEq, Eq, Structural, Debug)]
pub struct Config {
    pub width: u16,
    pub height: u16,
    pub colors: Colors,
}

impl Config {
    /// The configuration of a terminal `width` cells wide and `height`
    /// high, with the default palette.
    pub fn new(width: u16, height: u16) -> (r: Config)
        ensures
            r.width == width,
            r.height == height,
            r.colors == default_colors(),
    {
        Config { width, height, colors: Colors::palette() }
    }

    /// The whole terminal.
    pub fn rect(&self) -> (r: Rect)
        ensures
            r == (Rect { x: 0, y: 0, w: self.width, h: self.height }),
    {
        Rect { x: 0, y: 0, w: self.width, h: self.height }
    }
}

} // verus!
