use vstd::prelude::*;

verus! {

/// The closed palette of the rendered images.
#[derive(Clone, Copy, Debug, PartialEq, Eq, Structural)]
pub enum Color {
    Background,
    White,
    Blue,
    Red,
    Yellow,
}

/// The RGB triple of each palette entry.
pub open spec fn rgb_spec(c: Color) -> (u8, u8, u8) {
    match c {
        Color::Background => (4, 90, 141),
        Color::White => (255, 247, 251),
        Color::Blue => (54, 144, 192),
        Color::Red => (227, 26, 28),
        Color::Yellow => (255, 237, 160),
    }
}

impl Color {
    /// The red, green and blue components of this colour.
    pub fn rgb(&self) -> (r: (u8, u8, u8))
        ensures
            r == rgb_spec(*self),
    {
        match self {
            Color::Background => (4, 90, 141),
            Color::White => (255, 247, 251),
            Color::Blue => (54, 144, 192),
            Color::Red => (227, 26, 28),
            Color::Yellow => (255, 237, 160),
        }
    }
}

} // verus!
