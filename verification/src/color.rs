//! Colour tags for glyphs and log lines. A front end maps them to whatever
//! its terminal library calls colours.

use vstd::prelude::*;

verus! {

#[derive(Clone, Copy, PartialEq, Eq, Structural, Debug)]
pub enum Color {
    White,
    Gray,
    DarkGray,
    Red,
    Green,
    LightGreen,
    Yellow,
    Blue,
    Magenta,
    Cyan,
    Rgb(u8, u8, u8),
}

} // verus!
