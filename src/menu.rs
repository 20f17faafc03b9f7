use vstd::prelude::*;

use crate::palette::Nord;

verus! {

/// The board sizes offered by the menu.
#[derive(Clone, Copy, Debug, PartialEq, Eq, Structural)]
pub enum Size {
    Small,
    Medium,
    Big,
    Huge,
}

/// Columns and rows of each board size.
pub open spec fn size_dimensions(s: Size) -> (usize, usize) {
    match s {
        Size::Small => (16, 9),
        Size::Medium => (32, 18),
        Size::Big => (48, 27),
        Size::Huge => (64, 36),
    }
}

impl Size {
    pub fn dimensions(self) -> (r: (usize, usize))
        ensures
            r == size_dimensions(self),
    {
        match self {
            Size::Small => (16, 9),
            Size::Medium => (32, 18),
            Size::Big => (48, 27),
            Size::Huge => (64, 36),
        }
    }

    /// The size that follows this one when the menu button is pressed.
    pub fn next(self) -> (r: Size)
        ensures
            r == match self {
                Size::Small => Size::Medium,
                Size::Medium => Size::Big,
                Size::Big => Size::Huge,
                Size::Huge => Size::Small,
            },
    {
        match self {
            Size::Small => Size::Medium,
            Size::Medium => Size::Big,
            Size::Big => Size::Huge,
            Size::Huge => Size::Small,
        }
    }

    /// The palette colour (as `0xRRGGBB`) that the menu shows this size in.
    pub fn color(self) -> (r: u32)
        ensures
            r == match self {
                Size::Small => Nord::GREEN,
                Size::Medium => Nord::YELLOW,
                Size::Big => Nord::ORANGE,
                Size::Huge => Nord::RED,
            },
    {
        match self {
            Size::Small => Nord::GREEN,
            Size::Medium => Nord::YELLOW,
            Size::Big => Nord::ORANGE,
            Size::Huge => Nord::RED,
        }
    }

    pub fn label(self) -> (r: String)
        ensures
            r@ == "Size:"@,
    {
        String::from_str("Size:")
    }

    /// The name that the menu shows for this size.
    pub fn name(self) -> (r: String)
        ensures
            r@ == match self {
                Size::Small => "Small"@,
                Size::Medium => "Medium"@,
                Size::Big => "Big"@,
                Size::Huge => "Huge"@,
            },
    {
        match self {
            Size::Small => String::from_str("Small"),
            Size::Medium => String::from_str("Medium"),
            Size::Big => String::from_str("Big"),
            Size::Huge => String::from_str("Huge"),
        }
    }
}

/// The mine densities offered by the menu; `Debug` lays out a fixed pattern.
#[derive(Clone, Copy, Debug, PartialEq, Eq, Structural)]
pub enum Difficulty {
    Easy,
    Medium,
    Hard,
    Extreme,
    Debug,
}

/// How many mines a board of `cells` cells gets at difficulty `d`.
pub open spec fn mines_for(d: Difficulty, cells: int) -> int {
    match d {
        Difficulty::Easy => cells / 10,
        Difficulty::Medium => cells * 3 / 20,
        Difficulty::Hard => cells / 5,
        Difficulty::Extreme => cells / 4,
        Difficulty::Debug => 36,
    }
}

impl Difficulty {
    pub fn mine_count(self, cells: usize) -> (r: usize)
        requires
            cells * 3 <= usize::MAX,
        ensures
            r == mines_for(self, cells as int),
    {
        match self {
            Difficulty::Easy => cells / 10,
            Difficulty::Medium => cells * 3 / 20,
            Difficulty::Hard => cells / 5,
            Difficulty::Extreme => cells / 4,
            Difficulty::Debug => 36,
        }
    }

    pub fn is_debug(self) -> (r: bool)
        ensures
            r == (self == Difficulty::Debug),
    {
        self == Difficulty::Debug
    }

    /// The difficulty that follows this one when the menu button is pressed.
    pub fn next(self) -> (r: Difficulty)
        ensures
            r == match self {
                Difficulty::Easy => Difficulty::Medium,
                Difficulty::Medium => Difficulty::Hard,
                Difficulty::Hard => Difficulty::Extreme,
                Difficulty::Extreme => Difficulty::Debug,
                Difficulty::Debug => Difficulty::Easy,
            },
    {
        match self {
            Difficulty::Easy => Difficulty::Medium,
            Difficulty::Medium => Difficulty::Hard,
            Difficulty::Hard => Difficulty::Extreme,
            Difficulty::Extreme => Difficulty::Debug,
            Difficulty::Debug => Difficulty::Easy,
        }
    }

    /// The palette colour (as `0xRRGGBB`) that the menu shows this difficulty in.
    pub fn color(self) -> (r: u32)
        ensures
            r == match self {
                Difficulty::Easy => Nord::GREEN,
                Difficulty::Medium => Nord::YELLOW,
                Difficulty::Hard => Nord::ORANGE,
                Difficulty::Extreme => Nord::RED,
                Difficulty::Debug => Nord::PURPLE,
            },
    {
        match self {
            Difficulty::Easy => Nord::GREEN,
            Difficulty::Medium => Nord::YELLOW,
            Difficulty::Hard => Nord::ORANGE,
            Difficulty::Extreme => Nord::RED,
            Difficulty::Debug => Nord::PURPLE,
        }
    }

    pub fn label(self) -> (r: String)
        ensures
            r@ == "Difficulty:"@,
    {
        String::from_str("Difficulty:")
    }

    /// The name that the menu shows for this difficulty.
    pub fn name(self) -> (r: String)
        ensures
            r@ == match self {
                Difficulty::Easy => "Easy"@,
                Difficulty::Medium => "Medium"@,
                Difficulty::Hard => "Hard"@,
                Difficulty::Extreme => "Extreme"@,
                Difficulty::Debug => "Debug"@,
            },
    {
        match self {
            Difficulty::Easy => String::from_str("Easy"),
            Difficulty::Medium => String::from_str("Medium"),
            Difficulty::Hard => String::from_str("Hard"),
            Difficulty::Extreme => String::from_str("Extreme"),
            Difficulty::Debug => String::from_str("Debug"),
        }
    }
}

} // verus!
