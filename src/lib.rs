//! A minesweeper engine: board generation, uncovering and flood fill, flags
//! and win detection, together with the menu choices that configure a game,
//! the rules that tell a click from a drag, the status-bar clock and the
//! colour palette.

pub mod board;
pub mod count;
pub mod grid;
pub mod hud;
pub mod layout;
pub mod menu;
pub mod palette;
pub mod pointer;
