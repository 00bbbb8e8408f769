//! Colours of the terminal that the interface is drawn in.

use vstd::prelude::*;
use crate::app::frame_data::Color;

verus! {

pub struct TerminalTheme {
    pub mode: TerminalThemeMode,
    pub foreground_color: Color,
    pub background_color: Color,
}

#[derive(PartialEq, Eq, Structural, Clone, Copy, Debug)]
pub enum TerminalThemeMode {
    Light,
    Dark,
}

impl TerminalTheme {
    /// The theme that the terminal reported: light or dark, with its 8-bit colours.
    pub fn from_palette(is_light: bool, foreground_color: Color, background_color: Color) -> (t: TerminalTheme)
        ensures
            t.mode == (if is_light { TerminalThemeMode::Light } else { TerminalThemeMode::Dark }),
            t.foreground_color == foreground_color,
            t.background_color == background_color,
    {
        let mode = if is_light { TerminalThemeMode::Light } else { TerminalThemeMode::Dark };
        TerminalTheme { mode, foreground_color, background_color }
    }

    /// The theme assumed when the terminal does not report one: white on black.
    pub fn assumed_dark() -> (t: TerminalTheme)
        ensures
            t.mode == TerminalThemeMode::Dark,
            t.foreground_color == (Color { r: 255, g: 255, b: 255 }),
            t.background_color == (Color { r: 0, g: 0, b: 0 }),
    {
        TerminalTheme {
            mode: TerminalThemeMode::Dark,
            foreground_color: Color { r: 255, g: 255, b: 255 },
            background_color: Color { r: 0, g: 0, b: 0 },
        }
    }
}

} // verus!
