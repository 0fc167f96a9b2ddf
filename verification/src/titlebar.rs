//! The colors of the window's title bar.

use vstd::prelude::*;

verus! {

/// A color as Windows takes it: red in the low byte.
pub open spec fn color(red: u8, green: u8, blue: u8) -> u32 {
    (red + 0x100 * green + 0x1_0000 * blue) as u32
}

/// [`color`], executable.
pub fn rgb(red: u8, green: u8, blue: u8) -> (value: u32)
    ensures
        value == color(red, green, blue),
{
    red as u32 + 0x100 * (green as u32) + 0x1_0000 * (blue as u32)
}

/// How the title bar looks.
#[derive(Debug, Clone, Copy, PartialEq, Eq, Structural)]
pub struct TitlebarTheme {
    pub dark: bool,
    pub caption: u32,
    pub text: u32,
    pub border: u32,
}

/// The look of a dark or a light title bar.
pub open spec fn theme(dark: bool) -> TitlebarTheme {
    if dark {
        TitlebarTheme {
            dark,
            caption: color(31, 33, 36),
            text: color(245, 247, 250),
            border: color(58, 61, 66),
        }
    } else {
        TitlebarTheme {
            dark,
            caption: color(248, 249, 250),
            text: color(31, 35, 40),
            border: color(218, 222, 227),
        }
    }
}

/// Whether a choice of theme is dark: the second is, the first is not, and
/// any other follows the system.
pub open spec fn is_dark(theme_selection: i32, system_dark: bool) -> bool {
    if theme_selection == 2 {
        true
    } else if theme_selection == 1 {
        false
    } else {
        system_dark
    }
}

/// The look of the title bar for a choice of theme.
pub fn apply_window_theme(theme_selection: i32, system_dark: bool) -> (look: TitlebarTheme)
    ensures
        look == theme(is_dark(theme_selection, system_dark)),
{
    let dark: bool = match theme_selection {
        2 => true,
        1 => false,
        _ => system_dark,
    };
    if dark {
        TitlebarTheme {
            dark,
            caption: rgb(31, 33, 36),
            text: rgb(245, 247, 250),
            border: rgb(58, 61, 66),
        }
    } else {
        TitlebarTheme {
            dark,
            caption: rgb(248, 249, 250),
            text: rgb(31, 35, 40),
            border: rgb(218, 222, 227),
        }
    }
}

/// A colour holds red in its lowest byte, then green, then blue.
pub proof fn law_colours_hold_their_parts(red: u8, green: u8, blue: u8)
    ensures
        color(red, green, blue) % 256 == red,
        color(red, green, blue) / 256 % 256 == green,
        color(red, green, blue) / 65536 == blue,
{
}

/// The choice of a theme decides, and the system where it is left open. A dark
/// title bar has light text on a dark ground, a light one the reverse.
pub proof fn law_themes(selection: i32, system_dark: bool, dark: bool)
    ensures
        is_dark(2, system_dark),
        !is_dark(1, system_dark),
        selection != 1 && selection != 2 ==> is_dark(selection, system_dark) == system_dark,
        theme(dark).dark == dark,
        theme(true).caption % 256 < theme(true).text % 256,
        theme(false).caption % 256 > theme(false).text % 256,
        theme(true).caption == 31 + 256 * 33 + 65536 * 36,
        theme(true).text == 245 + 256 * 247 + 65536 * 250,
        theme(true).border == 58 + 256 * 61 + 65536 * 66,
        theme(false).caption == 248 + 256 * 249 + 65536 * 250,
        theme(false).text == 31 + 256 * 35 + 65536 * 40,
        theme(false).border == 218 + 256 * 222 + 65536 * 227,
{
}

} // verus!
