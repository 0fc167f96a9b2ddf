//! What stands in for the Windows integration on other systems: settings have
//! their defaults, and what only Windows offers is refused.

use vstd::prelude::*;
use vstd::string::*;
use crate::settings::WindowGeometry;
use crate::text;

verus! {

// ---------------------------------------------------------------------------
// Settings
// ---------------------------------------------------------------------------

/// The font: chosen by the program.
pub fn load_font_preference() -> (preference: String)
    ensures
        preference@ == "auto"@,
{
    "auto".to_owned()
}

/// No font can be kept.
pub fn save_font_preference(_family: &str) -> (done: Result<(), String>)
    ensures
        done is Err,
        done->Err_0@ == "Settings persistence is only available on Windows"@,
{
    Err("Settings persistence is only available on Windows".to_owned())
}

/// The number of threads: chosen by the program.
pub fn load_thread_preference() -> (preference: String)
    ensures
        preference@ == "auto"@,
{
    "auto".to_owned()
}

/// No number of threads can be kept.
pub fn save_thread_preference(_preference: &str) -> (done: Result<(), String>)
    ensures
        done is Err,
        done->Err_0@ == "Settings persistence is only available on Windows"@,
{
    Err("Settings persistence is only available on Windows".to_owned())
}

/// The theme: that of the system.
pub fn load_theme_preference() -> (preference: String)
    ensures
        preference@ == "auto"@,
{
    "auto".to_owned()
}

/// No theme can be kept.
pub fn save_theme_preference(_preference: &str) -> (done: Result<(), String>)
    ensures
        done is Err,
        done->Err_0@ == "Settings persistence is only available on Windows"@,
{
    Err("Settings persistence is only available on Windows".to_owned())
}

/// The language.
pub fn load_language_preference() -> (preference: String)
    ensures
        preference@ == "en"@,
{
    "en".to_owned()
}

/// No language can be kept.
pub fn save_language_preference(_preference: &str) -> (done: Result<(), String>)
    ensures
        done is Err,
        done->Err_0@ == "Settings persistence is only available on Windows"@,
{
    Err("Settings persistence is only available on Windows".to_owned())
}

/// No place of the window is known.
pub fn load_window_geometry() -> (geometry: Option<WindowGeometry>)
    ensures
        geometry is None,
{
    None
}

/// No place of the window can be kept.
pub fn save_window_geometry(_geometry: &WindowGeometry) -> (done: Result<(), String>)
    ensures
        done is Err,
        done->Err_0@ == "Settings persistence is only available on Windows"@,
{
    Err("Settings persistence is only available on Windows".to_owned())
}

/// The font that a preference stands for.
pub fn resolve_font_family(preference: &str) -> (family: String)
    ensures
        family@ == if preference@.len() == 0 || preference@ == "auto"@ {
            "Yu Gothic"@
        } else {
            preference@
        },
{
    if preference.unicode_len() == 0 || text::same_text(preference, "auto") {
        "Yu Gothic".to_owned()
    } else {
        preference.to_owned()
    }
}

// ---------------------------------------------------------------------------
// Explorer
// ---------------------------------------------------------------------------

/// Files cannot be associated with the program.
pub fn register_file_associations(_executable: &str) -> (done: Result<(), String>)
    ensures
        done is Err,
        done->Err_0@ == "File-association registration is only available on Windows"@,
{
    Err("File-association registration is only available on Windows".to_owned())
}

/// Files cannot be associated with the program.
pub fn unregister_file_associations() -> (done: Result<(), String>)
    ensures
        done is Err,
        done->Err_0@ == "File-association registration is only available on Windows"@,
{
    Err("File-association registration is only available on Windows".to_owned())
}

/// There is no menu to register for.
pub fn register_context_menu(_library: &str) -> (done: Result<(), String>)
    ensures
        done is Err,
        done->Err_0@ == "The Explorer right-click menu is only available on Windows"@,
{
    Err("The Explorer right-click menu is only available on Windows".to_owned())
}

/// There is no menu to register for.
pub fn unregister_context_menu() -> (done: Result<(), String>)
    ensures
        done is Err,
        done->Err_0@ == "The Explorer right-click menu is only available on Windows"@,
{
    Err("The Explorer right-click menu is only available on Windows".to_owned())
}

/// Nothing is registered for a menu.
pub fn is_context_menu_registered() -> (yes: bool)
    ensures
        !yes,
{
    false
}

/// Files are not opened.
pub fn open_file(_path: &str) -> (done: Result<(), String>)
    ensures
        done is Err,
        done->Err_0@ == "Opening files is only available on Windows"@,
{
    Err("Opening files is only available on Windows".to_owned())
}

/// Links are not opened.
pub fn open_url(_url: &str) -> (done: Result<(), String>)
    ensures
        done is Err,
        done->Err_0@ == "Opening links is only available on Windows"@,
{
    Err("Opening links is only available on Windows".to_owned())
}

/// Nothing is shown in Explorer.
pub fn reveal_in_explorer(_path: &str) -> (done: Result<(), String>)
    ensures
        done is Err,
        done->Err_0@ == "Reveal in Explorer is only available on Windows"@,
{
    Err("Reveal in Explorer is only available on Windows".to_owned())
}

/// Files that are dropped have no way to the program; the handler is kept.
#[derive(Debug)]
pub struct FileDropTarget {
    /// The handler, as its owner numbers it.
    pub handler: usize,
}

/// Keeps the handler of dropped files.
pub fn install_file_drop_handler(handler: usize) -> (target: Result<FileDropTarget, String>)
    ensures
        target is Ok,
        target->Ok_0.handler == handler,
{
    Ok(FileDropTarget { handler })
}

/// Files are not dragged to Explorer.
pub fn start_file_drag(_paths: &Vec<String>) -> (done: Result<(), String>)
    ensures
        done is Err,
        done->Err_0@ == "Explorer drag-and-drop is only available on Windows"@,
{
    Err("Explorer drag-and-drop is only available on Windows".to_owned())
}

} // verus!
