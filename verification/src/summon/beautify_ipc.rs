//! The messages between the picker and the theme daemon.

use vstd::prelude::*;

use crate::ipc::client;
use crate::ipc::client::join;
use crate::text;

verus! {

/// What the picker asks of the theme daemon.
#[derive(Debug)]
pub enum Request {
    GetState,
    ListThemes,
    ListVariants { theme: String },
    ListWallpapers { theme: String, variant: Option<String> },
    GetHistory,
    SetTheme { name: String, variant: Option<String>, wallpaper: Option<String> },
    SetVariant { variant: String },
    CycleVariant { direction: Direction },
    ApplyPreview { theme: Option<String>, variant: Option<String>, wallpaper: Option<String> },
    CommitPreview,
    CancelPreview,
}

#[derive(Clone, Copy, Debug, PartialEq, Eq, Structural)]
pub enum Direction {
    Next,
    Prev,
}

/// What the theme daemon answers.
#[derive(Debug)]
pub enum Response {
    Done,
    OkWithMessage { message: String },
    Error { message: String },
    State { theme: Option<String>, variant: Option<String>, preview_active: bool },
    Themes { themes: Vec<ThemeEntry> },
    Variants {
        theme: String,
        default_variant: Option<String>,
        variants: Vec<VariantEntry>,
    },
    Wallpapers { theme: String, variant: Option<String>, entries: Vec<WallpaperEntry> },
    History { entries: Vec<HistoryEntry> },
}

#[derive(Debug)]
pub struct WallpaperEntry {
    pub path: String,
    pub file_name: String,
    pub is_animated: bool,
}

#[derive(Debug)]
pub struct ThemeEntry {
    pub name: String,
    pub display_name: Option<String>,
    pub author: Option<String>,
    pub default_variant: Option<String>,
    pub variant_count: usize,
    pub source: String,
}

#[derive(Debug)]
pub struct VariantEntry {
    pub name: String,
    pub display_name: Option<String>,
    pub preset: Option<String>,
}

#[derive(Debug)]
pub struct HistoryEntry {
    pub theme: String,
    pub variant: Option<String>,
    pub timestamp: String,
}

/// The path of the socket of the theme daemon. `given` is the value of
/// `XDG_RUNTIME_DIR`.
pub fn socket_path(given: &Option<String>) -> (path: String)
    ensures
        path@ == client::joined(
            client::runtime_dir(text::opt_view(*given)),
            "kara-beautify.sock"@,
        ),
{
    match given {
        Some(d) => join(d.as_str(), "kara-beautify.sock"),
        None => join("/tmp", "kara-beautify.sock"),
    }
}

} // verus!
