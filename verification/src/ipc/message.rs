//! The messages of the protocol.

use vstd::prelude::*;

verus! {

/// What a tool asks of the compositor.
#[derive(Debug)]
pub enum Request {
    GetWorkspaces,
    GetActiveWindow,
    GetOutputs,
    GetTheme,
    ViewWorkspace { index: usize },
    SendToWorkspace { index: usize },
    FocusNext,
    FocusPrev,
    KillClient,
    Reload,
    Spawn { command: String },
    ThemeChanged { theme_name: String },
    WallpaperChanged { path: String },
    Screenshot,
    ScreenshotRegion { x: i32, y: i32, w: i32, h: i32 },
    ScreenshotOutput { name: String },
    GetWindowGeometries,
    Subscribe,
    Unsubscribe,
}

/// What the compositor answers.
#[derive(Debug)]
pub enum Response {
    Done,
    Error { message: String },
    Workspaces { current: usize, occupied: Vec<bool> },
    ActiveWindow { title: String, app_id: String },
    Outputs { outputs: Vec<OutputInfo> },
    Theme { colors: ThemeColors },
    ScreenshotDone { path: String },
    WindowGeometries { windows: Vec<WindowGeometry> },
}

/// What the compositor tells the tools that listen.
#[derive(Debug)]
pub enum Event {
    WorkspaceChanged { index: usize },
    WindowOpened { app_id: String },
    WindowClosed { app_id: String },
    FocusChanged { title: String, app_id: String },
    ThemeReloaded,
    OutputChanged,
}

#[derive(Debug)]
pub struct WindowGeometry {
    pub app_id: String,
    pub title: String,
    pub x: i32,
    pub y: i32,
    pub w: i32,
    pub h: i32,
}

#[verifier::ext_equal]
pub struct WindowGeometryView {
    pub app_id: Seq<char>,
    pub title: Seq<char>,
    pub x: i32,
    pub y: i32,
    pub w: i32,
    pub h: i32,
}

impl View for WindowGeometry {
    type V = WindowGeometryView;

    open spec fn view(&self) -> WindowGeometryView {
        WindowGeometryView {
            app_id: self.app_id@,
            title: self.title@,
            x: self.x,
            y: self.y,
            w: self.w,
            h: self.h,
        }
    }
}

#[derive(Debug)]
pub struct OutputInfo {
    pub name: String,
    pub width: i32,
    pub height: i32,
    pub x: i32,
    pub y: i32,
    pub primary: bool,
}

#[verifier::ext_equal]
pub struct OutputInfoView {
    pub name: Seq<char>,
    pub width: i32,
    pub height: i32,
    pub x: i32,
    pub y: i32,
    pub primary: bool,
}

impl View for OutputInfo {
    type V = OutputInfoView;

    open spec fn view(&self) -> OutputInfoView {
        OutputInfoView {
            name: self.name@,
            width: self.width,
            height: self.height,
            x: self.x,
            y: self.y,
            primary: self.primary,
        }
    }
}

/// The colours and measures of the session, for tools that want to match it.
#[derive(Debug)]
pub struct ThemeColors {
    pub bg: u32,
    pub surface: u32,
    pub text: u32,
    pub text_muted: u32,
    pub accent: u32,
    pub accent_soft: u32,
    pub border: u32,
    /// The height of the bar in pixels.
    pub bar_height: Option<u16>,
    /// Whether the bar draws a background.
    pub bar_background: Option<bool>,
    pub bar_background_alpha: Option<u8>,
    /// The width of window borders; a tool has its own default.
    pub border_px: Option<u16>,
    pub border_radius: Option<u16>,
    /// An image to tile the borders with; without it they have one colour.
    pub border_tile_path: Option<String>,
    pub font_family: Option<String>,
}

} // verus!
