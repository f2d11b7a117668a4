use kara::gate::actions::{Action, Keybind};
use kara::gate::animation::Offset;
use kara::gate::config::{
    AnimationPreset, Animations, BarConfig, BarPosition, Config, General, ModMask, MonitorConfig,
    Rotation, ScratchpadConfig, Theme,
};
use kara::gate::borders::{
    bar_top, border_paint, place_strips, plan_ring, BorderStrips, PlacedStrip, Side, StripPlan,
    TileChange,
};
use kara::gate::capture::{
    blur_target, crop_screenshot, log_rate_limited_error, plan_blur, screenshot_area, BlurError,
    BlurTarget, FrameState,
};
use kara::gate::cursor::{cursor_from_images, icon_names, load_xcursor, CursorImage};
use kara::gate::environment::{
    choose_backend, cursor_theme_name, cursor_theme_vars, home_relative, parse_env_file, Backend,
};
use kara::gate::frame::{Bucket, Extent, LayerInfo, Part};
use kara::gate::monitors::{
    config_rotation_transform, count_connected, find_crtc_for_connector, force_enable_all,
    format_connector_name, pick_card, resolve_rotation, select_mode, Card, Connector,
    ConnectorEntry, CrtcUse, Interface, Planner, Turn, VideoMode,
};
use kara::gate::outputs::{find_named, order_outputs};
use kara::gate::overlay::{
    build_keybind_groups, format_action_label, format_keybind_combo, has_label, line_rgb,
    plan_overlay, pretty_key_name, LineKind,
};
use kara::gate::state::{Gate, PendingScreenshot};
use kara::gate::wallpaper::{
    file_kind, frame_delay, next_wake, take_frame, FileKind, RawFrame, VideoFrame, Wallpaper,
};
use kara::geometry::{Rect, Size};
use kara::ratio;

const NO_MODS: ModMask = ModMask { logo: false, shift: false, ctrl: false, alt: false };
const THEME: Theme = Theme {
    bg: 0x010203,
    surface: 2,
    text: 0x0a0b0c,
    text_muted: 4,
    accent: 0x112233,
    accent_soft: 6,
    border: 0x445566,
};

fn rect(x: i32, y: i32, w: i32, h: i32) -> Rect {
    Rect { x, y, w, h }
}

fn monitor(name: &str, enabled: bool) -> MonitorConfig {
    MonitorConfig {
        name: name.to_string(),
        enabled,
        primary: false,
        resolution: None,
        refresh: None,
        position: None,
        rotation: Rotation::Normal,
    }
}

fn config() -> Config {
    Config {
        general: General {
            gap_px: 8,
            border_px: 2,
            border_radius: 0,
            border_tile: None,
            default_mfact: ratio::HALF,
            sync_workspaces: false,
            font: "monospace".to_string(),
            cursor_theme: Some("Nice".to_string()),
            cursor_size: 32,
        },
        bar: BarConfig {
            enabled: true,
            height: 30,
            position: BarPosition::Top,
            background: true,
            background_alpha: 255,
            blur: false,
        },
        animations: Animations { preset: AnimationPreset::Instant, duration_ms: 0 },
        theme: THEME,
        scratchpads: vec![ScratchpadConfig {
            name: "term".to_string(),
            width_pct: 50,
            height_pct: 50,
            autostart: Vec::new(),
            captures: Vec::new(),
            dim_alpha: 100,
            blur: true,
            blur_passes: 2,
        }],
        rules: Vec::new(),
        commands: Vec::new(),
        autostart: Vec::new(),
        environment: Vec::new(),
        monitors: Vec::new(),
        keybinds: Vec::new(),
    }
}

fn gate_with(c: Config, names: &[&str]) -> Gate {
    let mut g = Gate::new(c, 0);
    for (i, n) in names.iter().enumerate() {
        g.add_output(n.to_string(), Size { w: 1920, h: 1080 }, 1920 * i as i32, 0);
    }
    g.sort_outputs();
    g.begin();
    g
}

fn open(g: &mut Gate, w: u16) {
    g.new_toplevel(w);
    g.commit(w, "app", true);
}

// ---- Monitors ----------------------------------------------------------------

#[test]
fn connected_monitors_are_counted() {
    let e = |name: &str, status: Option<&str>| ConnectorEntry {
        name: name.to_string(),
        status: status.map(String::from),
    };
    let list = vec![
        e("card0-DP-1", Some("connected\n")),
        e("card0-DP-2", Some("disconnected\n")),
        e("card01-DP-1", Some("connected")),
        e("card0-eDP-1", Some("connected")),
        e("card0-X", None),
    ];
    assert_eq!(count_connected(&list, "card0"), 2);
    assert_eq!(count_connected(&list, "card1"), 0);
}

#[test]
fn the_card_with_most_monitors_renders() {
    let c = |renders: bool, connected: usize, hinted: bool| Card { renders, connected, hinted };
    assert_eq!(pick_card(&vec![c(true, 1, false), c(true, 2, false), c(false, 9, true)]), Some(1));
    assert_eq!(pick_card(&vec![c(true, 1, true), c(true, 1, false)]), Some(0));
    assert_eq!(pick_card(&vec![c(true, 0, false), c(true, 0, false)]), Some(1));
    assert_eq!(pick_card(&vec![c(false, 3, true)]), None);
}

#[test]
fn connectors_have_names() {
    assert_eq!(format_connector_name(Interface::HdmiA, 1), "HDMI-A-1");
    assert_eq!(format_connector_name(Interface::EmbeddedDisplayPort, 12), "eDP-12");
    assert_eq!(format_connector_name(Interface::Other, 0), "Unknown-0");
}

fn mode(w: u16, h: u16, refresh: u32, preferred: bool) -> VideoMode {
    VideoMode { w, h, refresh, preferred }
}

fn connector(id: u32, connected: bool) -> Connector {
    Connector {
        interface: Interface::DisplayPort,
        id,
        connected,
        modes: vec![mode(1280, 720, 60, false), mode(1920, 1080, 60, true), mode(1920, 1080, 144, false)],
        encoders: vec![vec![40 + id], vec![50]],
    }
}

#[test]
fn the_size_that_is_asked_for_is_used() {
    let modes = connector(1, true).modes;
    assert_eq!(select_mode(&modes, None, None, false), 1);
    assert_eq!(select_mode(&modes, Some((1920, 1080)), Some(144), false), 2);
    assert_eq!(select_mode(&modes, Some((1920, 1080)), Some(75), false), 2);
    assert_eq!(select_mode(&modes, Some((720, 1280)), None, true), 0);
    assert_eq!(select_mode(&modes, Some((800, 600)), None, false), 1);
    assert_eq!(select_mode(&vec![mode(1, 1, 1, false)], Some((8, 8)), None, false), 0);
}

#[test]
fn some_monitor_is_used() {
    let all = vec![connector(1, true), connector(2, false)];
    let off = vec![monitor("DP-1", false)];
    assert!(force_enable_all(&all, &off));
    assert!(!force_enable_all(&all, &vec![monitor("DP-3", false)]));
    let mut p = Planner::new();
    assert!(p.plan(&all[0], &vec![41, 50], 1, &off, false).is_none());
    assert!(p.plan(&all[0], &vec![41, 50], 1, &off, true).is_some());
    assert!(p.plan(&all[1], &vec![41, 50], 1, &Vec::new(), false).is_none());
}

#[test]
fn engines_are_not_shared() {
    let used = vec![CrtcUse { node: 1, crtc: 41 }];
    assert_eq!(find_crtc_for_connector(&vec![vec![41], vec![50]], &vec![41, 50], 1, &used), Some(50));
    assert_eq!(find_crtc_for_connector(&vec![vec![41]], &vec![41, 60], 1, &used), Some(60));
    assert_eq!(find_crtc_for_connector(&vec![vec![41]], &vec![41], 2, &used), Some(41));
    assert_eq!(find_crtc_for_connector(&vec![vec![41]], &vec![41], 1, &used), None);
    let mut p = Planner::new();
    let a = p.plan(&connector(1, true), &vec![41, 50], 1, &Vec::new(), false).unwrap();
    p.came_up(&a);
    let b = p.plan(&connector(2, true), &vec![41, 50], 1, &Vec::new(), false).unwrap();
    assert!(a.crtc != b.crtc);
    assert_eq!((a.x, b.x), (0, 1920));
    assert_eq!(a.name, "DP-1");
}

#[test]
fn outputs_are_turned() {
    assert_eq!(config_rotation_transform(Rotation::Left), Turn::ThreeQuarters);
    assert_eq!(resolve_rotation(Rotation::Normal), (Turn::Normal, false));
    assert_eq!(resolve_rotation(Rotation::Right), (Turn::Quarter, true));
    assert_eq!(resolve_rotation(Rotation::Flipped), (Turn::Half, true));
    let mut m = monitor("DP-1", true);
    m.rotation = Rotation::Left;
    m.position = Some((100, -50));
    let plan = Planner::new().plan(&connector(1, true), &vec![41], 1, &vec![m], false).unwrap();
    assert_eq!(plan.panel, Size { w: 1920, h: 1080 });
    assert_eq!(plan.size, Size { w: 1080, h: 1920 });
    assert_eq!((plan.x, plan.y, plan.two_pass), (100, -50, true));
}

#[test]
fn the_order_of_the_outputs_is_complete() {
    let g = gate_with(config(), &["A", "B", "C", "D"]);
    let ms = vec![monitor("C", true), monitor("X", true), monitor("A", true), monitor("C", true)];
    assert_eq!(order_outputs(&ms, &g.outputs), vec![2, 0, 1, 3]);
    assert_eq!(order_outputs(&Vec::new(), &g.outputs), vec![0, 1, 2, 3]);
    assert_eq!(find_named(&g.outputs, "B"), Some(1));
    assert_eq!(find_named(&g.outputs, "b"), None);
}

#[test]
fn sorting_outputs_twice_changes_nothing() {
    let mut g = Gate::new(config(), 0);
    g.add_output("R".to_string(), Size { w: 100, h: 100 }, 500, 0);
    g.add_output("L".to_string(), Size { w: 100, h: 100 }, 0, 0);
    let ranks = g.sort_outputs();
    assert_eq!(ranks, vec![1, 0]);
    assert_eq!(g.outputs.iter().map(|o| o.name.clone()).collect::<Vec<_>>(), vec!["L", "R"]);
    assert_eq!(g.sort_outputs(), vec![0, 1]);
}

#[test]
fn the_primary_output_is_focused() {
    let mut c = config();
    let mut m = monitor("B", true);
    m.primary = true;
    c.monitors = vec![m];
    let g = gate_with(c, &["A", "B"]);
    assert_eq!(g.find_primary_output(), 1);
    assert_eq!(g.focused_output, 1);
    assert!(g.pointer_start().is_some());
    assert!(Gate::new(config(), 0).pointer_start().is_none());
}

// ---- Pictures ----------------------------------------------------------------

#[test]
fn strips_form_a_ring() {
    let r = plan_ring(Size { w: 100, h: 50 }, 3);
    assert_eq!(r.top, StripPlan { x: 0, y: 0, w: 100, h: 3 });
    assert_eq!(r.bottom, StripPlan { x: 0, y: 47, w: 100, h: 3 });
    assert_eq!(r.left, StripPlan { x: 0, y: 3, w: 3, h: 44 });
    assert_eq!(r.right, StripPlan { x: 97, y: 3, w: 3, h: 44 });
    let covers = |s: &StripPlan, x: u32, y: u32| {
        s.x <= x && x < s.x + s.w && s.y <= y && y < s.y + s.h
    };
    for x in 0..100 {
        for y in 0..50 {
            let n = [&r.top, &r.bottom, &r.left, &r.right].iter().filter(|s| covers(s, x, y)).count();
            let edge = x < 3 || x >= 97 || y < 3 || y >= 47;
            assert_eq!(n, edge as usize);
        }
    }
    assert_eq!(plan_ring(Size { w: 9, h: 9 }, 0).top, StripPlan { x: 0, y: 0, w: 0, h: 0 });
    assert_eq!(plan_ring(Size { w: 9, h: 6 }, 3).left, StripPlan { x: 0, y: 0, w: 0, h: 0 });
}

#[test]
fn strips_are_placed() {
    let strip = |n: usize| (vec![0_u8; n], 1, 1);
    let s = BorderStrips { top: strip(4), bottom: strip(4), left: strip(0), right: strip(4) };
    let out = place_strips(&s, Size { w: 100, h: 50 }, 3, 10, 20);
    assert_eq!(
        out,
        vec![
            PlacedStrip { side: Side::Top, x: 10, y: 20 },
            PlacedStrip { side: Side::Bottom, x: 10, y: 67 },
            PlacedStrip { side: Side::Right, x: 107, y: 23 },
        ]
    );
}

#[test]
fn borders_have_colours() {
    let p = border_paint(true, false, 0x112233, 0x445566);
    assert_eq!(p.fill, (0x11, 0x22, 0x33));
    assert!(p.glow.is_none());
    assert_eq!(border_paint(false, false, 0x112233, 0x445566).fill, (0x44, 0x55, 0x66));
}

#[test]
fn the_bar_stands_beside_the_work_area() {
    let top = config();
    assert_eq!(bar_top(&top.bar, 1080), 0);
    let mut bottom = config();
    bottom.bar.position = BarPosition::Bottom;
    assert_eq!(bar_top(&bottom.bar, 1080), 1050);
    let g = gate_with(bottom, &["A"]);
    assert_eq!(g.outputs[0].workarea, rect(0, 0, 1920, 1050));
}

#[test]
fn a_tile_is_read_when_it_changes() {
    let mut c = config();
    c.general.border_tile = Some("/t.png".to_string());
    let mut g = gate_with(c, &["A"]);
    assert!(matches!(g.refresh_border_tile_cache(&None), TileChange::Load(p) if p == "/t.png"));
    assert!(matches!(g.refresh_border_tile_cache(&Some("/t.png".to_string())), TileChange::Keep));
    g.config.general.border_tile = None;
    assert!(matches!(g.refresh_border_tile_cache(&Some("/t.png".to_string())), TileChange::Drop));
    assert!(matches!(g.refresh_border_tile_cache(&None), TileChange::Keep));
}

fn extents(ws: &[u16]) -> Vec<Extent> {
    ws.iter().map(|w| Extent { window: *w, bbox: rect(0, 0, 300, 300), origin_x: 0, origin_y: 0 }).collect()
}

#[test]
fn every_window_is_drawn_once() {
    let mut g = gate_with(config(), &["A"]);
    open(&mut g, 1);
    open(&mut g, 2);
    g.do_toggle_float();
    assert_eq!(g.bucket_of(1), Bucket::Tiled);
    assert_eq!(g.bucket_of(2), Bucket::FocusedFloat);
    g.do_toggle_scratchpad("term");
    open(&mut g, 3);
    assert_eq!(g.bucket_of(2), Bucket::Float);
    assert_eq!(g.bucket_of(3), Bucket::Scratchpad);
    let f = g.frame_windows(0, &extents(&[1, 2, 3]));
    assert_eq!(f.scratchpad.len(), 1);
    assert_eq!(f.focused_floats.len() + f.floats.len(), 1);
    assert_eq!(f.tiled.len(), 1);
    let p = g.compose(0, &extents(&[1, 2, 3]), &Vec::new());
    let drawn = p.parts.iter().filter(|x| matches!(x, Part::Window(_))).count();
    assert_eq!(drawn, 3);
}

#[test]
fn scratchpads_stay_bright() {
    let mut g = gate_with(config(), &["A"]);
    open(&mut g, 1);
    assert_eq!(g.scratchpad_dim_alpha(0), 0);
    assert!(!g.scratchpad_wants_blur(0));
    assert_eq!(g.scratchpad_max_blur_passes(0), 0);
    g.do_toggle_scratchpad("term");
    open(&mut g, 2);
    assert_eq!(g.scratchpad_dim_alpha(0), 100);
    assert!(g.scratchpad_wants_blur(0));
    assert_eq!(g.scratchpad_max_blur_passes(0), 2);
    assert_eq!(g.backdrop_passes(0, true), 2);
    let p = g.compose(0, &extents(&[1, 2]), &Vec::new());
    let dim = p.parts.iter().position(|x| *x == Part::Dim(100)).unwrap();
    let bright = p.parts.iter().position(|x| matches!(x, Part::Window(d) if d.window == 2)).unwrap();
    let dark = p.parts.iter().position(|x| matches!(x, Part::Window(d) if d.window == 1)).unwrap();
    assert!(bright < dim && dim < dark);
    assert_eq!(*p.parts.last().unwrap(), Part::Wallpaper);
}

#[test]
fn the_lock_hides_the_desktop() {
    let mut g = gate_with(config(), &["A"]);
    open(&mut g, 1);
    g.do_lock();
    let p = g.compose(0, &extents(&[1]), &Vec::new());
    assert_eq!((p.parts, p.backdrop), (vec![Part::Wallpaper], 1));
    assert_eq!(g.backdrop_passes(0, true), 3);
    g.lock_acquired();
    let p = g.compose(0, &extents(&[1]), &Vec::new());
    assert_eq!((p.parts, p.backdrop), (vec![Part::LockSurface], 0));
    assert_eq!(g.backdrop_passes(0, true), 0);
}

#[test]
fn tools_stand_above_the_windows() {
    let mut c = config();
    c.bar.blur = true;
    let mut g = gate_with(c, &["A", "B"]);
    g.do_focus_monitor(1);
    g.dispatch_action(Action::ShowKeybinds);
    let layers = vec![
        LayerInfo { above: true, geometry: Some(rect(5, 5, 50, 50)), is_picker: true },
        LayerInfo { above: false, geometry: Some(rect(5, 5, 50, 50)), is_picker: false },
        LayerInfo { above: true, geometry: None, is_picker: false },
        LayerInfo { above: true, geometry: Some(rect(0, 0, 9, 9)), is_picker: false },
    ];
    let p = g.compose(1, &Vec::new(), &layers);
    assert_eq!(
        p.parts[..5],
        [
            Part::Cursor,
            Part::KeyOverlay,
            Part::Layer(3),
            Part::Layer(0),
            Part::PickerBlur(rect(1925, 5, 50, 50)),
        ]
    );
}

// ---- Blur and screenshots ------------------------------------------------------

#[test]
fn failures_are_told_now_and_then() {
    let mut n = 0;
    let first = log_rate_limited_error(&mut n, "render", "DP-1", false, "oops").unwrap();
    assert_eq!(first, "first render failure on DP-1 (is_evdi=false): oops");
    for _ in 2..60 {
        assert!(log_rate_limited_error(&mut n, "render", "DP-1", false, "oops").is_none());
    }
    let again = log_rate_limited_error(&mut n, "render", "DP-1", true, "oops").unwrap();
    assert_eq!(again, "render failure #60 on DP-1 (is_evdi=true): oops");
    let mut count = 0;
    let calls = 0..1000;
    let told = calls.filter(|_| log_rate_limited_error(&mut count, "", "", false, "").is_some());
    assert_eq!(told.count(), 17);
    let mut full = u64::MAX;
    log_rate_limited_error(&mut full, "", "", false, "");
    assert_eq!(full, u64::MAX);
}

#[test]
fn a_backdrop_is_blurred_where_it_can_be() {
    let size = Some(Size { w: 10, h: 10 });
    let ok = plan_blur(size, 5, 3, 2).unwrap();
    assert_eq!((ok.start, ok.passes), (2, 2));
    assert_eq!(plan_blur(None, 5, 3, 2).unwrap_err(), BlurError::MissingState);
    assert_eq!(plan_blur(Some(Size { w: 0, h: 5 }), 5, 3, 2).unwrap_err(), BlurError::BadSize);
    assert_eq!(plan_blur(size, 5, 0, 2).unwrap_err(), BlurError::BadLen);
    assert_eq!(plan_blur(size, 5, 6, 2).unwrap_err(), BlurError::BadLen);
    assert_eq!(BlurError::BadLen.phase(), "blur_bad_len");
    assert_eq!(BlurError::BadSize.phase(), "blur_bad_size");
    assert_eq!(BlurError::MissingState.phase(), "blur_missing_state");
    assert_eq!(blur_target(0, 2), BlurTarget::Backdrop);
    assert_eq!(blur_target(1, 2), BlurTarget::Shown);
}

fn shot(path: &str, output_idx: Option<usize>) -> PendingScreenshot {
    PendingScreenshot { path: path.to_string(), output_idx, region: None }
}

#[test]
fn no_screenshot_is_lost() {
    let mut g = gate_with(config(), &["A", "B"]);
    g.screenshot_queue = vec![shot("a", Some(1)), shot("b", None), shot("c", Some(0)), shot("d", Some(1))];
    let taken = g.take_screenshots(1);
    assert_eq!(taken.iter().map(|s| s.path.as_str()).collect::<Vec<_>>(), vec!["a", "d"]);
    assert_eq!(g.screenshot_queue.len(), 2);
    let rest = g.take_screenshots(0);
    assert_eq!(rest.iter().map(|s| s.path.as_str()).collect::<Vec<_>>(), vec!["b", "c"]);
    assert!(g.screenshot_queue.is_empty());
}

#[test]
fn a_screenshot_shows_its_region() {
    assert_eq!(screenshot_area(None, 100, 50), (0, 0, 100, 50));
    assert_eq!(screenshot_area(Some(rect(10, 20, 30, 10)), 100, 50), (10, 20, 30, 10));
    assert_eq!(screenshot_area(Some(rect(90, 20, 30, 100)), 100, 50), (90, 20, 10, 30));
    assert_eq!(screenshot_area(Some(rect(100, 20, 30, 10)), 100, 50), (0, 0, 100, 50));
    let data: Vec<u8> = (0..4 * 3 * 2).collect();
    let whole = crop_screenshot(data.clone(), 3, 2, None);
    assert_eq!((whole.rgba, whole.w, whole.h), (data.clone(), 3, 2));
    let part = crop_screenshot(data, 3, 2, Some(rect(1, 1, 1, 1)));
    assert_eq!((part.rgba, part.w, part.h), (vec![16, 17, 18, 19], 1, 1));
}

#[test]
fn frames_are_queued_one_at_a_time() {
    let mut f = FrameState::new(1, 40);
    assert!(f.should_queue(true));
    f.queued();
    assert!(!f.should_queue(false) || f.pending);
    assert!(!f.shown(CrtcUse { node: 2, crtc: 40 }));
    assert!(f.shown(CrtcUse { node: 1, crtc: 40 }));
    assert!(!f.pending);
    assert!(f.should_queue(false));
    assert!(!f.should_queue(true));
}

// ---- The pointer ----------------------------------------------------------------

fn cursor_bytes() -> Vec<u8> {
    let mut out = b"Xcur".to_vec();
    let words: [u32; 15] =
        [16, 0x1_0000, 1, 0xfffd_0002, 4, 0x1c, 0x24, 0xfffd_0002, 4, 1, 4, 4, 1, 1, 7];
    for w in words {
        out.extend_from_slice(&w.to_le_bytes());
    }
    for _ in 0..16 {
        out.extend_from_slice(&[1, 2, 3, 128]);
    }
    out
}

#[test]
fn a_cursor_file_is_read() {
    let c = load_xcursor(&cursor_bytes(), 24, 9).unwrap();
    assert_eq!(c.frames.len(), 1);
    assert_eq!((c.native_size, c.target_size, c.started_ns), (4, 24, 9));
    let f = &c.frames[0];
    assert_eq!((f.width, f.height, f.xhot, f.yhot), (4, 4, 1, 1));
    assert_eq!((f.delay_ms, c.total_cycle_ms), (0, 0));
    assert_eq!(f.pixels_rgba.len(), 64);
    assert_eq!(f.pixels_rgba[..4], [1, 2, 3, 128]);
    assert!(!c.is_animated());
    assert!(load_xcursor(&b"Xcur".to_vec(), 24, 9).is_none());
    assert!(load_xcursor(&Vec::new(), 24, 9).is_none());
}

fn image(size: u32, delay: u32, mark: u8) -> CursorImage {
    CursorImage { size, width: 1, height: 1, xhot: 0, yhot: 0, delay, pixels: vec![mark; 4] }
}

#[test]
fn the_closest_size_is_used() {
    let images = || vec![image(24, 50, 1), image(48, 50, 2), image(24, 70, 3), image(32, 50, 4)];
    let marks = |size: u32| {
        let c = cursor_from_images(images(), size, 0).unwrap();
        c.frames.iter().map(|f| f.pixels_rgba[0]).collect::<Vec<u8>>()
    };
    assert_eq!(marks(24), vec![1, 3]);
    assert_eq!(marks(100), vec![2]);
    let still = cursor_from_images(images(), 48, 0).unwrap();
    assert_eq!((still.frames[0].delay_ms, still.total_cycle_ms), (0, 0));
    let moving = cursor_from_images(images(), 24, 0).unwrap();
    assert_eq!((moving.frames[1].delay_ms, moving.total_cycle_ms), (70, 120));
    assert_eq!(marks(33), vec![4]);
    assert_eq!(marks(28), vec![1, 3]);
    assert!(cursor_from_images(Vec::new(), 24, 0).is_none());
}

#[test]
fn the_pointer_goes_through_its_pictures() {
    let c = cursor_from_images(vec![image(24, 50, 1), image(24, 70, 2)], 24, 1_000_000).unwrap();
    assert!(c.is_animated());
    assert_eq!(c.total_cycle_ms, 120);
    let at = |ms: u64| c.current_frame_idx(1_000_000 + ms * 1_000_000);
    assert_eq!((at(0), at(49), at(50), at(119), at(120), at(170)), (0, 0, 1, 1, 0, 1));
    assert_eq!(at(30), at(30 + 120 * 7));
}

#[test]
fn a_pointer_has_other_names() {
    assert_eq!(icon_names("text"), vec!["text", "default", "left_ptr"]);
    assert_eq!(icon_names("default"), vec!["default", "left_ptr"]);
}

// ---- Wallpapers -----------------------------------------------------------------

#[test]
fn wallpapers_are_told_apart() {
    assert_eq!(file_kind(Some("GIF")), FileKind::Gif);
    assert_eq!(file_kind(Some("webm")), FileKind::Video);
    assert_eq!(file_kind(Some("png")), FileKind::Still);
    assert_eq!(file_kind(None), FileKind::Still);
}

#[test]
fn series_are_slow() {
    assert_eq!(frame_delay(0), 100_000_000);
    assert_eq!(frame_delay(19_999_999), 100_000_000);
    assert_eq!(frame_delay(20_000_000), 20_000_000);
    let raw = |mark: u8, delay_ns: u64| RawFrame { rgba: vec![mark, 0, 0, 255], delay_ns, width: 1, height: 1 };
    let mut w = Wallpaper::series(vec![raw(1, 0), raw(2, 50_000_000)], 0).unwrap();
    assert_eq!(w.current_rgba().unwrap().0[0], 1);
    assert!(!w.tick(99_999_999, false));
    assert!(w.tick(100_000_000, false));
    assert_eq!(w.current_rgba().unwrap().0[0], 2);
    assert_eq!(w.next_frame_due(120_000_000), Some(30_000_000));
    assert!(w.tick(150_000_000, false));
    assert_eq!(w.current_rgba().unwrap().0[0], 1);
    assert!(Wallpaper::series(Vec::new(), 0).is_none());
    let mut frames = Vec::new();
    assert!(take_frame(&mut frames, Some(raw(1, 0))));
    assert!(!take_frame(&mut frames, None));
    assert_eq!(frames.len(), 1);
}

#[test]
fn a_still_wallpaper_never_changes() {
    let mut w = Wallpaper::still(vec![200, 100, 0, 128], 1, 1, 0);
    assert_eq!(w.current_rgba().unwrap().0[..], [100, 50, 0, 128]);
    assert!(!w.tick(u64::MAX, false));
    assert!(w.next_frame_due(5).is_none() || next_wake(w.next_frame_due(5)) > 0);
}

#[test]
fn a_video_shows_new_pictures() {
    let mut w = Wallpaper::video(2, 1);
    assert!(w.current_rgba().is_none());
    let f = VideoFrame { bgra: vec![3, 2, 1, 255, 6, 5, 4, 255], width: 2, height: 1, serial: 1 };
    assert!(w.take_video_frame(&f));
    assert_eq!(w.last_pixels.as_ref().unwrap()[..], [1, 2, 3, 255, 4, 5, 6, 255]);
    w.uploaded(1);
    assert!(!w.take_video_frame(&f));
}

// ---- The list of keys --------------------------------------------------------------

fn bind(action: Action) -> Keybind {
    Keybind { mods: ModMask { logo: true, ..NO_MODS }, sym: 1, action }
}

#[test]
fn keys_have_names() {
    assert_eq!(pretty_key_name("slash"), "/");
    assert_eq!(pretty_key_name("Prior"), "PageUp");
    assert_eq!(pretty_key_name("q"), "q");
    let b = Keybind {
        mods: ModMask { logo: true, shift: true, ctrl: true, alt: true },
        sym: 1,
        action: Action::Quit,
    };
    assert_eq!(format_keybind_combo(&b, "Return"), "mod+Ctrl+Alt+Shift+Enter");
    assert_eq!(format_keybind_combo(&bind(Action::Quit), "x"), "mod+x");
}

#[test]
fn actions_have_labels() {
    assert_eq!(format_action_label(&Action::Spawn("t".to_string())), "Launch: t");
    assert_eq!(format_action_label(&Action::SpawnRaw("x".repeat(28))), format!("Run: {}", "x".repeat(28)));
    assert_eq!(
        format_action_label(&Action::SpawnRaw("x".repeat(29))),
        format!("Run: {}\u{2026}", "x".repeat(27))
    );
    assert!(!has_label(&Action::SpawnRaw("\u{e9}".repeat(20))));
    assert_eq!(format_action_label(&Action::ViewWs(0)), "View workspace 1");
    assert_eq!(format_action_label(&Action::SendWs(8)), "Move window to workspace 9");
    assert_eq!(
        format_action_label(&Action::ToggleScratchpad(Some("n".to_string()))),
        "Toggle scratchpad: n"
    );
    assert_eq!(format_action_label(&Action::ToggleScratchpad(None)), "Toggle scratchpad");
    assert_eq!(format_action_label(&Action::Reload), "Reload config");
}

#[test]
fn every_binding_is_listed() {
    let binds = vec![
        bind(Action::Quit),
        bind(Action::FocusNext),
        bind(Action::ViewWs(1)),
        bind(Action::KillClient),
        bind(Action::Lock),
        bind(Action::ToggleSync),
    ];
    let names: Vec<String> = ["q", "j", "2", "w", "l", "s"].iter().map(|s| s.to_string()).collect();
    let groups = build_keybind_groups(&binds, &names);
    let titles: Vec<&str> = groups.iter().map(|g| g.title.as_str()).collect();
    assert_eq!(titles, vec!["Windows", "Workspaces", "Monitors", "Session"]);
    assert_eq!(groups.iter().map(|g| g.entries.len()).sum::<usize>(), 6);
    assert_eq!(groups[0].entries[1].combo, "mod+w");
    assert_eq!(groups[0].entries[1].label, "Close window");
    let plan = plan_overlay(&groups, 100);
    assert!(!plan.two_columns);
    assert_eq!(plan.lines.len(), 3 + 6 + 8);
    assert_eq!(plan.lines[0].text, "Keybinds");
    assert_eq!(plan.lines[4].text, "mod+j                  Focus next window");
    let mut places: Vec<(usize, usize)> = (0..plan.lines.len()).map(|i| plan.place(i)).collect();
    places.dedup();
    assert_eq!(places.len(), plan.lines.len());
}

#[test]
fn long_lists_have_two_columns() {
    let binds = vec![bind(Action::Quit), bind(Action::FocusNext), bind(Action::ViewWs(1))];
    let names = vec!["q".to_string(), "j".to_string(), "2".to_string()];
    let groups = build_keybind_groups(&binds, &names);
    let plan = plan_overlay(&groups, 5);
    assert!(plan.two_columns);
    assert_eq!(plan.split, 6);
    let mut places: Vec<(usize, usize)> = (0..plan.lines.len()).map(|i| plan.place(i)).collect();
    let n = places.len();
    places.sort();
    places.dedup();
    assert_eq!(places.len(), n);
    assert_eq!(line_rgb(&THEME, LineKind::Title), (0x11, 0x22, 0x33));
}

// ---- The environment ----------------------------------------------------------------

#[test]
fn plain_lines_read_back() {
    let vars = parse_env_file("# c\n\nA=b\n KEY = \"quoted value\" \nX='y'\nbad\n=z\nE=a=b\n");
    let list: Vec<(&str, &str)> = vars.iter().map(|v| (v.key.as_str(), v.value.as_str())).collect();
    assert_eq!(list, vec![("A", "b"), ("KEY", "quoted value"), ("X", "y"), ("E", "a=b")]);
}

#[test]
fn paths_in_the_home_directory() {
    assert_eq!(home_relative("~/x/y").as_deref(), Some("x/y"));
    assert_eq!(home_relative("/etc/x"), None);
}

#[test]
fn the_pointer_theme_is_told() {
    let g = config().general;
    let vars = cursor_theme_vars(&g);
    let list: Vec<(&str, &str)> = vars.iter().map(|v| (v.key.as_str(), v.value.as_str())).collect();
    assert!(list.contains(&("XCURSOR_THEME", "Nice")));
    assert!(list.contains(&("XCURSOR_SIZE", "32")));
    assert_eq!(cursor_theme_name(&g), "Nice");
}

#[test]
fn a_backend_is_chosen() {
    assert!(matches!(choose_backend(Some("winit"), false, false), Some(Backend::Winit)));
    assert!(matches!(choose_backend(Some("udev"), true, true), Some(Backend::Udev)));
    assert!(matches!(choose_backend(None, true, false), Some(Backend::Winit)));
    assert!(matches!(choose_backend(None, false, false), Some(Backend::Udev)));
}

// ---- What is drawn -------------------------------------------------------------

#[test]
fn a_border_begins_where_its_window_stands() {
    let mut g = gate_with(config(), &["DP-1", "DP-2"]);
    open(&mut g, 1);
    let r = g.stage.border_rects[0].rect;
    let p = g.stage.space[0];
    assert_eq!((r.x, r.y), (p.x - 2, p.y - 2));
    assert_eq!(g.border_place(0, 0), (r.x as i64, r.y as i64));
    assert_eq!(g.border_place(1, 0), (r.x as i64 - 1920, r.y as i64));
    g.do_toggle_scratchpad("term");
    open(&mut g, 2);
    let r = g.stage.scratchpad_border_rects[0].rect;
    assert_eq!(g.scratchpad_border_place(0, 0), (r.x as i64, r.y as i64));
    assert_eq!(g.scratchpad_border_place(1, 0), (r.x as i64 - 1920, r.y as i64));
}

#[test]
fn what_is_drawn_is_not_drawn_again() {
    let mut g = gate_with(config(), &["DP-1"]);
    open(&mut g, 1);
    assert!(g.stage.layout_dirty);
    g.borders_drawn();
    assert!(!g.stage.layout_dirty);
    g.do_toggle_scratchpad("term");
    open(&mut g, 2);
    assert!(g.stage.scratchpad_layout_dirty);
    g.scratchpad_borders_drawn();
    assert!(!g.stage.scratchpad_layout_dirty);
    g.stage.bar_dirty = true;
    assert!(g.take_bar_dirty());
    assert!(!g.take_bar_dirty());
}

#[test]
fn windows_and_borders_move_with_the_animation() {
    let mut c = config();
    c.animations = Animations { preset: AnimationPreset::Swoosh, duration_ms: 100 };
    let mut g = gate_with(c, &["DP-1"]);
    open(&mut g, 1);
    assert_eq!(g.animations.active.len(), 1);
    let base = g.stage.base_positions[0];
    g.apply_animation_offsets(&vec![Offset { dx: 7, dy: -3 }]);
    let p = g.stage.space[0];
    assert_eq!((p.window, p.x, p.y), (1, base.x + 7, base.y - 3));
    assert_eq!(g.stage.border_offsets, vec![Some(0)]);
    assert_eq!(g.stage.base_positions[0], base);
}

#[test]
fn an_output_takes_another_size() {
    let mut g = gate_with(config(), &["DP-1", "DP-2"]);
    g.set_output_size(1, 1280, 1024);
    assert_eq!(g.outputs[1].size, Size { w: 1280, h: 1024 });
    assert_eq!(g.outputs[1].workarea, rect(1920, 30, 1280, 994));
    assert_eq!(g.output_bounds, Size { w: 3200, h: 1080 });
    assert_eq!(g.outputs[0].size, Size { w: 1920, h: 1080 });
    g.set_output_size(9, 10, 10);
    assert_eq!(g.output_bounds, Size { w: 3200, h: 1080 });
}

#[test]
fn a_resting_pointer_hides_and_an_animated_one_plays_on() {
    let mut g = gate_with(config(), &["DP-1", "DP-2"]);
    let still = cursor_from_images(vec![image(24, 50, 1)], 24, 0).unwrap();
    let moving = cursor_from_images(vec![image(24, 50, 1), image(24, 70, 2)], 24, 0).unwrap();
    assert_eq!(g.cursor_frame(&still, 0, 10, 10), Some(0));
    assert_eq!(g.cursor_frame(&still, 1, 10, 10), None);
    assert_eq!(g.cursor_frame(&still, 1, 1930, 10), Some(0));
    g.now_ns = 2_000_000_000;
    assert!(g.cursor_is_idle());
    assert_eq!(g.cursor_frame(&still, 0, 10, 10), None);
    assert!(g.cursor_frame(&moving, 0, 10, 10).is_some());
    g.update_cursor_idle(true);
    assert_eq!(g.cursor_frame(&still, 0, 10, 10), Some(0));
}
