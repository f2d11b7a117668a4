use kara::gate::requests::screenshot_name;
use kara::geometry::{Rect, Size};
use kara::glimpse::capture::{
    canvas_size, composed_name, default_theme, desktop_bounds, is_stale, parse_args, region_pieces,
};
use kara::glimpse::overlay::{clip_global_to_local, cut_hole, plan_overlay, OverlayView};
use kara::glimpse::selection::{HoverTarget, SelectionState};
use kara::glimpse::session::{Key, Redraw, Session, Surface, LEFT_BUTTON, RIGHT_BUTTON};
use kara::ipc::message::{OutputInfo, WindowGeometry};

fn window(x: i32, y: i32, w: i32, h: i32) -> WindowGeometry {
    WindowGeometry { app_id: String::new(), title: String::new(), x, y, w, h }
}

fn output(name: &str, x: i32, y: i32, width: i32, height: i32) -> OutputInfo {
    OutputInfo { name: name.to_string(), width, height, x, y, primary: false }
}

fn rect(x: i32, y: i32, w: i32, h: i32) -> Rect {
    Rect { x, y, w, h }
}

#[test]
fn the_hovered_window_is_under_the_pointer() {
    let windows = vec![window(10, 10, 50, 50), window(0, 0, 500, 500)];
    let mut s = SelectionState::new(0, 0, 1920, 1080);
    s.pointer_x = 256 * 59 + 255;
    s.pointer_y = 256 * 10;
    s.update_hover(&windows);
    assert_eq!(s.target, HoverTarget::Window { index: 0, x: 10, y: 10, w: 50, h: 50 });
    s.pointer_x = 256 * 60;
    s.update_hover(&windows);
    assert_eq!(s.target, HoverTarget::Window { index: 1, x: 0, y: 0, w: 500, h: 500 });
    s.pointer_x = 256 * 600;
    s.update_hover(&windows);
    assert_eq!(s.target, HoverTarget::Fullscreen { x: 0, y: 0, w: 1920, h: 1080 });
}

#[test]
fn a_click_takes_the_window_and_a_drag_the_rectangle() {
    let windows = vec![window(10, 10, 50, 50)];
    let mut s = SelectionState::new(0, 0, 1920, 1080);
    s.pointer_x = 256 * 20;
    s.pointer_y = 256 * 20;
    s.update_hover(&windows);
    assert_eq!(s.end_press(), rect(10, 10, 50, 50));
    s.start_press();
    s.pointer_x = 256 * 24 + 255;
    assert_eq!(s.end_press(), rect(10, 10, 50, 50));
    s.pointer_x = 256 * 25;
    assert_eq!(s.end_press(), rect(20, 20, 5, 1));
    assert_eq!(s.highlight_rect(), rect(20, 20, 5, 0));
}

#[test]
fn the_direction_of_a_drag_does_not_matter() {
    let drag = |from: (i64, i64), to: (i64, i64)| {
        let mut s = SelectionState::new(0, 0, 100, 100);
        s.pointer_x = 256 * from.0;
        s.pointer_y = 256 * from.1;
        s.start_press();
        s.pointer_x = 256 * to.0;
        s.pointer_y = 256 * to.1;
        (s.end_press(), s.highlight_rect())
    };
    let expected = (rect(10, 20, 30, 40), rect(10, 20, 30, 40));
    assert_eq!(drag((10, 20), (40, 60)), expected);
    assert_eq!(drag((40, 60), (10, 20)), expected);
    assert_eq!(drag((40, 20), (10, 60)), expected);
}

#[test]
fn arguments_are_read() {
    let args = |list: &[&str]| parse_args(&list.iter().map(|s| s.to_string()).collect());
    let o = args(&["kara-glimpse", "-q", "--output", "/tmp/x.png"]);
    assert!(o.quick);
    assert_eq!(o.save_path.as_deref(), Some("/tmp/x.png"));
    let o = args(&["kara-glimpse", "-o"]);
    assert!(!o.quick);
    assert!(o.save_path.is_none());
}

#[test]
fn old_screenshots_go() {
    assert!(is_stale("kara-screenshot-1000.png", 1000 + 604_801));
    assert!(!is_stale("kara-screenshot-1000.png", 1000 + 604_800));
    assert!(!is_stale("kara-screenshot-x.png", u64::MAX));
    assert!(!is_stale("kara-screenshot-1000.jpg", u64::MAX));
    assert!(!is_stale("kara-screenshot-1000.png", 5));
    assert!(is_stale("kara-screenshot-1000000000-000000001-0.png", 2_000_000_000));
    let name = screenshot_name(1_000_000_000_000_000_001, 7);
    assert!(is_stale(&name, 1_000_000_000 + 604_801));
    assert!(!is_stale(&name, 1_000_000_000 + 604_800));
    assert!(!is_stale("kara-screenshot--5.png", u64::MAX));
    let name = composed_name(1234);
    assert!(is_stale(&name, 1234 + 604_801));
    assert!(name.contains("1234"));
    assert!(name.ends_with(".png"));
}

#[test]
fn pieces_cover_the_selection() {
    let outputs =
        vec![output("A", 0, 0, 1920, 1080), output("B", 1920, -200, 1280, 1024), output("C", 5000, 0, 10, 10)];
    assert_eq!(desktop_bounds(&outputs), rect(0, -200, 5010, 1280));
    let pieces = region_pieces(&outputs, rect(1900, 100, 40, 40));
    assert_eq!(pieces.len(), 2);
    assert_eq!((pieces[0].name.as_str(), pieces[0].dx, pieces[0].dy), ("A", -1900, -100));
    assert_eq!((pieces[1].name.as_str(), pieces[1].dx, pieces[1].dy), ("B", 20, -300));
    assert!(region_pieces(&outputs, rect(0, 2000, 5, 5)).is_empty());
    assert_eq!(canvas_size(rect(5, 5, 0, -3)), Size { w: 1, h: 1 });
}

#[test]
fn clipping_keeps_the_pixels_of_a_surface() {
    let r = rect(1900, -10, 100, 50);
    let c = clip_global_to_local(r, 1920, 0, 800, 600);
    assert_eq!(c, rect(0, 0, 80, 40));
    for px in 0..90 {
        for py in 0..45 {
            assert_eq!(c.contains(px, py), r.contains(1920 + px, py));
        }
    }
}

#[test]
fn clipping_to_no_surface_leaves_nothing() {
    let r = rect(0, 0, 100, 100);
    assert_eq!(clip_global_to_local(r, 10, 10, -5, 50), rect(0, 0, 0, 0));
    assert_eq!(clip_global_to_local(r, 10, 10, 50, i32::MIN), rect(0, 0, 0, 0));
    assert_eq!(clip_global_to_local(r, 500, 0, 50, 50), rect(0, 0, 0, 0));
    assert_eq!(clip_global_to_local(rect(0, 0, -1, 5), 0, 0, 50, 50), rect(0, 0, 0, 0));
}

#[test]
fn any_selection_has_an_overlay() {
    assert_eq!(plan_overlay(100, 50, rect(10, 10, -1, -9)), OverlayView::Cut(rect(10, 10, 90, 40)));
    assert_eq!(plan_overlay(0, 0, rect(0, 0, -1, -1)), OverlayView::Nothing);
}

#[test]
fn the_overlay_shows_the_selection() {
    assert_eq!(plan_overlay(0, 5, rect(0, 0, 1, 1)), OverlayView::Nothing);
    assert_eq!(plan_overlay(100, 50, rect(0, -5, 100, 60)), OverlayView::Shade);
    assert_eq!(plan_overlay(100, 50, rect(90, -5, 30, 20)), OverlayView::Cut(rect(90, 0, 10, 20)));
    assert_eq!(plan_overlay(100, 50, rect(200, 0, 30, 20)), OverlayView::Cut(rect(200, 0, 0, 20)));
    let mut data = vec![9; 4 * 3 * 2];
    cut_hole(&mut data, 3, 2, rect(1, 0, 5, 1));
    assert_eq!(data[..4], [9; 4]);
    assert_eq!(data[4..12], [0; 8]);
    assert_eq!(data[12..], [9; 12]);
}

fn session() -> Session {
    let surface = |x: i32| Surface {
        width: 0,
        height: 0,
        origin_x: x,
        origin_y: 0,
        configured: false,
        last_highlight: None,
    };
    Session::new(
        vec![surface(0), surface(1920)],
        vec![window(1930, 10, 100, 100)],
        rect(0, 0, 3840, 1080),
    )
}

#[test]
fn a_selection_is_drawn_when_all_surfaces_have_a_size() {
    let mut s = session();
    assert_eq!(s.configure(0, 1920, 1080), Redraw::Nothing);
    assert_eq!(s.configure(1, 1920, 1080), Redraw::All);
    assert!(s.draw(0).is_some());
    assert!(s.draw(0).is_none());
}

#[test]
fn the_pointer_selects_on_any_surface() {
    let mut s = session();
    s.configure(0, 1920, 1080);
    s.configure(1, 1920, 1080);
    assert_eq!(s.pointer_at(None, false, 0, 0), Redraw::Nothing);
    assert_eq!(s.pointer_at(Some(1), true, 256 * 20, 256 * 20), Redraw::All);
    assert_eq!(s.pointer_surface, Some(1));
    assert_eq!(s.selection.highlight_rect(), rect(1930, 10, 100, 100));
    assert_eq!(s.pointer_at(None, false, 256 * 500, 256 * 20), Redraw::All);
    s.pointer_left();
    assert_eq!(s.pointer_surface, None);
    s.button(LEFT_BUTTON, true);
    s.pointer_at(Some(0), false, 256 * 100, 256 * 120);
    s.button(LEFT_BUTTON, false);
    assert!(s.exit && s.confirmed);
    assert_eq!(s.selection.end_press(), rect(100, 20, 2320, 100));
}

#[test]
fn keys_and_the_right_button_end_a_selection() {
    let mut s = session();
    s.key(Key::Other);
    assert!(!s.exit);
    s.key(Key::Escape);
    assert!(s.exit && !s.confirmed);
    let mut s = session();
    s.key(Key::Return);
    assert!(s.exit && s.confirmed);
    let mut s = session();
    s.button(RIGHT_BUTTON, false);
    assert!(s.exit && !s.confirmed);
}

#[test]
fn there_are_colours_without_a_compositor() {
    let c = default_theme();
    assert_eq!((c.bg, c.accent, c.border), (0x111111, 0x6bacac, 0x353535));
}
