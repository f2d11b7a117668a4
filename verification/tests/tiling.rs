use kara::gate::animation::{
    compute_in_offset, AnimationManager, Motion, Offset, SlideDirection,
};
use kara::gate::config::AnimationPreset;
use kara::gate::layout::layout_workspace;
use kara::gate::stage::{Placed, Stage};
use kara::gate::workspace::{LayoutKind, Workspace};
use kara::geometry::{Rect, Size};
use kara::ratio;

fn rect(x: i32, y: i32, w: i32, h: i32) -> Rect {
    Rect { x, y, w, h }
}

fn with_clients(n: u16) -> Workspace {
    let mut ws = Workspace::new(0);
    for w in 1..=n {
        ws.add_client(w);
    }
    ws
}

const AREA: Rect = Rect { x: 0, y: 30, w: 1920, h: 1050 };

fn sizes(n: usize) -> Vec<Size> {
    vec![Size { w: 0, h: 0 }; n]
}

#[test]
fn a_new_workspace_is_empty() {
    let ws = Workspace::new(3);
    assert_eq!((ws.id, ws.layout, ws.nmaster, ws.gap_px), (3, LayoutKind::Tile, 1, 8));
    assert_eq!(ws.mfact, ratio::HALF);
    assert!(ws.is_empty());
    assert_eq!(ws.focused(), None);
}

#[test]
fn a_new_window_gets_the_focus() {
    let ws = with_clients(3);
    assert_eq!(ws.clients, vec![1, 2, 3]);
    assert_eq!((ws.focused(), ws.last_focused_idx), (Some(3), Some(1)));
}

#[test]
fn removing_a_window_undoes_adding_it() {
    let mut ws = with_clients(3);
    assert!(ws.remove_client(3));
    assert_eq!(ws.clients, vec![1, 2]);
    assert_eq!(ws.focused(), Some(2));
    assert!(!ws.remove_client(9));
}

#[test]
fn the_focus_falls_back_to_the_last_one() {
    let mut ws = with_clients(4);
    ws.focus_next();
    assert_eq!(ws.focused(), Some(1));
    assert!(ws.remove_client(1));
    assert_eq!(ws.focused(), Some(4));
    assert_eq!(ws.last_focused_idx, None);
    assert!(ws.remove_client(4));
    assert_eq!(ws.focused(), Some(3));
    assert!(!ws.remove_client(2));
    assert_eq!(ws.focused(), Some(3));
    assert!(ws.remove_client(3));
    assert_eq!(ws.focused(), None);
}

#[test]
fn the_next_and_the_previous_window_undo_each_other() {
    for n in 1..6 {
        let mut ws = with_clients(n);
        for _ in 0..n {
            let at = ws.focused();
            ws.focus_next();
            ws.focus_prev();
            assert_eq!(ws.focused(), at);
            ws.focus_prev();
            ws.focus_next();
            assert_eq!(ws.focused(), at);
            ws.focus_next();
        }
    }
    let mut empty = Workspace::new(0);
    empty.focus_next();
    empty.focus_prev();
    assert_eq!(empty.focused(), None);
}

#[test]
fn zooming_keeps_the_windows() {
    let mut ws = with_clients(3);
    ws.zoom_master();
    assert_eq!(ws.clients, vec![3, 2, 1]);
    assert_eq!((ws.focused_idx, ws.last_focused_idx), (Some(0), Some(2)));
    ws.zoom_master();
    assert_eq!(ws.clients, vec![3, 2, 1]);
}

#[test]
fn toggling_twice_changes_nothing() {
    let mut ws = with_clients(2);
    ws.toggle_layout();
    assert_eq!(ws.layout, LayoutKind::Monocle);
    ws.toggle_layout();
    assert_eq!(ws.layout, LayoutKind::Tile);
    ws.toggle_focused_floating();
    assert_eq!(ws.tiled_indices(), vec![0]);
    assert!(ws.is_floating(1));
    ws.toggle_focused_floating();
    assert_eq!(ws.tiled_indices(), vec![0, 1]);
}

#[test]
fn the_split_stays_within_bounds() {
    let mut ws = with_clients(2);
    for _ in 0..30 {
        ws.adjust_mfact(true);
    }
    assert_eq!(ws.mfact, ratio::NINETY_FIVE_HUNDREDTHS);
    for _ in 0..40 {
        ws.adjust_mfact(false);
    }
    assert_eq!(ws.mfact, ratio::FIVE_HUNDREDTHS);
}

#[test]
fn one_window_fills_the_area() {
    let g = layout_workspace(&with_clients(1), &sizes(1), AREA, 2);
    assert_eq!(g.len(), 1);
    assert_eq!(g[0].rect, rect(10, 40, 1900, 1030));
    assert_eq!(g[0].border_rect, Some(rect(8, 38, 1904, 1034)));
    assert!(g[0].visible && g[0].is_focused);
}

#[test]
fn a_negative_gap_gives_way_to_two_borders() {
    let mut ws = with_clients(2);
    ws.gap_px = -20;
    let g = layout_workspace(&ws, &sizes(2), AREA, 2);
    assert_eq!(g[0].rect, rect(6, 36, 954, 1038));
    assert_eq!(g[1].rect, rect(964, 36, 950, 1038));
    let g = layout_workspace(&ws, &sizes(2), AREA, -1);
    assert_eq!(g[0].border_rect, None);
    assert_eq!(g[0].rect, rect(-3, 27, 963, 1056));
    assert_eq!(g[1].rect, rect(958, 27, 965, 1056));
}

#[test]
fn wide_gaps_leave_nothing_of_many_windows() {
    let mut ws = with_clients(400);
    ws.gap_px = 8_000_000;
    let g = layout_workspace(&ws, &sizes(400), AREA, 0);
    assert_eq!(g.len(), 400);
    assert_eq!(g[0].rect.w, -7_999_040);
    assert_eq!(g[0].rect.h, 1050 - 16_000_000);
}

#[test]
fn every_window_has_one_place() {
    let mut ws = with_clients(5);
    ws.toggle_focused_floating();
    let g = layout_workspace(&ws, &sizes(5), AREA, 3);
    let mut windows: Vec<u16> = g.iter().map(|c| c.window).collect();
    windows.sort();
    assert_eq!(windows, vec![1, 2, 3, 4, 5]);
    assert_eq!(g.iter().filter(|c| c.is_focused).count(), 1);
    for c in &g {
        let r = c.rect;
        assert_eq!(c.border_rect, Some(rect(r.x - 3, r.y - 3, r.w + 6, r.h + 6)));
    }
}

#[test]
fn windows_are_tiled() {
    let g = layout_workspace(&with_clients(3), &sizes(3), AREA, 2);
    assert_eq!(g[0].rect, rect(10, 40, 950, 1030));
    assert_eq!(g[1].rect, rect(968, 40, 942, 511));
    assert_eq!(g[2].rect, rect(968, 559, 942, 511));
    assert_eq!(g[2].window, 3);
    assert!(g[2].is_focused && !g[0].is_focused);
}

#[test]
fn borders_of_tiles_stay_inside_and_apart() {
    for n in 1..7 {
        for border in 0..12 {
            let g = layout_workspace(&with_clients(n), &sizes(n as usize), AREA, border);
            let outer: Vec<Rect> = g.iter().map(|c| c.border_rect.unwrap_or(c.rect)).collect();
            for (i, a) in outer.iter().enumerate() {
                assert!(AREA.x <= a.x && a.x + a.w <= AREA.x + AREA.w);
                assert!(AREA.y <= a.y && a.y + a.h <= AREA.y + AREA.h);
                for b in outer.iter().skip(i + 1) {
                    let apart = a.x + a.w <= b.x
                        || b.x + b.w <= a.x
                        || a.y + a.h <= b.y
                        || b.y + b.h <= a.y;
                    assert!(apart);
                }
            }
        }
    }
}

#[test]
fn a_wide_border_widens_the_gap() {
    let g = layout_workspace(&with_clients(2), &sizes(2), rect(0, 0, 1000, 500), 10);
    assert_eq!(g[0].rect, rect(30, 30, 470, 440));
    assert_eq!(g[1].rect, rect(520, 30, 450, 440));
}

#[test]
fn a_monocle_shows_the_focused_window() {
    let mut ws = with_clients(3);
    ws.toggle_layout();
    ws.focus_prev();
    let g = layout_workspace(&ws, &sizes(3), AREA, 0);
    let visible: Vec<u16> = g.iter().filter(|c| c.visible).map(|c| c.window).collect();
    assert_eq!(visible, vec![2]);
    assert!(g.iter().all(|c| c.rect == rect(8, 38, 1904, 1034) && c.border_rect.is_none()));
}

#[test]
fn floating_windows_are_centred() {
    let mut ws = Workspace::new(0);
    ws.add_client(1);
    ws.add_client_floating(2, true);
    ws.add_client_floating(3, true);
    let asked = vec![Size { w: 0, h: 0 }, Size { w: 400, h: 300 }, Size { w: 5000, h: 1 }];
    let g = layout_workspace(&ws, &asked, rect(0, 0, 1000, 800), 0);
    assert_eq!(g[0].window, 1);
    assert_eq!(g[0].rect, rect(8, 8, 984, 784));
    assert_eq!(g[1].rect, rect(300, 250, 400, 300));
    assert_eq!(g[2].rect, rect(25, 160, 950, 480));
    for c in &g[1..] {
        assert!(0 <= c.rect.x && c.rect.x + c.rect.w <= 1000);
        assert!(0 <= c.rect.y && c.rect.y + c.rect.h <= 800);
    }
    assert!(layout_workspace(&Workspace::new(0), &Vec::new(), AREA, 0).is_empty());
}

fn motion(window: u16, preset: AnimationPreset, direction: SlideDirection) -> Motion {
    Motion {
        window,
        preset,
        duration_ms: 200,
        place: rect(100, 100, 400, 300),
        area: rect(0, 0, 1920, 1080),
        direction,
    }
}

#[test]
fn windows_slide_in() {
    let place = rect(0, 0, 100, 100);
    let area = rect(0, 0, 1000, 1000);
    let left = compute_in_offset(AnimationPreset::Swoosh, place, area, SlideDirection::Left);
    let right = compute_in_offset(AnimationPreset::Swoosh, place, area, SlideDirection::Right);
    assert_eq!((left.dx, left.dy), (-right.dx, 0));
    assert_eq!(left.dx.abs(), 60);
    let still = compute_in_offset(AnimationPreset::Instant, place, area, SlideDirection::Left);
    assert_eq!(still, Offset { dx: 0, dy: 0 });
}

#[test]
fn a_window_moves_in_one_way() {
    let mut m = AnimationManager::new();
    assert!(!m.has_active());
    m.animate_in(motion(1, AnimationPreset::Clean, SlideDirection::Auto), 0);
    m.animate_in(motion(2, AnimationPreset::Clean, SlideDirection::Auto), 0);
    m.animate_out(motion(1, AnimationPreset::Clean, SlideDirection::Left), 5);
    assert_eq!(m.active.iter().filter(|a| a.window == 1).count(), 1);
    assert!(m.active[m.offset_for(1).unwrap()].unmap_on_complete);
    assert!(m.has_active());
}

#[test]
fn a_cancelled_window_does_not_move() {
    let mut m = AnimationManager::new();
    m.animate_in(motion(1, AnimationPreset::Swoosh, SlideDirection::Auto), 0);
    m.animate_out_no_unmap(motion(2, AnimationPreset::Swoosh, SlideDirection::Right), 0);
    m.cancel(1);
    assert!(m.offset_for(1).is_none());
    assert!(m.offset_for(2).is_some());
}

#[test]
fn finished_windows_are_unmapped() {
    let mut m = AnimationManager::new();
    m.animate_out(motion(1, AnimationPreset::Swoosh, SlideDirection::Left), 0);
    m.animate_in(motion(2, AnimationPreset::Swoosh, SlideDirection::Left), 0);
    assert!(m.tick(199_000_000).is_empty());
    assert_eq!(m.tick(200_000_000), vec![1]);
    assert!(!m.has_active());
}

#[test]
fn a_window_is_mapped_once() {
    let mut s = Stage::new();
    s.map(Placed { window: 1, x: 0, y: 0 });
    s.map(Placed { window: 2, x: 5, y: 5 });
    s.map(Placed { window: 1, x: 9, y: 9 });
    assert_eq!(s.space.iter().filter(|p| p.window == 1).count(), 1);
    assert_eq!(s.location(1), Some(Placed { window: 1, x: 9, y: 9 }));
    s.raise(2);
    assert_eq!(s.space.last().unwrap().window, 2);
    s.unmap_one(1);
    assert_eq!(s.location(1), None);
    s.unmap(&vec![2, 3], Some(2));
    assert!(s.location(2).is_some());
    s.unmap(&vec![2, 3], None);
    assert!(s.space.is_empty());
}
