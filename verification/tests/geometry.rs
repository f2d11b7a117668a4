use kara::geometry::{divide, half, inset_rect, outset_rect, Rect};
use kara::ratio;

#[test]
fn division_cuts_off_toward_zero() {
    for a in -20..20 {
        for b in 1..7 {
            assert_eq!(divide(a, b), a / b);
        }
        assert_eq!(half(a), a / 2);
    }
}

#[test]
fn outset_undoes_inset() {
    let r = Rect { x: 10, y: -4, w: 300, h: 200 };
    let small = inset_rect(r, 12);
    assert_eq!(small, Rect { x: 22, y: 8, w: 276, h: 176 });
    assert_eq!(outset_rect(small, 12), r);
}

#[test]
fn inset_leaves_a_pixel() {
    let r = Rect { x: 0, y: 0, w: 4, h: 9 };
    assert_eq!(inset_rect(r, 3), Rect { x: 3, y: 3, w: 1, h: 3 });
}

#[test]
fn a_rectangle_holds_its_first_but_not_its_last_edge() {
    let r = Rect { x: -5, y: 2, w: 10, h: 3 };
    assert!(r.contains(-5, 2));
    assert!(r.contains(4, 4));
    assert!(!r.contains(5, 4));
    assert!(!r.contains(4, 5));
    assert!(!r.contains(-6, 3));
}

fn as_units(f: f32) -> u32 {
    (f as f64 * ratio::ONE as f64) as u32
}

fn as_float(units: u32) -> f32 {
    (units as f64 / ratio::ONE as f64) as f32
}

#[test]
fn scaling_is_that_of_single_precision() {
    let mut m: f32 = 0.5;
    for _ in 0..9 {
        for w in [0, 1, 2, 7, 13, 1279, 1366, 1920, 2560, 3839, 16_777_217, -5, -1921] {
            assert_eq!(ratio::scale(w, as_units(m)), (w as f32 * m) as i32);
        }
        m = (m + 0.05).clamp(0.05, 0.95);
    }
}

#[test]
fn adjusting_is_that_of_single_precision() {
    let mut f: f32 = 0.5;
    let mut u: u32 = ratio::HALF;
    for step in 0..40 {
        let up = step % 3 != 0 && step < 25;
        f = if up { (f + 0.05).clamp(0.05, 0.95) } else { (f - 0.05).clamp(0.05, 0.95) };
        u = ratio::adjust(u, up);
        assert_eq!(as_float(u), f);
    }
}

#[test]
fn scaling_shrinks() {
    assert_eq!(ratio::scale(1920, ratio::HALF), 960);
    assert_eq!(ratio::scale(1920, ratio::ONE as u32), 1920);
    assert_eq!(ratio::scale(1920, 0), 0);
}
