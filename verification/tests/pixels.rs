use kara::pixels::{
    blend_part, box_blur_rgba, crop_rows, frost, premultiply, premultiply_nearest, scale_nearest,
    split_rgb, swap_red_blue,
};

#[test]
fn colours_split_into_their_parts() {
    assert_eq!(split_rgb(0x12ab9f), (0x12, 0xab, 0x9f));
    assert_eq!(split_rgb(0xff00_0001), (0, 0, 1));
}

#[test]
fn opaque_pictures_stay() {
    let data = vec![1, 2, 3, 255, 200, 100, 0, 255];
    assert_eq!(premultiply(data.clone()), data);
    assert_eq!(premultiply_nearest(data.clone()), data);
}

#[test]
fn premultiplied_parts_are_at_most_the_alpha() {
    for a in 0..=255_u32 {
        let out = premultiply(vec![255, 128, 7, a as u8]);
        for (k, c) in [255_u32, 128, 7].iter().enumerate() {
            assert_eq!(out[k] as u32, c * a / 255);
            assert!(out[k] as u32 <= a);
        }
    }
}

#[test]
fn nearest_premultiplying_is_that_of_single_precision() {
    for a in 0..=255_u8 {
        for c in 0..=255_u8 {
            let out = premultiply_nearest(vec![c, 0, 0, a]);
            assert_eq!(out[0], (c as f32 * (a as f32 / 255.0)).round() as u8);
        }
    }
}

#[test]
fn swapping_twice_changes_nothing() {
    let data = vec![1, 2, 3, 4, 5, 6, 7, 8];
    let once = swap_red_blue(&data);
    assert_eq!(once, vec![3, 2, 1, 4, 7, 6, 5, 8]);
    assert_eq!(swap_red_blue(&once), data);
}

#[test]
fn blending_mixes_by_the_alpha() {
    assert_eq!(blend_part(200, 100, 255), 200);
    assert_eq!(blend_part(200, 100, 0), 100);
    assert_eq!(blend_part(255, 0, 128), 128);
}

#[test]
fn blur_keeps_flat_pictures() {
    let mut buf: Vec<u8> = Vec::new();
    for _ in 0..(13 * 7) {
        buf.extend_from_slice(&[9, 80, 200, 255]);
    }
    let before = buf.clone();
    let mut scratch = vec![0; buf.len()];
    box_blur_rgba(&mut buf, 13, 7, &mut scratch);
    assert_eq!(buf, before);
}

#[test]
fn blur_keeps_mirrors() {
    let (w, h) = (13, 7);
    let picture: Vec<u8> = (0..4 * w * h).map(|i| (i * i % 251) as u8).collect();
    let blur = |s: &[u8]| {
        let mut buf = s.to_vec();
        let mut scratch = vec![0; buf.len()];
        box_blur_rgba(&mut buf, w, h, &mut scratch);
        buf
    };
    let columns = |s: &[u8]| -> Vec<u8> {
        s.chunks(4 * w).flat_map(|row| row.chunks(4).rev().flatten().copied().collect::<Vec<u8>>()).collect()
    };
    let rows = |s: &[u8]| -> Vec<u8> { s.chunks(4 * w).rev().flatten().copied().collect() };
    assert_eq!(blur(&columns(&picture)), columns(&blur(&picture)));
    assert_eq!(blur(&rows(&picture)), rows(&blur(&picture)));
    assert!(blur(&picture) != picture);
}

#[test]
fn blur_averages_eleven_neighbours() {
    let w = 23;
    let mut buf = vec![0_u8; 4 * w];
    buf[4 * 11] = 220;
    let mut scratch = vec![0; buf.len()];
    box_blur_rgba(&mut buf, w, 1, &mut scratch);
    assert_eq!(buf[4 * 5], 0);
    assert_eq!(buf[4 * 6], 20);
    assert_eq!(buf[4 * 11], 20);
    assert_eq!(buf[4 * 16], 20);
    assert_eq!(buf[4 * 17], 0);
}

#[test]
fn cropping_takes_the_rows() {
    let mut src: Vec<u8> = Vec::new();
    for y in 0..4_u8 {
        for x in 0..5_u8 {
            src.extend_from_slice(&[x, y, 0, 255]);
        }
    }
    let out = crop_rows(&src, 5, 4, 1, 2, 2, 2);
    assert_eq!(out, vec![1, 2, 0, 255, 2, 2, 0, 255, 1, 3, 0, 255, 2, 3, 0, 255]);
    let flat = vec![50_u8; 4 * 5 * 4];
    assert_eq!(frost(&flat, 5, 4, 0, 0, 5, 2), vec![50_u8; 4 * 5 * 2]);
}

#[test]
fn stretching_takes_the_nearest_pixels() {
    let src = vec![1, 1, 1, 1, 2, 2, 2, 2];
    let out = scale_nearest(&src, 2, 1, &vec![0, 0, 1, 9], &vec![0]);
    assert_eq!(out, vec![1, 1, 1, 1, 1, 1, 1, 1, 2, 2, 2, 2, 2, 2, 2, 2]);
}
