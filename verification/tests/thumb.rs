use kara::summon::thumb::{
    can_cover, crop_middle, decode_thumb, disk_cache_name, scale_to_cover, thumb_source, Source,
    ThumbCache,
};

#[test]
fn videos_are_known_by_their_extension() {
    assert_eq!(thumb_source(Some("MP4"), 120, 68), Source::Video);
    assert_eq!(thumb_source(Some("m4v"), 120, 68), Source::Video);
    assert_eq!(thumb_source(Some("png"), 120, 68), Source::Still);
    assert_eq!(thumb_source(Some("gif"), 120, 68), Source::Still);
    assert_eq!(thumb_source(None, 120, 68), Source::Still);
    assert_eq!(thumb_source(Some("png"), 0, 68), Source::Nothing);
    assert_eq!(thumb_source(Some("mp4"), 120, 0), Source::Nothing);
}

fn gradient(w: u32, h: u32) -> Vec<u8> {
    let mut out = Vec::new();
    for y in 0..h {
        for x in 0..w {
            out.extend_from_slice(&[(x * 7) as u8, (y * 11) as u8, ((x + y) * 3) as u8, 255]);
        }
    }
    out
}

#[test]
fn covering_resizes_and_keeps_the_middle() {
    let (w, h) = (20, 10);
    let src = gradient(w, h);
    let out = scale_to_cover(&src, w, h, 12, 6, 6, 6);
    let img = image::RgbaImage::from_raw(w, h, src).unwrap();
    let dynamic = image::DynamicImage::ImageRgba8(img);
    let expected = dynamic
        .resize_exact(12, 6, image::imageops::FilterType::Triangle)
        .crop_imm(3, 0, 6, 6)
        .to_rgba8()
        .into_raw();
    assert_eq!(out, expected);
}

#[test]
fn a_picture_of_the_right_size_stays() {
    let src = gradient(6, 4);
    assert_eq!(scale_to_cover(&src, 6, 4, 6, 4, 6, 4), src);
}

#[test]
fn a_picture_is_at_least_as_large_as_its_place() {
    let src = gradient(3, 3);
    let out = scale_to_cover(&src, 3, 3, 1, 1, 8, 5);
    assert_eq!(out.len(), 4 * 8 * 5);
}

#[test]
fn thumbs_have_premultiplied_alpha() {
    let src = vec![200, 100, 50, 128];
    let out = decode_thumb(&src, 1, 1, 1, 1, 1, 1).unwrap();
    assert_eq!(out, vec![100, 50, 25, 128]);
    assert!(decode_thumb(&src, 1, 1, 1, 1, 0, 1).is_none());
}

#[test]
fn pictures_without_an_extent_are_empty() {
    assert_eq!(scale_to_cover(&Vec::new(), 0, 5, 9, 9, 2, 1), vec![0; 8]);
    assert_eq!(scale_to_cover(&gradient(2, 2), 2, 2, 9, 9, 0, 3), vec![0; 12]);
}

#[test]
fn sizes_are_limited() {
    assert!(can_cover(3840, 2160, 121, 68, 120, 68));
    assert!(!can_cover(70_000, 2, 1, 1, 1, 1));
    assert!(!can_cover(20_000, 2, 20_000, 20_000, 1, 1));
    assert!(can_cover(0, 2, 1, 1, 1, 1));
    assert!(!can_cover(0, 2, 1, 1, 65_536, 65_536));
}

#[test]
fn the_middle_is_cut_out() {
    let src = gradient(5, 4);
    let out = crop_middle(&src, 5, 4, 2, 2);
    assert_eq!(out[..8], src[4 * (5 + 1)..4 * (5 + 3)]);
    assert_eq!(out[8..], src[4 * (10 + 1)..4 * (10 + 3)]);
}

#[test]
fn names_in_the_cache_differ() {
    assert_eq!(disk_cache_name(0), "0000000000000000.png");
    assert_eq!(disk_cache_name(0xdead_beef), "00000000deadbeef.png");
    for k in [1_u64, 15, 16, u64::MAX, 0x0123_4567_89ab_cdef] {
        assert_eq!(disk_cache_name(k), format!("{k:016x}.png"));
        assert_ne!(disk_cache_name(k), disk_cache_name(k - 1));
    }
}

#[test]
fn a_broken_file_is_tried_once() {
    let mut c = ThumbCache::new();
    assert!(!c.knows("/a"));
    c.store("/a".to_string(), None);
    assert!(c.knows("/a"));
    assert!(c.get("/a").is_none());
    c.store("/a".to_string(), Some(vec![1]));
    assert!(c.get("/a").is_none());
    c.store("/b".to_string(), Some(vec![2, 3]));
    assert_eq!(c.get("/b"), Some(&vec![2, 3]));
    assert!(c.get("/c").is_none());
}
