use kara::summon::beautify_ipc::{
    socket_path, Request, Response, ThemeEntry, VariantEntry, WallpaperEntry,
};
use kara::summon::picker::{
    chip_row, fetch_variants_for, fetch_wallpapers_for, shown_name, state_from, themes_from,
    variants_request, wallpapers_request, wrap, Chip, Focus, Key, Picker, PickerError, Step,
    ThemeGroup,
};

fn theme(name: &str) -> ThemeEntry {
    ThemeEntry {
        name: name.to_string(),
        display_name: None,
        author: None,
        default_variant: None,
        variant_count: 0,
        source: String::new(),
    }
}

fn variant(name: &str) -> VariantEntry {
    VariantEntry { name: name.to_string(), display_name: None, preset: None }
}

fn wallpaper(path: &str) -> WallpaperEntry {
    WallpaperEntry { path: path.to_string(), file_name: path.to_string(), is_animated: false }
}

fn variants(names: &[&str]) -> Option<Response> {
    Some(Response::Variants {
        theme: String::new(),
        default_variant: Some("d".to_string()),
        variants: names.iter().map(|n| variant(n)).collect(),
    })
}

fn wallpapers(n: usize) -> Option<Response> {
    Some(Response::Wallpapers {
        theme: String::new(),
        variant: None,
        entries: (0..n).map(|i| wallpaper(&format!("/w/{i}"))).collect(),
    })
}

fn loaded(variant_names: &[&str], wallpaper_count: usize) -> Picker {
    let mut p = Picker::new(
        vec![theme("default"), theme("fantasy"), theme("nord")],
        &Some("fantasy".to_string()),
    );
    p.load(variants(variant_names));
    p.load(wallpapers(wallpaper_count));
    p
}

fn preview_of(p: &Picker) -> (String, Option<String>, Option<String>) {
    match p.preview() {
        Request::ApplyPreview { theme, variant, wallpaper } => (theme.unwrap(), variant, wallpaper),
        _ => panic!("no preview"),
    }
}

#[test]
fn the_sections_go_round() {
    assert_eq!(Focus::Theme.next(), Focus::Variant);
    assert_eq!(Focus::Wallpaper.next(), Focus::Theme);
    assert_eq!(Focus::Theme.prev(), Focus::Wallpaper);
    for f in [Focus::Theme, Focus::Variant, Focus::Wallpaper] {
        assert_eq!(f.next().prev(), f);
        assert_eq!(f.next().next().next(), f);
    }
}

#[test]
fn numbers_wrap_round() {
    for v in -50_isize..50 {
        for m in 1_usize..9 {
            assert_eq!(wrap(v, m), v.rem_euclid(m as isize) as usize);
        }
    }
    assert_eq!(wrap(5, 0), 0);
    assert_eq!(wrap(isize::MIN, 7), isize::MIN.rem_euclid(7) as usize);
    assert_eq!(wrap(isize::MAX, isize::MAX as usize), 0);
}

#[test]
fn themes_come_from_the_daemon() {
    let ok = themes_from(Some(Response::Themes { themes: vec![theme("a")] })).unwrap();
    assert_eq!(ok[0].name, "a");
    let none = themes_from(Some(Response::Themes { themes: Vec::new() })).unwrap_err();
    assert!(matches!(none, PickerError::NoThemes));
    assert_eq!(none.exit_code(), 2);
    let err = themes_from(Some(Response::Error { message: "m".to_string() })).unwrap_err();
    assert_eq!(err.exit_code(), 1);
    assert!(matches!(err, PickerError::Daemon { message } if message == "m"));
    let gone = themes_from(None).unwrap_err();
    assert!(matches!(gone, PickerError::NotRunning));
    assert_eq!(gone.exit_code(), 1);
    assert!(matches!(themes_from(Some(Response::Done)), Err(PickerError::NotRunning)));
}

#[test]
fn the_state_comes_from_the_daemon() {
    let s = state_from(Some(Response::State {
        theme: Some("t".to_string()),
        variant: None,
        preview_active: true,
    }));
    assert_eq!(s, (Some("t".to_string()), None));
    assert_eq!(state_from(None), (None, None));
}

#[test]
fn the_theme_in_use_is_selected() {
    let p = Picker::new(vec![theme("a"), theme("b")], &Some("b".to_string()));
    assert_eq!(p.theme_idx, 1);
    assert_eq!(Picker::new(vec![theme("a"), theme("b")], &Some("c".to_string())).theme_idx, 0);
    assert_eq!(Picker::new(vec![theme("a")], &None).theme_idx, 0);
    let mut p = loaded(&["x", "y", "z"], 0);
    p.select_variant(&Some("z".to_string()));
    assert_eq!(p.variant_idx, 2);
    p.select_variant(&Some("q".to_string()));
    assert_eq!(p.variant_idx, 0);
}

#[test]
fn a_theme_is_asked_for_once() {
    let mut p = Picker::new(vec![theme("a")], &None);
    assert!(matches!(p.missing(), Some(Request::ListVariants { theme }) if theme == "a"));
    p.load(None);
    assert!(matches!(p.missing(), Some(Request::ListWallpapers { theme, variant: None }) if theme == "a"));
    p.load(None);
    assert!(p.missing().is_none());
    p.load(wallpapers(3));
    assert_eq!(p.groups[0].wallpapers.as_ref().unwrap().len(), 0);

    let mut groups = vec![ThemeGroup {
        entry: theme("t"),
        variants: None,
        default_variant: None,
        wallpapers: None,
    }];
    assert!(variants_request(&groups, 0).is_some());
    assert!(variants_request(&groups, 1).is_none());
    fetch_variants_for(&mut groups, 0, variants(&["v"]));
    assert_eq!(groups[0].default_variant.as_deref(), Some("d"));
    fetch_variants_for(&mut groups, 0, variants(&["v", "w"]));
    assert_eq!(groups[0].variants.as_ref().unwrap().len(), 1);
    fetch_variants_for(&mut groups, 7, None);
    assert!(wallpapers_request(&groups, 0).is_some());
    fetch_wallpapers_for(&mut groups, 0, wallpapers(2));
    assert!(wallpapers_request(&groups, 0).is_none());
    assert_eq!(groups[0].wallpapers.as_ref().unwrap()[1].path, "/w/1");
}

#[test]
fn another_theme_begins_with_its_first_variant() {
    let mut p = loaded(&["x", "y"], 4);
    p.variant_idx = 1;
    p.wallpaper_idx = 3;
    assert_eq!(p.press_key(Key::Right), Step { preview: true, redraw: true });
    assert_eq!((p.theme_idx, p.variant_idx, p.wallpaper_idx), (2, 0, 0));
    assert!(p.missing().is_some());
    assert_eq!(preview_of(&p), ("nord".to_string(), None, None));
    assert_eq!(p.press_key(Key::Letter('l')), Step { preview: true, redraw: true });
    assert_eq!(p.theme_idx, 0);
    p.press_key(Key::Letter('h'));
    assert_eq!(p.theme_idx, 2);
}

#[test]
fn the_preview_is_what_is_selected() {
    let mut p = loaded(&["x", "y"], 4);
    assert_eq!(
        preview_of(&p),
        ("fantasy".to_string(), Some("x".to_string()), Some("/w/0".to_string()))
    );
    p.focus = Focus::Variant;
    assert!(p.press_key(Key::Left).preview);
    p.focus = Focus::Wallpaper;
    assert!(p.press_key(Key::Right).preview);
    assert_eq!(
        preview_of(&p),
        ("fantasy".to_string(), Some("y".to_string()), Some("/w/1".to_string()))
    );
}

#[test]
fn there_and_back_selects_the_same() {
    let mut p = loaded(&["x", "y", "z"], 7);
    for focus in [Focus::Variant, Focus::Wallpaper] {
        p.focus = focus;
        let at = (p.variant_idx, p.wallpaper_idx);
        assert!(p.move_selection(1));
        assert!(p.move_selection(-1));
        assert_eq!((p.variant_idx, p.wallpaper_idx), at);
        assert!(p.move_selection(-1));
        assert!(p.move_selection(1));
        assert_eq!((p.variant_idx, p.wallpaper_idx), at);
    }
    let mut single = loaded(&["x"], 0);
    single.focus = Focus::Variant;
    assert!(!single.move_selection(1));
    single.focus = Focus::Wallpaper;
    assert_eq!(single.press_key(Key::Right), Step { preview: false, redraw: true });
}

#[test]
fn rows_of_the_grid_come_before_sections() {
    let mut p = loaded(&["x"], 12);
    assert_eq!(p.wallpaper_cols(), 5);
    p.focus = Focus::Wallpaper;
    assert_eq!(p.press_key(Key::Down), Step { preview: true, redraw: true });
    assert_eq!((p.wallpaper_idx, p.focus), (5, Focus::Wallpaper));
    p.press_key(Key::Letter('j'));
    assert_eq!(p.wallpaper_idx, 10);
    assert_eq!(p.press_key(Key::Letter('j')), Step { preview: false, redraw: true });
    assert_eq!((p.wallpaper_idx, p.focus), (10, Focus::Theme));
    p.press_key(Key::Up);
    assert_eq!(p.focus, Focus::Wallpaper);
    p.press_key(Key::Letter('k'));
    assert_eq!(p.wallpaper_idx, 5);
    assert!(!p.move_wallpaper_row(0));
    assert!(!p.move_wallpaper_row(isize::MAX));
    assert!(!p.move_wallpaper_row(isize::MIN));
    p.press_key(Key::Tab);
    assert_eq!(p.focus, Focus::Theme);
    p.press_key(Key::BackTab);
    assert_eq!(p.focus, Focus::Wallpaper);
}

#[test]
fn only_return_keeps_the_preview() {
    let mut p = loaded(&["x"], 1);
    p.press_key(Key::Letter('c'));
    assert!(!p.exit);
    p.ctrl_held = true;
    p.press_key(Key::Letter('c'));
    assert!(p.exit && !p.commit_on_exit);
    assert!(matches!(p.closing_request(), Request::CancelPreview));
    let mut p = loaded(&["x"], 1);
    p.press_key(Key::Return);
    assert!(p.exit && p.commit_on_exit);
    assert!(matches!(p.closing_request(), Request::CommitPreview));
    let mut p = loaded(&["x"], 1);
    p.press_key(Key::Escape);
    assert!(p.exit && !p.commit_on_exit);
}

#[test]
fn control_n_and_p_step_along_a_row() {
    let mut p = loaded(&["x", "y", "z"], 0);
    p.focus = Focus::Variant;
    assert_eq!(p.press_key(Key::Letter('n')), Step { preview: false, redraw: false });
    p.ctrl_held = true;
    p.press_key(Key::Letter('n'));
    assert_eq!(p.variant_idx, 1);
    p.press_key(Key::Letter('p'));
    p.press_key(Key::Letter('p'));
    assert_eq!(p.variant_idx, 2);
    assert_eq!(p.press_key(Key::Other), Step { preview: false, redraw: false });
}

#[test]
fn the_selected_tile_is_shown() {
    for n in 1..40 {
        let mut p = loaded(&["x"], n);
        for at in 0..n {
            p.wallpaper_idx = at;
            let tiles = p.tiles();
            assert!(tiles.len() <= 15);
            let marked: Vec<usize> =
                tiles.iter().filter(|t| t.selected).map(|t| t.index).collect();
            assert_eq!(marked, vec![at]);
        }
    }
    assert!(loaded(&["x"], 0).tiles().is_empty());
}

#[test]
fn tiles_stand_in_a_grid() {
    let mut p = loaded(&["x"], 23);
    p.wallpaper_idx = 22;
    let tiles = p.tiles();
    assert_eq!(tiles[0].index, 10);
    assert_eq!((tiles[0].x, tiles[0].y), (108, 154));
    assert_eq!((tiles[6].x, tiles[6].y), (236, 230));
    assert_eq!(tiles.len(), 13);
    assert_eq!(tiles[12].index, 22);
    p.wallpaper_idx = 17;
    assert_eq!(p.tiles()[0].index, 5);
    assert_eq!(p.tiles().len(), 15);
}

#[test]
fn columns_follow_the_width() {
    let mut p = loaded(&["x"], 1);
    assert!(p.configure(10, 10));
    assert_eq!(p.wallpaper_cols(), 1);
    assert!(!p.configure(118 + 256, 10));
    assert_eq!(p.wallpaper_cols(), 2);
    p.configure(118 + 255, 10);
    assert_eq!(p.wallpaper_cols(), 1);
    p.configure(0, 10);
    assert_eq!(p.wallpaper_cols(), 1);
}

#[test]
fn chips_stop_at_the_edge() {
    let row = chip_row(&vec![50, 60, 700, 10], 1, 820);
    assert_eq!(
        row,
        vec![
            Chip { index: 0, x: 108, w: 70, selected: false },
            Chip { index: 1, x: 186, w: 80, selected: true },
            Chip { index: 2, x: 274, w: 720, selected: false },
        ]
    );
    assert!(chip_row(&Vec::new(), 0, 820).is_empty());
    assert_eq!(chip_row(&vec![5], 0, 20).len(), 1);
}

#[test]
fn names_are_shown() {
    assert_eq!(shown_name(&"n".to_string(), &None), "n");
    assert_eq!(shown_name(&"n".to_string(), &Some("N".to_string())), "N");
    assert_eq!(socket_path(&Some("/run".to_string())), "/run/kara-beautify.sock");
    assert_eq!(socket_path(&None), "/tmp/kara-beautify.sock");
}
