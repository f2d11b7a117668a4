use kara::gate::config::Theme;
use kara::sight::layout::{
    group_adjacent, layout_bar, pill_paint, split_modules, BarModule, BarSection, BarStyle,
    Outline, PillStyle, PlacedModule,
};
use kara::sight::module::{
    build_clock, build_module_text, clock_format, command_of, scale_rgb, script_variable,
    title_fits, visible_badges, volume_bar_size, volume_fill, volume_tier_color, workspace_color,
    workspaces_is_badges, BarModuleKind, ModuleContext,
};
use kara::sight::status::{
    BatteryState, BrightnessState, CpuState, MediaState, MemoryState, NetworkState, StatusCache,
    VolumeState,
};

const THEME: Theme = Theme {
    bg: 1,
    surface: 2,
    text: 3,
    text_muted: 4,
    accent: 5,
    accent_soft: 6,
    border: 7,
};

fn module(section: BarSection, group: Option<&str>) -> BarModule {
    BarModule {
        kind: BarModuleKind::Clock,
        args: Vec::new(),
        section,
        group: group.map(String::from),
    }
}

const STYLE: BarStyle = BarStyle {
    height: 30,
    pill: true,
    module_padding_x: 10,
    module_padding_y: 2,
    module_gap: 6,
    edge_padding_x: 8,
    edge_padding_y: 3,
    hide_center: false,
};

fn sample() -> Vec<BarModule> {
    vec![
        module(BarSection::Left, Some("left")),
        module(BarSection::Right, None),
        module(BarSection::Left, Some("left")),
        module(BarSection::Center, None),
        module(BarSection::Left, None),
        module(BarSection::Right, Some("r")),
        module(BarSection::Right, Some("r")),
    ]
}

#[test]
fn every_module_is_in_one_section() {
    let (l, c, r) = split_modules(&sample());
    assert_eq!((l.clone(), c.clone(), r.clone()), (vec![0, 2, 4], vec![3], vec![1, 5, 6]));
    assert_eq!(l.len() + c.len() + r.len(), 7);
}

#[test]
fn neighbours_of_a_group_share_a_background() {
    let ms = sample();
    assert_eq!(group_adjacent(&ms, &vec![0, 2, 4]), vec![vec![0, 2], vec![4]]);
    assert_eq!(group_adjacent(&ms, &vec![0, 4, 2]), vec![vec![0], vec![4], vec![2]]);
    assert_eq!(group_adjacent(&ms, &vec![1, 4]), vec![vec![1], vec![4]]);
    assert!(group_adjacent(&ms, &Vec::new()).is_empty());
    let flat: Vec<usize> = group_adjacent(&ms, &vec![0, 2, 5, 6, 4]).concat();
    assert_eq!(flat, vec![0, 2, 5, 6, 4]);
}

#[test]
fn a_bar_is_laid_out() {
    let widths = vec![40, 50, 60, 70, 80, 20, 30];
    let l = layout_bar(&sample(), &widths, &STYLE, 1000).unwrap();
    assert_eq!(l.left.len(), 2);
    assert_eq!((l.left[0].x, l.left[0].w), (8, 126));
    assert_eq!(
        l.left[0].members,
        vec![PlacedModule { index: 0, x: 18, w: 40 }, PlacedModule { index: 2, x: 64, w: 60 }]
    );
    assert_eq!((l.left[1].x, l.left[1].w), (140, 100));
    assert_eq!((l.right[0].x, l.right[0].w), (992 - 76, 76));
    assert_eq!(l.right[0].members[1], PlacedModule { index: 6, x: 916 + 10 + 26, w: 30 });
    assert_eq!((l.right[1].x, l.right[1].w), (916 - 6 - 70, 70));
    assert_eq!((l.center[0].x, l.center[0].w), ((1000 - 90) / 2, 90));
    assert_eq!((l.content_y, l.content_h), (5, 20));
}

#[test]
fn groups_of_a_row_stand_side_by_side() {
    let widths = vec![40, 50, 60, 70, 80, 20, 30];
    let l = layout_bar(&sample(), &widths, &STYLE, 1000).unwrap();
    assert_eq!(l.left[0].x + l.left[0].w + 6, l.left[1].x);
    for g in l.left.iter().chain(l.right.iter()).chain(l.center.iter()) {
        for m in &g.members {
            assert!(g.x + 10 <= m.x && m.x + m.w as i64 + 10 <= g.x + g.w);
        }
    }
}

#[test]
fn the_middle_needs_room() {
    let widths = vec![40, 50, 60, 70, 80, 20, 30];
    let wide = layout_bar(&sample(), &widths, &STYLE, 542).unwrap();
    assert_eq!(wide.center.len(), 1);
    let g = &wide.center[0];
    let left_end = wide.left[1].x + wide.left[1].w + 6;
    let right_start = wide.right[1].x - 6;
    assert!(left_end <= g.x && g.x + g.w <= right_start);
    let narrow = layout_bar(&sample(), &widths, &STYLE, 541).unwrap();
    assert!(narrow.center.is_empty());
    let hidden = BarStyle { hide_center: true, ..STYLE };
    assert!(layout_bar(&sample(), &widths, &hidden, 1000).unwrap().center.is_empty());
}

#[test]
fn flat_bars_have_no_padding() {
    let style = BarStyle { pill: false, module_gap: -4, edge_padding_x: -1, edge_padding_y: 20, ..STYLE };
    let l = layout_bar(&sample(), &vec![1; 7], &style, 100).unwrap();
    assert_eq!((l.left[0].x, l.left[0].w), (0, 2));
    assert_eq!((l.content_y, l.content_h), (20, 1));
    assert!(layout_bar(&sample(), &vec![1; 7], &style, 0).is_none());
    let flat = BarStyle { height: 0, ..STYLE };
    assert!(layout_bar(&sample(), &vec![1; 7], &flat, 9).is_none());
}

#[test]
fn backgrounds_are_painted() {
    let style = PillStyle { rounded: -3, background: None, alpha: 9, border_px: 0, border_color: None };
    let p = pill_paint(&style, 2, 7, false);
    assert_eq!((p.radius, p.fill, p.alpha, p.outline), (0, 2, 9, Outline::Nothing));
    assert_eq!(pill_paint(&style, 2, 7, true).outline, Outline::Tiled { width: 2 });
    let lined = PillStyle { border_px: 3, background: Some(8), ..style };
    assert_eq!(pill_paint(&lined, 2, 7, false).outline, Outline::Plain { color: 7, width: 3 });
    assert_eq!(pill_paint(&lined, 2, 7, true).outline, Outline::Tiled { width: 3 });
    assert_eq!(pill_paint(&lined, 2, 7, false).fill, 8);
}

fn ctx<'a>(status: &'a StatusCache, icons: bool, colors: bool) -> ModuleContext<'a> {
    ModuleContext {
        theme: &THEME,
        icons,
        colors,
        status,
        current_ws: 0,
        occupied_workspaces: [false; 9],
        focused_title: String::new(),
        monitor_id: 0,
        sync_enabled: false,
        is_focused_monitor: false,
    }
}

fn shown(kind: BarModuleKind, status: &StatusCache, icons: bool, colors: bool) -> (String, u32) {
    let c = build_module_text(&kind, &ctx(status, icons, colors), "", None);
    (c.text, c.color)
}

#[test]
fn the_volume_is_shown() {
    let mut s = StatusCache::new();
    assert_eq!(shown(BarModuleKind::Volume, &s, false, true), ("audio".to_string(), 4));
    assert_eq!(shown(BarModuleKind::Volume, &s, true, true), ("\u{f0581} audio".to_string(), 4));
    s.volume = VolumeState { valid: true, muted: false, percent: 66 };
    assert_eq!(shown(BarModuleKind::Volume, &s, true, true), ("\u{f057e} 66%".to_string(), 3));
    s.volume.percent = 33;
    assert_eq!(shown(BarModuleKind::Volume, &s, true, true).0, "\u{f0580} 33%");
    s.volume.percent = 32;
    assert_eq!(shown(BarModuleKind::Volume, &s, true, true).0, "\u{f057f} 32%");
    assert_eq!(shown(BarModuleKind::Volume, &s, false, true).0, "vol 32%");
    s.volume.muted = true;
    assert_eq!(shown(BarModuleKind::Volume, &s, false, true), ("vol muted".to_string(), 4));
    assert_eq!(shown(BarModuleKind::Volume, &s, true, false), ("\u{f075f} muted".to_string(), 3));
}

#[test]
fn the_network_is_shown() {
    let mut s = StatusCache::new();
    assert_eq!(shown(BarModuleKind::Network, &s, false, true), ("offline".to_string(), 4));
    assert_eq!(shown(BarModuleKind::Network, &s, true, false), ("\u{f0a8e} offline".to_string(), 3));
    s.network = NetworkState {
        valid: true,
        connected: true,
        wireless: true,
        signal_percent: 71,
        ifname: "wlan0".to_string(),
        ssid: "home".to_string(),
    };
    assert_eq!(shown(BarModuleKind::Network, &s, false, true), ("home 71%".to_string(), 5));
    assert_eq!(shown(BarModuleKind::Network, &s, true, true).0, "\u{f05a9} 71%");
    s.network.ssid = String::new();
    s.network.signal_percent = -1;
    assert_eq!(shown(BarModuleKind::Network, &s, false, true).0, "wifi");
    s.network.wireless = false;
    assert_eq!(shown(BarModuleKind::Network, &s, false, false), ("eth".to_string(), 3));
    assert_eq!(shown(BarModuleKind::Network, &s, true, true).0, "\u{f0200}");
}

#[test]
fn the_battery_is_shown() {
    let mut s = StatusCache::new();
    assert_eq!(shown(BarModuleKind::Battery, &s, true, true).0, "");
    let cases = [
        (96, false, false, "\u{f0079} 96%", 3),
        (40, true, false, "\u{f0084} 40%", 6),
        (70, false, false, "\u{f0082} 70%", 3),
        (40, false, false, "\u{f007e} 40%", 3),
        (15, false, false, "\u{f007a} 15%", 5),
        (14, false, false, "\u{f008e} 14%", 5),
        (80, false, true, "\u{f0079} 80%", 5),
    ];
    for (percent, charging, full, text, color) in cases {
        s.battery = BatteryState { valid: true, charging, full, percent };
        assert_eq!(shown(BarModuleKind::Battery, &s, true, true), (text.to_string(), color));
    }
    assert_eq!(shown(BarModuleKind::Battery, &s, false, false), ("bat 80%".to_string(), 3));
}

#[test]
fn the_other_readings_are_shown() {
    let mut s = StatusCache::new();
    for kind in [BarModuleKind::Brightness, BarModuleKind::Media, BarModuleKind::Memory, BarModuleKind::Cpu] {
        assert_eq!(shown(kind, &s, true, true).0, "");
    }
    s.brightness = BrightnessState { valid: true, percent: 40 };
    assert_eq!(shown(BarModuleKind::Brightness, &s, false, true), ("bri 40%".to_string(), 3));
    assert_eq!(shown(BarModuleKind::Brightness, &s, true, true).0, "\u{f00df} 40%");
    s.media = MediaState { valid: true, playing: true, paused: false, text: "A - B".to_string() };
    assert_eq!(shown(BarModuleKind::Media, &s, true, true), ("\u{f040a} A - B".to_string(), 5));
    assert_eq!(shown(BarModuleKind::Media, &s, false, false), ("A - B".to_string(), 3));
    s.media.playing = false;
    assert_eq!(shown(BarModuleKind::Media, &s, true, true).0, "\u{f04db} A - B");
    s.media.paused = true;
    assert_eq!(shown(BarModuleKind::Media, &s, true, true).0, "\u{f03e4} A - B");
    s.memory = MemoryState { valid: true, used_percent: 90, used_mb: 9, total_mb: 10 };
    assert_eq!(shown(BarModuleKind::Memory, &s, false, true), ("mem 90%".to_string(), 5));
    assert_eq!(shown(BarModuleKind::Memory, &s, true, false), ("\u{f035b} 90%".to_string(), 3));
    s.cpu = CpuState { valid: true, usage_percent: 89 };
    assert_eq!(shown(BarModuleKind::Cpu, &s, false, true), ("cpu 89%".to_string(), 3));
    assert_eq!(shown(BarModuleKind::Cpu, &s, true, true).0, "\u{f4bc} 89%");
    assert_eq!(shown(BarModuleKind::Weather, &s, true, true), (String::new(), 3));
    assert_eq!(shown(BarModuleKind::Status, &s, true, true), (String::new(), 3));
}

#[test]
fn the_title_is_cut() {
    let s = StatusCache::new();
    let mut c = ctx(&s, false, true);
    assert_eq!(build_module_text(&BarModuleKind::Title, &c, "", None).text, "kara");
    c.focused_title = "x".repeat(60);
    assert_eq!(build_module_text(&BarModuleKind::Title, &c, "", None).text, "x".repeat(60));
    c.focused_title = "x".repeat(61);
    assert_eq!(
        build_module_text(&BarModuleKind::Title, &c, "", None).text,
        format!("{}...", "x".repeat(57))
    );
    assert!(!title_fits(&"\u{e9}".repeat(40)));
    assert!(title_fits(&"\u{4e2d}".repeat(40)));
}

#[test]
fn the_monitor_is_shown() {
    let s = StatusCache::new();
    let mut c = ctx(&s, false, true);
    c.monitor_id = 1;
    let show = |c: &ModuleContext, k: BarModuleKind| {
        let m = build_module_text(&k, c, "", None);
        (m.text, m.color)
    };
    assert_eq!(show(&c, BarModuleKind::Monitor), ("mon 2 ".to_string(), 4));
    c.sync_enabled = true;
    assert_eq!(show(&c, BarModuleKind::Sync), ("mon 2 sync".to_string(), 6));
    c.is_focused_monitor = true;
    c.icons = true;
    assert_eq!(show(&c, BarModuleKind::Monitor), ("\u{f0379}[2]\u{f0b38}".to_string(), 5));
    c.sync_enabled = false;
    c.colors = false;
    assert_eq!(show(&c, BarModuleKind::Monitor), ("\u{f0379}[2]".to_string(), 4));
}

#[test]
fn commands_give_their_output() {
    let s = StatusCache::new();
    let c = ctx(&s, false, true);
    let m = build_module_text(&BarModuleKind::Custom, &c, "", Some("  hi \n"));
    assert_eq!((m.text.as_str(), m.color), ("hi", 3));
    let m = build_module_text(&BarModuleKind::Script("x".to_string()), &c, "", None);
    assert_eq!(m.text, "");
    assert_eq!(script_variable("wea\u{e9}ther"), "KARA_WEA\u{e9}THER_CMD");
    assert_eq!(command_of(Some("ls")).as_deref(), Some("ls"));
    assert_eq!(command_of(Some("")), None);
    assert_eq!(command_of(None), None);
}

#[test]
fn the_clock_has_a_format() {
    let default = clock_format(None);
    assert_eq!(default, "%a %b %d \u{2022} %H:%M");
    assert_eq!(clock_format(Some("%H")), "%H");
}

#[test]
fn the_clock_writes_the_time() {
    let s = StatusCache::new();
    let plain = ctx(&s, false, true);
    let at = build_clock(Some("%Y"), &plain).map(|m| m.text).unwrap_or_default();
    assert!(at.len() >= 4 && at.chars().all(|c| c.is_ascii_digit()));
    let at = build_clock(Some("%H:%M"), &plain).map(|m| m.text).unwrap_or_default();
    assert_eq!((at.len(), at.find(':')), (5, Some(2)));
    let at = build_clock(None, &plain).map(|m| m.text).unwrap_or_default();
    assert!(at.contains(" \u{2022} ") && !at.contains('%'));
}

#[test]
fn a_clock_without_fields_shows_its_format() {
    let s = StatusCache::new();
    let show = |format: &str, icons: bool| {
        build_clock(Some(format), &ctx(&s, icons, true)).map(|m| (m.text, m.color))
    };
    assert_eq!(show("noon", false), Some(("noon".to_string(), 3)));
    assert_eq!(show("noon", true), Some(("\u{f0954} noon".to_string(), 3)));
    assert_eq!(show("", false), Some((String::new(), 3)));
}

#[test]
fn a_clock_does_not_know_every_format() {
    let s = StatusCache::new();
    assert!(build_clock(Some("%!"), &ctx(&s, false, true)).is_none());
    assert!(build_clock(Some("at %"), &ctx(&s, false, true)).is_none());
    assert!(build_clock(Some("100%%"), &ctx(&s, false, true)).is_some());
}

#[test]
fn the_volume_bar_has_sizes() {
    assert!(volume_bar_size(Some("none")).is_none());
    let size = |a: Option<&str>| {
        let s = volume_bar_size(a).unwrap();
        (s.width, s.height, s.radius)
    };
    assert_eq!(size(Some("small")), (32, 4, 2));
    assert_eq!(size(Some("large")), (64, 8, 4));
    assert_eq!(size(Some("med")), (46, 6, 3));
    assert_eq!(size(Some("other")), (46, 6, 3));
    assert_eq!(size(None), (46, 6, 3));
    assert_eq!(volume_fill(&VolumeState { valid: true, muted: false, percent: 140 }), 100);
    assert_eq!(volume_fill(&VolumeState { valid: true, muted: false, percent: -4 }), 0);
    assert_eq!(volume_fill(&VolumeState { valid: true, muted: true, percent: 40 }), 0);
    assert_eq!(volume_fill(&VolumeState { valid: false, muted: false, percent: 40 }), 0);
}

#[test]
fn scaled_colours_are_those_of_single_precision() {
    for (percent, factor) in [(55_u32, 0.55_f32), (80, 0.80), (100, 1.00), (125, 1.25)] {
        for c in 0..=255_u32 {
            let want = (c as f32 * factor).round().clamp(0.0, 255.0) as u32;
            assert_eq!(scale_rgb(c << 16 | c << 8 | c, percent), want << 16 | want << 8 | want);
        }
    }
}

#[test]
fn louder_is_brighter() {
    let accent = 0x64c832;
    let parts = |c: u32| [c >> 16 & 255, c >> 8 & 255, c & 255];
    let mut last = [0; 3];
    for percent in 0..=100 {
        let now = parts(volume_tier_color(accent, percent));
        for k in 0..3 {
            assert!(last[k] <= now[k]);
        }
        last = now;
    }
    assert_eq!(volume_tier_color(accent, 24), scale_rgb(accent, 55));
    assert_eq!(volume_tier_color(accent, 25), scale_rgb(accent, 80));
    assert_eq!(volume_tier_color(accent, 60), accent);
    assert_eq!(volume_tier_color(accent, 85), scale_rgb(accent, 125));
}

#[test]
fn workspaces_are_shown() {
    assert!(workspaces_is_badges(&vec!["x".to_string(), "BADGES".to_string()]));
    assert!(workspaces_is_badges(&vec!["Big".to_string()]));
    assert!(!workspaces_is_badges(&vec!["dots".to_string()]));
    let mut occupied = [false; 9];
    occupied[2] = true;
    occupied[8] = true;
    assert_eq!(visible_badges(4, &occupied), vec![2, 4, 8]);
    assert_eq!(visible_badges(2, &occupied), vec![2, 8]);
    assert_eq!(workspace_color(true, true, &THEME), 5);
    assert_eq!(workspace_color(false, true, &THEME), 7);
    assert_eq!(workspace_color(false, false, &THEME), 4);
}
