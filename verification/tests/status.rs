use kara::sight::status::{
    battery_state, brightness_state, cpu_delta, cpu_sample, media_state, memory_state,
    network_state, parse_meminfo_value, pick_interface, unknown_media, unknown_network,
    volume_state, volume_text, wireless_quality, Backlight, BatteryState, BrightnessState,
    CpuSample, Interface, MemoryState, PowerSupply, Readings, StatusCache, VolumeState,
};

const MS: u64 = 1_000_000;

fn readings(percent: i32, cpu: Option<CpuSample>) -> Readings {
    Readings {
        volume: VolumeState { valid: true, muted: false, percent },
        network: unknown_network(),
        battery: BatteryState { valid: true, charging: false, full: false, percent },
        brightness: BrightnessState { valid: true, percent },
        media: unknown_media(),
        memory: MemoryState { valid: true, used_percent: percent, used_mb: 1, total_mb: 2 },
        cpu,
        cpu_usage: percent,
    }
}

#[test]
fn nothing_is_due_at_once() {
    let mut c = StatusCache::new();
    let d = c.due(false, 7);
    assert!(d.volume && d.network && d.battery && d.brightness && d.media && d.memory && d.cpu);
    c.refresh(false, 7, readings(5, None));
    let d = c.due(false, 7);
    assert!(!(d.volume || d.network || d.battery || d.brightness || d.media || d.memory || d.cpu));
    let d = c.due(true, 7);
    assert!(d.volume && d.cpu);
}

#[test]
fn readings_have_their_intervals() {
    let mut c = StatusCache::new();
    c.refresh(true, 0, readings(5, None));
    c.refresh(false, 499 * MS, readings(6, None));
    assert_eq!(c.volume.percent, 5);
    c.refresh(false, 500 * MS, readings(7, None));
    assert_eq!((c.volume.percent, c.memory.used_percent), (7, 5));
    c.refresh(false, 1_000 * MS, readings(8, None));
    assert_eq!((c.volume.percent, c.memory.used_percent, c.brightness.percent), (8, 8, 5));
    c.refresh(false, 1_500 * MS, readings(9, None));
    assert_eq!((c.brightness.percent, c.battery.percent), (9, 5));
    c.refresh(false, 5_000 * MS, readings(10, None));
    assert_eq!(c.battery.percent, 10);
    assert!(c.should_update(&None, 0, 100));
    assert!(!c.should_update(&Some(9), 5, 1));
}

#[test]
fn the_cpu_needs_two_counts() {
    let mut c = StatusCache::new();
    let first = CpuSample { total: 1000, idle: 800 };
    let second = CpuSample { total: 1200, idle: 850 };
    assert_eq!(cpu_delta(c.prev_cpu, first), None);
    assert_eq!(cpu_delta(first, second), Some((150, 200)));
    assert_eq!(cpu_delta(second, second), None);
    assert_eq!(cpu_delta(first, CpuSample { total: 1010, idle: 900 }), Some((0, 10)));
    c.refresh(true, 0, readings(50, Some(first)));
    assert!(c.cpu.valid);
    assert_eq!(c.cpu.usage_percent, 0);
    c.refresh(true, 1, readings(75, Some(second)));
    assert_eq!(c.cpu.usage_percent, 75);
    c.refresh(true, 2, readings(75, None));
    assert!(!c.cpu.valid);
}

#[test]
fn cpu_counts_are_read() {
    let s = cpu_sample("cpu  10 20 30 40 5 x 1\ncpu0 1 2 3 4\n").unwrap();
    assert_eq!((s.total, s.idle), (106, 45));
    let s = cpu_sample("cpu 1 2 3 4").unwrap();
    assert_eq!((s.total, s.idle), (10, 4));
    assert!(cpu_sample("cpu 1 2 3").is_none());
    assert!(cpu_sample("cpu0 1 2 3 4").is_none());
    assert!(cpu_sample("").is_none());
}

#[test]
fn the_memory_share_is_told() {
    let m = memory_state("MemTotal:       16000000 kB\nMemFree: 1 kB\nMemAvailable:   4000000 kB\n");
    assert!(m.valid);
    assert_eq!((m.used_percent, m.total_mb, m.used_mb), (75, 15625, 11718));
    assert!(m.used_mb <= m.total_mb);
    assert!(!memory_state("MemAvailable: 5 kB\n").valid);
    let m = memory_state("MemTotal: 80000000000000000 kB\nMemAvailable: 20000000000000000 kB\n");
    assert_eq!((m.valid, m.used_percent), (true, 75));
    assert_eq!((m.used_mb, m.total_mb), (58_593_750_000_000, 78_125_000_000_000));
    let m = memory_state("MemTotal: 1000 kB\n");
    assert_eq!(m.used_percent, 100);
    assert_eq!(parse_meminfo_value("   123 kB"), 123);
    assert_eq!(parse_meminfo_value("x"), 0);
    assert_eq!(parse_meminfo_value(""), 0);
}

#[test]
fn the_volume_is_read() {
    let t = volume_text("Volume: 0.50 [MUTED]\n").unwrap();
    assert_eq!((t.number.as_str(), t.muted), ("0.50", true));
    let v = volume_state(&Some(t), Some(50));
    assert_eq!((v.valid, v.muted, v.percent), (true, true, 50));
    let t = volume_text("Volume:").unwrap();
    assert_eq!(t.number, "0");
    assert!(volume_text("nothing").is_none());
    assert!(!volume_state(&None, None).valid);
}

fn interface(name: &str, operstate: &str, carrier: &str, wireless: bool) -> Interface {
    Interface {
        name: name.to_string(),
        operstate: operstate.to_string(),
        carrier: carrier.to_string(),
        wireless,
    }
}

#[test]
fn the_first_live_interface_is_shown() {
    let list = vec![
        interface("lo", "unknown", "1", false),
        interface("docker0", "up", "1", false),
        interface("veth12", "up", "1", false),
        interface("br-1", "up", "1", false),
        interface("tailscale0", "up", "1", false),
        interface("tun0", "up", "1", false),
        interface("eth0", "down", "0", false),
        interface("wlan0", "dormant", "0", true),
        interface("eth1", "up", "1", false),
    ];
    let i = pick_interface(&list).unwrap();
    assert_eq!(i, 7);
    let n = network_state(Some(&list[i]), 50, "home");
    assert!(n.valid && n.connected && n.wireless);
    assert_eq!((n.ifname.as_str(), n.ssid.as_str(), n.signal_percent), ("wlan0", "home", 50));
    let n = network_state(Some(&list[8]), 50, "home");
    assert!(n.connected && !n.wireless);
    assert_eq!(n.ssid, "");
    let n = network_state(None, 0, "");
    assert!(n.valid && !n.connected);
    assert!(pick_interface(&Vec::new()).is_none());
    assert_eq!(pick_interface(&vec![interface("e", "down", "1", false)]), Some(0));
}

#[test]
fn the_signal_is_read() {
    let text = "Inter-| sta\n face | tus\n wlan0: 0000   50.  -60.  -256\n";
    assert_eq!(wireless_quality(text, "wlan0").as_deref(), Some("50"));
    assert!(wireless_quality(text, "wlan1").is_none());
    assert!(wireless_quality("wlan0: 0000\n", "wlan0").is_none());
}

#[test]
fn the_battery_is_read() {
    let supply = |kind: &str, capacity: &str, status: &str| PowerSupply {
        kind: kind.to_string(),
        capacity: capacity.to_string(),
        status: status.to_string(),
    };
    let b = battery_state(&vec![supply("Mains", "1", ""), supply("Battery", "87", "Charging")]);
    assert_eq!((b.valid, b.percent, b.charging, b.full), (true, 87, true, false));
    let b = battery_state(&vec![supply("Battery", "?", "Full"), supply("Battery", "5", "Charging")]);
    assert_eq!((b.valid, b.percent, b.charging, b.full), (true, 0, false, true));
    assert!(!battery_state(&vec![supply("Mains", "1", "")]).valid);
}

#[test]
fn the_brightness_is_read() {
    let light = |a: &str, b: &str| Backlight { brightness: a.to_string(), max_brightness: b.to_string() };
    let b = brightness_state(&vec![light("5", "0"), light("199", "400")]);
    assert_eq!((b.valid, b.percent), (true, 49));
    assert!(!brightness_state(&vec![light("5", "x")]).valid);
    let b = brightness_state(&vec![light("80000000000000000", "160000000000000000")]);
    assert_eq!((b.valid, b.percent), (true, 50));
}

#[test]
fn the_player_is_read() {
    let m = media_state(Some("Playing\n"), Some(" A - B \n"));
    assert!(m.valid && m.playing && !m.paused);
    assert_eq!(m.text, "A - B");
    let m = media_state(Some("Paused"), None);
    assert!(m.valid && m.paused);
    assert_eq!(m.text, "");
    assert!(!media_state(None, Some("x")).valid);
}
