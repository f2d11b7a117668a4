use kara::gate::actions::{step_output, Action};
use kara::gate::config::{
    AnimationPreset, Animations, AutostartEntry, BarConfig, BarPosition, BindAction, BindConfig,
    Config, General, ModMask, NamedCommand, Rule, ScratchpadConfig, Theme,
};
use kara::gate::config::{apply_rules, find_capture, find_command};
use kara::gate::input::{axis_step, clamp_to_outputs, AxisStep, PointerRoute, PointerTarget};
use kara::gate::requests::{needs_output, screenshot_name};
use kara::gate::state::Gate;
use kara::gate::windows::is_helper_client;
use kara::geometry::{Rect, Size};
use kara::ipc::message::{Request, Response};
use kara::ratio;

const NO_MODS: ModMask = ModMask { logo: false, shift: false, ctrl: false, alt: false };
const LOGO: ModMask = ModMask { logo: true, shift: false, ctrl: false, alt: false };

fn scratchpad(name: &str) -> ScratchpadConfig {
    ScratchpadConfig {
        name: name.to_string(),
        width_pct: 50,
        height_pct: 50,
        autostart: Vec::new(),
        captures: Vec::new(),
        dim_alpha: 100,
        blur: false,
        blur_passes: 0,
    }
}

fn config() -> Config {
    Config {
        general: General {
            gap_px: 8,
            border_px: 2,
            border_radius: 0,
            border_tile: None,
            default_mfact: ratio::HALF,
            sync_workspaces: false,
            font: "monospace".to_string(),
            cursor_theme: None,
            cursor_size: 24,
        },
        bar: BarConfig {
            enabled: true,
            height: 30,
            position: BarPosition::Top,
            background: true,
            background_alpha: 255,
            blur: false,
        },
        animations: Animations { preset: AnimationPreset::Instant, duration_ms: 0 },
        theme: Theme {
            bg: 1,
            surface: 2,
            text: 3,
            text_muted: 4,
            accent: 5,
            accent_soft: 6,
            border: 7,
        },
        scratchpads: vec![scratchpad("term"), scratchpad("notes")],
        rules: vec![
            Rule::Float { app_id: "calc".to_string() },
            Rule::Workspace { workspace: 4, app_id: "mail".to_string() },
        ],
        commands: vec![NamedCommand { name: "terminal".to_string(), line: "foot".to_string() }],
        autostart: Vec::new(),
        environment: Vec::new(),
        monitors: Vec::new(),
        keybinds: vec![
            BindConfig { mods: LOGO, keysym: 0x6a, action: BindAction::FocusNext },
            BindConfig { mods: LOGO, keysym: 0x71, action: BindAction::Spawn("terminal".to_string()) },
        ],
    }
}

fn gate_from(config: Config, outputs: usize) -> Gate {
    let mut g = Gate::new(config, 0);
    for i in 0..outputs {
        g.add_output(format!("OUT-{i}"), Size { w: 1920, h: 1080 }, 1920 * i as i32, 0);
    }
    g.sort_outputs();
    g.begin();
    g
}

fn gate(outputs: usize) -> Gate {
    gate_from(config(), outputs)
}

fn open(g: &mut Gate, w: u16, app: &str) {
    g.new_toplevel(w);
    g.commit(w, app, true);
}

fn places(g: &Gate, w: u16) -> Vec<(usize, usize)> {
    let mut out = Vec::new();
    for (o, pool) in g.workspaces.iter().enumerate() {
        for (k, ws) in pool.iter().enumerate() {
            for c in &ws.clients {
                if *c == w {
                    out.push((o, k));
                }
            }
        }
    }
    out
}

fn pad_of(g: &Gate, w: u16) -> Option<usize> {
    g.scratchpads.iter().position(|s| s.workspace.clients.contains(&w))
}

fn shown(g: &Gate, w: u16) -> Option<(i32, i32)> {
    g.stage.location(w).map(|p| (p.x, p.y))
}

#[test]
fn every_output_begins_with_its_own_workspace() {
    let g = gate(3);
    assert_eq!(g.outputs.iter().map(|o| o.current_ws).collect::<Vec<_>>(), vec![0, 1, 2]);
    assert_eq!(g.workspaces.len(), 3);
    assert!(g.workspaces.iter().all(|p| p.len() == 9));
    assert_eq!(g.focused_output, 0);
    assert_eq!(g.outputs[0].workarea, Rect { x: 0, y: 30, w: 1920, h: 1050 });
}

#[test]
fn a_window_has_one_place() {
    let mut g = gate(2);
    g.new_toplevel(1);
    assert_eq!(g.unmapped_windows, vec![1]);
    g.commit(1, "foot", false);
    assert!(places(&g, 1).is_empty());
    g.commit(1, "foot", true);
    assert_eq!(places(&g, 1), vec![(0, 0)]);
    assert!(g.unmapped_windows.is_empty());
    assert_eq!(g.keyboard_focus, Some(1));
    g.commit(1, "foot", true);
    assert_eq!(places(&g, 1), vec![(0, 0)]);
    assert_eq!(shown(&g, 1), Some((10, 40)));
}

#[test]
fn rules_place_windows() {
    let mut g = gate(1);
    open(&mut g, 1, "calc");
    assert!(g.workspaces[0][0].is_floating(0));
    open(&mut g, 2, "mail");
    assert_eq!(places(&g, 2), vec![(0, 4)]);
    assert_eq!(shown(&g, 2), None);
    assert_eq!(apply_rules(&g.config.rules, "mail"), (false, Some(4)));
    assert_eq!(g.check_rules("calc"), (true, None));
    assert_eq!(g.check_rules("other"), (false, None));
}

#[test]
fn helpers_are_never_shown() {
    let mut g = gate(1);
    assert!(is_helper_client("io.github.bugaevc.wl-clipboard"));
    open(&mut g, 1, "foot");
    open(&mut g, 2, "io.github.bugaevc.wl-clipboard");
    assert!(places(&g, 2).is_empty());
    assert_eq!(g.hidden_helpers, vec![2]);
    assert_eq!(g.keyboard_focus, Some(2));
    g.toplevel_destroyed(2);
    assert!(g.hidden_helpers.is_empty());
    assert_eq!(g.keyboard_focus, Some(1));
}

#[test]
fn a_closed_window_is_gone() {
    let mut g = gate(1);
    open(&mut g, 1, "a");
    open(&mut g, 2, "b");
    g.kill_focused();
    assert_eq!(g.closes, vec![2]);
    g.toplevel_destroyed(2);
    assert!(places(&g, 2).is_empty());
    assert_eq!(shown(&g, 2), None);
    assert_eq!(g.keyboard_focus, Some(1));
    assert_eq!(shown(&g, 1), Some((10, 40)));
}

#[test]
fn a_sent_window_is_in_the_other_workspace() {
    let mut g = gate(1);
    open(&mut g, 1, "a");
    open(&mut g, 2, "b");
    g.do_send_ws(3);
    assert_eq!(places(&g, 2), vec![(0, 3)]);
    assert_eq!(g.workspaces[0][3].focused(), Some(2));
    assert_eq!(shown(&g, 2), None);
    assert_eq!(g.keyboard_focus, Some(1));
    g.do_send_ws(9);
    assert_eq!(places(&g, 1), vec![(0, 0)]);
}

#[test]
fn a_view_shows_the_workspace_and_moves_nothing() {
    let mut g = gate(2);
    open(&mut g, 1, "a");
    g.do_view_ws(5);
    assert_eq!(g.effective_ws(0), 5);
    assert_eq!(g.effective_ws(1), 1);
    assert_eq!(places(&g, 1), vec![(0, 0)]);
    assert_eq!(shown(&g, 1), None);
    g.do_view_ws(5);
    assert_eq!(g.effective_ws(0), 5);
    g.do_view_ws(0);
    assert_eq!(shown(&g, 1), Some((10, 40)));
    assert_eq!(g.keyboard_focus, Some(1));
}

#[test]
fn synchronised_outputs_show_the_same_workspace() {
    let mut g = gate(3);
    g.do_toggle_sync();
    assert!(g.config.general.sync_workspaces);
    assert_eq!([g.effective_ws(0), g.effective_ws(1), g.effective_ws(2)], [0; 3]);
    g.do_view_ws(6);
    assert_eq!([g.effective_ws(0), g.effective_ws(1), g.effective_ws(2)], [6; 3]);
    g.do_toggle_sync();
    assert!(!g.config.general.sync_workspaces);
}

#[test]
fn the_focus_goes_round_the_outputs_and_back() {
    let mut g = gate(3);
    g.do_focus_monitor(1);
    assert_eq!(g.focused_output, 1);
    g.do_focus_monitor(-1);
    assert_eq!(g.focused_output, 0);
    g.do_focus_monitor(-1);
    assert_eq!(g.focused_output, 2);
    g.do_focus_monitor(1);
    assert_eq!(g.focused_output, 0);
    assert_eq!(step_output(&vec![2, 0, 1], 0, 1), Some(1));
    assert_eq!(step_output(&vec![2, 0, 1], 1, 1), Some(2));
    assert_eq!(step_output(&vec![2, 0, 1], 2, -1), Some(1));
}

#[test]
fn a_window_goes_to_another_output() {
    let mut g = gate(2);
    open(&mut g, 1, "a");
    g.do_send_monitor(1);
    assert_eq!(places(&g, 1), vec![(1, 1)]);
    assert_eq!(shown(&g, 1), Some((1930, 40)));
}

#[test]
fn asking_for_fullscreen_twice_ends_it() {
    let mut g = gate(1);
    open(&mut g, 1, "a");
    g.do_toggle_fullscreen();
    assert_eq!(g.outputs[0].fullscreen_window, Some(1));
    assert_eq!(shown(&g, 1), Some((0, 0)));
    g.do_toggle_fullscreen();
    assert_eq!(g.outputs[0].fullscreen_window, None);
    assert_eq!(shown(&g, 1), Some((10, 40)));
}

#[test]
fn shares_are_taken_in_single_precision() {
    let widths = [0, 1, 7, 99, 800, 1079, 1080, 1919, 1920, 3841, 65_535, 131_071, 131_072, 262_144];
    let shares = [0, 1, 33, 50, 66, 99, 100, 101, 133, 250, 999, 1001, 3333, 9973, 10_000];
    for w in widths {
        for pct in shares {
            let expected = (w as f32 * pct as f32 / 100.0) as i32;
            assert_eq!(ratio::share(w, pct), expected, "{pct} percent of {w}");
        }
    }
    for w in (1..262_144).step_by(997) {
        for pct in (1..10_000).step_by(131) {
            assert_eq!(ratio::share(w, pct), (w as f32 * pct as f32 / 100.0) as i32);
        }
    }
}

#[test]
fn a_scratchpad_may_be_larger_than_its_output() {
    let mut c = config();
    c.general.border_px = 0;
    c.general.gap_px = -4;
    c.scratchpads[0].width_pct = 150;
    c.scratchpads[0].height_pct = 101;
    let mut g = gate_from(c, 1);
    g.do_toggle_scratchpad("term");
    open(&mut g, 7, "x");
    let r = g.stage.space.iter().find(|p| p.window == 7).unwrap();
    let gap = g.scratchpads[0].workspace.gap_px;
    assert_eq!(gap, -4);
    assert_eq!((r.x, r.y), (-480 - gap, 30 - 5 - gap));
}

#[test]
fn without_an_output_commands_still_run() {
    let mut g = gate(0);
    assert!(matches!(
        g.handle_ipc_request(Request::Spawn { command: "ls".to_string() }, ""),
        Response::Done
    ));
    assert_eq!(g.spawns, vec!["ls".to_string()]);
    assert!(!needs_output(&Request::Spawn { command: String::new() }));
    assert!(needs_output(&Request::FocusNext));
    assert!(!needs_output(&Request::ViewWorkspace { index: 9 }));
    assert!(matches!(
        g.handle_ipc_request(Request::ViewWorkspace { index: 9 }, ""),
        Response::Done
    ));
    assert!(g.handle_keyboard(&vec![0x71], LOGO, true));
    assert_eq!(g.spawns.len(), 2);
    assert_eq!(g.find_bind(&vec![0x6a], LOGO, true), Some(0));
    assert!(g.keybinds[0].action.is_about_output());
    assert!(!Action::Quit.is_about_output());
}

#[test]
fn an_output_shows_one_scratchpad() {
    let mut g = gate(2);
    g.do_toggle_scratchpad("term");
    assert!(g.scratchpads[0].visible);
    open(&mut g, 1, "a");
    assert_eq!(pad_of(&g, 1), Some(0));
    assert!(places(&g, 1).is_empty());
    g.do_toggle_scratchpad("notes");
    let visible: Vec<usize> =
        g.scratchpads.iter().enumerate().filter(|(_, s)| s.visible).map(|(i, _)| i).collect();
    assert_eq!(visible, vec![1]);
    assert_eq!(g.active_scratchpad_for_focus(), Some(1));
}

#[test]
fn a_shown_scratchpad_is_hidden() {
    let mut g = gate(1);
    g.do_toggle_scratchpad("term");
    open(&mut g, 1, "a");
    assert!(shown(&g, 1).is_some());
    g.do_toggle_scratchpad("term");
    assert!(!g.scratchpads[0].visible);
    assert_eq!(shown(&g, 1), None);
    assert_eq!(g.active_scratchpad_for_focus(), None);
}

#[test]
fn a_scratchpad_moves_to_the_focused_output() {
    let mut g = gate(2);
    g.do_toggle_scratchpad("term");
    assert_eq!(g.scratchpads[0].output_idx, 0);
    g.do_focus_monitor(1);
    g.do_toggle_scratchpad("term");
    assert!(g.scratchpads[0].visible);
    assert_eq!(g.scratchpads[0].output_idx, 1);
}

#[test]
fn scratchpads_start_their_programs_and_take_their_windows() {
    let mut c = config();
    c.scratchpads[0].autostart = vec!["one".to_string(), "two".to_string()];
    c.scratchpads[1].captures = vec!["keep".to_string()];
    assert_eq!(find_capture(&c.scratchpads, "keep"), Some(1));
    let mut g = gate_from(c, 1);
    g.do_toggle_scratchpad("term");
    assert_eq!(g.spawns, vec!["one"]);
    open(&mut g, 1, "x");
    assert_eq!(pad_of(&g, 1), Some(0));
    assert_eq!(g.spawns, vec!["one", "two"]);
    open(&mut g, 2, "y");
    assert_eq!(pad_of(&g, 2), Some(0));
    assert_eq!(g.check_scratchpad_capture("keep"), Some(1));
    open(&mut g, 3, "keep");
    assert_eq!(pad_of(&g, 3), Some(1));
}

#[test]
fn one_window_is_active_and_has_the_keyboard() {
    let mut g = gate(2);
    for w in 1..5 {
        open(&mut g, w, "a");
        assert_eq!(g.stage.activated, vec![w]);
        assert_eq!(g.keyboard_focus, Some(w));
    }
    g.do_focus_prev();
    assert_eq!(g.stage.activated, vec![3]);
    assert_eq!(g.keyboard_focus, Some(3));
    assert_eq!(g.compute_focused_window(), Some(3));
    g.do_focus_monitor(1);
    assert!(g.stage.activated.is_empty());
    assert_eq!(g.keyboard_focus, None);
}

#[test]
fn borders_match_the_windows() {
    let mut g = gate(1);
    open(&mut g, 1, "a");
    open(&mut g, 2, "b");
    assert_eq!(g.stage.border_rects.len(), 2);
    assert_eq!(g.stage.border_rects[0].rect, Rect { x: 8, y: 38, w: 954, h: 1034 });
    assert!(!g.stage.border_rects[0].is_focused);
    assert!(g.stage.border_rects[1].is_focused);
}

#[test]
fn windows_of_hidden_workspaces_are_off_the_screen() {
    let mut g = gate(1);
    for w in 1..4 {
        open(&mut g, w, "a");
        g.do_send_ws(w as usize);
    }
    for w in 1..4 {
        assert_eq!(shown(&g, w), None);
    }
    g.do_view_ws(2);
    assert!(shown(&g, 2).is_some());
    assert_eq!(shown(&g, 1), None);
}

#[test]
fn a_send_with_motion_waits_for_the_window() {
    let mut c = config();
    c.animations = Animations { preset: AnimationPreset::Swoosh, duration_ms: 100 };
    let mut g = gate_from(c, 1);
    open(&mut g, 1, "a");
    g.do_send_ws(2);
    assert_eq!(places(&g, 1), vec![(0, 0)]);
    assert_eq!(g.pending_sends.len(), 1);
    let p = g.pending_sends[0];
    assert_eq!((p.window, p.output, p.workspace), (1, 0, 2));
    g.now_ns = 100_000_000;
    g.process_completed_animations();
    assert_eq!(places(&g, 1), vec![(0, 2)]);
    assert!(g.pending_sends.is_empty());
    assert_eq!(shown(&g, 1), None);
}

#[test]
fn a_send_outlives_its_window_and_does_nothing() {
    let mut c = config();
    c.animations = Animations { preset: AnimationPreset::Swoosh, duration_ms: 100 };
    let mut g = gate_from(c, 1);
    open(&mut g, 1, "a");
    g.do_send_ws(2);
    g.toplevel_destroyed(1);
    assert_eq!(g.pending_sends.len(), 1);
    assert!(places(&g, 1).is_empty());
    g.now_ns = 500_000_000;
    g.process_completed_animations();
    assert!(places(&g, 1).is_empty());
}

#[test]
fn a_walk_visits_every_output() {
    let order = vec![2, 0, 3, 1];
    let mut at = 3;
    let mut seen = Vec::new();
    for _ in 0..4 {
        seen.push(at);
        at = step_output(&order, at, 1).unwrap();
    }
    assert_eq!((seen, at), (vec![3, 1, 2, 0], 3));
    assert_eq!(step_output(&order, 9, 1), None);
}

#[test]
fn keys_do_what_they_are_bound_to() {
    let mut g = gate(1);
    open(&mut g, 1, "a");
    open(&mut g, 2, "b");
    assert!(g.handle_keyboard(&vec![0x6a], LOGO, true));
    assert_eq!(g.keyboard_focus, Some(1));
    assert!(!g.handle_keyboard(&vec![0x6a], NO_MODS, true));
    assert!(!g.handle_keyboard(&vec![0x62], LOGO, true));
    g.handle_keyboard(&vec![0x71], LOGO, true);
    assert_eq!(g.spawns, vec!["foot"]);
    assert_eq!(find_command(&g.config.commands, "terminal").as_deref(), Some("foot"));
    assert_eq!(find_command(&g.config.commands, "other"), None);
}

#[test]
fn a_locked_session_has_no_keys() {
    let mut g = gate(1);
    open(&mut g, 1, "a");
    open(&mut g, 2, "b");
    g.do_lock();
    g.lock_acquired();
    assert!(g.session_locked);
    assert!(!g.handle_keyboard(&vec![0x6a], LOGO, true));
    assert_eq!(g.surface_under_pointer(5, 5), PointerRoute::Lock { output: 0 });
    g.lock_released();
    assert!(!g.session_locked);
    assert!(g.handle_keyboard(&vec![0x6a], LOGO, true));
}

#[test]
fn a_locked_session_is_not_locked_again() {
    let mut g = gate(1);
    g.now_ns = 7;
    g.do_lock();
    assert_eq!(g.spawns, vec!["kara-veil"]);
    assert_eq!(g.lock_pending_since, Some(7));
    g.lock_acquired();
    g.now_ns = 9;
    g.do_lock();
    assert_eq!(g.spawns, vec!["kara-veil"]);
    assert!(g.session_locked);
}

#[test]
fn a_lock_that_never_comes_is_given_up() {
    let mut g = gate(1);
    g.now_ns = 7;
    g.do_lock();
    g.now_ns = 5_000_000_000;
    g.check_lock();
    assert_eq!(g.lock_pending_since, Some(7));
    g.now_ns = 5_000_001_000;
    g.check_lock();
    assert_eq!(g.lock_pending_since, None);
}

#[test]
fn actions_are_dispatched() {
    let mut g = gate(1);
    open(&mut g, 1, "a");
    open(&mut g, 2, "b");
    g.dispatch_action(Action::ZoomMaster);
    assert_eq!(g.workspaces[0][0].clients, vec![2, 1]);
    g.dispatch_action(Action::IncreaseMfact);
    assert_eq!(g.workspaces[0][0].mfact, ratio::adjust(ratio::HALF, true));
    g.dispatch_action(Action::DecreaseMfact);
    g.dispatch_action(Action::ToggleFloat);
    assert!(g.workspaces[0][0].is_floating(0));
    g.dispatch_action(Action::SpawnRaw("x y".to_string()));
    assert_eq!(g.spawns, vec!["x y"]);
    g.dispatch_action(Action::ShowKeybinds);
    assert!(g.keybind_overlay_visible);
    g.dispatch_action(Action::Reload);
    assert!(g.reload_requested);
    g.dispatch_action(Action::Quit);
    assert!(!g.running);
}

#[test]
fn the_pointer_stays_on_the_outputs() {
    let g = gate(2);
    let go = |x: i64, y: i64| clamp_to_outputs(&g.outputs, &g.output_order, (5, 5), (x, y));
    assert_eq!(go(100, 100), PointerTarget::Free);
    assert_eq!(go(1920, 100), PointerTarget::Cross { from: 0, to: 1, x: 1920 });
    assert_eq!(go(-5, 100), PointerTarget::Within { left: 0, right: 0, top: 0, bottom: 1079 });
    assert_eq!(go(100, 2000), PointerTarget::Within { left: 0, right: 1919, top: 0, bottom: 1079 });
    let lost = clamp_to_outputs(&g.outputs, &g.output_order, (-9, -9), (-8, -8));
    assert_eq!(lost, PointerTarget::At { x: 0, y: 0 });
    assert_eq!(g.output_for_point(2000, 5), 1);
    assert_eq!(g.output_for_point(10, 5), 0);
}

#[test]
fn a_lifted_finger_stops_the_axis() {
    assert_eq!(axis_step(false, false, true), AxisStep::Skip);
    assert_eq!(axis_step(true, true, true), AxisStep::Stop);
    assert_eq!(axis_step(true, true, false), AxisStep::Move);
    assert_eq!(axis_step(true, false, true), AxisStep::Move);
}

#[test]
fn questions_change_nothing() {
    let mut g = gate(2);
    open(&mut g, 1, "a");
    match g.handle_ipc_request(Request::GetWorkspaces, "") {
        Response::Workspaces { current, occupied } => {
            assert_eq!(current, 0);
            assert_eq!(occupied.len(), 9);
            assert!(occupied[0] && !occupied[1]);
        }
        _ => panic!("no workspaces"),
    }
    match g.handle_ipc_request(Request::GetOutputs, "") {
        Response::Outputs { outputs } => {
            assert_eq!(outputs.len(), 2);
            assert_eq!((outputs[1].name.as_str(), outputs[1].x), ("OUT-1", 1920));
        }
        _ => panic!("no outputs"),
    }
    match g.handle_ipc_request(Request::GetTheme, "") {
        Response::Theme { colors } => assert_eq!((colors.bg, colors.accent), (1, 5)),
        _ => panic!("no theme"),
    }
    match g.handle_ipc_request(Request::GetWindowGeometries, "") {
        Response::WindowGeometries { .. } => {}
        _ => panic!("no windows"),
    }
    assert_eq!(places(&g, 1), vec![(0, 0)]);
    assert_eq!(g.effective_ws(0), 0);
}

#[test]
fn requests_act() {
    let mut g = gate(1);
    open(&mut g, 1, "a");
    open(&mut g, 2, "b");
    assert!(matches!(g.handle_ipc_request(Request::FocusNext, ""), Response::Done));
    assert_eq!(g.keyboard_focus, Some(1));
    assert!(matches!(g.handle_ipc_request(Request::ViewWorkspace { index: 3 }, ""), Response::Done));
    assert_eq!(g.effective_ws(0), 3);
    assert!(matches!(
        g.handle_ipc_request(Request::Spawn { command: "ls".to_string() }, ""),
        Response::Done
    ));
    assert_eq!(g.spawns, vec!["ls"]);
}

#[test]
fn an_unknown_output_is_refused() {
    let mut g = gate(1);
    let r = g.handle_ipc_request(Request::ScreenshotOutput { name: "X".to_string() }, "/tmp/p");
    assert!(matches!(r, Response::Error { .. }));
    assert!(g.screenshot_queue.is_empty());
    let r = g.handle_ipc_request(Request::ScreenshotOutput { name: "OUT-0".to_string() }, "/tmp/p");
    assert!(matches!(r, Response::ScreenshotDone { path } if path == "/tmp/p"));
    assert_eq!(g.screenshot_queue.len(), 1);
    assert_eq!(g.screenshot_queue[0].output_idx, Some(0));
}

#[test]
fn names_of_screenshots_differ() {
    let a = screenshot_name(1_000_000_001, 1);
    let b = screenshot_name(1_000_000_001, 2);
    let c = screenshot_name(1_000_000_002, 1);
    assert!(a != b && a != c && b != c);
}

#[test]
fn programs_are_started_once() {
    let mut c = config();
    let entry = |command: &str, required: &[&str], forbidden: &[&str]| AutostartEntry {
        command: command.to_string(),
        app_id: Some(command.to_string()),
        monitor: None,
        workspace: Some(2),
        required_monitors: required.iter().map(|s| s.to_string()).collect(),
        forbidden_monitors: forbidden.iter().map(|s| s.to_string()).collect(),
    };
    c.autostart = vec![
        entry("always", &[], &[]),
        entry("with", &["OUT-0"], &[]),
        entry("missing", &["OTHER"], &[]),
        entry("without", &[], &["OUT-0"]),
    ];
    let mut g = gate_from(c, 1);
    g.run_autostart();
    assert_eq!(g.spawns, vec!["always", "with"]);
    g.run_autostart();
    assert_eq!(g.spawns.len(), 2);
}

#[test]
fn the_bar_knows_the_workspaces() {
    let mut g = gate(2);
    open(&mut g, 1, "a");
    g.do_view_ws(4);
    let c = g.bar_workspace_context(0);
    assert_eq!(c.current_ws, 4);
    assert!(c.occupied_workspaces[0]);
    assert!(!c.occupied_workspaces[4]);
    assert!(c.is_focused_monitor);
    assert_eq!(c.monitor_id, 0);
    assert!(!g.bar_workspace_context(1).is_focused_monitor);
}

#[test]
fn an_idle_pointer_is_known() {
    let mut g = gate(1);
    g.update_cursor_idle(true);
    assert!(!g.cursor_is_idle());
    g.now_ns = 3_600_000_000_000;
    assert!(g.cursor_is_idle());
    g.update_cursor_idle(true);
    assert!(!g.cursor_is_idle());
}

#[test]
fn settings_are_taken_over() {
    let mut g = gate(1);
    open(&mut g, 1, "a");
    let mut c = config();
    c.general.gap_px = 20;
    c.bar.position = BarPosition::Bottom;
    assert!(c.is_small());
    g.reload_config(c);
    assert_eq!(g.outputs[0].workarea, Rect { x: 0, y: 0, w: 1920, h: 1050 });
    assert_eq!(g.workspaces[0][0].gap_px, 20);
    assert_eq!(places(&g, 1), vec![(0, 0)]);
}

#[test]
fn a_window_asks_for_attention() {
    let mut g = gate(2);
    open(&mut g, 1, "a");
    open(&mut g, 2, "b");
    g.focus_window(1);
    assert_eq!(g.keyboard_focus, Some(1));
    assert_eq!(g.workspaces[0][0].last_focused_idx, Some(1));
    g.do_view_ws(3);
    g.focus_window(2);
    assert_eq!(g.keyboard_focus, None);
    g.request_activation(2);
    assert_eq!(g.effective_ws(0), 0);
    assert_eq!(g.keyboard_focus, Some(2));
}
