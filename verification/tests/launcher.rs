use kara::summon::desktop::{
    application_dirs, discover, parse_desktop_file, sorted_order, strip_field_codes, DesktopEntry,
};
use kara::summon::filter::{filter, filter_lowercase, is_command, match_entry, Match};
use kara::summon::launcher::{comment_fits, short_comment, Key, Launcher, Row};

fn entry(name: &str, command: &str) -> DesktopEntry {
    DesktopEntry {
        name: name.to_string(),
        command: command.to_string(),
        comment: None,
        terminal: false,
    }
}

fn some_entries() -> Vec<DesktopEntry> {
    vec![
        entry("Image Viewer", "imv"),
        entry("Firefox", "firefox"),
        entry("Terminal", "foot"),
        entry("Office", "soffice --firefox-like"),
        entry("Wi-Fi", "nm-applet"),
    ]
}

#[test]
fn field_codes_go() {
    assert_eq!(strip_field_codes("firefox %u"), "firefox");
    assert_eq!(strip_field_codes("  gimp %F --x %%  "), "gimp  --x");
    assert_eq!(strip_field_codes("a%"), "a");
    for s in ["  gimp %F --x %%  ", "%%u u", "a%", " % x %"] {
        assert_eq!(strip_field_codes(&strip_field_codes(s)), strip_field_codes(s));
    }
    assert!(!strip_field_codes("%u%f %i x%c").contains('%'));
}

#[test]
fn desktop_files_are_read() {
    let text = "# comment\nName=Outside\n[Desktop Entry]\nType=Application\nName = Foot\n\
                Exec=foot %u\nComment=A terminal\nTerminal=TRUE\n[Desktop Action new]\nName=Other\n";
    let e = parse_desktop_file(text).unwrap();
    assert_eq!(e.name, "Foot");
    assert_eq!(e.command, "foot");
    assert_eq!(e.comment.as_deref(), Some("A terminal"));
    assert!(e.terminal);
}

#[test]
fn other_desktop_files_are_skipped() {
    let base = "[Desktop Entry]\nType=Application\nName=A\nExec=a\n";
    assert!(parse_desktop_file(base).is_some());
    assert!(parse_desktop_file(&format!("{base}NoDisplay=true\n")).is_none());
    assert!(parse_desktop_file(&format!("{base}Hidden=True\n")).is_none());
    assert!(parse_desktop_file(&format!("{base}NoDisplay=false\n")).is_some());
    assert!(parse_desktop_file("[Desktop Entry]\nType=Link\nName=A\nExec=a\n").is_none());
    assert!(parse_desktop_file("[Desktop Entry]\nName=A\nExec=a\n").is_none());
    assert!(parse_desktop_file("[Desktop Entry]\nType=Application\nExec=a\n").is_none());
    assert!(parse_desktop_file("[Desktop Entry]\nType=Application\nName=A\n").is_none());
    assert!(parse_desktop_file("").is_none());
}

#[test]
fn applications_are_searched_for_in_order() {
    assert_eq!(
        application_dirs(&Some("/home/me/.local/share".to_string()), &None),
        vec![
            "/home/me/.local/share/applications",
            "/usr/local/share/applications",
            "/usr/share/applications",
        ]
    );
    assert_eq!(
        application_dirs(&None, &Some("/a::/b/:".to_string())),
        vec!["/a/applications", "/b/applications"]
    );
    assert!(application_dirs(&None, &Some(String::new())).is_empty());
}

#[test]
fn each_name_is_listed_once_and_in_order() {
    let found = vec![
        entry("vim", "vim"),
        entry("Foot", "foot --first"),
        entry("Abc", "abc"),
        entry("Foot", "foot --second"),
        entry("foot", "foot --third"),
        entry("\u{c4}pfel", "a"),
    ];
    let list = discover(&found);
    let commands: Vec<&str> = list.iter().map(|e| e.command.as_str()).collect();
    assert_eq!(commands, vec!["abc", "foot --first", "foot --third", "vim", "a"]);
    let mut names: Vec<String> = list.iter().map(|e| e.name.to_lowercase()).collect();
    let sorted = names.clone();
    names.sort();
    assert_eq!(names, sorted);
}

#[test]
fn sorting_keeps_equal_keys_in_order() {
    let keys: Vec<String> =
        ["b", "a", "b", "", "ab", "a", "\u{ffff}", "\u{10000}"].iter().map(|s| s.to_string()).collect();
    let order = sorted_order(&keys);
    let mut expected: Vec<usize> = (0..keys.len()).collect();
    expected.sort_by(|x, y| keys[*x].cmp(&keys[*y]));
    assert_eq!(order, expected);
}

#[test]
fn an_empty_query_finds_everything() {
    assert_eq!(filter(&some_entries(), ""), vec![0, 1, 2, 3, 4]);
    assert!(filter(&Vec::new(), "").is_empty());
}

#[test]
fn better_matches_come_first() {
    let es = some_entries();
    assert_eq!(filter(&es, "fi"), vec![1, 3, 4]);
    assert_eq!(filter(&es, "FIRE"), vec![1, 3]);
    assert_eq!(filter(&es, "i"), vec![0, 1, 2, 3, 4]);
    assert_eq!(filter(&es, "foot"), vec![2]);
    assert!(filter(&es, "nothing").is_empty());
}

#[test]
fn a_longer_query_finds_no_more() {
    let es = some_entries();
    for (short, long) in [("i", "fi"), ("f", "FIRE"), ("", "o"), ("oo", "foot")] {
        let all = filter(&es, short);
        assert!(filter(&es, long).iter().all(|i| all.contains(i)));
    }
    assert_eq!(filter(&es, "FiRe"), filter(&es, "fIrE"));
}

#[test]
fn the_case_of_a_query_does_not_matter() {
    let es = vec![entry("Stra\u{df}e \u{c9}t\u{e9}", "x"), entry("\u{3a3}\u{3a3} Y", "\u{130}z")];
    for q in ["\u{c9}T", "\u{3a3}", "\u{130}", "Y", "", "STRASSE", "nothing"] {
        assert_eq!(filter(&es, q), filter(&es, &q.to_lowercase()));
    }
}

#[test]
fn a_lowercase_text_is_its_own_lowercase_form() {
    assert_eq!("".to_lowercase(), "");
    for c in '\0'..=char::MAX {
        for s in [c.to_string(), format!("a{c}"), format!("{c}a")] {
            let lower = s.to_lowercase();
            assert_eq!(lower.to_lowercase(), lower);
        }
    }
}

#[test]
fn a_query_and_a_name_differ_in_case_only() {
    let es = vec![entry("\u{c9}diteur", "x"), entry("STRASSE", "y")];
    assert_eq!(filter(&es, "\u{e9}d"), vec![0]);
    assert_eq!(filter(&es, "strasse"), vec![1]);
}

#[test]
fn matches_are_ranked() {
    assert_eq!(match_entry("firefox", "ff", "fire"), Match::Prefix);
    assert_eq!(match_entry("firefox", "ff", "fox"), Match::Name);
    assert_eq!(match_entry("firefox", "ff -x", "-x"), Match::Command);
    assert_eq!(match_entry("firefox", "ff", "z"), Match::Nothing);
    let names = vec!["xa".to_string(), "ax".to_string(), "b".to_string()];
    let commands = vec![String::new(), String::new(), "a".to_string()];
    assert_eq!(filter_lowercase(&names, &commands, "a"), vec![1, 0, 2]);
}

#[test]
fn commands_hold_a_slash_or_a_space() {
    assert!(is_command("/usr/bin/foot"));
    assert!(is_command("ls -l"));
    assert!(!is_command("foot"));
    assert!(!is_command(""));
}

fn typed(l: &mut Launcher, s: &str) {
    for c in s.chars() {
        assert!(l.press_key(Key::Other, &Some(c.to_string())));
    }
}

#[test]
fn typing_searches_and_return_starts() {
    let mut l = Launcher::new(some_entries());
    assert_eq!((l.width, l.height), (600, 420));
    typed(&mut l, "fi");
    assert_eq!(l.query, "fi");
    assert_eq!(l.filtered, vec![1, 3, 4]);
    assert!(l.press_key(Key::Down, &None));
    assert_eq!(l.selected_command().as_deref(), Some("soffice --firefox-like"));
    assert!(!l.press_key(Key::Return, &None));
    assert!(l.exit);
    assert_eq!(l.launch_command.as_deref(), Some("soffice --firefox-like"));
}

#[test]
fn escape_starts_nothing() {
    let mut l = Launcher::new(some_entries());
    typed(&mut l, "fi");
    assert!(!l.press_key(Key::Escape, &None));
    assert!(l.exit);
    assert!(l.launch_command.is_none());
}

#[test]
fn taking_back_what_was_typed_finds_the_same() {
    let mut l = Launcher::new(some_entries());
    typed(&mut l, "fi");
    let before = l.filtered.clone();
    typed(&mut l, "\u{e9}");
    assert!(l.filtered.is_empty());
    l.press_key(Key::Backspace, &None);
    assert_eq!(l.query, "fi");
    assert_eq!(l.filtered, before);
    for _ in 0..5 {
        assert!(l.press_key(Key::Backspace, &None));
    }
    assert_eq!(l.query, "");
    assert_eq!(l.filtered.len(), 5);
}

#[test]
fn control_codes_are_not_typed() {
    let mut l = Launcher::new(some_entries());
    assert!(!l.press_key(Key::Other, &Some("\u{7f}".to_string())));
    assert!(!l.press_key(Key::Other, &Some(String::new())));
    assert!(!l.press_key(Key::Other, &None));
    assert_eq!(l.query, "");
}

#[test]
fn what_is_not_found_is_offered_as_a_command() {
    let mut l = Launcher::new(some_entries());
    assert!(l.fallback_row().is_none());
    assert_eq!(Launcher::new(Vec::new()).selected_command(), None);
    typed(&mut l, "xyz");
    assert!(l.shows_fallback());
    let row = l.fallback_row().unwrap();
    assert_eq!(row.text, "Run: xyz");
    assert_eq!(row.y, 76);
    assert!(row.selected);
    assert_eq!(l.selected_command().as_deref(), Some("xyz"));
}

#[test]
fn a_command_is_offered_below_the_results() {
    let mut l = Launcher::new(vec![entry("ls -l", "x"), entry("b", "ls -l -a")]);
    typed(&mut l, "ls -l");
    assert_eq!(l.filtered, vec![0, 1]);
    let row = l.fallback_row().unwrap();
    assert_eq!(row.y, 76 + 2 * 36);
    assert!(!row.selected);
    l.press_key(Key::Tab, &None);
    l.press_key(Key::Down, &None);
    l.press_key(Key::Down, &None);
    assert_eq!(l.selected, 2);
    assert!(l.fallback_row().unwrap().selected);
    assert_eq!(l.selected_command().as_deref(), Some("ls -l"));
}

fn many(n: usize) -> Launcher {
    Launcher::new((0..n).map(|i| entry(&format!("app{i}"), "x")).collect())
}

#[test]
fn the_selected_result_stays_shown() {
    let mut l = many(25);
    for k in 0..40 {
        let rows = l.rows();
        assert_eq!(rows.len(), 10);
        let marked: Vec<&Row> = rows.iter().filter(|r| r.selected).collect();
        assert_eq!(marked.len(), 1);
        assert_eq!(marked[0].entry, l.selected);
        assert_eq!(l.selected, k.min(24));
        l.press_key(Key::Down, &None);
    }
    assert_eq!(l.scroll_offset, 15);
    for _ in 0..12 {
        l.press_key(Key::Up, &None);
    }
    assert_eq!((l.selected, l.scroll_offset), (12, 12));
    assert_eq!(l.rows()[0], Row { entry: 12, y: 76, selected: true });
    assert_eq!(l.rows()[9], Row { entry: 21, y: 76 + 9 * 36, selected: false });
}

#[test]
fn down_and_up_selects_the_same() {
    let mut l = many(25);
    for _ in 0..24 {
        let at = l.selected;
        l.press_key(Key::Down, &None);
        l.press_key(Key::Up, &None);
        assert_eq!(l.selected, at);
        l.press_key(Key::Down, &None);
    }
    let mut l = many(3);
    l.press_key(Key::Up, &None);
    assert_eq!(l.selected, 0);
}

#[test]
fn sizes_are_taken_and_the_first_one_draws() {
    let mut l = many(1);
    assert!(l.configure(0, 300));
    assert_eq!((l.width, l.height), (600, 420));
    assert!(!l.configure(500, 300));
    assert_eq!((l.width, l.height), (500, 300));
}

#[test]
fn long_comments_are_cut() {
    assert_eq!(short_comment("short"), "short");
    let forty = "x".repeat(40);
    assert_eq!(short_comment(&forty), forty);
    let long = "y".repeat(41);
    assert_eq!(short_comment(&long), format!("{}...", "y".repeat(37)));
    assert!(comment_fits(&long));
    assert!(!comment_fits(&"\u{e9}".repeat(30)));
    assert!(comment_fits(&"\u{e9}".repeat(20)));
}
