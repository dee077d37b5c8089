use pick_full_wm::actions::Action;
use pick_full_wm::binaries::{close_box, help_window, join_with, key_hint, monitor_box, tone_rgb, HelpWindow, KeyWindow, Tone};
use pick_full_wm::keymap::{get_key_strings, keysym_for_name, parse_string};
use pick_full_wm::settings::Settings;
use pick_full_wm::setup::ewmh::desktop_names;
use pick_full_wm::setup::input::{key_grabs, keycode_to_keysym, keysym_to_keycode, Grab, KeyboardMapping};
use pick_full_wm::setup::internal::{custom_startups, startups};
use pick_full_wm::setup::run_startups;
use pick_full_wm::state::{Monitor, MonitorInfo, State};

fn state_with_monitors(settings: Settings, n: usize) -> State {
    let mut monitors = Vec::new();
    for i in 0..n {
        let info = MonitorInfo { position: (1000 * i as i32, 0), size: (1000, 800) };
        monitors.push(Monitor::new(&settings, &info, (800, 768), (0, 32)));
    }
    State::init(settings, 1, monitors)
}

#[test]
fn parse_string_reads_key_names() {
    assert_eq!(parse_string("a"), Some(0x61));
    assert_eq!(parse_string("j"), Some(0x6a));
    assert_eq!(parse_string(";"), Some(0x3b));
    assert_eq!(parse_string("1"), Some(0x31));
    assert_eq!(parse_string("tab"), Some(0xff09));
    assert_eq!(parse_string("volu"), Some(0x1008ff13));
    assert_eq!(parse_string("brid"), Some(0x1008ff03));
    assert_eq!(parse_string("nonsense"), None);
    assert_eq!(parse_string(""), None);
}

#[test]
fn parse_string_ignores_case() {
    assert_eq!(parse_string("A"), Some(0x61));
    assert_eq!(parse_string("Tab"), parse_string("tab"));
    assert_eq!(parse_string("TAB"), Some(0xff09));
    assert_eq!(parse_string("VolU"), Some(0x1008ff13));
}

#[test]
fn keysym_for_name_takes_lower_case_names_only() {
    assert_eq!(keysym_for_name("tab"), Some(0xff09));
    assert_eq!(keysym_for_name("Tab"), None);
}

#[test]
fn default_settings() {
    let s = Settings::default();
    assert_eq!(s.applications.startups, vec!["polybar".to_string()]);
    assert_eq!(s.applications.excluded, vec!["polybar".to_string(), "rofi".to_string()]);
    assert_eq!(s.layout.main_size, vec!["80%x96%".to_string(), "80%x100%".to_string()]);
    assert_eq!(s.layout.top_left, vec!["0,4%".to_string(), "0,0".to_string()]);
    assert!(s.layout.conditional_full && s.layout.new_to_main && s.layout.swap_not_stack);
    assert!(s.layout.close_box && s.layout.monitor_box);
    assert_eq!(s.bindings.functions.len(), 8);
    assert_eq!(s.bindings.functions[3], ("d".to_string(), "rofi -show drun".to_string()));
    assert_eq!(s.bindings.swaps.len(), 8);
    assert_eq!(s.bindings.close_main, "q");
    assert_eq!(s.bindings.fullscreen, "f");
    assert_eq!(s.bindings.help, "h");
    assert!(s.bindings.key_hints);
    assert_eq!(s.bindings.workspaces, vec!["1", "2", "3", "4"]);
    assert_eq!(s.bindings.monitor, "tab");
}

#[test]
fn key_strings_of_the_defaults() {
    let keys = get_key_strings(&Settings::default());
    let expected = [
        "b", "brid", "briu", "d", "mute", "t", "vold", "volu", "j", "k", "l", ";", "u", "i", "o", "p", "q", "f",
        "h", "1", "2", "3", "4", "tab",
    ];
    assert_eq!(keys, expected.iter().map(|k| k.to_string()).collect::<Vec<_>>());
}

fn small_mapping() -> KeyboardMapping {
    // Key codes 10, 11, 12 with two keysyms each.
    KeyboardMapping {
        min_keycode: 10,
        max_keycode: 12,
        keysyms_per_keycode: 2,
        keysyms: vec![0x6a, 0x4a, 0x31, 0x21, 0, 0xff09],
    }
}

#[test]
fn keysym_to_keycode_finds_the_first_key_code() {
    let m = small_mapping();
    assert_eq!(keysym_to_keycode(&m, 0x6a), Some(10));
    assert_eq!(keysym_to_keycode(&m, 0x4a), Some(10));
    assert_eq!(keysym_to_keycode(&m, 0x21), Some(11));
    assert_eq!(keysym_to_keycode(&m, 0xff09), Some(12));
    assert_eq!(keysym_to_keycode(&m, 0x6b), None);
    let twice = KeyboardMapping { min_keycode: 8, max_keycode: 9, keysyms_per_keycode: 1, keysyms: vec![7, 7] };
    assert_eq!(keysym_to_keycode(&twice, 7), Some(8));
}

#[test]
fn keycode_to_keysym_takes_the_first_keysym() {
    let m = small_mapping();
    assert_eq!(keycode_to_keysym(&m, 10), Some(0x6a));
    assert_eq!(keycode_to_keysym(&m, 11), Some(0x31));
    assert_eq!(keycode_to_keysym(&m, 12), None);
    assert_eq!(keycode_to_keysym(&m, 200), None);
}

#[test]
fn key_grabs_shift_the_workspace_and_monitor_keys() {
    let mut s = Settings::default();
    s.bindings.functions = vec![("j".to_string(), "x".to_string()), ("nokey".to_string(), "y".to_string())];
    s.bindings.swaps = vec![];
    s.bindings.workspaces = vec!["1".to_string()];
    s.bindings.monitor = "tab".to_string();
    let (grabs, unknown) = key_grabs(&s, &small_mapping());
    assert_eq!(
        grabs,
        vec![
            Grab { keycode: 10, shift: false },
            Grab { keycode: 11, shift: false },
            Grab { keycode: 11, shift: true },
            Grab { keycode: 12, shift: false },
            Grab { keycode: 12, shift: true },
        ]
    );
    assert_eq!(unknown, vec!["nokey".to_string()]);
}

#[test]
fn desktop_names_are_zero_terminated_utf8() {
    let names = vec!["1".to_string(), "zwei".to_string(), "é".to_string()];
    assert_eq!(desktop_names(&names), vec![b'1', 0, b'z', b'w', b'e', b'i', 0, 0xc3, 0xa9, 0]);
    assert_eq!(desktop_names(&vec![]), Vec::<u8>::new());
}

#[test]
fn helper_commands() {
    assert_eq!(help_window("/usr/bin"), "/usr/bin/help_window");
    assert_eq!(close_box("/usr/bin"), "/usr/bin/close_box");
    assert_eq!(monitor_box("/opt/x"), "/opt/x/monitor_box");
    assert_eq!(key_hint("/usr/bin", "j"), "/usr/bin/key_hint \"j\"");
}

#[test]
fn key_window_shows_its_key_in_upper_case() {
    assert_eq!(KeyWindow::new("j").key, "J");
    assert_eq!(KeyWindow::new(";").key, ";");
    assert_eq!(KeyWindow::new("tab").key, "TAB");
}

#[test]
fn help_window_keeps_the_settings() {
    let h = HelpWindow::new(Settings::default());
    assert_eq!(h.settings.bindings.help, "h");
}

#[test]
fn startups_start_close_and_monitor_boxes() {
    let one = state_with_monitors(Settings::default(), 1);
    let mut acts = Vec::new();
    startups(&one, &mut acts);
    assert_eq!(acts, vec![Action::SpawnCloseBox]);

    let two = state_with_monitors(Settings::default(), 2);
    let mut acts = Vec::new();
    startups(&two, &mut acts);
    assert_eq!(
        acts,
        vec![Action::SpawnCloseBox, Action::SpawnCloseBox, Action::SpawnMonitorBox, Action::SpawnMonitorBox]
    );

    let mut s = Settings::default();
    s.layout.close_box = false;
    let none = state_with_monitors(s, 2);
    let mut acts = Vec::new();
    startups(&none, &mut acts);
    assert!(acts.is_empty());
}

#[test]
fn startup_programs_run_in_order() {
    let mut s = Settings::default();
    s.applications.startups = vec!["polybar".to_string(), "nm-applet".to_string()];
    let mut acts = vec![Action::SpawnHelp];
    custom_startups(&s, &mut acts);
    assert_eq!(
        acts,
        vec![Action::SpawnHelp, Action::Run("polybar".to_string()), Action::Run("nm-applet".to_string())]
    );
    let mut acts2 = Vec::new();
    run_startups(&s, &mut acts2);
    assert_eq!(acts2, vec![Action::Run("polybar".to_string()), Action::Run("nm-applet".to_string())]);
}

fn texts(row: &[(String, Tone)]) -> Vec<&str> {
    row.iter().map(|p| p.0.as_str()).collect()
}

#[test]
fn help_window_rows_list_the_bindings() {
    let rows = HelpWindow::new(Settings::default()).rows();
    assert_eq!(rows.len(), 22);
    assert_eq!(rows[0], vec![("Pick Full WM - Help Menu".to_string(), Tone::Header)]);
    assert!(rows[1].is_empty());
    assert_eq!(texts(&rows[2]), vec!["[", "SUPER", "] + [", "H", "]: open this help menu"]);
    assert_eq!(rows[2][1].1, Tone::Modifier);
    assert_eq!(rows[2][3].1, Tone::Key);
    assert_eq!(texts(&rows[3]), vec!["[", "LEFT CLICK", "]: make side window main"]);
    assert_eq!(texts(&rows[4]), vec!["[", "RIGHT CLICK", "]: kill side window"]);
    assert_eq!(texts(&rows[7])[3], "J  K  L  ;  U  I  O  P");
    assert_eq!(texts(&rows[8])[3], "1  2  3  4");
    assert_eq!(
        texts(&rows[9]),
        vec!["[", "SUPER", "] + [", "SHIFT", "] + [", "1  2  3  4", "]: move main to workspace"]
    );
    assert_eq!(texts(&rows[10])[3], "TAB");
    assert_eq!(texts(&rows[12]), vec!["[", "SUPER", "] + [", "B", "]: \"firefox-esr\""]);
    assert!(rows[20].is_empty());
    assert_eq!(rows[21][0].1, Tone::Footer);
}

#[test]
fn joining_and_colours() {
    let v = vec!["a".to_string(), "b".to_string(), "c".to_string()];
    assert_eq!(join_with(&v, "  "), "a  b  c");
    assert_eq!(join_with(&vec![], ","), "");
    assert_eq!(join_with(&vec!["x".to_string()], ","), "x");
    assert_eq!(tone_rgb(Tone::Standard), (200, 200, 200));
    assert_eq!(tone_rgb(Tone::Modifier), (255, 255, 0));
    assert_eq!(tone_rgb(Tone::Key), (0, 255, 255));
}
