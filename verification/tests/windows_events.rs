use pick_full_wm::actions::{Action, Allow};
use pick_full_wm::calc::update_current_monitor;
use pick_full_wm::events::client::{classify, message, message_allowed, ClientAtoms, ClientMessage};
use pick_full_wm::events::input::{button, key};
use pick_full_wm::events::window::{destroy, map_request};
use pick_full_wm::safety::{window_exists, World};
use pick_full_wm::settings::Settings;
use pick_full_wm::state::{monitors_for, sort_monitor_infos, Monitor, MonitorInfo, State, Window};
use pick_full_wm::windows::audits::full;
use pick_full_wm::windows::checks::{is_close_box, is_excepted_window, is_help_window, is_popup};
use pick_full_wm::windows::gets::{key_hint_window, monitor_index};
use pick_full_wm::windows::tiling::{main_center_action, remove_side_window, send_side_space};
use pick_full_wm::windows::workspaces::switch;

const J: u32 = 0x6a;

fn state_with(settings: Settings, n: usize) -> State {
    let mut monitors = Vec::new();
    for i in 0..n {
        let info = MonitorInfo { position: (1000 * i as i32, 0), size: (1000, 800) };
        monitors.push(Monitor::new(&settings, &info, (800, 768), (0, 32)));
    }
    State::init(settings, 1, monitors)
}

fn world(live: &[Window]) -> World {
    World { live: live.to_vec() }
}

fn tiled(state: &mut State, w: &World, windows: &[Window]) -> Vec<Action> {
    let mut acts = Vec::new();
    for &x in windows {
        assert!(state.well_formed());
        map_request(state, w, &mut acts, x, &Some(format!("app {}", x)), false);
    }
    acts
}

fn sides(state: &State) -> Vec<Option<Window>> {
    state.workspace().side_windows.clone()
}

fn hint_keys(state: &State) -> Vec<String> {
    state.workspace().key_hint_windows.iter().map(|p| p.0.clone()).collect()
}

#[test]
fn new_windows_take_the_main_area() {
    let mut st = state_with(Settings::default(), 1);
    let w = world(&[10, 11, 12]);
    let acts = tiled(&mut st, &w, &[10]);
    assert_eq!(acts[0], Action::MapWindow(10));
    assert_eq!(st.workspace().main_window, Some(10));
    assert!(sides(&st).is_empty());
    tiled(&mut st, &w, &[11, 12]);
    assert_eq!(st.workspace().main_window, Some(12));
    assert_eq!(sides(&st), vec![Some(10), Some(11)]);
    assert!(st.well_formed());
}

#[test]
fn new_windows_go_to_the_side_where_the_layout_says_so() {
    let mut s = Settings::default();
    s.layout.new_to_main = false;
    let mut st = state_with(s, 1);
    let w = world(&[10, 11, 12]);
    tiled(&mut st, &w, &[10, 11, 12]);
    assert_eq!(st.workspace().main_window, Some(10));
    assert_eq!(sides(&st), vec![Some(11), Some(12)]);
}

#[test]
fn side_windows_get_slots_and_key_hints() {
    let mut st = state_with(Settings::default(), 1);
    let w = world(&[10, 11, 12]);
    let acts = tiled(&mut st, &w, &[10, 11, 12]);
    assert!(acts.contains(&Action::SideSlot { window: 10, x: 800, top: 32, width: 200, span: 768, index: 0, count: 2 }));
    assert!(acts.contains(&Action::SideSlot { window: 11, x: 800, top: 32, width: 200, span: 768, index: 1, count: 2 }));
    assert!(acts.contains(&Action::SpawnKeyHint("j".to_string())));
    assert!(acts.contains(&Action::SpawnKeyHint("k".to_string())));
    assert_eq!(hint_keys(&st), vec!["j".to_string(), "k".to_string()]);
}

#[test]
fn key_hint_window_takes_its_key() {
    let mut st = state_with(Settings::default(), 1);
    let w = world(&[10, 11, 12, 30]);
    tiled(&mut st, &w, &[10, 11, 12]);
    let mut acts = Vec::new();
    map_request(&mut st, &w, &mut acts, 30, &Some("key_hint j".to_string()), false);
    assert_eq!(acts[0], Action::MapWindow(30));
    let j = st.workspace().key_hint_windows.iter().find(|p| p.0 == "j").unwrap();
    assert_eq!(j.1, 30);
    assert_eq!(st.workspace().main_window, Some(12));
}

#[test]
fn help_excepted_popup_and_gone_windows() {
    let mut st = state_with(Settings::default(), 1);
    let w = world(&[10, 40, 41, 42]);
    tiled(&mut st, &w, &[10]);

    let mut acts = Vec::new();
    map_request(&mut st, &w, &mut acts, 40, &Some("pfwm help".to_string()), false);
    assert_eq!(acts, vec![Action::MapWindow(40), Action::SetActive(40)]);
    assert_eq!(st.workspace().help_window, Some(40));

    let mut acts = Vec::new();
    map_request(&mut st, &w, &mut acts, 41, &Some("polybar".to_string()), false);
    assert_eq!(acts, vec![Action::MapWindow(41)]);
    assert_eq!(st.workspace().main_window, Some(10));

    let mut acts = Vec::new();
    map_request(&mut st, &w, &mut acts, 42, &Some("dialog".to_string()), true);
    assert_eq!(
        acts,
        vec![Action::MapWindow(42), Action::Center { window: 42, x: 0, y: 32, width: 1000, height: 800 }]
    );
    assert_eq!(st.workspace().floatings, vec![42]);

    let mut acts = Vec::new();
    map_request(&mut st, &w, &mut acts, 99, &None, false);
    assert_eq!(acts, vec![Action::AllowEvents(Allow::AsyncBoth)]);
    assert!(st.well_formed());
}

#[test]
fn left_click_swaps_a_side_window_in() {
    let mut st = state_with(Settings::default(), 1);
    let w = world(&[10, 11, 12]);
    tiled(&mut st, &w, &[10, 11, 12]);
    let mut acts = Vec::new();
    button(&mut st, &w, &mut acts, 10, 10, 1, &Some("app".to_string()));
    assert_eq!(st.workspace().main_window, Some(10));
    assert_eq!(sides(&st), vec![Some(11), Some(12)]);
    assert_eq!(acts.last(), Some(&Action::AllowEvents(Allow::AsyncPointer)));

    let mut acts = Vec::new();
    button(&mut st, &w, &mut acts, 10, 10, 1, &Some("app".to_string()));
    assert_eq!(acts, vec![Action::AllowEvents(Allow::ReplayPointer)]);
}

#[test]
fn right_click_closes_a_side_window_but_not_the_main_one() {
    let mut st = state_with(Settings::default(), 1);
    let w = world(&[10, 11, 12]);
    tiled(&mut st, &w, &[10, 11, 12]);
    let mut acts = Vec::new();
    button(&mut st, &w, &mut acts, 11, 11, 3, &Some("app".to_string()));
    assert_eq!(acts[0], Action::Destroy(11));
    assert_eq!(acts.last(), Some(&Action::AllowEvents(Allow::AsyncPointer)));
    let mut acts = Vec::new();
    button(&mut st, &w, &mut acts, 12, 12, 3, &Some("app".to_string()));
    assert_eq!(acts, vec![Action::AllowEvents(Allow::ReplayPointer)]);
    let mut acts = Vec::new();
    button(&mut st, &w, &mut acts, 77, 11, 1, &Some("app".to_string()));
    assert_eq!(acts, vec![Action::AllowEvents(Allow::ReplayPointer)]);
    let mut acts = Vec::new();
    button(&mut st, &w, &mut acts, 11, 11, 2, &Some("app".to_string()));
    assert!(acts.is_empty());
}

#[test]
fn swap_key_brings_the_first_side_window_in() {
    let mut st = state_with(Settings::default(), 1);
    let w = world(&[10, 11, 12]);
    tiled(&mut st, &w, &[10, 11, 12]);
    let mut acts = Vec::new();
    key(&mut st, &w, &mut acts, Some(J), true);
    assert_eq!(st.workspace().main_window, Some(10));
    assert_eq!(sides(&st), vec![Some(11), Some(12)]);
}

#[test]
fn keys_without_super_or_binding_do_nothing() {
    let mut st = state_with(Settings::default(), 1);
    let w = world(&[10, 11, 12]);
    tiled(&mut st, &w, &[10, 11, 12]);
    let mut acts = Vec::new();
    key(&mut st, &w, &mut acts, Some(J), false);
    key(&mut st, &w, &mut acts, Some(0x7a), true);
    key(&mut st, &w, &mut acts, None, true);
    assert!(acts.is_empty());
    assert_eq!(st.workspace().main_window, Some(12));
}

#[test]
fn close_help_and_function_keys() {
    let mut st = state_with(Settings::default(), 1);
    let w = world(&[10]);
    tiled(&mut st, &w, &[10]);
    let mut acts = Vec::new();
    key(&mut st, &w, &mut acts, Some(0x71), true);
    assert_eq!(acts, vec![Action::Destroy(10), Action::AllowEvents(Allow::AsyncPointer)]);
    let mut acts = Vec::new();
    key(&mut st, &w, &mut acts, Some(0x68), true);
    assert_eq!(acts, vec![Action::SpawnHelp]);
    let mut acts = Vec::new();
    key(&mut st, &w, &mut acts, Some(0x64), true);
    assert_eq!(acts, vec![Action::Run("rofi -show drun".to_string())]);
}

#[test]
fn fullscreen_key_twice_gives_the_main_area_back() {
    let mut st = state_with(Settings::default(), 1);
    let w = world(&[10, 11]);
    tiled(&mut st, &w, &[10, 11]);
    let mut acts = Vec::new();
    key(&mut st, &w, &mut acts, Some(0x66), true);
    assert!(st.workspace().fullscreen);
    assert_eq!(acts[0], Action::Configure { window: 11, x: 0, y: 0, width: 1000, height: 800 });
    let mut acts = Vec::new();
    key(&mut st, &w, &mut acts, Some(0x66), true);
    assert!(!st.workspace().fullscreen);
    assert_eq!(acts[0], Action::Configure { window: 11, x: 0, y: 32, width: 800, height: 768 });
}

#[test]
fn main_window_alone_takes_the_full_width() {
    let mut st = state_with(Settings::default(), 1);
    let w = world(&[10]);
    let acts = tiled(&mut st, &w, &[10]);
    assert!(acts.contains(&Action::Configure { window: 10, x: 0, y: 32, width: 1000, height: 768 }));
    let mut s = Settings::default();
    s.layout.conditional_full = false;
    let mut st = state_with(s, 1);
    let acts = tiled(&mut st, &w, &[10]);
    assert!(acts.contains(&Action::Configure { window: 10, x: 0, y: 32, width: 800, height: 768 }));
}

#[test]
fn workspace_key_switches_and_hides_the_other_windows() {
    let mut st = state_with(Settings::default(), 1);
    let w = world(&[10, 11]);
    tiled(&mut st, &w, &[10, 11]);
    let mut acts = Vec::new();
    key(&mut st, &w, &mut acts, Some(0x32), true);
    assert_eq!(st.current_workspace, 1);
    assert!(acts.contains(&Action::UnmapWindow(10)));
    assert!(acts.contains(&Action::UnmapWindow(11)));
    assert!(acts.contains(&Action::SetCurrentDesktop(1)));
    assert!(st.workspace().main_window.is_none());
    let mut acts = Vec::new();
    key(&mut st, &w, &mut acts, Some(0x31), true);
    assert_eq!(st.current_workspace, 0);
    assert!(acts.contains(&Action::MapWindow(10)));
    assert!(acts.contains(&Action::MapWindow(11)));
    assert_eq!(st.workspace().main_window, Some(11));
}

#[test]
fn monitor_key_moves_to_the_next_monitor() {
    let mut st = state_with(Settings::default(), 2);
    let w = world(&[]);
    let mut acts = Vec::new();
    key(&mut st, &w, &mut acts, Some(0xff09), true);
    assert_eq!(st.current_monitor, 1);
    assert_eq!(acts[0], Action::WarpToCenter { x: 1000, y: 32, width: 1000, height: 800 });
    let mut acts = Vec::new();
    key(&mut st, &w, &mut acts, Some(0xff09), true);
    assert_eq!(st.current_monitor, 0);
}

#[test]
fn pointer_picks_the_current_monitor() {
    let mut st = state_with(Settings::default(), 2);
    let w = world(&[]);
    let mut acts = Vec::new();
    update_current_monitor(&mut st, &w, &mut acts, 1500, 100);
    assert_eq!(st.current_monitor, 1);
    update_current_monitor(&mut st, &w, &mut acts, 5000, 100);
    assert_eq!(st.current_monitor, 1);
    update_current_monitor(&mut st, &w, &mut acts, 10, 40);
    assert_eq!(st.current_monitor, 0);
}

#[test]
fn destroyed_main_window_is_replaced_by_the_first_side_window() {
    let mut st = state_with(Settings::default(), 1);
    let w = world(&[10, 11, 12]);
    tiled(&mut st, &w, &[10, 11, 12]);
    let gone = world(&[10, 11]);
    let mut acts = Vec::new();
    destroy(&mut st, &gone, &mut acts, 12);
    assert_eq!(st.workspace().main_window, Some(10));
    assert_eq!(sides(&st), vec![Some(11)]);
    assert_eq!(hint_keys(&st), vec!["j".to_string()]);
    let gone = world(&[10]);
    let mut acts = Vec::new();
    destroy(&mut st, &gone, &mut acts, 11);
    assert_eq!(st.workspace().main_window, Some(10));
    assert!(sides(&st).is_empty());
    assert!(hint_keys(&st).is_empty());
    assert!(st.well_formed());
}

#[test]
fn destroyed_floating_and_help_windows_leave_the_tiling_alone() {
    let mut st = state_with(Settings::default(), 1);
    let w = world(&[10, 40, 42]);
    tiled(&mut st, &w, &[10]);
    let mut acts = Vec::new();
    map_request(&mut st, &w, &mut acts, 42, &Some("dialog".to_string()), true);
    map_request(&mut st, &w, &mut acts, 40, &Some("pfwm help".to_string()), false);
    let mut acts = Vec::new();
    destroy(&mut st, &world(&[10, 40]), &mut acts, 42);
    assert!(st.workspace().floatings.is_empty());
    assert_eq!(st.workspace().help_window, Some(40));
    destroy(&mut st, &world(&[10]), &mut acts, 40);
    assert_eq!(st.workspace().help_window, None);
    assert_eq!(st.workspace().main_window, Some(10));
}

#[test]
fn client_messages() {
    let atoms = ClientAtoms { current_desktop: 100, active_window: 101, close_window: 102, wm_desktop: 103 };
    assert_eq!(classify(&atoms, 100, 5, 2), ClientMessage::CurrentDesktop(2));
    assert_eq!(classify(&atoms, 101, 5, 2), ClientMessage::ActiveWindow(5));
    assert_eq!(classify(&atoms, 102, 5, 2), ClientMessage::CloseWindow(5));
    assert_eq!(classify(&atoms, 103, 5, 2), ClientMessage::WmDesktop(5, 2));
    assert_eq!(classify(&atoms, 7, 5, 2), ClientMessage::Other(7));

    let mut st = state_with(Settings::default(), 1);
    let w = world(&[10, 11]);
    tiled(&mut st, &w, &[10, 11]);
    assert!(message_allowed(&st, ClientMessage::CurrentDesktop(3)));
    assert!(!message_allowed(&st, ClientMessage::CurrentDesktop(4)));
    assert!(!message_allowed(&st, ClientMessage::WmDesktop(10, 9)));
    assert!(message_allowed(&st, ClientMessage::CloseWindow(10)));

    let mut acts = Vec::new();
    message(&mut st, &w, &mut acts, ClientMessage::CloseWindow(10));
    assert_eq!(acts, vec![Action::Destroy(10), Action::AllowEvents(Allow::AsyncPointer)]);
    let mut acts = Vec::new();
    message(&mut st, &w, &mut acts, ClientMessage::Other(7));
    assert!(acts.is_empty());
    let mut acts = Vec::new();
    message(&mut st, &w, &mut acts, ClientMessage::CurrentDesktop(2));
    assert_eq!(st.current_workspace, 2);
    assert!(acts.contains(&Action::SetCurrentDesktop(2)));
    let mut acts = Vec::new();
    message(&mut st, &w, &mut acts, ClientMessage::CurrentDesktop(2));
    assert!(acts.is_empty());
}

#[test]
fn moving_the_main_window_to_another_desktop() {
    let mut st = state_with(Settings::default(), 1);
    let w = world(&[10, 11]);
    tiled(&mut st, &w, &[10, 11]);
    let mut acts = Vec::new();
    message(&mut st, &w, &mut acts, ClientMessage::WmDesktop(11, 2));
    assert_eq!(st.current_workspace, 0);
    assert_eq!(st.workspace().main_window, Some(10));
    assert!(sides(&st).is_empty());
    assert_eq!(st.monitors[0].workspaces[2].main_window, Some(11));
    assert!(st.well_formed());
}

#[test]
fn activation_swaps_in_place_and_back() {
    let mut st = state_with(Settings::default(), 1);
    let w = world(&[10, 11, 12]);
    tiled(&mut st, &w, &[10, 11, 12]);
    let mut acts = Vec::new();
    message(&mut st, &w, &mut acts, ClientMessage::ActiveWindow(11));
    assert_eq!(st.workspace().main_window, Some(11));
    assert_eq!(sides(&st), vec![Some(10), Some(12)]);
    message(&mut st, &w, &mut acts, ClientMessage::ActiveWindow(12));
    assert_eq!(st.workspace().main_window, Some(12));
    assert_eq!(sides(&st), vec![Some(10), Some(11)]);
}

#[test]
fn activation_stacks_where_the_layout_says_so() {
    let mut s = Settings::default();
    s.layout.swap_not_stack = false;
    let mut st = state_with(s, 1);
    let w = world(&[10, 11, 12]);
    tiled(&mut st, &w, &[10, 11, 12]);
    let mut acts = Vec::new();
    message(&mut st, &w, &mut acts, ClientMessage::ActiveWindow(10));
    assert_eq!(st.workspace().main_window, Some(10));
    assert_eq!(sides(&st), vec![Some(11), Some(12)]);
}

#[test]
fn removing_and_sending_back_restores_the_side_list() {
    let mut st = state_with(Settings::default(), 1);
    let w = world(&[10, 11, 12, 13]);
    tiled(&mut st, &w, &[10, 11, 12, 13]);
    let before = sides(&st);
    let at = remove_side_window(&mut st, 11);
    assert_eq!(at, Some(1));
    assert_eq!(sides(&st), vec![Some(10), Some(12)]);
    let mut acts = Vec::new();
    send_side_space(&mut st, &w, &mut acts, 11, at);
    assert_eq!(sides(&st), before);
    assert_eq!(remove_side_window(&mut st, 99), None);
    assert_eq!(sides(&st), before);
}

#[test]
fn settling_twice_is_settling_once() {
    let mut st = state_with(Settings::default(), 1);
    let w = world(&[10, 11, 12, 13]);
    tiled(&mut st, &w, &[10, 11, 12, 13]);
    let now = world(&[10, 12]);
    let mut acts = Vec::new();
    full(&mut st, &now, &mut acts);
    assert_eq!(st.workspace().main_window, Some(10));
    assert_eq!(sides(&st), vec![Some(12)]);
    assert_eq!(acts[0], Action::SideSlot { window: 10, x: 800, top: 32, width: 200, span: 768, index: 0, count: 2 });
    assert_eq!(acts[1], Action::SideSlot { window: 12, x: 800, top: 32, width: 200, span: 768, index: 1, count: 2 });
    let n = acts.len();
    assert_eq!(acts[n - 2], Action::Configure { window: 10, x: 0, y: 32, width: 800, height: 768 });
    assert_eq!(acts[n - 1], Action::SetActive(10));
    let main = st.workspace().main_window;
    let side = sides(&st);
    let mut acts = Vec::new();
    full(&mut st, &now, &mut acts);
    assert_eq!(st.workspace().main_window, main);
    assert_eq!(sides(&st), side);
    assert!(acts.is_empty());
}

#[test]
fn switching_shows_the_current_workspace_everywhere() {
    let mut st = state_with(Settings::default(), 2);
    let w = world(&[10, 20]);
    tiled(&mut st, &w, &[10]);
    st.current_workspace = 1;
    tiled(&mut st, &w, &[20]);
    st.current_workspace = 0;
    let mut acts = Vec::new();
    switch(&mut st, &w, &mut acts);
    assert!(acts.contains(&Action::MapWindow(10)));
    assert!(acts.contains(&Action::UnmapWindow(20)));
    assert!(acts.contains(&Action::SetCurrentDesktop(0)));
    assert!(acts.contains(&Action::SetActive(0)));
}

#[test]
fn monitors_are_ordered_left_to_right() {
    let a = MonitorInfo { position: (1920, 0), size: (1280, 1024) };
    let b = MonitorInfo { position: (0, 0), size: (1920, 1080) };
    let c = MonitorInfo { position: (1920, 5), size: (800, 600) };
    assert_eq!(sort_monitor_infos(&vec![a, b, c]), vec![b, a, c]);
    assert_eq!(sort_monitor_infos(&vec![]), vec![]);
}

#[test]
fn monitor_index_finds_the_monitor_of_a_window() {
    let mut st = state_with(Settings::default(), 2);
    let w = world(&[10, 20]);
    tiled(&mut st, &w, &[10]);
    st.current_monitor = 1;
    tiled(&mut st, &w, &[20]);
    assert_eq!(monitor_index(&st, 10), 0);
    assert_eq!(monitor_index(&st, 20), 1);
    assert_eq!(monitor_index(&st, 99), 0);
}

#[test]
fn window_names_and_kinds() {
    let s = Settings::default();
    assert!(is_help_window(&Some("pfwm help".to_string())));
    assert!(!is_help_window(&None));
    assert!(is_close_box(&Some("pfwm close 1".to_string())));
    assert!(is_excepted_window(&s, &Some("polybar-top".to_string())));
    assert!(is_excepted_window(&s, &Some("key_hint j".to_string())));
    assert!(!is_excepted_window(&s, &Some("firefox".to_string())));
    assert!(!is_excepted_window(&s, &None));
    assert_eq!(key_hint_window(&Some("key_hint j".to_string())), Some("j".to_string()));
    assert_eq!(key_hint_window(&Some("key_hint a b".to_string())), None);
    assert_eq!(key_hint_window(&Some("other j".to_string())), None);
    assert!(is_popup(true, 0, &vec![], &vec![5]));
    assert!(is_popup(false, 1, &vec![], &vec![5]));
    assert!(is_popup(false, 0, &vec![3, 5], &vec![5]));
    assert!(!is_popup(false, 0, &vec![3], &vec![5]));
    assert!(window_exists(&world(&[3]), 3));
    assert!(!window_exists(&world(&[0]), 0));
}

#[test]
fn a_popup_mapped_again_floats_twice_and_goes_at_once() {
    let mut st = state_with(Settings::default(), 1);
    let w = world(&[10, 42]);
    tiled(&mut st, &w, &[10]);
    let mut acts = Vec::new();
    map_request(&mut st, &w, &mut acts, 42, &Some("dialog".to_string()), true);
    map_request(&mut st, &w, &mut acts, 42, &Some("dialog".to_string()), true);
    assert_eq!(st.workspace().floatings, vec![42, 42]);
    assert!(st.well_formed());
    let mut acts = Vec::new();
    destroy(&mut st, &world(&[10]), &mut acts, 42);
    assert!(st.workspace().floatings.is_empty());
    assert!(st.well_formed());
}

#[test]
fn left_click_swap_centres_the_pointer_and_closes_nothing() {
    let mut st = state_with(Settings::default(), 1);
    let w = world(&[10, 11, 12]);
    tiled(&mut st, &w, &[10, 11, 12]);
    let mut acts = Vec::new();
    button(&mut st, &w, &mut acts, 10, 10, 1, &Some("app".to_string()));
    let n = acts.len();
    assert_eq!(acts[0], Action::Configure { window: 10, x: 0, y: 32, width: 800, height: 768 });
    assert_eq!(acts[n - 2], Action::WarpToCenter { x: 0, y: 32, width: 800, height: 768 });
    assert_eq!(acts[n - 1], Action::AllowEvents(Allow::AsyncPointer));
    assert!(acts.contains(&Action::SetActive(10)));
    assert!(!acts.iter().any(|a| matches!(a, Action::Destroy(_))));
}

#[test]
fn swap_key_focuses_and_centres_on_the_new_main_window() {
    let mut st = state_with(Settings::default(), 1);
    let w = world(&[10, 11, 12]);
    tiled(&mut st, &w, &[10, 11, 12]);
    let mut acts = Vec::new();
    key(&mut st, &w, &mut acts, Some(J), true);
    assert_eq!(acts[0], Action::Configure { window: 10, x: 0, y: 32, width: 800, height: 768 });
    assert_eq!(acts[1], Action::SetActive(10));
    assert_eq!(acts.last(), Some(&Action::WarpToCenter { x: 0, y: 32, width: 800, height: 768 }));
    assert_eq!(main_center_action(&st), Action::WarpToCenter { x: 0, y: 32, width: 800, height: 768 });
    assert!(!acts.iter().any(|a| matches!(a, Action::Destroy(_))));
}

#[test]
fn key_hints_move_raise_and_spawn() {
    let mut st = state_with(Settings::default(), 1);
    let w = world(&[10, 11, 12, 30, 31]);
    tiled(&mut st, &w, &[10, 11, 12]);
    let mut acts = Vec::new();
    map_request(&mut st, &w, &mut acts, 30, &Some("key_hint j".to_string()), false);
    map_request(&mut st, &w, &mut acts, 31, &Some("key_hint k".to_string()), false);
    let gone = world(&[10, 12, 30, 31]);
    let mut acts = Vec::new();
    destroy(&mut st, &gone, &mut acts, 11);
    assert_eq!(sides(&st), vec![Some(10)]);
    assert!(acts.contains(&Action::HintSlot { window: 30, x: 940, top: 32, span: 768, index: 0, count: 1 }));
    assert!(acts.contains(&Action::Raise(30)));
    assert!(acts.contains(&Action::Destroy(31)));
    assert_eq!(hint_keys(&st), vec!["j".to_string()]);
}

#[test]
fn closing_the_last_window_clears_the_active_window() {
    let mut st = state_with(Settings::default(), 1);
    let w = world(&[10]);
    tiled(&mut st, &w, &[10]);
    let mut acts = Vec::new();
    destroy(&mut st, &world(&[]), &mut acts, 10);
    assert_eq!(st.workspace().main_window, None);
    assert_eq!(acts.last(), Some(&Action::SetActive(0)));
}

#[test]
fn entering_another_monitor_focuses_its_main_window() {
    let mut st = state_with(Settings::default(), 2);
    let w = world(&[20]);
    st.current_monitor = 1;
    tiled(&mut st, &w, &[20]);
    st.current_monitor = 0;
    let mut acts = Vec::new();
    update_current_monitor(&mut st, &w, &mut acts, 1500, 100);
    assert_eq!(st.current_monitor, 1);
    assert_eq!(acts, vec![Action::SetActive(20)]);
    let mut acts = Vec::new();
    update_current_monitor(&mut st, &w, &mut acts, 1600, 100);
    assert!(acts.is_empty());
}

#[test]
fn function_keys_out_of_order_are_not_well_formed() {
    let mut st = state_with(Settings::default(), 1);
    assert!(st.well_formed());
    st.settings.bindings.functions = vec![
        ("z".to_string(), "true".to_string()),
        ("a".to_string(), "true".to_string()),
    ];
    assert!(!st.well_formed());
    st.settings.bindings.functions = vec![
        ("a".to_string(), "true".to_string()),
        ("a".to_string(), "false".to_string()),
    ];
    assert!(!st.well_formed());
    st.settings.bindings.functions = vec![
        ("a".to_string(), "true".to_string()),
        ("b".to_string(), "false".to_string()),
    ];
    assert!(st.well_formed());
}

#[test]
fn gone_floating_and_help_windows_refocus_the_main_window() {
    let mut st = state_with(Settings::default(), 1);
    let w = world(&[10, 40, 42, 43]);
    tiled(&mut st, &w, &[10]);
    let mut acts = Vec::new();
    map_request(&mut st, &w, &mut acts, 42, &Some("dialog".to_string()), true);
    map_request(&mut st, &w, &mut acts, 43, &Some("dialog".to_string()), true);
    map_request(&mut st, &w, &mut acts, 40, &Some("pfwm help".to_string()), false);
    let mut acts = Vec::new();
    destroy(&mut st, &world(&[10, 40, 43]), &mut acts, 42);
    assert_eq!(acts, vec![Action::SetActive(10), Action::Raise(43)]);
    let mut acts = Vec::new();
    destroy(&mut st, &world(&[10, 43]), &mut acts, 40);
    assert_eq!(acts, vec![Action::SetActive(10)]);
}

#[test]
fn focusing_drops_a_gone_floating_window_and_lays_out_again() {
    let mut st = state_with(Settings::default(), 2);
    let w = world(&[20, 42]);
    st.current_monitor = 1;
    tiled(&mut st, &w, &[20]);
    let mut acts = Vec::new();
    map_request(&mut st, &w, &mut acts, 42, &Some("dialog".to_string()), true);
    st.current_monitor = 0;
    let now = world(&[20]);
    let mut acts = Vec::new();
    update_current_monitor(&mut st, &now, &mut acts, 1500, 100);
    assert_eq!(st.current_monitor, 1);
    assert_eq!(
        acts,
        vec![
            Action::SetActive(20),
            Action::Configure { window: 20, x: 1000, y: 32, width: 1000, height: 768 },
            Action::SetActive(20),
        ]
    );
    assert!(st.workspace().floatings.is_empty());
}

#[test]
fn moving_a_window_away_hides_it_and_republishes_the_desktop() {
    let mut st = state_with(Settings::default(), 1);
    let w = world(&[10, 11]);
    tiled(&mut st, &w, &[10, 11]);
    let mut acts = Vec::new();
    message(&mut st, &w, &mut acts, ClientMessage::WmDesktop(11, 2));
    assert!(acts.contains(&Action::UnmapWindow(11)));
    assert!(acts.contains(&Action::SetCurrentDesktop(0)));
    assert!(acts.contains(&Action::MapWindow(10)));
    assert_eq!(st.monitors[0].workspaces[2].main_window, Some(11));
}

#[test]
fn the_current_workspace_key_changes_nothing() {
    let mut st = state_with(Settings::default(), 1);
    let w = world(&[10, 11]);
    tiled(&mut st, &w, &[10, 11]);
    let before_main = st.workspace().main_window;
    let before_sides = sides(&st);
    let mut acts = Vec::new();
    key(&mut st, &w, &mut acts, Some(0x31), true);
    assert!(acts.is_empty());
    assert_eq!(st.current_workspace, 0);
    assert_eq!(st.workspace().main_window, before_main);
    assert_eq!(sides(&st), before_sides);
}

#[test]
fn monitors_are_built_from_their_layouts() {
    let s = Settings::default();
    let infos = vec![
        MonitorInfo { position: (0, 0), size: (1000, 800) },
        MonitorInfo { position: (1000, 0), size: (1200, 900) },
    ];
    let layouts = vec![((800, 768), (0, 32)), ((900, 868), (0, 32))];
    let ms = monitors_for(&s, &infos, &layouts).unwrap();
    assert_eq!(ms.len(), 2);
    assert_eq!(ms[1].position, (1000, 32));
    assert_eq!(ms[1].sizes.side, (300, 868));
    assert!(monitors_for(&s, &infos, &vec![((800, 768), (0, 32))]).is_none());
    let far = vec![MonitorInfo { position: (i32::MAX, 0), size: (1000, 800) }];
    assert!(monitors_for(&s, &far, &vec![((800, 768), (10, 0))]).is_none());
}
