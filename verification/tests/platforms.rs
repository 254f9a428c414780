use hermes_desktop::events::{
    focus_change, hides_on_close, is_browser_window, lays_out_on_resize, menu_action, stays_alive,
    version_line, FocusChange,
};
use hermes_desktop::frame::{
    can_cascade, can_center, is_usable, place_window, Monitor, Placement,
};
use hermes_desktop::platform::{
    bounds_units, enabled, hook_delay, safe_render, x11_from_env, Units,
};

#[test]
fn backends_are_named_in_any_case_and_with_blanks() {
    assert!(x11_from_env(Some(" X11 "), true));
    assert!(!x11_from_env(Some("broadway,\tWayland,x11"), false));
    assert!(x11_from_env(Some(""), false));
    assert!(!x11_from_env(Some(",,"), true));
    assert!(x11_from_env(Some("*,x11"), true));
}

#[test]
fn the_strip_is_used_off_macos_or_on_demand() {
    assert!(enabled(false, false));
    assert!(enabled(false, true));
    assert!(!enabled(true, false));
    assert!(enabled(true, true));
}

#[test]
fn physical_units_are_for_linux_on_x11() {
    assert_eq!(bounds_units(true, true), Units::Physical);
    assert_eq!(bounds_units(true, false), Units::Logical);
    assert_eq!(bounds_units(false, true), Units::Logical);
    assert_eq!(bounds_units(false, false), Units::Logical);
}

#[test]
fn safe_rendering_leaves_user_values_alone() {
    let both = ["WEBKIT_DISABLE_DMABUF_RENDERER", "WEBKIT_DISABLE_COMPOSITING_MODE"];
    assert_eq!(safe_render(Some("1"), false, false), both);
    assert_eq!(safe_render(Some("1"), true, false), both[1..]);
    assert_eq!(safe_render(Some("1"), false, true), both[..1]);
    assert!(safe_render(Some("1"), true, true).is_empty());
    assert!(safe_render(Some("true"), false, false).is_empty());
    assert!(safe_render(None, false, false).is_empty());
}

#[test]
fn hook_delays_are_whole_seconds() {
    assert_eq!(hook_delay(Some("5")), Some(5));
    assert_eq!(hook_delay(Some("5s")), None);
    assert_eq!(hook_delay(None), None);
}

fn monitor(width: u32, height: u32) -> Monitor {
    Monitor { x: -1920, y: 100, width, height, window_width: 1280, window_height: 830 }
}

#[test]
fn a_saved_frame_wins_where_it_is_large_enough() {
    let last = Some((1, 2, 300, 400));
    assert_eq!(
        place_window(Some([-5, 6, 200, 200]), true, last, None, None),
        Placement::Frame { x: -5, y: 6, width: 200, height: 200 }
    );
    assert_eq!(
        place_window(Some([-5, 6, 199, 800]), true, last, None, None),
        Placement::Frame { x: 1, y: 2, width: 300, height: 400 }
    );
    assert_eq!(
        place_window(Some([-5, 6, 800, 199]), false, last, None, Some((10, 20))),
        Placement::At { x: 38, y: 48 }
    );
    assert_eq!(
        place_window(Some([i64::from(i32::MAX) + 1, 0, 0x1_0000_00c8, 200]), true, None, None, None),
        Placement::Frame { x: i32::MIN, y: 0, width: 200, height: 200 }
    );
}

#[test]
fn the_first_window_stands_in_the_middle() {
    assert_eq!(
        place_window(None, true, None, Some(monitor(1920, 1080)), None),
        Placement::At { x: -1600, y: 225 }
    );
    assert_eq!(
        place_window(None, true, None, Some(monitor(1281, 800)), None),
        Placement::At { x: -1920, y: 100 }
    );
    assert_eq!(place_window(None, true, None, None, Some((1, 1))), Placement::Center);
}

#[test]
fn a_huge_gap_is_read_as_a_signed_number() {
    let m = Monitor { x: 0, y: 0, width: u32::MAX, height: 0x8000_0000, window_width: 0, window_height: 0 };
    assert_eq!(
        place_window(None, true, None, Some(m), None),
        Placement::At { x: 0, y: -0x4000_0000 }
    );
}

#[test]
fn further_windows_cascade() {
    assert_eq!(
        place_window(None, false, Some((0, 0, 500, 500)), Some(monitor(1920, 1080)), Some((-3, 7))),
        Placement::At { x: 25, y: 35 }
    );
    assert_eq!(place_window(None, false, None, Some(monitor(1920, 1080)), None), Placement::Leave);
}

#[test]
fn every_menu_entry_has_its_action() {
    for (id, action) in [
        ("preferences", "Preferences"),
        ("whats_new", "WhatsNew"),
        ("toggle_strip", "ToggleStrip"),
        ("new_window", "NewWindow"),
        ("new_tab", "NewTab"),
        ("paste", "Paste"),
        ("reload", "EvalActive(\"location.reload();\")"),
        ("reload_all", "EvalAll(\"location.reload();\")"),
        ("copy_version", "CopyVersion"),
        ("quit", "Quit"),
        ("check_updates", "CheckUpdates"),
        ("reveal_logs", "RevealLogs"),
        ("zoom_in", "Zoom(10)"),
        ("zoom_out", "Zoom(-10)"),
        ("zoom_reset", "ZoomReset"),
        ("find", "EvalActive(\"window.__hermesFindToggle && window.__hermesFindToggle();\")"),
        ("find_next", "EvalActive(\"window.__hermesFindNext && window.__hermesFindNext(true);\")"),
        ("find_prev", "EvalActive(\"window.__hermesFindNext && window.__hermesFindNext(false);\")"),
        ("open_browser", "OpenBrowser"),
        ("show_main", "ShowMain"),
        ("show_tab_bar", "Ignore"),
        ("unknown", "Ignore"),
        ("", "Ignore"),
    ] {
        assert_eq!(format!("{:?}", menu_action(id, false)), action);
    }
    assert_eq!(format!("{:?}", menu_action("show_tab_bar", true)), "ShowTabBar");
}

#[test]
fn the_version_line_names_version_and_system() {
    assert_eq!(version_line("0.6.3", "linux"), "Hermes WebUI Desktop v0.6.3 (linux)");
}

#[test]
fn the_last_window_hides_on_macos() {
    assert!(hides_on_close("main-1", 1, true));
    assert!(hides_on_close("main-1", 0, true));
    assert!(!hides_on_close("main-1", 2, true));
    assert!(!hides_on_close("main-1", 1, false));
    assert!(!hides_on_close("prefs", 1, true));
}

#[test]
fn browser_windows_follow_size_and_focus() {
    assert!(is_browser_window("main-1"));
    assert!(!is_browser_window("Main-1"));
    assert!(!is_browser_window("prefs"));
    assert!(lays_out_on_resize("main-2", true));
    assert!(!lays_out_on_resize("main-2", false));
    assert!(!lays_out_on_resize("splash", true));
    assert_eq!(focus_change("main-2", true, true), FocusChange::ActiveTab(false));
    assert_eq!(focus_change("main-2", false, true), FocusChange::ActiveTab(true));
    assert_eq!(focus_change("main-2", false, false), FocusChange::Page(true));
    assert_eq!(focus_change("splash", false, true), FocusChange::Ignore);
}

#[test]
fn only_an_exit_with_a_code_goes_through() {
    assert!(stays_alive(None));
    assert!(!stays_alive(Some(0)));
}

#[test]
fn places_out_of_range_are_told() {
    assert!(is_usable([0, 0, 200, 200]));
    assert!(!is_usable([0, 0, 199, 200]));
    assert!(!is_usable([0, 0, 200, 199]));
    assert!(can_cascade((i32::MAX - 28, i32::MIN)));
    assert!(!can_cascade((i32::MAX - 27, 0)));
    assert!(!can_cascade((0, i32::MAX)));
    assert!(can_center(monitor(1920, 1080)));
    let far = Monitor { x: i32::MAX, ..monitor(1920, 1080) };
    assert!(!can_center(far));
    let edge = Monitor { x: i32::MAX - 320, ..monitor(1920, 1080) };
    assert!(can_center(edge));
}
