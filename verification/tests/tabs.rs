use hermes_desktop::address::parse_address;
use hermes_desktop::effect::Effect;
use hermes_desktop::layout::{content_top, layout, strip_hidden, toggle_strip, STRIP_HEIGHT};
use hermes_desktop::newtab::{
    add_tab, begin_tab, cookie_source, finish_tab, fresh_tab, profile_from_cookies, Cookie, Jar,
    NewTab, Prefs,
};
use hermes_desktop::profiles::{capture_tab_profile, recapture_profiles, recapture_tab_profile};
use hermes_desktop::state::{AppState, TabEntry};
use hermes_desktop::tabs::{
    all_tab_webviews, backgrounded_script, close_tab, close_tab_by_label, cycle_tab,
    focused_active_webview, reorder_tab, select_tab, set_active_tab_backgrounded, window_raw_title,
    WindowHandle,
};
use hermes_desktop::titles::{
    clean_name, rename_tab, set_tab_busy, set_tab_dot_profile, set_tab_title,
};
use hermes_desktop::windows::{
    claim_window, emit_tabs, forget_window, refresh_all_titles, register_window, repaint_windows,
    snapshot, window_labels, Context,
};

fn cookie(name: &str, value: &str) -> Cookie {
    Cookie { name: name.to_string(), value: value.to_string(), domain: None }
}

fn steps(effects: Vec<Effect>) -> Vec<String> {
    effects.iter().map(|e| format!("{:?}", e)).collect()
}

/// Opens a window with `n` tabs; returns its label.
fn open(state: &mut AppState, n: usize) -> String {
    let plan = claim_window(state);
    register_window(state, &plan.label, "direct");
    for _ in 0..n {
        add(state, &plan.label);
    }
    plan.label
}

fn add(state: &mut AppState, window: &str) -> Vec<String> {
    let spec = fresh_tab(parse_address("http://localhost:8787/").unwrap(), Vec::new());
    let plan = begin_tab(state, window, &spec, true, true).unwrap();
    steps(finish_tab(state, window, plan))
}

fn labels(state: &AppState, window: &str) -> Vec<String> {
    state.window(window).unwrap().tabs.iter().map(|t| t.label.clone()).collect()
}

fn active(state: &AppState, window: &str) -> String {
    state.window(window).unwrap().active_label().unwrap()
}

fn tab<'a>(state: &'a AppState, window: &str, i: usize) -> &'a TabEntry {
    &state.window(window).unwrap().tabs[i]
}

/// The visible tabs after some steps, and those that were not told to be in the background.
fn screen(before: &[&str], effects: &[Effect]) -> (Vec<String>, Vec<String>) {
    let mut visible: Vec<String> = before.iter().map(|s| s.to_string()).collect();
    let mut front = visible.clone();
    for e in effects {
        match e {
            Effect::HideTab(t) => visible.retain(|x| x != t),
            Effect::ShowTab(t) => {
                visible.retain(|x| x != t);
                visible.push(t.clone());
            }
            Effect::Background(t, true) => front.retain(|x| x != t),
            Effect::Background(t, false) => {
                front.retain(|x| x != t);
                front.push(t.clone());
            }
            Effect::CloseTab(t) => {
                visible.retain(|x| x != t);
                front.retain(|x| x != t);
            }
            _ => {}
        }
    }
    (visible, front)
}

fn alone(tab: &str) -> (Vec<String>, Vec<String>) {
    (vec![tab.to_string()], vec![tab.to_string()])
}

#[test]
fn windows_are_named_and_counted() {
    let mut state = AppState::new();
    let plan = claim_window(&mut state);
    assert_eq!(plan.label, "main-1");
    assert_eq!(plan.strip_label, "strip-1");
    assert_eq!(plan.init_script, "window.__HERMES_WIN = 'main-1';");
    assert_eq!(state.window_count(), 1);
    assert!(state.window("main-1").is_none());
    register_window(&mut state, "main-1", "ssh");
    assert_eq!(state.window_mode("main-1").as_deref(), Some("ssh"));
    assert_eq!(state.window_mode("main-2"), None);
    let w = state.window("main-1").unwrap();
    assert_eq!((w.tabs.len(), w.active, w.tab_seq, w.strip_hidden), (0, 0, 0, false));
    forget_window(&mut state, "main-1");
    assert_eq!(claim_window(&mut state).label, "main-2");
}

#[test]
fn a_new_tab_comes_last_and_to_the_front() {
    let mut state = AppState::new();
    let w = open(&mut state, 0);
    assert_eq!(
        add(&mut state, &w),
        [
            "FocusTab(\"tab-1-1\")",
            "EmitTabs(\"main-1\")",
            "RefreshTitle(\"main-1\", \"\")",
            "Persist",
        ]
    );
    assert_eq!(
        add(&mut state, &w),
        [
            "HideTab(\"tab-1-1\")",
            "Background(\"tab-1-1\", true)",
            "FocusTab(\"tab-1-2\")",
            "EmitTabs(\"main-1\")",
            "RefreshTitle(\"main-1\", \"\")",
            "Persist",
        ]
    );
    assert_eq!(labels(&state, &w), ["tab-1-1", "tab-1-2"]);
    assert_eq!(active(&state, &w), "tab-1-2");
    let t = tab(&state, &w, 1);
    assert_eq!(t.title, "New Tab");
    assert_eq!(t.partition, "tab-1-2");
    assert_eq!((t.attention, t.busy), (false, false));
    assert!(t.profile.is_none() && t.dot_profile.is_none() && t.custom_title.is_none());
}

#[test]
fn labels_are_not_used_again() {
    let mut state = AppState::new();
    let w = open(&mut state, 2);
    close_tab(&mut state, &w, "tab-1-2", true, false);
    add(&mut state, &w);
    assert_eq!(labels(&state, &w), ["tab-1-1", "tab-1-3"]);
    let w2 = open(&mut state, 1);
    assert_eq!(labels(&state, &w2), ["tab-2-1"]);
}

#[test]
fn a_plan_for_a_fresh_tab() {
    let mut state = AppState::new();
    let w = open(&mut state, 0);
    let target = parse_address("http://Host.example/x").unwrap();
    let spec = fresh_tab(target, vec![cookie("a", "1"), cookie("hermes_profile", "work")]);
    let plan = begin_tab(&mut state, &w, &spec, true, true).unwrap();
    assert_eq!(plan.label, "tab-1-1");
    assert_eq!(plan.partition, "tab-1-1");
    assert_eq!(plan.jar, Jar::Fresh);
    assert_eq!(plan.profile.as_deref(), Some("work"));
    assert!(plan.seeded);
    assert_eq!(plan.first_url, "about:blank");
    assert_eq!(plan.allowed_host.as_deref(), Some("host.example"));
    let effects = finish_tab(&mut state, &w, plan);
    assert!(!format!("{:?}", effects).contains("WatchRestore"));
    assert_eq!(tab(&state, &w, 0).profile.as_deref(), Some("work"));
    assert_eq!(tab(&state, &w, 0).dot_profile.as_deref(), Some("work"));
}

#[test]
fn a_tab_without_isolation_loads_at_once() {
    let mut state = AppState::new();
    let w = open(&mut state, 0);
    let target = parse_address("http://localhost/x").unwrap();
    let spec = fresh_tab(target, vec![cookie("hermes_profile", "work")]);
    let plan = begin_tab(&mut state, &w, &spec, true, false).unwrap();
    assert_eq!(plan.jar, Jar::Shared);
    assert!(!plan.seeded);
    assert_eq!(plan.first_url, "http://localhost/x");
}

#[test]
fn a_restored_tab_keeps_its_partition_and_is_watched() {
    let mut state = AppState::new();
    let w = open(&mut state, 0);
    let mut spec = fresh_tab(parse_address("http://localhost/s/1").unwrap(), Vec::new());
    spec.partition_override = Some("tab-4-9".to_string());
    spec.profile_hint = Some("home".to_string());
    spec.custom_title = Some("Mine".to_string());
    spec.restore_retry = Some("http://localhost/s/1".to_string());
    let plan = begin_tab(&mut state, &w, &spec, true, true).unwrap();
    assert_eq!((plan.partition.as_str(), plan.jar, plan.seeded), ("tab-4-9", Jar::Kept, false));
    let s = steps(finish_tab(&mut state, &w, plan));
    assert_eq!(s.last().unwrap(), "WatchRestore(\"tab-1-1\", \"http://localhost/s/1\")");
    let t = tab(&state, &w, 0);
    assert_eq!(t.title, "Mine");
    assert_eq!(t.profile.as_deref(), Some("home"));
}

#[test]
fn no_tab_is_begun_or_finished_without_a_window() {
    let mut state = AppState::new();
    let w = open(&mut state, 0);
    let spec = fresh_tab(parse_address("http://localhost/").unwrap(), Vec::new());
    assert!(begin_tab(&mut state, &w, &spec, false, true).is_none());
    assert!(begin_tab(&mut state, "main-9", &spec, true, true).is_none());
    assert_eq!(state.window(&w).unwrap().tab_seq, 0);
    let plan = begin_tab(&mut state, &w, &spec, true, true).unwrap();
    forget_window(&mut state, &w);
    assert!(finish_tab(&mut state, &w, plan).is_empty());
    assert!(state.window(&w).is_none());
}

#[test]
fn a_further_tab_needs_a_window_a_tunnel_and_an_address() {
    let mut state = AppState::new();
    let w = open(&mut state, 1);
    let mut p = Prefs { connection_mode: "ssh".to_string(), target_url: "http://h/".to_string() };
    assert!(matches!(add_tab(&state, &p, &w, false, true, false), NewTab::Refused));
    assert!(matches!(add_tab(&state, &p, &w, true, false, false), NewTab::Refused));
    match add_tab(&state, &p, &w, true, true, false) {
        NewTab::Open { target, opener, inherit } => {
            assert_eq!(target.href, "http://h/");
            assert_eq!(opener.as_deref(), Some("tab-1-1"));
            assert!(inherit);
        }
        other => panic!("{:?}", other),
    }
    p.connection_mode = "direct".to_string();
    assert!(matches!(
        add_tab(&state, &p, "main-9", true, false, true),
        NewTab::Open { opener: None, inherit: false, .. }
    ));
    p.target_url = "nowhere".to_string();
    assert!(matches!(add_tab(&state, &p, &w, true, true, false), NewTab::BadTarget));
}

#[test]
fn cookies_come_from_the_opener_or_the_front() {
    let front = || Some(("main-2".to_string(), "tab-2-1".to_string()));
    let opener = || Some("tab-1-1".to_string());
    assert_eq!(
        cookie_source("main-1", opener(), true, front()),
        Some(("main-1".to_string(), "tab-1-1".to_string()))
    );
    assert_eq!(cookie_source("main-1", opener(), false, front()), front());
    assert_eq!(cookie_source("main-1", None, true, front()), front());
    assert_eq!(cookie_source("main-1", None, true, None), None);
}

#[test]
fn the_first_profile_cookie_counts() {
    assert_eq!(profile_from_cookies(&Vec::new()), None);
    assert_eq!(profile_from_cookies(&vec![cookie("Hermes_Profile", "x")]), None);
    let v = vec![cookie("a", "1"), cookie("hermes_profile", ""), cookie("hermes_profile", "y")];
    assert_eq!(profile_from_cookies(&v).as_deref(), Some(""));
}

#[test]
fn selecting_a_tab() {
    let mut state = AppState::new();
    let w = open(&mut state, 2);
    set_tab_title(&mut state, "tab-1-1", "First", false, "First");
    let r = select_tab(&mut state, &w, "tab-1-1", true, false);
    assert_eq!(screen(&["tab-1-2"], &r), alone("tab-1-1"));
    assert_eq!(
        steps(r),
        [
            "HideTab(\"tab-1-2\")",
            "Background(\"tab-1-2\", true)",
            "FitTab(\"tab-1-1\", 38)",
            "ShowTab(\"tab-1-1\")",
            "FocusTab(\"tab-1-1\")",
            "Background(\"tab-1-1\", false)",
            "EmitTabs(\"main-1\")",
            "RefreshTitle(\"main-1\", \"First\")",
            "CaptureProfile(\"main-1\", \"tab-1-1\")",
            "Persist",
        ]
    );
    assert_eq!(active(&state, &w), "tab-1-1");
    let again = steps(select_tab(&mut state, &w, "tab-1-1", true, true));
    assert_eq!(again[0], "ShowTab(\"tab-1-1\")");
    assert_eq!(again.len(), 7);
}

#[test]
fn selecting_what_is_not_there_does_nothing() {
    let mut state = AppState::new();
    let w = open(&mut state, 2);
    assert!(select_tab(&mut state, &w, "tab-1-1", false, false).is_empty());
    assert!(select_tab(&mut state, &w, "tab-1-7", true, false).is_empty());
    assert!(select_tab(&mut state, "main-9", "tab-1-1", true, false).is_empty());
    assert_eq!(active(&state, &w), "tab-1-2");
}

#[test]
fn closing_a_tab_behind_the_front() {
    let mut state = AppState::new();
    let w = open(&mut state, 3);
    set_tab_title(&mut state, "tab-1-1", "Gone", false, "Gone");
    let r = close_tab(&mut state, &w, "tab-1-1", true, true);
    assert_eq!(screen(&["tab-1-3"], &r), alone("tab-1-3"));
    assert_eq!(
        steps(r),
        [
            "ForgetNavigated(\"tab-1-1\")",
            "ForgetUrl(\"tab-1-1\")",
            "CloseTab(\"tab-1-1\")",
            "RemovePartition(\"tab-1-1\")",
            "ShowTab(\"tab-1-3\")",
            "FocusTab(\"tab-1-3\")",
            "Background(\"tab-1-3\", false)",
            "EmitTabs(\"main-1\")",
            "RefreshTitle(\"main-1\", \"\")",
            "CaptureProfile(\"main-1\", \"tab-1-3\")",
            "Persist",
            "Persist",
        ]
    );
    assert_eq!(labels(&state, &w), ["tab-1-2", "tab-1-3"]);
    assert_eq!(active(&state, &w), "tab-1-3");
    assert_eq!(state.raw_title("tab-1-1"), "");
}

#[test]
fn closing_the_active_tab_moves_on_or_back() {
    let mut state = AppState::new();
    let w = open(&mut state, 3);
    select_tab(&mut state, &w, "tab-1-2", true, false);
    let r = close_tab(&mut state, &w, "tab-1-2", true, false);
    assert_eq!(screen(&["tab-1-2"], &r), alone("tab-1-3"));
    assert_eq!(active(&state, &w), "tab-1-3");
    let r = close_tab(&mut state, &w, "tab-1-3", true, false);
    assert_eq!(screen(&["tab-1-3"], &r), alone("tab-1-1"));
    assert_eq!(active(&state, &w), "tab-1-1");
}

#[test]
fn the_last_tab_takes_its_window_along() {
    let mut state = AppState::new();
    let w = open(&mut state, 1);
    assert_eq!(
        steps(close_tab(&mut state, &w, "tab-1-1", true, false)),
        ["CloseWindow(\"main-1\")"]
    );
    assert_eq!(steps(close_tab(&mut state, &w, "tab-9", true, false)), ["CloseWindow(\"main-1\")"]);
    assert_eq!(labels(&state, &w), ["tab-1-1"]);
    assert!(close_tab(&mut state, &w, "tab-1-1", false, false).is_empty());
    assert!(close_tab(&mut state, "main-9", "tab-9-1", true, false).is_empty());
    add(&mut state, &w);
    assert!(close_tab(&mut state, &w, "tab-1-9", true, false).is_empty());
}

#[test]
fn closing_by_label_finds_the_window() {
    let mut state = AppState::new();
    open(&mut state, 2);
    let w = open(&mut state, 2);
    assert!(close_tab_by_label(&mut state, "strip-2", true, false).is_empty());
    assert!(close_tab_by_label(&mut state, "tab-2-1", false, false).is_empty());
    assert!(!close_tab_by_label(&mut state, "tab-2-1", true, false).is_empty());
    assert_eq!(labels(&state, &w), ["tab-2-2"]);
    assert_eq!(labels(&state, "main-1"), ["tab-1-1", "tab-1-2"]);
}

#[test]
fn cycling_goes_round_and_back() {
    let mut state = AppState::new();
    let w = open(&mut state, 3);
    let mut seen = Vec::new();
    for _ in 0..3 {
        cycle_tab(&mut state, "tab-1-1", true, true, false);
        seen.push(active(&state, &w));
    }
    assert_eq!(seen, ["tab-1-1", "tab-1-2", "tab-1-3"]);
    cycle_tab(&mut state, "tab-1-1", true, true, false);
    cycle_tab(&mut state, "tab-1-1", false, true, false);
    assert_eq!(active(&state, &w), "tab-1-3");
    assert!(cycle_tab(&mut state, "other", true, true, false).is_empty());
    assert!(cycle_tab(&mut state, "tab-1-1", true, false, false).is_empty());
    let one = open(&mut state, 1);
    assert!(cycle_tab(&mut state, "tab-2-1", true, true, false).is_empty());
    assert_eq!(active(&state, &one), "tab-2-1");
}

#[test]
fn moving_a_tab_and_back() {
    let mut state = AppState::new();
    let w = open(&mut state, 4);
    select_tab(&mut state, &w, "tab-1-2", true, false);
    assert_eq!(
        steps(reorder_tab(&mut state, &w, "tab-1-1", 2)),
        ["EmitTabs(\"main-1\")", "Persist"]
    );
    assert_eq!(labels(&state, &w), ["tab-1-2", "tab-1-3", "tab-1-1", "tab-1-4"]);
    assert_eq!(active(&state, &w), "tab-1-2");
    reorder_tab(&mut state, &w, "tab-1-1", 0);
    assert_eq!(labels(&state, &w), ["tab-1-1", "tab-1-2", "tab-1-3", "tab-1-4"]);
    assert_eq!(active(&state, &w), "tab-1-2");
    reorder_tab(&mut state, &w, "tab-1-2", 99);
    assert_eq!(labels(&state, &w), ["tab-1-1", "tab-1-3", "tab-1-4", "tab-1-2"]);
    assert_eq!(active(&state, &w), "tab-1-2");
    assert!(reorder_tab(&mut state, &w, "tab-1-2", 7).is_empty());
    assert!(reorder_tab(&mut state, &w, "tab-1-9", 0).is_empty());
    assert!(reorder_tab(&mut state, "main-9", "tab-1-1", 0).is_empty());
}

#[test]
fn a_new_tab_is_alone_on_the_screen() {
    let mut state = AppState::new();
    let w = open(&mut state, 1);
    let spec = fresh_tab(parse_address("http://localhost/").unwrap(), Vec::new());
    let plan = begin_tab(&mut state, &w, &spec, true, true).unwrap();
    let r = finish_tab(&mut state, &w, plan);
    assert_eq!(screen(&["tab-1-1", "tab-1-2"], &r), alone("tab-1-2"));
}

#[test]
fn switching_tabs_ends_none() {
    let mut state = AppState::new();
    let w = open(&mut state, 3);
    let mut all = Vec::new();
    all.extend(select_tab(&mut state, &w, "tab-1-1", true, false));
    all.extend(cycle_tab(&mut state, "tab-1-1", false, true, false));
    all.extend(reorder_tab(&mut state, &w, "tab-1-1", 2));
    for e in all {
        assert!(!matches!(
            e,
            Effect::CloseTab(_) | Effect::CloseWindow(_) | Effect::RemovePartition(_)
        ));
    }
}

#[test]
fn the_tab_bar_is_laid_out() {
    let mut state = AppState::new();
    let w = open(&mut state, 1);
    assert_eq!(STRIP_HEIGHT, 38);
    assert_eq!(content_top(&state, &w), 38);
    assert_eq!(
        steps(layout(&state, &w, false, true)),
        ["ShowStrip(\"strip-1\")", "FitTab(\"tab-1-1\", 38)"]
    );
    assert!(layout(&state, &w, true, true).is_empty());
    assert!(layout(&state, &w, false, false).is_empty());
    assert_eq!(steps(layout(&state, "main-9", false, true)), ["ShowStrip(\"strip-9\")"]);
}

#[test]
fn the_tab_bar_hides_and_comes_back() {
    let mut state = AppState::new();
    let w = open(&mut state, 1);
    assert_eq!(
        steps(toggle_strip(&mut state, &w, false, true, false)),
        [
            "HideStrip(\"strip-1\")",
            "FitTab(\"tab-1-1\", 0)",
            "Notify(\"Tab bar hidden\", \"Press Ctrl+Shift+B to show it again.\")",
        ]
    );
    assert!(strip_hidden(&state, &w));
    assert_eq!(content_top(&state, &w), 0);
    assert_eq!(
        steps(toggle_strip(&mut state, &w, false, true, false)),
        ["ShowStrip(\"strip-1\")", "FitTab(\"tab-1-1\", 38)", "RetireHint"]
    );
    assert!(!strip_hidden(&state, &w));
    assert_eq!(toggle_strip(&mut state, &w, false, true, true).len(), 2);
    assert!(toggle_strip(&mut state, &w, false, false, true).is_empty());
    assert!(toggle_strip(&mut state, &w, true, true, false).is_empty());
    assert!(toggle_strip(&mut state, "main-9", false, true, false).is_empty());
    assert!(!strip_hidden(&state, "main-9"));
}

#[test]
fn page_titles_reach_the_tab_bar_once() {
    let mut state = AppState::new();
    let w = open(&mut state, 1);
    let told = ["EmitTabs(\"main-1\")", "RefreshTitle(\"main-1\", \"Chat\")"];
    assert_eq!(steps(set_tab_title(&mut state, "tab-1-1", "Chat", false, "Chat!")), told);
    assert_eq!(tab(&state, &w, 0).title, "Chat!");
    assert!(set_tab_title(&mut state, "tab-1-1", "Chat", false, "Chat!").is_empty());
    assert_eq!(steps(set_tab_title(&mut state, "tab-1-1", "Chat", true, "Chat!")), told);
    assert!(tab(&state, &w, 0).attention);
    assert_eq!(window_raw_title(&state, &w), "Chat");
    assert!(set_tab_title(&mut state, "tab-1-5", "Early", false, "Early").is_empty());
    assert_eq!(state.raw_title("tab-1-5"), "Early");
    assert!(set_tab_title(&mut state, "prefs", "No", false, "No").is_empty());
    assert_eq!(state.raw_title("prefs"), "");
}

#[test]
fn a_given_name_stays_until_it_is_taken_away() {
    let mut state = AppState::new();
    let w = open(&mut state, 1);
    assert_eq!(
        steps(rename_tab(&mut state, &w, "tab-1-1", Some("  Mine ".to_string()), "x")),
        ["EmitTabs(\"main-1\")", "RefreshTitle(\"main-1\", \"\")", "Persist"]
    );
    assert_eq!(tab(&state, &w, 0).title, "Mine");
    assert_eq!(tab(&state, &w, 0).custom_title.as_deref(), Some("Mine"));
    assert!(set_tab_title(&mut state, "tab-1-1", "Page", false, "Page").is_empty());
    assert_eq!(tab(&state, &w, 0).title, "Mine");
    let raw = state.raw_title("tab-1-1");
    assert_eq!(raw, "Page");
    rename_tab(&mut state, &w, "tab-1-1", Some(" \t".to_string()), &raw);
    assert_eq!(tab(&state, &w, 0).title, "Page");
    assert_eq!(tab(&state, &w, 0).custom_title, None);
    assert!(rename_tab(&mut state, &w, "tab-1-9", None, "x").is_empty());
    assert!(rename_tab(&mut state, "main-9", "tab-1-1", None, "x").is_empty());
}

#[test]
fn names_are_cut_by_characters() {
    let long: String = "\u{e9}".repeat(61);
    assert_eq!(clean_name(Some(long)).unwrap().chars().count(), 60);
    let fits: String = "n".repeat(60);
    assert_eq!(clean_name(Some(fits.clone())), Some(fits));
    assert_eq!(clean_name(Some(String::new())), None);
    assert_eq!(clean_name(None), None);
}

#[test]
fn dots_and_busy_flags_are_told_once() {
    let mut state = AppState::new();
    let w = open(&mut state, 1);
    let told = ["EmitTabs(\"main-1\")"];
    assert_eq!(steps(set_tab_dot_profile(&mut state, "tab-1-1", "work")), told);
    assert!(set_tab_dot_profile(&mut state, "tab-1-1", "work").is_empty());
    assert_eq!(tab(&state, &w, 0).dot_profile.as_deref(), Some("work"));
    assert_eq!(steps(set_tab_dot_profile(&mut state, "tab-1-1", "")), told);
    assert_eq!(tab(&state, &w, 0).dot_profile, None);
    assert!(set_tab_busy(&mut state, "tab-1-1", false).is_empty());
    assert_eq!(steps(set_tab_busy(&mut state, "tab-1-1", true)), told);
    assert!(tab(&state, &w, 0).busy);
    for other in ["tab-1-9", "tab-9-1", "prefs"] {
        assert!(set_tab_busy(&mut state, other, true).is_empty());
        assert!(set_tab_dot_profile(&mut state, other, "x").is_empty());
    }
}

#[test]
fn profiles_follow_the_cookies() {
    let mut state = AppState::new();
    let w = open(&mut state, 1);
    let read = || Some(vec![cookie("hermes_profile", "work")]);
    assert!(capture_tab_profile(&mut state, &w, "tab-1-1", true, read()).is_empty());
    assert!(capture_tab_profile(&mut state, &w, "tab-1-1", false, None).is_empty());
    assert!(capture_tab_profile(&mut state, &w, "tab-1-9", false, read()).is_empty());
    assert_eq!(
        steps(capture_tab_profile(&mut state, &w, "tab-1-1", false, read())),
        ["EmitTabs(\"main-1\")", "Persist"]
    );
    assert_eq!(tab(&state, &w, 0).profile.as_deref(), Some("work"));
    assert!(capture_tab_profile(&mut state, &w, "tab-1-1", false, read()).is_empty());
}

#[test]
fn every_tab_is_asked_for_its_profile() {
    let mut state = AppState::new();
    open(&mut state, 2);
    open(&mut state, 1);
    let mut s = steps(recapture_profiles(&state, false));
    s.sort();
    assert_eq!(
        s,
        [
            "CaptureProfile(\"main-1\", \"tab-1-1\")",
            "CaptureProfile(\"main-1\", \"tab-1-2\")",
            "CaptureProfile(\"main-2\", \"tab-2-1\")",
        ]
    );
    assert!(recapture_profiles(&state, true).is_empty());
    assert_eq!(
        steps(recapture_tab_profile("tab-3-1")),
        ["CaptureProfile(\"main-3\", \"tab-3-1\")"]
    );
    assert!(recapture_tab_profile("main-3").is_empty());
}

#[test]
fn the_active_tab_hears_of_the_focus() {
    let mut state = AppState::new();
    let w = open(&mut state, 2);
    assert_eq!(
        steps(set_active_tab_backgrounded(&state, &w, true, true)),
        ["Background(\"tab-1-2\", true)"]
    );
    assert!(set_active_tab_backgrounded(&state, &w, true, false).is_empty());
    assert!(set_active_tab_backgrounded(&state, "main-9", true, true).is_empty());
    let empty = open(&mut state, 0);
    assert!(set_active_tab_backgrounded(&state, &empty, false, true).is_empty());
    assert_eq!(
        backgrounded_script(true),
        "window.__hermesSetBackgrounded&&window.__hermesSetBackgrounded(true)"
    );
    assert_eq!(
        backgrounded_script(false),
        "window.__hermesSetBackgrounded&&window.__hermesSetBackgrounded(false)"
    );
}

fn handle(label: &str, focused: bool) -> WindowHandle {
    WindowHandle { label: label.to_string(), focused }
}

#[test]
fn the_front_is_the_focused_or_the_last_window() {
    let mut state = AppState::new();
    open(&mut state, 1);
    open(&mut state, 2);
    open(&mut state, 0);
    let pair = |w: &str, t: &str| Some((w.to_string(), t.to_string()));
    let handles = vec![handle("main-1", true), handle("main-2", true)];
    assert_eq!(focused_active_webview(&state, &handles), pair("main-1", "tab-1-1"));
    let handles = vec![handle("main-1", false), handle("main-2", false)];
    assert_eq!(focused_active_webview(&state, &handles), pair("main-2", "tab-2-2"));
    assert_eq!(focused_active_webview(&state, &vec![handle("main-3", true)]), None);
    assert_eq!(focused_active_webview(&state, &vec![handle("other", true)]), None);
    assert_eq!(focused_active_webview(&state, &Vec::new()), None);
}

#[test]
fn tabs_are_told_from_other_webviews() {
    let all: Vec<String> =
        ["strip-1", "tab-1-1", "xtab-1", "tab-1-2"].iter().map(|s| s.to_string()).collect();
    assert_eq!(all_tab_webviews(&all), ["tab-1-1", "tab-1-2"]);
    assert!(all_tab_webviews(&Vec::new()).is_empty());
}

fn context() -> Context {
    Context {
        mode: "direct".to_string(),
        target: "http://localhost/".to_string(),
        colors: vec![("work".to_string(), "#fff".to_string())],
    }
}

#[test]
fn a_window_is_described_to_its_tab_bar() {
    let mut state = AppState::new();
    let w = open(&mut state, 2);
    let (event, shot) = emit_tabs(&state, &w, context());
    assert_eq!(event, "tabs-changed");
    assert_eq!(shot.window, "main-1");
    assert_eq!(shot.active, 1);
    assert_eq!(shot.tabs.len(), 2);
    assert_eq!(shot.tabs[1].label, "tab-1-2");
    let c = shot.context.unwrap();
    assert_eq!((c.mode.as_str(), c.target.as_str()), ("direct", "http://localhost/"));
    assert_eq!(c.colors.len(), 1);
    let none = snapshot(&state, "main-9", context());
    assert_eq!((none.window.as_str(), none.tabs.len(), none.active), ("main-9", 0, 0));
    assert!(none.context.is_none());
}

#[test]
fn every_window_gets_its_title() {
    let mut state = AppState::new();
    open(&mut state, 1);
    open(&mut state, 0);
    set_tab_title(&mut state, "tab-1-1", "Chat", false, "Chat");
    let mut names = window_labels(&state);
    names.sort();
    assert_eq!(names, ["main-1", "main-2"]);
    let mut s = steps(refresh_all_titles(&state));
    s.sort();
    assert_eq!(s, ["RefreshTitle(\"main-1\", \"Chat\")", "RefreshTitle(\"main-2\", \"\")"]);
    let mut s = steps(repaint_windows(&state));
    s.sort();
    assert_eq!(s, ["EmitTabs(\"main-1\")", "EmitTabs(\"main-2\")"]);
}

#[test]
fn a_destroyed_window_leaves_its_partitions() {
    let mut state = AppState::new();
    let w = open(&mut state, 2);
    set_tab_title(&mut state, "tab-1-1", "A", false, "A");
    set_tab_title(&mut state, "tab-2-1", "B", false, "B");
    assert_eq!(
        steps(forget_window(&mut state, &w)),
        [
            "ForgetNavigated(\"tab-1-1\")",
            "ForgetUrl(\"tab-1-1\")",
            "ForgetNavigated(\"tab-1-2\")",
            "ForgetUrl(\"tab-1-2\")",
        ]
    );
    assert!(state.window(&w).is_none());
    assert_eq!(state.raw_title("tab-1-1"), "");
    assert_eq!(state.raw_title("tab-2-1"), "B");
    assert!(forget_window(&mut state, &w).is_empty());
}

#[test]
fn linux_moves_no_webview_that_stands() {
    let mut state = AppState::new();
    let w = open(&mut state, 3);
    let mut all = Vec::new();
    all.extend(select_tab(&mut state, &w, "tab-1-1", true, true));
    all.extend(cycle_tab(&mut state, "tab-1-1", true, true, true));
    all.extend(close_tab(&mut state, &w, "tab-1-1", true, true));
    all.extend(layout(&state, &w, true, true));
    all.extend(toggle_strip(&mut state, &w, true, true, false));
    assert!(!all.is_empty());
    for e in all {
        assert!(!matches!(e, Effect::FitTab(..) | Effect::ShowStrip(_)));
    }
}

#[test]
fn a_label_stays_free_until_its_tab_stands() {
    let mut state = AppState::new();
    let w = open(&mut state, 2);
    let spec = fresh_tab(parse_address("http://localhost/").unwrap(), Vec::new());
    let early = begin_tab(&mut state, &w, &spec, true, true).unwrap();
    add(&mut state, &w);
    close_tab(&mut state, &w, "tab-1-1", true, false);
    assert_eq!(labels(&state, &w), ["tab-1-2", "tab-1-4"]);
    finish_tab(&mut state, &w, early);
    assert_eq!(labels(&state, &w), ["tab-1-2", "tab-1-4", "tab-1-3"]);
}
