use hermes_desktop::address::parse_address;
use hermes_desktop::label::partition_suffix;
use hermes_desktop::newtab::{
    begin_tab, finish_tab, fresh_tab, profile_from_cookies, Jar, Prefs, TabPlan, TabSpec,
};
use hermes_desktop::session::{
    asks_webview, clear_partitions, finish_restore, page_shown, reserve_partitions,
    restore_bounced, restore_window, session_windows, OpenWindow, SessionTab, SessionWindow,
    TabReport,
};
use hermes_desktop::state::AppState;
use hermes_desktop::tabs::{close_tab, select_tab};
use hermes_desktop::titles::rename_tab;
use hermes_desktop::windows::{claim_window, register_window};

fn text(s: &str) -> String {
    s.to_string()
}

fn prefs() -> Prefs {
    Prefs { connection_mode: text("direct"), target_url: text("http://localhost:8787") }
}

fn saved(url: &str, profile: Option<&str>, partition: Option<&str>) -> SessionTab {
    SessionTab {
        url: text(url),
        profile: profile.map(text),
        partition: partition.map(text),
        custom_title: None,
    }
}

fn report(label: &str, reported: Option<&str>, navigated: bool, live: Option<&str>) -> TabReport {
    TabReport { label: text(label), reported: reported.map(text), navigated, live: live.map(text) }
}

/// Brings a saved window back; returns its label.
fn bring_back(state: &mut AppState, sw: &SessionWindow) -> String {
    let plan = claim_window(state);
    register_window(state, &plan.label, "direct");
    for spec in restore_window(state, &prefs(), sw, false).unwrap() {
        let tab = begin_tab(state, &plan.label, &spec, true, true).unwrap();
        finish_tab(state, &plan.label, tab);
    }
    if let Some(front) = finish_restore(state, &plan.label, sw) {
        select_tab(state, &plan.label, &front, true, true);
    }
    plan.label
}

/// What the tabs of a saved window are to be.
fn planned(p: &Prefs, sw: &SessionWindow, macos: bool) -> Option<Vec<TabSpec>> {
    restore_window(&mut AppState::new(), p, sw, macos)
}

/// Opens a window; returns its label.
fn open_window(state: &mut AppState) -> String {
    let plan = claim_window(state);
    register_window(state, &plan.label, "direct");
    plan.label
}

/// Plans a new tab of a window and puts it into the registry; returns its partition.
fn new_tab(state: &mut AppState, window: &str) -> String {
    let plan = plan_tab(state, window);
    let partition = plan.partition.clone();
    finish_tab(state, window, plan);
    partition
}

fn plan_tab(state: &mut AppState, window: &str) -> TabPlan {
    let spec = fresh_tab(parse_address("http://localhost:8787/").unwrap(), Vec::new());
    let plan = begin_tab(state, window, &spec, true, true).unwrap();
    assert_eq!(plan.jar, Jar::Fresh);
    assert_eq!(plan.partition, plan.label);
    plan
}

/// The partitions of all tabs of these windows.
fn in_use(state: &AppState, windows: &[&str]) -> Vec<String> {
    windows
        .iter()
        .flat_map(|w| state.window(w).unwrap().tabs.iter().map(|t| t.partition.clone()))
        .collect()
}

fn all_distinct(mut v: Vec<String>) -> bool {
    let n = v.len();
    v.sort();
    v.dedup();
    v.len() == n
}

fn one_tab(partition: &str) -> SessionWindow {
    SessionWindow {
        frame: None,
        active: 0,
        tabs: vec![saved("http://localhost:8787/s/1", None, Some(partition))],
    }
}

fn three_tabs() -> SessionWindow {
    SessionWindow {
        frame: Some([1, 2, 300, 400]),
        active: 1,
        tabs: vec![
            saved("http://localhost:8787/session/a", Some("work"), Some("tab-1-3")),
            saved("http://localhost:8787/", None, Some("tab-1-7")),
            saved("broken", Some("home"), Some("tab-2-2")),
        ],
    }
}

#[test]
fn saved_tabs_are_planned_again() {
    let specs = planned(&prefs(), &three_tabs(), false).unwrap();
    assert_eq!(specs.len(), 3);
    assert_eq!(specs[0].target.href, "http://localhost:8787/session/a");
    assert_eq!(specs[0].restore_retry.as_deref(), Some("http://localhost:8787/session/a"));
    assert_eq!(profile_from_cookies(&specs[0].seed).as_deref(), Some("work"));
    assert_eq!(specs[0].seed[0].domain.as_deref(), Some("localhost"));
    assert_eq!(specs[0].partition_override.as_deref(), Some("tab-1-3"));
    assert_eq!(specs[0].profile_hint.as_deref(), Some("work"));
    assert!(specs[1].seed.is_empty());
    assert_eq!(specs[1].restore_retry, None);
    assert_eq!(specs[2].target.href, "http://localhost:8787/");
    assert_eq!(specs[2].restore_retry, None);
    let on_macos = planned(&prefs(), &three_tabs(), true).unwrap();
    assert!(on_macos[0].seed.is_empty());
    assert_eq!(on_macos[0].profile_hint.as_deref(), Some("work"));
}

#[test]
fn tabs_without_any_address_are_left_out() {
    let p = Prefs { connection_mode: text("direct"), target_url: text("nowhere") };
    assert_eq!(planned(&p, &three_tabs(), false).unwrap().len(), 2);
    let empty = SessionWindow { frame: None, active: 0, tabs: Vec::new() };
    assert!(planned(&p, &empty, false).is_none());
}

#[test]
fn a_cookie_without_a_host_is_not_pinned() {
    let sw = SessionWindow {
        frame: None,
        active: 0,
        tabs: vec![saved("data:text/plain,x", Some("work"), None)],
    };
    let specs = planned(&prefs(), &sw, false).unwrap();
    assert_eq!(specs[0].seed[0].domain, None);
    assert_eq!(specs[0].seed[0].name, "hermes_profile");
    assert_eq!(specs[0].seed[0].value, "work");
}

#[test]
fn a_restored_window_stands_as_it_was_saved() {
    let mut state = AppState::new();
    let w = bring_back(&mut state, &three_tabs());
    let win = state.window(&w).unwrap();
    let parts: Vec<&str> = win.tabs.iter().map(|t| t.partition.as_str()).collect();
    assert_eq!(parts, ["tab-1-3", "tab-1-7", "tab-2-2"]);
    let profiles: Vec<Option<&str>> = win.tabs.iter().map(|t| t.profile.as_deref()).collect();
    assert_eq!(profiles, [Some("work"), None, Some("home")]);
    assert_eq!(win.active, 1);
    assert_eq!(win.tab_seq, 7);
    let labels: Vec<&str> = win.tabs.iter().map(|t| t.label.as_str()).collect();
    assert_eq!(labels, ["tab-1-1", "tab-1-2", "tab-1-3"]);
    assert_eq!(state.window_count(), 1);
}

#[test]
fn a_new_tab_takes_no_restored_partition() {
    let mut state = AppState::new();
    let w = bring_back(&mut state, &three_tabs());
    assert_eq!(new_tab(&mut state, &w), "tab-1-8");
    let win = state.window(&w).unwrap();
    for t in &win.tabs {
        assert!(partition_suffix(&t.partition).unwrap() <= win.tab_seq);
    }
}

#[test]
fn a_restored_tab_is_closed_with_its_own_partition() {
    let mut state = AppState::new();
    let w = bring_back(&mut state, &three_tabs());
    let effects = format!("{:?}", close_tab(&mut state, &w, "tab-1-1", true, true));
    assert!(effects.contains("RemovePartition(\"tab-1-3\")"));
    assert_eq!(effects.matches("RemovePartition").count(), 1);
}

#[test]
fn the_saved_index_is_held_to_the_tabs_that_stand() {
    let mut state = AppState::new();
    let mut sw = three_tabs();
    sw.active = 9;
    let w = bring_back(&mut state, &sw);
    assert_eq!(state.window(&w).unwrap().active, 2);
    assert!(finish_restore(&mut state, "main-9", &sw).is_none());
    let plan = claim_window(&mut state);
    register_window(&mut state, &plan.label, "direct");
    assert!(finish_restore(&mut state, &plan.label, &sw).is_none());
    assert_eq!(state.window(&plan.label).unwrap().tab_seq, 7);
}

#[test]
fn windows_are_saved_and_brought_back() {
    let mut state = AppState::new();
    let w = bring_back(&mut state, &three_tabs());
    rename_tab(&mut state, &w, "tab-1-2", Some(text("Mine")), "");
    let open = vec![
        OpenWindow {
            label: w.clone(),
            frame: Some([5, 6, 700, 800]),
            reports: vec![
                report("tab-1-1", Some("http://localhost:8787/session/b"), true, Some("http://x/")),
                report("tab-1-2", Some("about:blank"), true, Some("http://localhost:8787/live")),
                report("tab-1-3", None, false, Some("http://never/")),
            ],
        },
        OpenWindow { label: text("main-9"), frame: None, reports: Vec::new() },
    ];
    let session = session_windows(&state, "http://localhost:8787", &open);
    assert_eq!(session.len(), 1);
    assert_eq!(session[0].frame, Some([5, 6, 700, 800]));
    assert_eq!(session[0].active, 1);
    let urls: Vec<&str> = session[0].tabs.iter().map(|t| t.url.as_str()).collect();
    assert_eq!(
        urls,
        [
            "http://localhost:8787/session/b",
            "http://localhost:8787/live",
            "http://localhost:8787",
        ]
    );
    assert_eq!(session[0].tabs[0].profile.as_deref(), Some("work"));
    assert_eq!(session[0].tabs[1].custom_title.as_deref(), Some("Mine"));
    assert_eq!(session[0].tabs[2].partition.as_deref(), Some("tab-2-2"));

    let mut later = AppState::new();
    let again = bring_back(&mut later, &session[0]);
    let win = later.window(&again).unwrap();
    assert_eq!(win.tabs[1].title, "Mine");
    assert_eq!(win.tabs[0].partition, "tab-1-3");
    assert_eq!(win.tabs[0].profile.as_deref(), Some("work"));
    assert_eq!(win.active, 1);
}

#[test]
fn windows_without_tabs_are_not_saved() {
    let mut state = AppState::new();
    let plan = claim_window(&mut state);
    register_window(&mut state, &plan.label, "direct");
    let open = vec![OpenWindow { label: plan.label, frame: None, reports: Vec::new() }];
    assert!(session_windows(&state, "http://localhost/", &open).is_empty());
}

#[test]
fn a_webview_is_asked_only_where_it_must_be() {
    assert!(!asks_webview(Some("http://x/"), true));
    assert!(asks_webview(Some("about:blank"), true));
    assert!(asks_webview(None, true));
    assert!(!asks_webview(None, false));
    assert!(!asks_webview(Some("about:blank"), false));
}

#[test]
fn a_restored_tab_that_bounced_is_noticed() {
    assert!(restore_bounced(Some("http://localhost:8787/")));
    assert!(!restore_bounced(Some("http://localhost:8787/session/a")));
    assert!(!restore_bounced(Some("garbage")));
    assert!(!restore_bounced(None));
}

#[test]
fn blank_pages_are_no_pages() {
    assert!(page_shown(true, "http"));
    assert!(!page_shown(true, "about"));
    assert!(!page_shown(false, "http"));
}

#[test]
fn startup_deletes_orphans_only() {
    let session = vec![
        three_tabs(),
        SessionWindow {
            frame: None,
            active: 0,
            tabs: vec![saved("http://x/", None, None), saved("http://x/", None, Some("tab-5-1"))],
        },
    ];
    let disk: Vec<String> =
        ["tab-1-3", "tab-1-4", "tab-5-1", "", "tab-2-2"].iter().map(|s| s.to_string()).collect();
    assert_eq!(clear_partitions(&session, &disk), ["tab-1-4", ""]);
    assert_eq!(clear_partitions(&Vec::new(), &disk).len(), 5);
    assert!(clear_partitions(&session, &Vec::new()).is_empty());
}

#[test]
fn a_second_window_takes_no_restored_partition() {
    let mut state = AppState::new();
    let first = bring_back(&mut state, &one_tab("tab-2-1"));
    assert_eq!(first, "main-1");
    assert_eq!(state.window(&first).unwrap().tabs[0].partition, "tab-2-1");
    assert_eq!(state.window(&first).unwrap().tabs[0].label, "tab-1-1");
    let second = open_window(&mut state);
    assert_eq!(second, "main-2");
    assert_eq!(state.window(&second).unwrap().tab_seq, 0);
    assert_eq!(new_tab(&mut state, &second), "tab-2-2");
    assert_eq!(new_tab(&mut state, &second), "tab-2-3");
    new_tab(&mut state, &first);
    assert!(all_distinct(in_use(&state, &[&first, &second])));
    let effects = format!("{:?}", close_tab(&mut state, &second, "tab-2-2", true, true));
    assert!(effects.contains("RemovePartition(\"tab-2-2\")"));
    assert_eq!(effects.matches("RemovePartition").count(), 1);
}

#[test]
fn a_second_window_stays_clear_of_three_restored_tabs() {
    let mut state = AppState::new();
    let first = bring_back(&mut state, &three_tabs());
    let second = open_window(&mut state);
    for _ in 0..3 {
        new_tab(&mut state, &second);
        new_tab(&mut state, &first);
    }
    assert_eq!(
        in_use(&state, &[&second]),
        ["tab-2-1", "tab-2-3", "tab-2-4"]
    );
    assert!(all_distinct(in_use(&state, &[&first, &second])));
}

#[test]
fn an_open_window_passes_over_partitions_that_came_back_elsewhere() {
    let mut state = AppState::new();
    let first = open_window(&mut state);
    new_tab(&mut state, &first);
    bring_back(&mut state, &one_tab("tab-1-2"));
    assert_eq!(state.window(&first).unwrap().tab_seq, 1);
    assert_eq!(new_tab(&mut state, &first), "tab-1-3");
    assert!(all_distinct(in_use(&state, &["main-1", "main-2"])));
}

#[test]
fn a_window_that_was_counted_before_passes_over_them() {
    let mut state = AppState::new();
    let first = claim_window(&mut state).label;
    let late = claim_window(&mut state).label;
    register_window(&mut state, &first, "direct");
    let sw = one_tab("tab-2-1");
    for spec in restore_window(&mut state, &prefs(), &sw, false).unwrap() {
        let plan = begin_tab(&mut state, &first, &spec, true, true).unwrap();
        assert_eq!(plan.jar, Jar::Kept);
        finish_tab(&mut state, &first, plan);
    }
    register_window(&mut state, &late, "direct");
    assert_eq!(new_tab(&mut state, &late), "tab-2-2");
    assert!(all_distinct(in_use(&state, &[&first, &late])));
}

#[test]
fn a_tab_that_is_added_during_a_restoration_gets_its_own_partition() {
    let mut state = AppState::new();
    let w = open_window(&mut state);
    let sw = three_tabs();
    for spec in restore_window(&mut state, &prefs(), &sw, false).unwrap() {
        let plan = begin_tab(&mut state, &w, &spec, true, true).unwrap();
        new_tab(&mut state, &w);
        finish_tab(&mut state, &w, plan);
    }
    assert_eq!(
        in_use(&state, &[&w]),
        ["tab-1-2", "tab-1-3", "tab-1-4", "tab-1-7", "tab-1-6", "tab-2-2"]
    );
    assert!(all_distinct(in_use(&state, &[&w])));
}

#[test]
fn a_saved_tab_without_a_partition_gets_one_of_its_own() {
    let mut state = AppState::new();
    let sw = SessionWindow {
        frame: None,
        active: 0,
        tabs: vec![
            saved("http://localhost:8787/a", None, Some("tab-1-2")),
            saved("http://localhost:8787/b", None, None),
        ],
    };
    let w = bring_back(&mut state, &sw);
    assert_eq!(in_use(&state, &[&w]), ["tab-1-2", "tab-1-3"]);
}

#[test]
fn partitions_of_windows_to_come_are_reserved() {
    let mut state = AppState::new();
    let session = vec![one_tab("tab-1-1"), one_tab("tab-1-2"), one_tab("tab-1-1")];
    reserve_partitions(&mut state, &session);
    assert_eq!(state.reserved_count(), 2);
    assert!(state.is_reserved("tab-1-2"));
    assert!(!state.is_reserved("tab-1-3"));
    let first = open_window(&mut state);
    assert_eq!(first, "main-1");
    assert_eq!(new_tab(&mut state, &first), "tab-1-3");
    assert_eq!(new_tab(&mut state, &first), "tab-1-4");
    reserve_partitions(&mut state, &Vec::new());
    assert_eq!(state.reserved_count(), 2);
}

#[test]
fn odd_partition_names_do_no_harm() {
    let mut state = AppState::new();
    let odd = ["", "garbage", "tab-007-3", "tab-18446744073709551615-1"];
    for name in odd {
        bring_back(&mut state, &one_tab(name));
    }
    assert_eq!(state.window_count(), 4);
    assert_eq!(open_window(&mut state), "main-5");
}
