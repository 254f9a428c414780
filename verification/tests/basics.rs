use hermes_desktop::changelog::changelog_section;
use hermes_desktop::label::partition_suffix;
use hermes_desktop::platform::x11_from_env;

#[test]
fn extracts_current_version_section() {
    let md = "# Changelog\n\n## [v0.5.0] — 2026-06-17\n\n### Fixed\n\n- A real fix\n\n## [v0.4.1] — 2026-06-17\n\n- Older stuff\n";
    let s = changelog_section(md, "0.5.0").expect("section");
    assert!(s.contains("A real fix"));
    assert!(!s.contains("Older stuff"), "must stop at the next heading");
    assert!(changelog_section(md, "9.9.9").is_none());
}

#[test]
fn parses_partition_suffix() {
    assert_eq!(partition_suffix("tab-1-3"), Some(3));
    assert_eq!(partition_suffix("tab-2-17"), Some(17));
    assert_eq!(partition_suffix("tab-10-0"), Some(0));
    assert_eq!(partition_suffix("garbage"), None);
    assert_eq!(partition_suffix(""), None);
}

#[test]
fn x11_detection_mirrors_gdk_backend_choice() {
    // Plain X11 session: no wayland display, no override.
    assert!(x11_from_env(None, false));
    // Native Wayland session.
    assert!(!x11_from_env(None, true));
    // XWayland forced.
    assert!(x11_from_env(Some("x11"), true));
    // Explicit wayland override wins even without WAYLAND_DISPLAY.
    assert!(!x11_from_env(Some("wayland"), false));
    // Fallback lists.
    assert!(x11_from_env(Some("x11,wayland"), true));
    assert!(!x11_from_env(Some("wayland,x11"), true));
    // An unrelated override leaves the default rule.
    assert!(x11_from_env(Some("broadway"), false));
    assert!(!x11_from_env(Some("broadway"), true));
}
