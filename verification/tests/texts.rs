use hermes_desktop::address::{allowed_host, is_root_path, parse_address, url_is_root};
use hermes_desktop::changelog::{changelog_section, whats_new};
use hermes_desktop::label::{
    make_main_label, make_strip_label, make_tab_label, partition_suffix, window_of_tab, window_seq,
};
use hermes_desktop::text;

fn every_char() -> Vec<char> {
    (0u32..0x11_0000).filter_map(char::from_u32).collect()
}

#[test]
fn white_space_is_that_of_std() {
    for c in every_char() {
        assert_eq!(text::is_white_space(c), c.is_whitespace(), "{:?}", c);
    }
}

#[test]
fn ascii_capitals_alone_are_lowered() {
    let all: String = every_char().into_iter().collect();
    assert_eq!(text::to_ascii_lower(&all), all.to_ascii_lowercase());
}

#[test]
fn trimming_takes_both_ends() {
    for s in ["", " ", "a", " a", "a ", "\u{3000}a b\t\n", "\u{85}\u{2028}", "x\u{200b}"] {
        assert_eq!(text::trim(s), s.trim());
    }
}

#[test]
fn lines_are_those_of_std() {
    for s in [
        "", "\n", "\n\n", "a", "a\n", "a\nb", "a\r\nb\r\n", "a\r", "\r\n", "a\r\r\nb", "a\n\nb\n",
        "\r", "a\r\n\r",
    ] {
        let expected: Vec<&str> = s.lines().collect();
        assert_eq!(text::to_lines(s), expected, "{:?}", s);
    }
}

#[test]
fn splitting_and_joining() {
    for s in ["", ",", "a,b", ",a,,b,", "x11, wayland"] {
        let parts = text::split_at_each(s, ',');
        let expected: Vec<&str> = s.split(',').collect();
        assert_eq!(parts, expected);
        assert_eq!(text::join(&parts, 0, parts.len(), ','), s);
    }
    let parts = text::split_at_each("a,b,c", ',');
    assert_eq!(text::join(&parts, 1, 3, ';'), "b;c");
    assert_eq!(text::join(&parts, 2, 2, ';'), "");
    assert_eq!(text::text_before_first("a-b-c", '-'), "a");
    assert_eq!(text::text_before_first("abc", '-'), "abc");
    assert_eq!(text::text_after_last("a-b-c", '-'), "c");
    assert_eq!(text::text_after_last("abc", '-'), "abc");
    assert_eq!(text::text_after_last("abc-", '-'), "");
}

#[test]
fn prefixes() {
    assert!(text::starts_with("tab-1", "tab-"));
    assert!(text::starts_with("tab-", "tab-"));
    assert!(text::starts_with("tab-", ""));
    assert!(!text::starts_with("tab", "tab-"));
    assert!(!text::starts_with("Tab-1", "tab-"));
}

#[test]
fn numbers_are_read_as_std_reads_them() {
    for s in [
        "0", "7", "007", "+3", "++3", "+", "-1", "", " 1", "1 ", "1_0", "12a", "\u{0663}",
        "18446744073709551615", "18446744073709551616", "99999999999999999999999",
    ] {
        assert_eq!(text::parse_number(s), s.parse::<u64>().ok(), "{:?}", s);
    }
}

#[test]
fn a_number_is_read_back_as_it_was_written() {
    for n in [0u64, 9, 10, 99, 100, 1234567890, u64::MAX] {
        assert_eq!(text::to_decimal(n), n.to_string());
        assert_eq!(text::parse_number(&text::to_decimal(n)), Some(n));
    }
}

#[test]
fn labels_name_windows_and_tabs() {
    assert_eq!(make_main_label(12), "main-12");
    assert_eq!(make_tab_label("main-12", 3), "tab-12-3");
    assert_eq!(make_strip_label("main-12"), "strip-12");
    assert_eq!(make_tab_label("prefs", 3), "tab-0-3");
    assert_eq!(window_seq("main-4"), "4");
    assert_eq!(window_seq("splash"), "0");
    assert_eq!(window_of_tab("tab-12-3").as_deref(), Some("main-12"));
    assert_eq!(window_of_tab("tab-").as_deref(), Some("main-"));
    assert_eq!(window_of_tab("tab-7").as_deref(), Some("main-7"));
    assert_eq!(window_of_tab("strip-1"), None);
    assert_eq!(window_of_tab(""), None);
}

#[test]
fn labels_lead_back_to_their_window_and_count() {
    for n in [1u64, 2, 10, 11, 110] {
        for m in [1u64, 9, 10, 101] {
            let window = make_main_label(n);
            let tab = make_tab_label(&window, m);
            assert_eq!(window_of_tab(&tab), Some(window));
            assert_eq!(partition_suffix(&tab), Some(m));
        }
    }
}

#[test]
fn suffixes_at_the_edges() {
    assert_eq!(partition_suffix("7"), Some(7));
    assert_eq!(partition_suffix("tab-1-"), None);
    assert_eq!(partition_suffix("tab-1-+4"), Some(4));
    assert_eq!(partition_suffix("tab-1-18446744073709551615"), Some(u64::MAX));
    assert_eq!(partition_suffix("tab-1-18446744073709551616"), None);
}

#[test]
fn notes_are_exactly_the_trimmed_section() {
    let md = "## [v1.0.0] - x\r\n\r\n- a\r\n- b\r\n\r\n## [v0.9.0]\n\n## older\n- c\n";
    assert_eq!(changelog_section(md, "1.0.0").as_deref(), Some("- a\n- b"));
    assert_eq!(changelog_section(md, "0.9.0"), None);
    assert_eq!(changelog_section(md, "1.0"), None);
    assert_eq!(changelog_section("", "1.0.0"), None);
    assert_eq!(changelog_section("## [v2]\n### kept\n##x\n## ", "2").as_deref(), Some("### kept\n##x"));
}

#[test]
fn notes_of_an_unknown_version_point_to_the_releases() {
    let md = "## [v1.0.0]\n- a\n";
    assert_eq!(whats_new(md, "1.0.0"), "- a");
    assert_eq!(whats_new(md, "2.0.0"), "Release notes are on the GitHub releases page.");
}

#[test]
fn addresses_are_taken_apart() {
    let a = parse_address("HTTPS://Example.COM:443/session/ab?q=1#f").unwrap();
    assert_eq!(a.href, "https://example.com/session/ab?q=1#f");
    assert_eq!(a.host.as_deref(), Some("example.com"));
    assert_eq!(a.path, "/session/ab");
    let b = a.copy();
    assert_eq!((b.href, b.host, b.path), (a.href, a.host, a.path));
    let blank = parse_address("about:blank").unwrap();
    assert_eq!(blank.host, None);
    assert_eq!(blank.path, "blank");
    assert!(parse_address("not an address").is_none());
    assert!(parse_address("").is_none());
}

#[test]
fn the_root_of_a_site() {
    assert!(url_is_root("http://localhost:8787"));
    assert!(url_is_root("http://localhost:8787/"));
    assert!(url_is_root("http://localhost:8787/?x=1#y"));
    assert!(!url_is_root("http://localhost:8787/session/1"));
    assert!(!url_is_root("/"));
    assert!(!url_is_root(""));
    assert!(is_root_path(""));
    assert!(is_root_path("/"));
    assert!(!is_root_path("//"));
}

#[test]
fn the_allowed_host_is_in_lower_case() {
    let mut a = parse_address("http://localhost/x").unwrap();
    assert_eq!(allowed_host(&a).as_deref(), Some("localhost"));
    a.host = Some("\u{c4}pp.Example".to_string());
    assert_eq!(allowed_host(&a).as_deref(), Some("\u{e4}pp.example"));
    a.host = None;
    assert_eq!(allowed_host(&a), None);
}
