//! What menu entries and window events lead to.
use vstd::prelude::*;

use crate::text;

verus! {

/// What a menu entry does.
#[derive(Debug)]
pub enum MenuAction {
    Preferences,
    WhatsNew,
    ToggleStrip,
    NewWindow,
    NewTab,
    Paste,
    /// Run a script in the page in front.
    EvalActive(String),
    /// Run a script in every page.
    EvalAll(String),
    CopyVersion,
    Quit,
    CheckUpdates,
    RevealLogs,
    /// Change the zoom by this many percent.
    Zoom(i32),
    ZoomReset,
    OpenBrowser,
    ShowMain,
    ShowTabBar,
    Ignore,
}

/// What a menu entry does.
pub enum MenuActionView {
    Preferences,
    WhatsNew,
    ToggleStrip,
    NewWindow,
    NewTab,
    Paste,
    EvalActive(Seq<char>),
    EvalAll(Seq<char>),
    CopyVersion,
    Quit,
    CheckUpdates,
    RevealLogs,
    Zoom(i32),
    ZoomReset,
    OpenBrowser,
    ShowMain,
    ShowTabBar,
    Ignore,
}

impl View for MenuAction {
    type V = MenuActionView;

    open spec fn view(&self) -> MenuActionView {
        match *self {
            MenuAction::Preferences => MenuActionView::Preferences,
            MenuAction::WhatsNew => MenuActionView::WhatsNew,
            MenuAction::ToggleStrip => MenuActionView::ToggleStrip,
            MenuAction::NewWindow => MenuActionView::NewWindow,
            MenuAction::NewTab => MenuActionView::NewTab,
            MenuAction::Paste => MenuActionView::Paste,
            MenuAction::EvalActive(s) => MenuActionView::EvalActive(s@),
            MenuAction::EvalAll(s) => MenuActionView::EvalAll(s@),
            MenuAction::CopyVersion => MenuActionView::CopyVersion,
            MenuAction::Quit => MenuActionView::Quit,
            MenuAction::CheckUpdates => MenuActionView::CheckUpdates,
            MenuAction::RevealLogs => MenuActionView::RevealLogs,
            MenuAction::Zoom(p) => MenuActionView::Zoom(p),
            MenuAction::ZoomReset => MenuActionView::ZoomReset,
            MenuAction::OpenBrowser => MenuActionView::OpenBrowser,
            MenuAction::ShowMain => MenuActionView::ShowMain,
            MenuAction::ShowTabBar => MenuActionView::ShowTabBar,
            MenuAction::Ignore => MenuActionView::Ignore,
        }
    }
}

/// What the menu entry with this identifier does.
pub open spec fn action_of(id: Seq<char>, macos: bool) -> MenuActionView {
    if id == "preferences"@ {
        MenuActionView::Preferences
    } else if id == "whats_new"@ {
        MenuActionView::WhatsNew
    } else if id == "toggle_strip"@ {
        MenuActionView::ToggleStrip
    } else if id == "new_window"@ {
        MenuActionView::NewWindow
    } else if id == "new_tab"@ {
        MenuActionView::NewTab
    } else if id == "paste"@ {
        MenuActionView::Paste
    } else if id == "reload"@ {
        MenuActionView::EvalActive("location.reload();"@)
    } else if id == "reload_all"@ {
        MenuActionView::EvalAll("location.reload();"@)
    } else if id == "copy_version"@ {
        MenuActionView::CopyVersion
    } else if id == "quit"@ {
        MenuActionView::Quit
    } else if id == "check_updates"@ {
        MenuActionView::CheckUpdates
    } else if id == "reveal_logs"@ {
        MenuActionView::RevealLogs
    } else if id == "zoom_in"@ {
        MenuActionView::Zoom(10)
    } else if id == "zoom_out"@ {
        MenuActionView::Zoom((-10) as i32)
    } else if id == "zoom_reset"@ {
        MenuActionView::ZoomReset
    } else if id == "find"@ {
        MenuActionView::EvalActive("window.__hermesFindToggle && window.__hermesFindToggle();"@)
    } else if id == "find_next"@ {
        MenuActionView::EvalActive("window.__hermesFindNext && window.__hermesFindNext(true);"@)
    } else if id == "find_prev"@ {
        MenuActionView::EvalActive("window.__hermesFindNext && window.__hermesFindNext(false);"@)
    } else if id == "open_browser"@ {
        MenuActionView::OpenBrowser
    } else if id == "show_main"@ {
        MenuActionView::ShowMain
    } else if id == "show_tab_bar"@ && macos {
        MenuActionView::ShowTabBar
    } else {
        MenuActionView::Ignore
    }
}

/// What the menu entry with this identifier does.
pub fn menu_action(id: &str, macos: bool) -> (r: MenuAction)
    ensures
        r@ == action_of(id@, macos),
{
    if text::same(id, "preferences") {
        MenuAction::Preferences
    } else if text::same(id, "whats_new") {
        MenuAction::WhatsNew
    } else if text::same(id, "toggle_strip") {
        MenuAction::ToggleStrip
    } else if text::same(id, "new_window") {
        MenuAction::NewWindow
    } else if text::same(id, "new_tab") {
        MenuAction::NewTab
    } else if text::same(id, "paste") {
        MenuAction::Paste
    } else if text::same(id, "reload") {
        MenuAction::EvalActive("location.reload();".to_owned())
    } else if text::same(id, "reload_all") {
        MenuAction::EvalAll("location.reload();".to_owned())
    } else if text::same(id, "copy_version") {
        MenuAction::CopyVersion
    } else if text::same(id, "quit") {
        MenuAction::Quit
    } else if text::same(id, "check_updates") {
        MenuAction::CheckUpdates
    } else if text::same(id, "reveal_logs") {
        MenuAction::RevealLogs
    } else if text::same(id, "zoom_in") {
        MenuAction::Zoom(10)
    } else if text::same(id, "zoom_out") {
        MenuAction::Zoom(-10)
    } else if text::same(id, "zoom_reset") {
        MenuAction::ZoomReset
    } else if text::same(id, "find") {
        MenuAction::EvalActive(
            "window.__hermesFindToggle && window.__hermesFindToggle();".to_owned(),
        )
    } else if text::same(id, "find_next") {
        MenuAction::EvalActive(
            "window.__hermesFindNext && window.__hermesFindNext(true);".to_owned(),
        )
    } else if text::same(id, "find_prev") {
        MenuAction::EvalActive(
            "window.__hermesFindNext && window.__hermesFindNext(false);".to_owned(),
        )
    } else if text::same(id, "open_browser") {
        MenuAction::OpenBrowser
    } else if text::same(id, "show_main") {
        MenuAction::ShowMain
    } else if text::same(id, "show_tab_bar") && macos {
        MenuAction::ShowTabBar
    } else {
        MenuAction::Ignore
    }
}

/// The line that names the program for a bug report.
pub fn version_line(version: &str, os: &str) -> (r: String)
    ensures
        r@ == "Hermes WebUI Desktop v"@ + version@ + " ("@ + os@ + ")"@,
{
    let a: String = text::concat("Hermes WebUI Desktop v", version);
    let b: String = text::concat(a.as_str(), " (");
    let c: String = text::concat(b.as_str(), os);
    text::concat(c.as_str(), ")")
}

/// Whether a window is one of the program's browser windows.
pub open spec fn browser_window(label: Seq<char>) -> bool {
    "main-"@.is_prefix_of(label)
}

/// Whether a window is one of the program's browser windows.
pub fn is_browser_window(label: &str) -> (r: bool)
    ensures
        r == browser_window(label@),
{
    text::starts_with(label, "main-")
}

/// Whether a window that is to be closed is hidden in place of that: the last browser
/// window on macOS, where the program stays in the dock.
pub fn hides_on_close(label: &str, browser_windows: usize, macos: bool) -> (r: bool)
    ensures
        r == (macos && browser_window(label@) && browser_windows <= 1),
{
    macos && is_browser_window(label) && browser_windows <= 1
}

/// Whether a window that changed its size is laid out anew.
pub fn lays_out_on_resize(label: &str, strip_enabled: bool) -> (r: bool)
    ensures
        r == (strip_enabled && browser_window(label@)),
{
    strip_enabled && is_browser_window(label)
}

/// Who is told that a window gained or lost the focus.
#[derive(Clone, Copy, Debug, PartialEq, Eq, Structural)]
pub enum FocusChange {
    /// Nobody.
    Ignore,
    /// The active tab of the strip window: whether it is in the background.
    ActiveTab(bool),
    /// The page of the window itself: whether it is in the background.
    Page(bool),
}

/// Who is told that a window gained or lost the focus.
pub fn focus_change(label: &str, focused: bool, strip_enabled: bool) -> (r: FocusChange)
    ensures
        r == if !browser_window(label@) {
            FocusChange::Ignore
        } else if strip_enabled {
            FocusChange::ActiveTab(!focused)
        } else {
            FocusChange::Page(!focused)
        },
{
    if !is_browser_window(label) {
        FocusChange::Ignore
    } else if strip_enabled {
        FocusChange::ActiveTab(!focused)
    } else {
        FocusChange::Page(!focused)
    }
}

/// Whether a request to exit is turned down: one without a code only means that the last
/// window went away, which also happens between two windows.
pub fn stays_alive(code: Option<i32>) -> (r: bool)
    ensures
        r == (code is None),
{
    code.is_none()
}

} // verus!
