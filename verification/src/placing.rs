//! Where windows are placed, how they come and go, and what menus lead to.
use vstd::prelude::*;

use crate::effect::EffectView;
use crate::events::{action_of, browser_window, MenuActionView};
use crate::frame::{center_fits, margin, next_fits, placement, usable, Monitor, Placement};
use crate::state::{labels, lists_windows, tab_views, AppView, TabView};
use crate::windows::{
    all_titles, forget_steps, forgotten, registered, shows, strip_script, without_tabs, Context,
    Snapshot,
};

verus! {

// ---------------------------------------------------------------------------
// Frames
// ---------------------------------------------------------------------------

/// A saved frame of at least 200 by 200 pixels is taken over number for number, whatever
/// else is known; one that is smaller in either direction counts as none.
pub proof fn law_saved_frame_comes_first(
    f: [i64; 4],
    is_first: bool,
    last_frame: Option<(i32, i32, u32, u32)>,
    monitor: Option<Monitor>,
    host: Option<(i32, i32)>,
)
    ensures
        ({
            let p = placement(Some(f), is_first, last_frame, monitor, host);
            &&& f@[2] >= 200 && f@[3] >= 200 ==> p == (Placement::Frame {
                x: f@[0] as i32,
                y: f@[1] as i32,
                width: f@[2] as u32,
                height: f@[3] as u32,
            })
            &&& !(f@[2] >= 200 && f@[3] >= 200) ==> p == placement(
                None,
                is_first,
                last_frame,
                monitor,
                host,
            )
        }),
{
}

/// Without a saved frame the first window takes the frame that the last run left, whatever
/// monitor and whatever other window there is; it does not look at another window at all.
pub proof fn law_first_window_takes_the_last_frame(
    x: i32,
    y: i32,
    width: u32,
    height: u32,
    last_frame: Option<(i32, i32, u32, u32)>,
    monitor: Option<Monitor>,
    host: Option<(i32, i32)>,
)
    ensures
        placement(None, true, Some((x, y, width, height)), monitor, host) == (Placement::Frame {
            x,
            y,
            width,
            height,
        }),
        placement(None, true, None, None, host) == Placement::Center,
        placement(None, true, last_frame, monitor, host) == placement(
            None,
            true,
            last_frame,
            monitor,
            None,
        ),
{
}

/// A first window without a frame stands in the middle of its monitor: it has as much room
/// on its left as on its right, and above as below, give or take the one pixel of an odd
/// gap, which is on the right and below. A window that is too large begins at the edge.
pub proof fn law_first_window_is_centered(m: Monitor, host: Option<(i32, i32)>)
    requires
        center_fits(m),
        m.width < 0x8000_0000,
        m.height < 0x8000_0000,
    ensures
        placement(None, true, None, Some(m), host) matches Placement::At { x, y } && {
            let left = x - m.x;
            let right = m.width - m.window_width - left;
            let above = y - m.y;
            let below = m.height - m.window_height - above;
            &&& m.window_width <= m.width ==> 0 <= left <= right <= left + 1
            &&& m.window_width > m.width ==> left == 0
            &&& m.window_height <= m.height ==> 0 <= above <= below <= above + 1
            &&& m.window_height > m.height ==> above == 0
        },
{
}

/// A further window without a saved frame stands 28 pixels to the right of and below the
/// one that it comes from, and nowhere in particular where there is none. Neither the last
/// frame nor the monitor plays a part.
pub proof fn law_further_windows_cascade(
    p: (i32, i32),
    last_frame: Option<(i32, i32, u32, u32)>,
    monitor: Option<Monitor>,
)
    requires
        p.0 + 28 <= i32::MAX,
        p.1 + 28 <= i32::MAX,
    ensures
        next_fits(p),
        placement(None, false, last_frame, monitor, Some(p)) matches Placement::At { x, y } && x
            == p.0 + 28 && y == p.1 + 28,
        placement(None, false, last_frame, monitor, None) == Placement::Leave,
{
}

/// The room before a window in the middle is half of the gap, rounded down. A window that is
/// larger than the room it stands in leaves no gap. A gap of more than 31 bits is read as
/// the negative number with the same bits, and its half is rounded towards zero. The middle
/// fits where the edge and that half make a coordinate of 32 bits in both directions.
pub proof fn law_margin_is_half_of_the_gap(have: u32, need: u32, m: Monitor)
    ensures
        ({
            let gap = have - need;
            let half = margin(have, need);
            &&& gap <= 0 ==> half == 0
            &&& 0 < gap < 0x8000_0000 ==> 2 * half <= gap <= 2 * half + 1
            &&& gap >= 0x8000_0000 ==> 2 * half - 1 <= gap - 0x1_0000_0000 <= 2 * half
        }),
        center_fits(m) <==> {
            let x = m.x + margin(m.width, m.window_width);
            let y = m.y + margin(m.height, m.window_height);
            i32::MIN <= x <= i32::MAX && i32::MIN <= y <= i32::MAX
        },
        center_fits(m) ==> placement(None, true, None, Some(m), None) == (Placement::At {
            x: (m.x + margin(m.width, m.window_width)) as i32,
            y: (m.y + margin(m.height, m.window_height)) as i32,
        }),
{
}

/// A frame is large enough to be used exactly where both its sides are at least 200 pixels.
pub proof fn law_usable_frames_are_large(f: [i64; 4])
    ensures
        usable(f) <==> f@[2] >= 200 && f@[3] >= 200,
{
}

/// The place next to a window has coordinates of 32 bits unless one of them is among the 28
/// largest ones, and the middle of a monitor has where the right and the lower edge of the
/// monitor have.
pub proof fn law_places_fit_where_the_screen_does(p: (i32, i32), m: Monitor)
    ensures
        next_fits(p) <==> p.0 + 28 <= i32::MAX && p.1 + 28 <= i32::MAX,
        m.width < 0x8000_0000 && m.height < 0x8000_0000 && m.x + m.width <= i32::MAX && m.y
            + m.height <= i32::MAX ==> center_fits(m),
{
}

// ---------------------------------------------------------------------------
// Windows
// ---------------------------------------------------------------------------

/// A window that is put into the registry has no tabs, has counted none, shows its tab bar
/// and is in the connection mode that was given. No other window is touched.
pub proof fn law_registered_window_is_empty(s: AppView, window: Seq<char>, mode: Seq<char>)
    ensures
        ({
            let s2 = registered(s, window, mode);
            let w = s2.strip[window];
            &&& s2.strip.dom() == s.strip.dom().insert(window)
            &&& w.tabs.len() == 0 && w.active == 0 && w.tab_seq == 0 && !w.strip_hidden
            &&& forall|v: Seq<char>|
                v != window && s.strip.contains_key(v) ==> #[trigger] s2.strip[v] == s.strip[v]
            &&& s2.window_modes == s.window_modes.insert(window, mode)
            &&& s2.raw_titles == s.raw_titles
            &&& s2.window_seq == s.window_seq && s2.reserved == s.reserved
        }),
{
}

/// A window that is gone leaves the registry, and the page titles of its tabs go with it.
/// All other windows, the page titles of all other tabs, the connection modes, the window
/// count and the reserved partitions stay.
pub proof fn law_forgotten_window_leaves_the_others(s: AppView, window: Seq<char>, tab: Seq<char>)
    requires
        s.strip.contains_key(window),
    ensures
        ({
            let s2 = forgotten(s, window).state;
            let own = exists|i: int|
                0 <= i < s.strip[window].tabs.len() && (#[trigger] s.strip[window].tabs[i]).label
                    == tab;
            &&& s2.strip.dom() == s.strip.dom().remove(window)
            &&& forall|v: Seq<char>|
                v != window && s.strip.contains_key(v) ==> #[trigger] s2.strip[v] == s.strip[v]
            &&& own ==> !s2.raw_titles.contains_key(tab)
            &&& !own ==> (s2.raw_titles.contains_key(tab) <==> s.raw_titles.contains_key(tab))
            &&& !own && s.raw_titles.contains_key(tab) ==> s2.raw_titles[tab] == s.raw_titles[tab]
            &&& s2.window_modes == s.window_modes
            &&& s2.window_seq == s.window_seq && s2.reserved == s.reserved
        }),
{
    let tabs = s.strip[window].tabs;
    let ls = labels(tabs);
    let s2 = forgotten(s, window).state;
    assert(s2.strip.dom() =~= s.strip.dom().remove(window));
    assert(s2.raw_titles == without_tabs(s.raw_titles, tabs));
    if exists|i: int| 0 <= i < tabs.len() && (#[trigger] tabs[i]).label == tab {
        let i = choose|i: int| 0 <= i < tabs.len() && (#[trigger] tabs[i]).label == tab;
        assert(ls[i] == tab);
        assert(ls.to_set().contains(tab));
    } else if ls.to_set().contains(tab) {
        let i = choose|i: int| 0 <= i < ls.len() && ls[i] == tab;
        assert(tabs[i].label == tab);
    }
}

/// For each tab of a window that is gone, in order, its visit is forgotten and then its
/// address; that is all. A window that was not known leaves nothing to do.
pub proof fn law_forgetting_takes_two_steps_a_tab(s: AppView, window: Seq<char>)
    ensures
        s.strip.contains_key(window) ==> {
            let tabs = s.strip[window].tabs;
            let es = forgotten(s, window).steps;
            &&& es.len() == 2 * tabs.len()
            &&& forall|i: int|
                0 <= i < tabs.len() ==> {
                    &&& es[2 * i] == EffectView::ForgetNavigated((#[trigger] tabs[i]).label)
                    &&& es[2 * i + 1] == EffectView::ForgetUrl(tabs[i].label)
                }
        },
        !s.strip.contains_key(window) ==> forgotten(s, window).state == s && forgotten(
            s,
            window,
        ).steps.len() == 0,
{
    if s.strip.contains_key(window) {
        lemma_forget_steps(s.strip[window].tabs);
    }
}

proof fn lemma_forget_steps(tabs: Seq<TabView>)
    ensures
        forget_steps(tabs).len() == 2 * tabs.len(),
        forall|i: int|
            0 <= i < tabs.len() ==> {
                &&& forget_steps(tabs)[2 * i] == EffectView::ForgetNavigated(
                    (#[trigger] tabs[i]).label,
                )
                &&& forget_steps(tabs)[2 * i + 1] == EffectView::ForgetUrl(tabs[i].label)
            },
    decreases tabs.len(),
{
    if tabs.len() > 0 {
        let init = tabs.drop_last();
        lemma_forget_steps(init);
        assert forall|i: int| 0 <= i < tabs.len() implies {
            &&& forget_steps(tabs)[2 * i] == EffectView::ForgetNavigated((#[trigger] tabs[i]).label)
            &&& forget_steps(tabs)[2 * i + 1] == EffectView::ForgetUrl(tabs[i].label)
        } by {
            if i < init.len() {
                assert(init[i] == tabs[i]);
            }
        }
    }
}

/// A snapshot of a known window lists its tabs in their order, each as it is, and its active
/// place; one of an unknown window lists none.
pub proof fn law_snapshot_lists_the_tabs(
    shot: Snapshot,
    s: AppView,
    window: Seq<char>,
    context: Context,
)
    requires
        shows(shot, s, window, context),
    ensures
        shot.window@ == window,
        s.strip.contains_key(window) ==> {
            &&& shot.tabs@.len() == s.strip[window].tabs.len()
            &&& forall|i: int|
                0 <= i < shot.tabs@.len() ==> (#[trigger] shot.tabs@[i])@ == s.strip[window].tabs[i]
            &&& shot.active == s.strip[window].active
            &&& shot.context == Some(context)
        },
        !s.strip.contains_key(window) ==> shot.tabs@.len() == 0 && shot.active == 0
            && shot.context is None,
{
    if s.strip.contains_key(window) {
        assert forall|i: int| 0 <= i < shot.tabs@.len() implies (#[trigger] shot.tabs@[i])@
            == s.strip[window].tabs[i] by {
            assert(tab_views(shot.tabs@)[i] == shot.tabs@[i]@);
        }
    }
}

/// A list of the windows names every window of the registry, names no other, and names none
/// twice.
pub proof fn law_listed_windows_are_the_known_ones(
    order: Seq<Seq<char>>,
    s: AppView,
    window: Seq<char>,
    i: int,
    j: int,
)
    requires
        lists_windows(order, s),
    ensures
        s.strip.contains_key(window) ==> exists|k: int|
            0 <= k < order.len() && #[trigger] order[k] == window,
        0 <= i < order.len() ==> s.strip.contains_key(order[i]),
        0 <= i < j < order.len() ==> order[i] != order[j],
{
    if s.strip.contains_key(window) {
        assert(order.contains(window));
    }
    if 0 <= i < order.len() {
        assert(order.contains(order[i]));
    }
}

/// Each window gets one title, in order, made of the page title of its active tab.
pub proof fn law_every_window_gets_its_title(s: AppView, order: Seq<Seq<char>>, i: int)
    requires
        s.valid(),
        0 <= i < order.len(),
        s.strip.contains_key(order[i]),
        s.strip[order[i]].tabs.len() > 0,
    ensures
        all_titles(s, order).len() == order.len(),
        ({
            let w = s.strip[order[i]];
            let front = w.tabs[w.active].label;
            &&& s.raw_titles.contains_key(front) ==> all_titles(s, order)[i]
                == EffectView::RefreshTitle(order[i], s.raw_titles[front])
            &&& !s.raw_titles.contains_key(front) ==> all_titles(s, order)[i]
                == EffectView::RefreshTitle(order[i], Seq::empty())
        }),
{
}

/// The script of a tab bar sets its window's label, between quotes, and nothing else.
pub proof fn law_strip_script_names_the_window(window: Seq<char>)
    ensures
        ({
            let js = strip_script(window);
            let head = "window.__HERMES_WIN = '"@.len() as int;
            &&& js.len() == head + window.len() + 2
            &&& js.take(head) == "window.__HERMES_WIN = '"@
            &&& js.subrange(head, head + window.len()) == window
            &&& js.skip(head + window.len()) == "';"@
        }),
{
    reveal_strlit("';");
    let js = strip_script(window);
    let head = "window.__HERMES_WIN = '"@.len() as int;
    assert(js.take(head) =~= "window.__HERMES_WIN = '"@);
    assert(js.subrange(head, head + window.len()) =~= window);
    assert(js.skip(head + window.len()) =~= "';"@);
}

// ---------------------------------------------------------------------------
// Menus
// ---------------------------------------------------------------------------

/// The identifiers of menu entries.
pub open spec fn menu_ids() -> Seq<Seq<char>> {
    seq![
        "preferences"@,
        "whats_new"@,
        "toggle_strip"@,
        "new_window"@,
        "new_tab"@,
        "paste"@,
        "reload"@,
        "reload_all"@,
        "copy_version"@,
        "quit"@,
        "check_updates"@,
        "reveal_logs"@,
        "zoom_in"@,
        "zoom_out"@,
        "zoom_reset"@,
        "find"@,
        "find_next"@,
        "find_prev"@,
        "open_browser"@,
        "show_main"@,
        "show_tab_bar"@,
    ]
}

proof fn lemma_menu_ids_differ()
    ensures
        menu_ids().no_duplicates(),
{
    reveal_strlit("preferences");
    reveal_strlit("whats_new");
    reveal_strlit("toggle_strip");
    reveal_strlit("new_window");
    reveal_strlit("new_tab");
    reveal_strlit("paste");
    reveal_strlit("reload");
    reveal_strlit("reload_all");
    reveal_strlit("copy_version");
    reveal_strlit("quit");
    reveal_strlit("check_updates");
    reveal_strlit("reveal_logs");
    reveal_strlit("zoom_in");
    reveal_strlit("zoom_out");
    reveal_strlit("zoom_reset");
    reveal_strlit("find");
    reveal_strlit("find_next");
    reveal_strlit("find_prev");
    reveal_strlit("open_browser");
    reveal_strlit("show_main");
    reveal_strlit("show_tab_bar");
    let ids = menu_ids();
    // Identifiers of one length differ in their first or in their sixth character.
    assert forall|i: int, j: int| 0 <= i < ids.len() && 0 <= j < ids.len() && i != j implies ids[i]
        != ids[j] by {
        assert(ids[i].len() == ids[j].len() ==> ids[i][0] != ids[j][0] || ids[i][5] != ids[j][5]);
    }
}

/// Each menu entry does what it is called, on every platform, and what it does no other entry
/// does. Only the native tab bar is shown on macOS alone.
pub proof fn law_menu_entries_do_what_they_are_called(id: Seq<char>, macos: bool)
    ensures
        ({
            let a = action_of(id, macos);
            &&& a is Preferences <==> id == "preferences"@
            &&& a is WhatsNew <==> id == "whats_new"@
            &&& a is ToggleStrip <==> id == "toggle_strip"@
            &&& a is NewWindow <==> id == "new_window"@
            &&& a is NewTab <==> id == "new_tab"@
            &&& a is Paste <==> id == "paste"@
            &&& a is CopyVersion <==> id == "copy_version"@
            &&& a is Quit <==> id == "quit"@
            &&& a is CheckUpdates <==> id == "check_updates"@
            &&& a is RevealLogs <==> id == "reveal_logs"@
            &&& a is ZoomReset <==> id == "zoom_reset"@
            &&& a is OpenBrowser <==> id == "open_browser"@
            &&& a is ShowMain <==> id == "show_main"@
            &&& a is ShowTabBar <==> id == "show_tab_bar"@ && macos
        }),
{
    lemma_menu_ids_differ();
    let ids = menu_ids();
    assert(ids[0] == "preferences"@ && ids[1] == "whats_new"@ && ids[2] == "toggle_strip"@);
    assert(ids[3] == "new_window"@ && ids[4] == "new_tab"@ && ids[5] == "paste"@);
    assert(ids[6] == "reload"@ && ids[7] == "reload_all"@ && ids[8] == "copy_version"@);
    assert(ids[9] == "quit"@ && ids[10] == "check_updates"@ && ids[11] == "reveal_logs"@);
    assert(ids[12] == "zoom_in"@ && ids[13] == "zoom_out"@ && ids[14] == "zoom_reset"@);
    assert(ids[15] == "find"@ && ids[16] == "find_next"@ && ids[17] == "find_prev"@);
    assert(ids[18] == "open_browser"@ && ids[19] == "show_main"@ && ids[20] == "show_tab_bar"@);
}

/// The entries that zoom do so by ten percent, up or down, and the entries that speak to
/// pages run one script each, in the page in front or in all. A text that is no identifier
/// does nothing, and of the identifiers only that of the native tab bar ever does.
pub proof fn law_menu_entries_zoom_and_run_scripts(id: Seq<char>, macos: bool)
    ensures
        ({
            let a = action_of(id, macos);
            &&& a == MenuActionView::Zoom(10) <==> id == "zoom_in"@
            &&& a == MenuActionView::Zoom((-10) as i32) <==> id == "zoom_out"@
            &&& a is Zoom <==> id == "zoom_in"@ || id == "zoom_out"@
            &&& a is EvalAll <==> id == "reload_all"@
            &&& a is EvalAll ==> a == MenuActionView::EvalAll("location.reload();"@)
            &&& a is EvalActive <==> id == "reload"@ || id == "find"@ || id == "find_next"@ || id
                == "find_prev"@
            &&& id == "reload"@ ==> a == MenuActionView::EvalActive("location.reload();"@)
            &&& id == "find"@ ==> a == MenuActionView::EvalActive(
                "window.__hermesFindToggle && window.__hermesFindToggle();"@,
            )
            &&& id == "find_next"@ ==> a == MenuActionView::EvalActive(
                "window.__hermesFindNext && window.__hermesFindNext(true);"@,
            )
            &&& id == "find_prev"@ ==> a == MenuActionView::EvalActive(
                "window.__hermesFindNext && window.__hermesFindNext(false);"@,
            )
            &&& a is Ignore <==> !menu_ids().contains(id) || (id == "show_tab_bar"@ && !macos)
        }),
{
    lemma_menu_ids_differ();
    let ids = menu_ids();
    assert(ids[0] == "preferences"@ && ids[1] == "whats_new"@ && ids[2] == "toggle_strip"@);
    assert(ids[3] == "new_window"@ && ids[4] == "new_tab"@ && ids[5] == "paste"@);
    assert(ids[6] == "reload"@ && ids[7] == "reload_all"@ && ids[8] == "copy_version"@);
    assert(ids[9] == "quit"@ && ids[10] == "check_updates"@ && ids[11] == "reveal_logs"@);
    assert(ids[12] == "zoom_in"@ && ids[13] == "zoom_out"@ && ids[14] == "zoom_reset"@);
    assert(ids[15] == "find"@ && ids[16] == "find_next"@ && ids[17] == "find_prev"@);
    assert(ids[18] == "open_browser"@ && ids[19] == "show_main"@ && ids[20] == "show_tab_bar"@);
}

/// The windows of the program are those whose label begins with `main-`, whatever follows.
pub proof fn law_browser_windows_are_the_main_ones(label: Seq<char>, rest: Seq<char>)
    ensures
        browser_window("main-"@ + rest),
        browser_window(label) ==> label.len() >= 5 && label == "main-"@ + label.skip(5),
{
    reveal_strlit("main-");
    let l = "main-"@ + rest;
    assert("main-"@ =~= l.subrange(0, 5));
    if browser_window(label) {
        assert(label =~= label.subrange(0, 5) + label.skip(5));
    }
}

} // verus!
