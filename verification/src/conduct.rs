//! What the operations on tabs do, told by the registry before and after and by the steps
//! that the shell is given.
use vstd::prelude::*;

use crate::effect::EffectView;
use crate::label::{owner_window, strip_label};
use crate::laws::lemma_index_of_own_label;
use crate::layout::{hidden_in, layout_steps, toggled, top_of};
use crate::state::{labels, AppView, WindowView};
use crate::tabs::{
    closed, cycled, first_focused, front_window, landing, lemma_moved_valid, lemma_ring,
    lemma_without_distinct, reordered, selected, WindowHandle,
};

verus! {

// ---------------------------------------------------------------------------
// Vocabulary
// ---------------------------------------------------------------------------

/// The window is known, and this is the place of its first tab with this label.
pub open spec fn stands_at(s: AppView, window: Seq<char>, tab: Seq<char>, i: int) -> bool {
    &&& s.strip.contains_key(window)
    &&& 0 <= i < s.strip[window].tabs.len()
    &&& s.strip[window].tabs[i].label == tab
    &&& forall|j: int| 0 <= j < i ==> (#[trigger] s.strip[window].tabs[j]).label != tab
}

/// The window is unknown, or none of its tabs has this label.
pub open spec fn stands_nowhere(s: AppView, window: Seq<char>, tab: Seq<char>) -> bool {
    s.strip.contains_key(window) ==> forall|j: int|
        0 <= j < s.strip[window].tabs.len() ==> (#[trigger] s.strip[window].tabs[j]).label != tab
}

/// No two tabs of the window have the same label.
pub open spec fn labels_differ(w: WindowView) -> bool {
    forall|j: int, k: int|
        0 <= j < k < w.tabs.len() ==> (#[trigger] w.tabs[j]).label != (#[trigger] w.tabs[k]).label
}

/// All windows but this one are the same, and so are the ones that exist.
pub open spec fn other_windows_same(s: AppView, s2: AppView, window: Seq<char>) -> bool {
    &&& s2.strip.dom() == s.strip.dom()
    &&& forall|v: Seq<char>|
        v != window && s.strip.contains_key(v) ==> #[trigger] s2.strip[v] == s.strip[v]
    &&& s2.window_modes == s.window_modes
    &&& s2.window_seq == s.window_seq
    &&& s2.reserved == s.reserved
}

/// The page title that is remembered of a tab; the empty one where there is none.
pub open spec fn remembered(s: AppView, tab: Seq<char>) -> Seq<char> {
    if s.raw_titles.contains_key(tab) {
        s.raw_titles[tab]
    } else {
        Seq::empty()
    }
}

pub proof fn lemma_found(s: AppView, window: Seq<char>, tab: Seq<char>, i: int)
    ensures
        stands_at(s, window, tab, i) ==> s.find(window, tab) == Some(i),
        stands_nowhere(s, window, tab) ==> s.find(window, tab) is None,
{
    if s.strip.contains_key(window) {
        let tabs = s.strip[window].tabs;
        let ls = labels(tabs);
        ls.index_of_first_ensures(tab);
        assert(forall|j: int| 0 <= j < ls.len() ==> ls[j] == (#[trigger] tabs[j]).label);
        if stands_at(s, window, tab, i) {
            assert(ls[i] == tab);
            assert(ls.contains(tab));
            let k = ls.index_of_first(tab)->0;
            if k < i {
                assert(tabs[k].label == tab);
            }
        }
        if stands_nowhere(s, window, tab) && ls.contains(tab) {
            let k = choose|k: int| 0 <= k < ls.len() && ls[k] == tab;
            assert(tabs[k].label == tab);
        }
    }
}

pub proof fn lemma_differ(w: WindowView)
    ensures
        labels_differ(w) <==> w.distinct(),
{
    let ls = labels(w.tabs);
    if w.distinct() {
        assert forall|j: int, k: int| 0 <= j < k < w.tabs.len() implies (
        #[trigger] w.tabs[j]).label != (#[trigger] w.tabs[k]).label by {
            assert(ls[j] != ls[k]);
        }
    }
    if labels_differ(w) {
        assert forall|j: int, k: int| 0 <= j < ls.len() && 0 <= k < ls.len() && j != k implies ls[j]
            != ls[k] by {
            assert(ls[j] == w.tabs[j].label && ls[k] == w.tabs[k].label);
        }
    }
}

// ---------------------------------------------------------------------------
// Selecting
// ---------------------------------------------------------------------------

/// Selecting a tab makes it the active one of its window and changes nothing else. The tab
/// that was active is hidden and told so, unless it is the same one; the selected one is
/// fitted below the tab bar, except on Linux, shown, focused and told so. Then the tab bar
/// and the window title follow, the title being made of the selected tab's page title; its
/// profile is read, and the session is saved last.
pub proof fn law_select_brings_to_the_front(
    s: AppView,
    window: Seq<char>,
    tab: Seq<char>,
    i: int,
    linux: bool,
)
    requires
        stands_at(s, window, tab, i),
        0 <= s.strip[window].active < s.strip[window].tabs.len(),
    ensures
        ({
            let w = s.strip[window];
            let o = selected(s, window, tab, linux);
            let w2 = o.state.strip[window];
            let was = w.tabs[w.active].label;
            let leaving = seq![EffectView::HideTab(was), EffectView::Background(was, true)];
            let fitting = seq![
                EffectView::FitTab(
                    tab,
                    if w.strip_hidden {
                        0
                    } else {
                        38
                    },
                ),
            ];
            let coming = seq![
                EffectView::ShowTab(tab),
                EffectView::FocusTab(tab),
                EffectView::Background(tab, false),
                EffectView::EmitTabs(window),
                EffectView::RefreshTitle(window, remembered(s, tab)),
                EffectView::CaptureProfile(window, tab),
                EffectView::Persist,
            ];
            &&& w2.active == i
            &&& w2.tabs == w.tabs && w2.tab_seq == w.tab_seq && w2.strip_hidden == w.strip_hidden
            &&& other_windows_same(s, o.state, window) && o.state.raw_titles == s.raw_titles
            &&& was != tab && linux ==> o.steps == leaving + coming
            &&& was != tab && !linux ==> o.steps == leaving + fitting + coming
            &&& was == tab && linux ==> o.steps == coming
            &&& was == tab && !linux ==> o.steps == fitting + coming
        }),
{
    lemma_found(s, window, tab, i);
    let o = selected(s, window, tab, linux);
    assert(o.state.strip.dom() =~= s.strip.dom());
    assert(o.state.active_tab(window) == Some(tab));
}

/// Selecting, moving or closing what is not there does nothing, except that a window with at
/// most one tab is closed whatever tab was meant.
pub proof fn law_unknown_tabs_are_left_alone(
    s: AppView,
    window: Seq<char>,
    tab: Seq<char>,
    new_index: int,
    linux: bool,
)
    requires
        stands_nowhere(s, window, tab),
    ensures
        selected(s, window, tab, linux).state == s,
        selected(s, window, tab, linux).steps.len() == 0,
        reordered(s, window, tab, new_index).state == s,
        reordered(s, window, tab, new_index).steps.len() == 0,
        closed(s, window, tab, linux).state == s,
        !s.strip.contains_key(window) || s.strip[window].tabs.len() > 1 ==> closed(
            s,
            window,
            tab,
            linux,
        ).steps.len() == 0,
{
    lemma_found(s, window, tab, 0);
}

// ---------------------------------------------------------------------------
// Closing
// ---------------------------------------------------------------------------

/// Closing a tab takes that tab out and leaves the others in their order. The place of the
/// active tab follows it: one less where a tab before it went, the same where one after it
/// did; where the active tab itself went, its right neighbour moved up to its place, or the
/// last tab is active. The page title of the tab is forgotten, and no other.
pub proof fn law_close_takes_one_tab(
    s: AppView,
    window: Seq<char>,
    tab: Seq<char>,
    i: int,
    linux: bool,
)
    requires
        stands_at(s, window, tab, i),
        0 <= s.strip[window].active < s.strip[window].tabs.len(),
        labels_differ(s.strip[window]),
        s.strip[window].tabs.len() > 1,
    ensures
        ({
            let w = s.strip[window];
            let s2 = closed(s, window, tab, linux).state;
            let w2 = s2.strip[window];
            &&& w2.tabs == w.tabs.remove(i)
            &&& i < w.active ==> w2.active == w.active - 1
            &&& i > w.active ==> w2.active == w.active
            &&& i == w.active && i + 1 < w.tabs.len() ==> w2.active == i
            &&& i == w.active && i + 1 == w.tabs.len() ==> w2.active == i - 1
            &&& w2.tab_seq == w.tab_seq && w2.strip_hidden == w.strip_hidden
            &&& other_windows_same(s, s2, window)
            &&& !s2.raw_titles.contains_key(tab)
            &&& forall|t: Seq<char>|
                t != tab ==> remembered(s2, t) == #[trigger] remembered(s, t) && (
                s2.raw_titles.contains_key(t) <==> s.raw_titles.contains_key(t))
        }),
{
    lemma_found(s, window, tab, i);
    let w = s.strip[window];
    let w1 = w.without(i);
    lemma_differ(w);
    lemma_without_distinct(w, i);
    lemma_index_of_own_label(w1, w1.active);
    let s2 = closed(s, window, tab, linux).state;
    assert(s2.strip.dom() =~= s.strip.dom());
}

/// Closing a tab first forgets its visit and its address, then destroys its webview, then
/// deletes its data partition and no other; after that the tab that is now active comes to
/// the front just as if it were selected, and the session is saved last.
pub proof fn law_close_steps(
    s: AppView,
    window: Seq<char>,
    tab: Seq<char>,
    i: int,
    linux: bool,
)
    requires
        stands_at(s, window, tab, i),
        0 <= s.strip[window].active < s.strip[window].tabs.len(),
        labels_differ(s.strip[window]),
        s.strip[window].tabs.len() > 1,
    ensures
        ({
            let o = closed(s, window, tab, linux);
            let w2 = o.state.strip[window];
            let front = selected(o.state, window, w2.tabs[w2.active].label, linux);
            &&& front.state == o.state
            &&& front.steps.len() > 0
            &&& o.steps == seq![
                EffectView::ForgetNavigated(tab),
                EffectView::ForgetUrl(tab),
                EffectView::CloseTab(tab),
                EffectView::RemovePartition(s.strip[window].tabs[i].partition),
            ] + front.steps + seq![EffectView::Persist]
        }),
{
    lemma_found(s, window, tab, i);
    let w = s.strip[window];
    let w1 = w.without(i);
    lemma_differ(w);
    lemma_without_distinct(w, i);
    lemma_index_of_own_label(w1, w1.active);
    let o = closed(s, window, tab, linux);
    let w2 = o.state.strip[window];
    assert(w2 =~= w1);
    let front = selected(o.state, window, w2.tabs[w2.active].label, linux);
    assert(front.state.strip =~= o.state.strip);
    assert(front.state =~= o.state);
}

/// The last tab of a window takes the window along: the shell is told to close it and
/// nothing else, and the registry waits until it is gone.
pub proof fn law_last_tab_closes_its_window(
    s: AppView,
    window: Seq<char>,
    tab: Seq<char>,
    linux: bool,
)
    requires
        s.strip.contains_key(window),
        s.strip[window].tabs.len() <= 1,
    ensures
        closed(s, window, tab, linux).state == s,
        closed(s, window, tab, linux).steps == seq![EffectView::CloseWindow(window)],
{
}

// ---------------------------------------------------------------------------
// Cycling
// ---------------------------------------------------------------------------

/// However many tabs there are, going forward from a tab that is not the last activates the
/// one right after it, and from the last one the first; going backward activates the one
/// right before it, and from the first one the last.
pub proof fn law_cycle_goes_to_the_neighbour(
    s: AppView,
    tab: Seq<char>,
    window: Seq<char>,
    linux: bool,
)
    requires
        owner_window(tab) == Some(window),
        s.strip.contains_key(window),
        s.strip[window].tabs.len() >= 2,
        0 <= s.strip[window].active < s.strip[window].tabs.len(),
        labels_differ(s.strip[window]),
    ensures
        ({
            let w = s.strip[window];
            let last = w.tabs.len() - 1;
            let ahead = cycled(s, tab, true, linux).state.strip[window];
            let back = cycled(s, tab, false, linux).state.strip[window];
            &&& w.active < last ==> ahead.active == w.active + 1
            &&& w.active == last ==> ahead.active == 0
            &&& w.active > 0 ==> back.active == w.active - 1
            &&& w.active == 0 ==> back.active == last
            &&& ahead.tabs == w.tabs && back.tabs == w.tabs
        }),
{
    let w = s.strip[window];
    lemma_ring(w.active, w.tabs.len() as int);
    lemma_differ(w);
    lemma_index_of_own_label(w, w.neighbour(true));
    lemma_index_of_own_label(w, w.neighbour(false));
}

/// Cycling is selecting: whatever tab it makes active, everything goes as if that tab had
/// been selected. A window with fewer than two tabs, an unknown one, and a label that names
/// no window are left alone.
pub proof fn law_cycle_selects(s: AppView, tab: Seq<char>, forward: bool, linux: bool)
    requires
        s.valid(),
        owner_window(tab) is Some && s.strip.contains_key(owner_window(tab)->0) ==> labels_differ(
            s.strip[owner_window(tab)->0],
        ),
    ensures
        ({
            let o = cycled(s, tab, forward, linux);
            match owner_window(tab) {
                Some(v) => if s.strip.contains_key(v) && s.strip[v].tabs.len() >= 2 {
                    let w2 = o.state.strip[v];
                    o == selected(s, v, s.strip[v].tabs[w2.active].label, linux)
                } else {
                    o.state == s && o.steps.len() == 0
                },
                None => o.state == s && o.steps.len() == 0,
            }
        }),
{
    match owner_window(tab) {
        Some(v) => if s.strip.contains_key(v) && s.strip[v].tabs.len() >= 2 {
            let w = s.strip[v];
            lemma_ring(w.active, w.tabs.len() as int);
            lemma_differ(w);
            lemma_index_of_own_label(w, w.neighbour(forward));
        },
        None => {},
    }
}

// ---------------------------------------------------------------------------
// Moving
// ---------------------------------------------------------------------------

/// Moving a tab puts it at the place that was asked for, or at the end where that is too
/// far, and leaves the other tabs in their order. The active tab stays active, whichever it
/// is. The tab bar follows and the session is saved, unless the tab stood there already.
pub proof fn law_move_keeps_the_order(
    s: AppView,
    window: Seq<char>,
    tab: Seq<char>,
    from: int,
    new_index: int,
)
    requires
        stands_at(s, window, tab, from),
        0 <= s.strip[window].active < s.strip[window].tabs.len(),
        0 <= new_index,
    ensures
        ({
            let w = s.strip[window];
            let last = w.tabs.len() - 1;
            let to = if new_index <= last {
                new_index
            } else {
                last
            };
            let o = reordered(s, window, tab, new_index);
            let w2 = o.state.strip[window];
            &&& w2.tabs.len() == w.tabs.len()
            &&& w2.tabs[to] == w.tabs[from]
            &&& w2.tabs.remove(to) == w.tabs.remove(from)
            &&& 0 <= w2.active < w2.tabs.len()
            &&& w2.tabs[w2.active].label == w.tabs[w.active].label
            &&& w2.tab_seq == w.tab_seq && w2.strip_hidden == w.strip_hidden
            &&& other_windows_same(s, o.state, window) && o.state.raw_titles == s.raw_titles
            &&& from == to ==> o.state == s && o.steps.len() == 0
            &&& from != to ==> o.steps == seq![EffectView::EmitTabs(window), EffectView::Persist]
        }),
{
    lemma_found(s, window, tab, from);
    let w = s.strip[window];
    let to = landing(w, new_index);
    let o = reordered(s, window, tab, new_index);
    assert(o.state.strip.dom() =~= s.strip.dom());
    if from != to {
        lemma_moved_valid(w, from, to);
        let w2 = w.moved(from, to);
        assert(w2.tabs.remove(to) =~= w.tabs.remove(from));
    }
}

// ---------------------------------------------------------------------------
// The tab in front
// ---------------------------------------------------------------------------

/// The active tab of a known window with tabs is the one at its active place; a window
/// without tabs, and one that is not known, has none. A window's title is made of the page
/// title of that tab.
pub proof fn law_active_tab_is_the_one_marked(s: AppView, window: Seq<char>)
    requires
        s.valid(),
    ensures
        s.strip.contains_key(window) && s.strip[window].tabs.len() > 0 ==> {
            let t = s.strip[window].tabs[s.strip[window].active];
            &&& s.active_tab(window) == Some(t.label)
            &&& s.window_raw_title(window) == remembered(s, t.label)
            &&& s.raw_title(t.label) == remembered(s, t.label)
        },
        !(s.strip.contains_key(window) && s.strip[window].tabs.len() > 0) ==> {
            &&& s.active_tab(window) is None
            &&& s.window_raw_title(window).len() == 0
        },
{
}

/// Among open windows the first one that has the focus is in front, and the last one where
/// none has it.
pub proof fn law_focused_window_is_in_front(handles: Seq<WindowHandle>, i: int)
    requires
        0 <= i < handles.len(),
    ensures
        handles[i].focused && (forall|j: int| 0 <= j < i ==> !(#[trigger] handles[j]).focused)
            ==> front_window(handles) == Some(handles[i].label@),
        (forall|j: int| 0 <= j < handles.len() ==> !(#[trigger] handles[j]).focused)
            ==> front_window(handles) == Some(handles[handles.len() - 1].label@),
{
    lemma_first_focused(handles, i);
}

proof fn lemma_first_focused(handles: Seq<WindowHandle>, i: int)
    requires
        0 <= i < handles.len(),
    ensures
        handles[i].focused && (forall|j: int| 0 <= j < i ==> !(#[trigger] handles[j]).focused)
            ==> first_focused(handles) == Some(handles[i]),
        (forall|j: int| 0 <= j < handles.len() ==> !(#[trigger] handles[j]).focused)
            ==> first_focused(handles) is None,
    decreases handles.len(),
{
    let rest = handles.drop_first();
    assert(forall|j: int| 0 <= j < rest.len() ==> #[trigger] rest[j] == handles[j + 1]);
    if rest.len() > 0 {
        lemma_first_focused(
            rest,
            if i > 0 {
                i - 1
            } else {
                0
            },
        );
    }
}

// ---------------------------------------------------------------------------
// The tab bar
// ---------------------------------------------------------------------------

/// Tabs begin below the tab bar, which is 38 pixels high, and at the top of the window where
/// the bar is hidden. The bar of an unknown window counts as shown.
pub proof fn law_tabs_begin_below_the_bar(s: AppView, window: Seq<char>)
    ensures
        s.strip.contains_key(window) && s.strip[window].strip_hidden ==> hidden_in(s, window)
            && top_of(s, window) == 0,
        !(s.strip.contains_key(window) && s.strip[window].strip_hidden) ==> !hidden_in(s, window)
            && top_of(s, window) == 38,
{
}

/// Laying a window out shows its tab bar, or hides it where it is to be hidden, and fits the
/// active tab below it; a window without tabs has none to fit.
pub proof fn law_layout_fits_bar_and_tab(s: AppView, window: Seq<char>)
    requires
        s.valid(),
        s.strip.contains_key(window),
    ensures
        ({
            let w = s.strip[window];
            let es = layout_steps(s, window);
            &&& w.strip_hidden ==> es[0] == EffectView::HideStrip(strip_label(window))
            &&& !w.strip_hidden ==> es[0] == EffectView::ShowStrip(strip_label(window))
            &&& w.tabs.len() == 0 ==> es.len() == 1
            &&& w.tabs.len() > 0 ==> {
                &&& es.len() == 2
                &&& w.strip_hidden ==> es[1] == EffectView::FitTab(w.tabs[w.active].label, 0)
                &&& !w.strip_hidden ==> es[1] == EffectView::FitTab(w.tabs[w.active].label, 38)
            }
        }),
{
}

/// Toggling the tab bar of a known window hides a bar that is shown and shows one that is
/// hidden. Nothing else of the registry changes. The window is laid out as it then stands,
/// where its size is known, and one hint follows at most.
pub proof fn law_toggle_turns_the_bar(
    s: AppView,
    window: Seq<char>,
    measured: bool,
    hint_shown: bool,
)
    requires
        s.strip.contains_key(window),
    ensures
        ({
            let w = s.strip[window];
            let o = toggled(s, window, false, measured, hint_shown);
            let w2 = o.state.strip[window];
            let placed = if measured {
                layout_steps(o.state, window)
            } else {
                Seq::empty()
            };
            &&& w2.strip_hidden != w.strip_hidden
            &&& w2.tabs == w.tabs && w2.active == w.active && w2.tab_seq == w.tab_seq
            &&& other_windows_same(s, o.state, window) && o.state.raw_titles == s.raw_titles
            &&& hint_shown ==> o.steps == placed
            &&& !hint_shown && w2.strip_hidden ==> o.steps == placed.push(
                EffectView::Notify("Tab bar hidden"@, "Press Ctrl+Shift+B to show it again."@),
            )
            &&& !hint_shown && !w2.strip_hidden ==> o.steps == placed.push(EffectView::RetireHint)
        }),
{
    let o = toggled(s, window, false, measured, hint_shown);
    assert(o.state.strip.dom() =~= s.strip.dom());
}

/// On Linux, and for a window that is not known, toggling the tab bar does nothing.
pub proof fn law_toggle_is_off_on_linux(
    s: AppView,
    window: Seq<char>,
    linux: bool,
    measured: bool,
    hint_shown: bool,
)
    requires
        linux || !s.strip.contains_key(window),
    ensures
        toggled(s, window, linux, measured, hint_shown).state == s,
        toggled(s, window, linux, measured, hint_shown).steps.len() == 0,
{
}

} // verus!
