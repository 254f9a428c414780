//! What the tab bar shows after a page, the user or a cookie has said something about a tab.
use vstd::prelude::*;

use crate::conduct::{
    lemma_found, other_windows_same, remembered, stands_at, stands_nowhere,
};
use crate::effect::EffectView;
use crate::label::owner_window;
use crate::newtab::{profile_of, CookieView};
use crate::profiles::{all_captures, captured, window_captures};
use crate::state::{AppView, WindowView};
use crate::text::{trimmed, white_space};
use crate::titles::{busied, dotted, given_name, renamed, titled};
use crate::wording::law_trimmed_has_no_blank_ends;

verus! {

/// The windows are the same but for the tab at `i`: the other tabs, the active place, the
/// count and the tab bar are as they were, and so is the label of that tab.
pub open spec fn same_but_tab(w: WindowView, w2: WindowView, i: int) -> bool {
    &&& w2.tabs.len() == w.tabs.len()
    &&& forall|j: int| 0 <= j < w.tabs.len() && j != i ==> #[trigger] w2.tabs[j] == w.tabs[j]
    &&& w2.tabs[i].label == w.tabs[i].label
    &&& w2.active == w.active
    &&& w2.tab_seq == w.tab_seq
    &&& w2.strip_hidden == w.strip_hidden
}

// ---------------------------------------------------------------------------
// Page titles
// ---------------------------------------------------------------------------

/// After a page reported its title, a tab without a name of the user's shows what that title
/// makes, whatever it showed before, and one that has such a name keeps what it shows. The
/// tab asks for attention exactly where the page does. Nothing else of it changes, nor any
/// other tab or window, and the page title is remembered.
pub proof fn law_page_title_is_shown(
    s: AppView,
    window: Seq<char>,
    tab: Seq<char>,
    i: int,
    title: Seq<char>,
    attention: bool,
    displayed: Seq<char>,
)
    requires
        owner_window(tab) == Some(window),
        stands_at(s, window, tab, i),
    ensures
        ({
            let t = s.strip[window].tabs[i];
            let s2 = titled(s, tab, title, attention, displayed).state;
            let t2 = s2.strip[window].tabs[i];
            &&& t.custom_title is None ==> t2.title == displayed
            &&& t.custom_title is Some ==> t2.title == t.title
            &&& t2.attention == attention
            &&& t2.custom_title == t.custom_title && t2.busy == t.busy
            &&& t2.profile == t.profile && t2.dot_profile == t.dot_profile
            &&& t2.partition == t.partition
            &&& same_but_tab(s.strip[window], s2.strip[window], i)
            &&& other_windows_same(s, s2, window)
            &&& s2.raw_titles == s.raw_titles.insert(tab, title)
        }),
{
    let s1 = AppView { raw_titles: s.raw_titles.insert(tab, title), ..s };
    lemma_found(s1, window, tab, i);
    let s2 = titled(s, tab, title, attention, displayed).state;
    assert(s2.strip.dom() =~= s.strip.dom());
}

/// The tab bar is told where the tab then shows another name or another call for attention,
/// and the window title is made anew from the page title of the active tab, which is the new
/// one where the report came from that tab. Otherwise nobody is told.
pub proof fn law_page_title_is_told_when_it_differs(
    s: AppView,
    window: Seq<char>,
    tab: Seq<char>,
    i: int,
    title: Seq<char>,
    attention: bool,
    displayed: Seq<char>,
)
    requires
        owner_window(tab) == Some(window),
        stands_at(s, window, tab, i),
        0 <= s.strip[window].active < s.strip[window].tabs.len(),
    ensures
        ({
            let w = s.strip[window];
            let t = w.tabs[i];
            let es = titled(s, tab, title, attention, displayed).steps;
            let front = w.tabs[w.active].label;
            let news = (t.custom_title is None && t.title != displayed) || t.attention != attention;
            &&& news ==> es == seq![
                EffectView::EmitTabs(window),
                EffectView::RefreshTitle(
                    window,
                    if front == tab {
                        title
                    } else {
                        remembered(s, front)
                    },
                ),
            ]
            &&& !news ==> es.len() == 0
        }),
{
    let s1 = AppView { raw_titles: s.raw_titles.insert(tab, title), ..s };
    lemma_found(s1, window, tab, i);
    let w = s.strip[window];
    let s2 = titled(s, tab, title, attention, displayed).state;
    assert(s2.strip[window].tabs[w.active].label == w.tabs[w.active].label);
    assert(s2.active_tab(window) == Some(w.tabs[w.active].label));
}

/// A title of a tab that the registry does not know is only remembered; one from a webview
/// that is no tab is not even that.
pub proof fn law_title_of_an_unknown_tab_is_kept(
    s: AppView,
    tab: Seq<char>,
    title: Seq<char>,
    attention: bool,
    displayed: Seq<char>,
)
    ensures
        ({
            let o = titled(s, tab, title, attention, displayed);
            match owner_window(tab) {
                Some(v) => stands_nowhere(s, v, tab) ==> {
                    &&& o.steps.len() == 0
                    &&& o.state.strip == s.strip
                    &&& o.state.raw_titles == s.raw_titles.insert(tab, title)
                    &&& other_windows_same(s, o.state, v)
                },
                None => o.state == s && o.steps.len() == 0,
            }
        }),
{
    if owner_window(tab) is Some {
        let s1 = AppView { raw_titles: s.raw_titles.insert(tab, title), ..s };
        lemma_found(s1, owner_window(tab)->0, tab, 0);
    }
}

// ---------------------------------------------------------------------------
// Profile dot and busy flag
// ---------------------------------------------------------------------------

/// The dot of a tab takes the profile that its page reported, and none where the reported
/// name is empty. Nothing else changes, and the tab bar is told where the dot did.
pub proof fn law_dot_follows_the_report(
    s: AppView,
    window: Seq<char>,
    tab: Seq<char>,
    i: int,
    name: Seq<char>,
)
    requires
        owner_window(tab) == Some(window),
        stands_at(s, window, tab, i),
    ensures
        ({
            let t = s.strip[window].tabs[i];
            let o = dotted(s, tab, name);
            let t2 = o.state.strip[window].tabs[i];
            &&& name.len() == 0 ==> t2.dot_profile is None
            &&& name.len() > 0 ==> t2.dot_profile == Some(name)
            &&& t2.title == t.title && t2.custom_title == t.custom_title
            &&& t2.attention == t.attention && t2.busy == t.busy
            &&& t2.profile == t.profile && t2.partition == t.partition
            &&& same_but_tab(s.strip[window], o.state.strip[window], i)
            &&& other_windows_same(s, o.state, window) && o.state.raw_titles == s.raw_titles
            &&& t2.dot_profile == t.dot_profile ==> o.steps.len() == 0
            &&& t2.dot_profile != t.dot_profile ==> o.steps == seq![EffectView::EmitTabs(window)]
        }),
{
    lemma_found(s, window, tab, i);
    let o = dotted(s, tab, name);
    let t = s.strip[window].tabs[i];
    let t2 = o.state.strip[window].tabs[i];
    assert(o.state.strip.dom() =~= s.strip.dom());
    if t2.dot_profile == t.dot_profile {
        assert(t2 =~= t);
    }
}

/// A tab is busy exactly where its page last said so. Nothing else changes, and the tab bar
/// is told where the flag did.
pub proof fn law_busy_follows_the_report(
    s: AppView,
    window: Seq<char>,
    tab: Seq<char>,
    i: int,
    busy: bool,
)
    requires
        owner_window(tab) == Some(window),
        stands_at(s, window, tab, i),
    ensures
        ({
            let t = s.strip[window].tabs[i];
            let o = busied(s, tab, busy);
            let t2 = o.state.strip[window].tabs[i];
            &&& t2.busy == busy
            &&& t2.title == t.title && t2.custom_title == t.custom_title
            &&& t2.attention == t.attention && t2.dot_profile == t.dot_profile
            &&& t2.profile == t.profile && t2.partition == t.partition
            &&& same_but_tab(s.strip[window], o.state.strip[window], i)
            &&& other_windows_same(s, o.state, window) && o.state.raw_titles == s.raw_titles
            &&& busy == t.busy ==> o.steps.len() == 0
            &&& busy != t.busy ==> o.steps == seq![EffectView::EmitTabs(window)]
        }),
{
    lemma_found(s, window, tab, i);
    let o = busied(s, tab, busy);
    let t = s.strip[window].tabs[i];
    let t2 = o.state.strip[window].tabs[i];
    assert(o.state.strip.dom() =~= s.strip.dom());
    if busy == t.busy {
        assert(t2 =~= t);
    }
}

/// Reports of tabs that the registry does not know change nothing.
pub proof fn law_reports_of_unknown_tabs_are_dropped(
    s: AppView,
    tab: Seq<char>,
    name: Seq<char>,
    busy: bool,
)
    requires
        owner_window(tab) is Some ==> stands_nowhere(s, owner_window(tab)->0, tab),
    ensures
        dotted(s, tab, name).state == s,
        dotted(s, tab, name).steps.len() == 0,
        busied(s, tab, busy).state == s,
        busied(s, tab, busy).steps.len() == 0,
{
    if owner_window(tab) is Some {
        lemma_found(s, owner_window(tab)->0, tab, 0);
    }
}

// ---------------------------------------------------------------------------
// Names that the user gives
// ---------------------------------------------------------------------------

/// A name holds the user's text from its first character that is no blank on: sixty
/// characters of it where there are as many up to the last one that is no blank, and all of
/// them where there are fewer. A text of blanks alone gives no name, and nor does none.
pub proof fn law_given_name_is_the_text_without_blanks(n: Seq<char>)
    ensures
        given_name(None) is None,
        given_name(Some(n)) is None <==> (forall|k: int|
            0 <= k < n.len() ==> white_space(#[trigger] n[k])),
        given_name(Some(n)) is Some ==> exists|lo: int, hi: int|
            #![trigger n.subrange(lo, hi)]
            {
                let name = given_name(Some(n))->0;
                &&& 0 <= lo < hi <= n.len()
                &&& forall|k: int| 0 <= k < lo ==> white_space(#[trigger] n[k])
                &&& forall|k: int| hi <= k < n.len() ==> white_space(#[trigger] n[k])
                &&& !white_space(n[lo]) && !white_space(n[hi - 1])
                &&& hi - lo <= 60 ==> name == n.subrange(lo, hi)
                &&& hi - lo > 60 ==> name == n.subrange(lo, lo + 60)
            },
{
    law_trimmed_has_no_blank_ends(n);
    let t = trimmed(n);
    let (lo, hi) = choose|lo: int, hi: int|
        #![trigger n.subrange(lo, hi)]
        {
            &&& 0 <= lo <= hi <= n.len()
            &&& t == n.subrange(lo, hi)
            &&& forall|k: int| 0 <= k < lo ==> white_space(#[trigger] n[k])
            &&& forall|k: int| hi <= k < n.len() ==> white_space(#[trigger] n[k])
            &&& lo < hi ==> !white_space(n[lo]) && !white_space(n[hi - 1])
        };
    if hi - lo > 60 {
        assert(t.take(60) =~= n.subrange(lo, lo + 60));
    }
    if lo < hi {
        assert(!white_space(n[lo]));
        assert(n.subrange(lo, hi).len() > 0);
    }
}

/// A tab that the user names shows that name and keeps it as the user's; a tab whose name is
/// taken away shows what its page title makes and has none. Nothing else changes. The tab
/// bar and the window title follow, and the session is saved, each time.
pub proof fn law_rename_shows_the_name(
    s: AppView,
    window: Seq<char>,
    tab: Seq<char>,
    i: int,
    name: Option<Seq<char>>,
    displayed: Seq<char>,
)
    requires
        stands_at(s, window, tab, i),
        0 <= s.strip[window].active < s.strip[window].tabs.len(),
    ensures
        ({
            let w = s.strip[window];
            let t = w.tabs[i];
            let o = renamed(s, window, tab, name, displayed);
            let t2 = o.state.strip[window].tabs[i];
            &&& given_name(name) is Some ==> t2.custom_title == given_name(name) && t2.title
                == given_name(name)->0
            &&& given_name(name) is None ==> t2.custom_title is None && t2.title == displayed
            &&& t2.attention == t.attention && t2.busy == t.busy
            &&& t2.profile == t.profile && t2.dot_profile == t.dot_profile
            &&& t2.partition == t.partition
            &&& same_but_tab(w, o.state.strip[window], i)
            &&& other_windows_same(s, o.state, window) && o.state.raw_titles == s.raw_titles
            &&& o.steps == seq![
                EffectView::EmitTabs(window),
                EffectView::RefreshTitle(window, remembered(s, w.tabs[w.active].label)),
                EffectView::Persist,
            ]
        }),
{
    lemma_found(s, window, tab, i);
    let w = s.strip[window];
    let o = renamed(s, window, tab, name, displayed);
    assert(o.state.strip.dom() =~= s.strip.dom());
    assert(o.state.strip[window].tabs[w.active].label == w.tabs[w.active].label);
    assert(o.state.active_tab(window) == Some(w.tabs[w.active].label));
}

/// Renaming a tab that is not there does nothing, and nor does a read of its cookies.
pub proof fn law_unknown_tabs_get_no_name(
    s: AppView,
    window: Seq<char>,
    tab: Seq<char>,
    name: Option<Seq<char>>,
    displayed: Seq<char>,
    menu_open: bool,
    read: Option<Seq<CookieView>>,
)
    requires
        stands_nowhere(s, window, tab),
    ensures
        renamed(s, window, tab, name, displayed).state == s,
        renamed(s, window, tab, name, displayed).steps.len() == 0,
        captured(s, window, tab, menu_open, read).state == s,
        captured(s, window, tab, menu_open, read).steps.len() == 0,
{
    lemma_found(s, window, tab, 0);
}

// ---------------------------------------------------------------------------
// Profiles
// ---------------------------------------------------------------------------

/// The profile that cookies select is the value of the first one named `hermes_profile`; the
/// default profile where none is.
pub proof fn law_first_profile_cookie_decides(cookies: Seq<CookieView>, i: int)
    ensures
        0 <= i < cookies.len() && cookies[i].name == "hermes_profile"@ && (forall|j: int|
            0 <= j < i ==> (#[trigger] cookies[j]).name != "hermes_profile"@) ==> profile_of(cookies)
            == Some(cookies[i].value),
        (forall|j: int|
            0 <= j < cookies.len() ==> (#[trigger] cookies[j]).name != "hermes_profile"@)
            ==> profile_of(cookies) is None,
{
    let names = cookies.map_values(|c: CookieView| c.name);
    let key = "hermes_profile"@;
    names.index_of_first_ensures(key);
    assert(forall|j: int| 0 <= j < cookies.len() ==> names[j] == (#[trigger] cookies[j]).name);
    if 0 <= i < cookies.len() && cookies[i].name == key && (forall|j: int|
        0 <= j < i ==> (#[trigger] cookies[j]).name != key) {
        assert(names[i] == key);
        assert(names.contains(key));
        let k = names.index_of_first(key)->0;
        if k < i {
            assert(cookies[k].name == key);
        }
    }
    if (forall|j: int| 0 <= j < cookies.len() ==> (#[trigger] cookies[j]).name != key)
        && names.contains(key) {
        let k = choose|k: int| 0 <= k < names.len() && names[k] == key;
        assert(cookies[k].name == key);
    }
}

/// A read of a tab's cookies gives the tab the profile that they select. Nothing else
/// changes; the tab bar is told and the session is saved where it is another profile than
/// before. While a menu is open, or without a read, nothing happens.
pub proof fn law_capture_takes_the_profile(
    s: AppView,
    window: Seq<char>,
    tab: Seq<char>,
    i: int,
    menu_open: bool,
    read: Option<Seq<CookieView>>,
)
    requires
        stands_at(s, window, tab, i),
    ensures
        ({
            let t = s.strip[window].tabs[i];
            let o = captured(s, window, tab, menu_open, read);
            let t2 = o.state.strip[window].tabs[i];
            &&& menu_open || read is None ==> o.state == s && o.steps.len() == 0
            &&& !menu_open && read is Some ==> t2.profile == profile_of(read->0)
            &&& t2.title == t.title && t2.custom_title == t.custom_title
            &&& t2.attention == t.attention && t2.busy == t.busy
            &&& t2.dot_profile == t.dot_profile && t2.partition == t.partition
            &&& same_but_tab(s.strip[window], o.state.strip[window], i)
            &&& other_windows_same(s, o.state, window) && o.state.raw_titles == s.raw_titles
            &&& t2.profile == t.profile ==> o.state == s && o.steps.len() == 0
            &&& t2.profile != t.profile ==> o.steps == seq![
                EffectView::EmitTabs(window),
                EffectView::Persist,
            ]
        }),
{
    lemma_found(s, window, tab, i);
    let o = captured(s, window, tab, menu_open, read);
    assert(o.state.strip.dom() =~= s.strip.dom());
}

/// A sweep reads every tab of every window: what it asks for of some windows and then of
/// others is what it asks for of all of them, and of one window it asks for one read of each
/// tab, in the order of the tab bar.
pub proof fn law_sweep_reads_every_tab(
    s: AppView,
    a: Seq<Seq<char>>,
    b: Seq<Seq<char>>,
    window: Seq<char>,
)
    ensures
        all_captures(s, a + b) == all_captures(s, a) + all_captures(s, b),
        all_captures(s, Seq::empty()).len() == 0,
        all_captures(s, seq![window]).len() == s.strip[window].tabs.len(),
        forall|i: int|
            0 <= i < s.strip[window].tabs.len() ==> #[trigger] all_captures(s, seq![window])[i]
                == EffectView::CaptureProfile(window, s.strip[window].tabs[i].label),
    decreases b.len(),
{
    let one = seq![window];
    assert(one.drop_last() =~= Seq::<Seq<char>>::empty());
    assert(all_captures(s, one.drop_last()) =~= Seq::<EffectView>::empty());
    assert(all_captures(s, one) =~= window_captures(window, s.strip[window].tabs));
    if b.len() == 0 {
        assert(a + b =~= a);
        assert(all_captures(s, a) + all_captures(s, b) =~= all_captures(s, a));
    } else {
        law_sweep_reads_every_tab(s, a, b.drop_last(), window);
        assert((a + b).drop_last() =~= a + b.drop_last());
        assert((a + b).last() == b.last());
        assert(all_captures(s, a + b) =~= all_captures(s, a) + all_captures(s, b));
    }
}

} // verus!
