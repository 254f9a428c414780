//! Following the profile that each tab's cookies select.
use vstd::prelude::*;

use crate::effect::{steps, Effect, EffectView};
use crate::label;
use crate::label::owner_window;
use crate::newtab::{cookie_views, profile_from_cookies, profile_of, Cookie, CookieView};
use crate::state::{lists_windows, AppState, AppView, TabView};
use crate::tabs::{unchanged, Outcome};
use crate::text;
use crate::text::texts;
use crate::titles::{edited, lemma_edited_numbered};

verus! {

/// What a read of a tab's cookies gave; none where there was no read.
pub open spec fn opt_cookies(read: Option<Vec<Cookie>>) -> Option<Seq<CookieView>> {
    match read {
        Some(v) => Some(cookie_views(v@)),
        None => None,
    }
}

/// The tab takes the profile that its cookies select; the tab bar and the saved session
/// follow where it is another one. Nothing happens without a read, while a menu is open,
/// or where the tab is unknown.
pub open spec fn captured(
    s: AppView,
    window: Seq<char>,
    tab: Seq<char>,
    menu_open: bool,
    read: Option<Seq<CookieView>>,
) -> Outcome {
    match (read, s.find(window, tab)) {
        (Some(cookies), Some(i)) => {
            let t = s.strip[window].tabs[i];
            if menu_open || t.profile == profile_of(cookies) {
                unchanged(s)
            } else {
                Outcome {
                    state: edited(s, window, i, (TabView { profile: profile_of(cookies), ..t })),
                    steps: seq![EffectView::EmitTabs(window), EffectView::Persist],
                }
            }
        },
        _ => unchanged(s),
    }
}

/// Takes over the profile of a tab from a read of its cookies. A read is skipped while a
/// menu is open: it would wait for the thread that the menu holds.
pub fn capture_tab_profile(
    state: &mut AppState,
    window_label: &str,
    tab_label: &str,
    menu_open: bool,
    read: Option<Vec<Cookie>>,
) -> (r: Vec<Effect>)
    requires
        old(state).wf(),
    ensures
        final(state).wf(),
        (Outcome { state: final(state)@, steps: steps(r@) }) == captured(
            old(state)@,
            window_label@,
            tab_label@,
            menu_open,
            opt_cookies(read),
        ),
        old(state)@.numbered() ==> final(state)@.numbered(),
{
    let mut r: Vec<Effect> = Vec::new();
    assert(steps(r@) =~= Seq::empty());
    let ghost s = state@;
    let ghost cookies = opt_cookies(read);
    if menu_open {
        return r;
    }
    let profile: Option<String> = match read {
        Some(v) => profile_from_cookies(&v),
        None => {
            return r;
        },
    };
    let i: usize = match state.window(window_label) {
        Some(w) => match w.position(tab_label) {
            Some(i) => {
                if text::same_opt(&w.tabs[i].profile, &profile) {
                    return r;
                }
                i
            },
            None => {
                return r;
            },
        },
        None => {
            return r;
        },
    };
    let ghost t = s.strip[window_label@].tabs[i as int];
    let ghost t2 = TabView { profile: profile_of(cookies->0), ..t };
    if let Some(mut win) = state.take_window(window_label) {
        let mut tab = win.tabs.remove(i);
        assert(tab@ == t);
        tab.profile = profile;
        assert(tab@ =~= t2);
        win.tabs.insert(i, tab);
        assert(win@.tabs =~= s.strip[window_label@].tabs.update(i as int, t2));
        state.put_window(window_label, win);
    }
    assert(state@ =~= edited(s, window_label@, i as int, t2));
    proof {
        lemma_edited_numbered(s, window_label@, i as int, t2);
    }
    r.push(Effect::EmitTabs(window_label.to_owned()));
    r.push(Effect::Persist);
    assert(steps(r@) =~= captured(s, window_label@, tab_label@, menu_open, cookies).steps);
    r
}

/// One step for each tab of a window, in the order of its tab bar.
pub open spec fn window_captures(window: Seq<char>, tabs: Seq<TabView>) -> Seq<EffectView> {
    tabs.map_values(|t: TabView| EffectView::CaptureProfile(window, t.label))
}

/// One step for each tab of the windows in `order`.
pub open spec fn all_captures(s: AppView, order: Seq<Seq<char>>) -> Seq<EffectView>
    decreases order.len(),
{
    if order.len() == 0 {
        Seq::empty()
    } else {
        all_captures(s, order.drop_last()) + window_captures(
            order.last(),
            s.strip[order.last()].tabs,
        )
    }
}

/// Asks for the profile of every tab, window by window; of none while a menu is open.
pub fn recapture_profiles(state: &AppState, menu_open: bool) -> (r: Vec<Effect>)
    requires
        state.wf(),
    ensures
        menu_open ==> r@.len() == 0,
        !menu_open ==> exists|order: Seq<Seq<char>>|
            #![trigger lists_windows(order, state@)]
            lists_windows(order, state@) && steps(r@) == all_captures(state@, order),
{
    let mut r: Vec<Effect> = Vec::new();
    if menu_open {
        return r;
    }
    let keys = state.window_labels();
    let ghost order = texts(keys@);
    assert(lists_windows(order, state@));
    let mut i: usize = 0;
    assert(steps(r@) =~= all_captures(state@, order.take(0)));
    while i < keys.len()
        invariant
            i <= keys@.len(),
            state.wf(),
            order == texts(keys@),
            lists_windows(order, state@),
            steps(r@) == all_captures(state@, order.take(i as int)),
        decreases keys@.len() - i,
    {
        let ghost before = steps(r@);
        let ghost window = order[i as int];
        assert(window == keys@[i as int]@);
        assert(order.contains(window));
        if let Some(w) = state.window(keys[i].as_str()) {
            let ghost all = window_captures(window, w@.tabs);
            let mut j: usize = 0;
            while j < w.tabs.len()
                invariant
                    i < keys@.len(),
                    j <= w.tabs@.len(),
                    window == keys@[i as int]@,
                    all == window_captures(window, w@.tabs),
                    steps(r@) == before + all.take(j as int),
                decreases w.tabs@.len() - j,
            {
                let ghost old_r = r@;
                let e = Effect::CaptureProfile(keys[i].clone(), w.tabs[j].label.clone());
                r.push(e);
                assert(w@.tabs[j as int].label == w.tabs@[j as int].label@);
                assert(all[j as int] == e@);
                assert(steps(r@) =~= steps(old_r).push(e@));
                assert(all.take(j + 1) =~= all.take(j as int).push(e@));
                j = j + 1;
            }
            assert(all.take(j as int) =~= all);
        }
        assert(order.take(i + 1).drop_last() =~= order.take(i as int));
        assert(order.take(i + 1).last() == window);
        i = i + 1;
    }
    assert(order.take(i as int) =~= order);
    r
}

/// Asks for the profile of one tab, in the window that its label names.
pub fn recapture_tab_profile(tab_label: &str) -> (r: Vec<Effect>)
    ensures
        steps(r@) == match owner_window(tab_label@) {
            Some(w) => seq![EffectView::CaptureProfile(w, tab_label@)],
            None => Seq::empty(),
        },
{
    let mut r: Vec<Effect> = Vec::new();
    if let Some(w) = label::window_of_tab(tab_label) {
        r.push(Effect::CaptureProfile(w, tab_label.to_owned()));
    }
    r
}

} // verus!
