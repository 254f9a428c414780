//! Opening, placing, describing and forgetting strip windows.
use vstd::prelude::*;

use crate::effect::{steps, Effect, EffectView};
use crate::label;
use crate::label::{main_label, strip_label};
use crate::state::{
    copy_tabs, labels, lists_windows, tab_views, AppState, AppView, TabEntry, TabView,
    WindowTabs, WindowView,
};
use crate::tabs;
use crate::tabs::{lemma_with_window_numbered, unchanged, Outcome};
use crate::text;
use crate::text::texts;

verus! {

// ---------------------------------------------------------------------------
// Opening
// ---------------------------------------------------------------------------

/// The names that a new window goes by.
#[derive(Debug)]
pub struct WindowPlan {
    pub label: String,
    /// The label of its tab bar.
    pub strip_label: String,
    /// The script that tells the tab bar which window it belongs to.
    pub init_script: String,
}

/// The script that tells a tab bar which window it belongs to.
pub open spec fn strip_script(window: Seq<char>) -> Seq<char> {
    "window.__HERMES_WIN = '"@ + window + "';"@
}

/// Counts a new window and names it.
pub fn claim_window(state: &mut AppState) -> (r: WindowPlan)
    requires
        old(state).wf(),
        old(state)@.window_seq < u64::MAX,
    ensures
        final(state).wf(),
        final(state)@ == (AppView { window_seq: old(state)@.window_seq + 1, ..old(state)@ }),
        r.label@ == main_label(old(state)@.window_seq + 1),
        r.strip_label@ == strip_label(r.label@),
        r.init_script@ == strip_script(r.label@),
        old(state)@.numbered() ==> final(state)@.numbered(),
{
    let n: u64 = state.count_window();
    let label: String = label::make_main_label(n);
    let strip_label: String = label::make_strip_label(label.as_str());
    let mut init_script: String = text::concat("window.__HERMES_WIN = '", label.as_str());
    init_script = text::concat(init_script.as_str(), "';");
    WindowPlan { label, strip_label, init_script }
}

/// The window is known, without tabs, in its connection mode.
pub open spec fn registered(s: AppView, window: Seq<char>, mode: Seq<char>) -> AppView {
    AppView {
        window_modes: s.window_modes.insert(window, mode),
        ..s.with_window(window, WindowView::empty())
    }
}

/// Puts a window into the registry once it stands.
pub fn register_window(state: &mut AppState, window_label: &str, mode: &str)
    requires
        old(state).wf(),
    ensures
        final(state).wf(),
        final(state)@ == registered(old(state)@, window_label@, mode@),
        old(state)@.numbered() ==> final(state)@.numbered(),
{
    let ghost s = state@;
    state.set_window_mode(window_label, mode);
    let w: WindowTabs = WindowTabs::default();
    let ghost fresh = WindowView::empty();
    state.put_window(window_label, w);
    assert(state@ =~= registered(s, window_label@, mode@));
    proof {
        assert(labels(fresh.tabs) =~= Seq::empty());
        lemma_with_window_numbered(s, window_label@, fresh);
        assert(state@.strip == s.with_window(window_label@, fresh).strip);
    }
}

// ---------------------------------------------------------------------------
// Forgetting
// ---------------------------------------------------------------------------

/// A map without the entries of these tabs.
pub open spec fn without_tabs(
    m: Map<Seq<char>, Seq<char>>,
    tabs: Seq<TabView>,
) -> Map<Seq<char>, Seq<char>> {
    m.remove_keys(labels(tabs).to_set())
}

/// Two steps for each tab: neither its visit nor its address is remembered.
pub open spec fn forget_steps(tabs: Seq<TabView>) -> Seq<EffectView>
    decreases tabs.len(),
{
    if tabs.len() == 0 {
        Seq::empty()
    } else {
        forget_steps(tabs.drop_last()).push(EffectView::ForgetNavigated(tabs.last().label)).push(
            EffectView::ForgetUrl(tabs.last().label),
        )
    }
}

/// The window is gone, and so are the page titles of its tabs. Their data partitions
/// stay.
pub open spec fn forgotten(s: AppView, window: Seq<char>) -> Outcome {
    if s.strip.contains_key(window) {
        let tabs = s.strip[window].tabs;
        Outcome {
            state: AppView {
                strip: s.strip.remove(window),
                raw_titles: without_tabs(s.raw_titles, tabs),
                ..s
            },
            steps: forget_steps(tabs),
        }
    } else {
        unchanged(s)
    }
}

/// A window was destroyed.
pub fn forget_window(state: &mut AppState, window_label: &str) -> (r: Vec<Effect>)
    requires
        old(state).wf(),
    ensures
        final(state).wf(),
        (Outcome { state: final(state)@, steps: steps(r@) }) == forgotten(
            old(state)@,
            window_label@,
        ),
        old(state)@.numbered() ==> final(state)@.numbered(),
{
    let mut r: Vec<Effect> = Vec::new();
    assert(steps(r@) =~= Seq::empty());
    let ghost s = state@;
    match state.take_window(window_label) {
        Some(w) => {
            let ghost tabs = w@.tabs;
            let ghost rest = state@;
            let mut i: usize = 0;
            assert(tabs.take(0) =~= Seq::empty());
            assert(labels(tabs.take(0)).to_set() =~= Set::empty());
            assert(without_tabs(rest.raw_titles, tabs.take(0)) =~= rest.raw_titles);
            while i < w.tabs.len()
                invariant
                    i <= w.tabs@.len(),
                    tabs == w@.tabs,
                    state.wf(),
                    state@ == (AppView {
                        raw_titles: without_tabs(rest.raw_titles, tabs.take(i as int)),
                        ..rest
                    }),
                    steps(r@) == forget_steps(tabs.take(i as int)),
                decreases w.tabs@.len() - i,
            {
                let ghost l = tabs[i as int].label;
                assert(l == w.tabs@[i as int].label@);
                state.drop_raw_title(w.tabs[i].label.as_str());
                let ghost before = r@;
                r.push(Effect::ForgetNavigated(w.tabs[i].label.clone()));
                r.push(Effect::ForgetUrl(w.tabs[i].label.clone()));
                proof {
                    let a = labels(tabs.take(i as int));
                    let b = labels(tabs.take(i + 1));
                    assert(tabs.take(i + 1).drop_last() =~= tabs.take(i as int));
                    assert(tabs.take(i + 1).last() == tabs[i as int]);
                    assert(steps(r@) =~= steps(before).push(EffectView::ForgetNavigated(l)).push(
                        EffectView::ForgetUrl(l),
                    ));
                    assert(b =~= a.push(l));
                    assert(b.to_set() =~= a.to_set().insert(l)) by {
                        assert(b.last() == l);
                        assert forall|x: Seq<char>| a.to_set().contains(x) implies #[trigger] b.to_set().contains(
                            x,
                        ) by {
                            let k = choose|k: int| 0 <= k < a.len() && a[k] == x;
                            assert(b[k] == x);
                        }
                    }
                    assert(without_tabs(rest.raw_titles, tabs.take(i as int)).remove(l)
                        =~= without_tabs(rest.raw_titles, tabs.take(i + 1)));
                }
                i = i + 1;
            }
            assert(tabs.take(i as int) =~= tabs);
            assert(state@ =~= forgotten(s, window_label@).state);
            proof {
                if s.numbered() {
                    assert forall|k: Seq<char>| #[trigger]
                        state@.strip.contains_key(k) implies state@.strip[k].numbered(k) by {
                        assert(s.strip.contains_key(k));
                    }
                }
            }
        },
        None => {
            assert(state@ =~= s);
        },
    }
    r
}

// ---------------------------------------------------------------------------
// Describing
// ---------------------------------------------------------------------------

/// What the tab bar of a window is told.
#[derive(Debug)]
pub struct Snapshot {
    pub window: String,
    pub tabs: Vec<TabEntry>,
    pub active: usize,
    /// The connection and the profile colors; absent for an unknown window.
    pub context: Option<Context>,
}

/// The connection, and the colors that the user gave profiles.
#[derive(Debug)]
pub struct Context {
    pub mode: String,
    pub target: String,
    pub colors: Vec<(String, String)>,
}

/// Whether a snapshot shows the window as it stands; an unknown window has no tabs and no
/// context.
pub open spec fn shows(shot: Snapshot, s: AppView, window: Seq<char>, context: Context) -> bool {
    &&& shot.window@ == window
    &&& if s.strip.contains_key(window) {
        &&& tab_views(shot.tabs@) == s.strip[window].tabs
        &&& shot.active == s.strip[window].active
        &&& shot.context == Some(context)
    } else {
        &&& shot.tabs@.len() == 0
        &&& shot.active == 0
        &&& shot.context is None
    }
}

/// Describes a window to its tab bar.
pub fn snapshot(state: &AppState, window_label: &str, context: Context) -> (r: Snapshot)
    requires
        state.wf(),
    ensures
        shows(r, state@, window_label@, context),
{
    match state.window(window_label) {
        Some(w) => Snapshot {
            window: window_label.to_owned(),
            tabs: copy_tabs(&w.tabs),
            active: w.active,
            context: Some(context),
        },
        None => Snapshot {
            window: window_label.to_owned(),
            tabs: Vec::new(),
            active: 0,
            context: None,
        },
    }
}

/// The event that tells a tab bar about its window: its name and what it carries.
pub fn emit_tabs(state: &AppState, window_label: &str, context: Context) -> (r: (String, Snapshot))
    requires
        state.wf(),
    ensures
        r.0@ == "tabs-changed"@,
        shows(r.1, state@, window_label@, context),
{
    ("tabs-changed".to_owned(), snapshot(state, window_label, context))
}

/// The labels of all strip windows, once each.
pub fn window_labels(state: &AppState) -> (r: Vec<String>)
    requires
        state.wf(),
    ensures
        lists_windows(texts(r@), state@),
{
    state.window_labels()
}

/// One title for each window in `order`.
pub open spec fn all_titles(s: AppView, order: Seq<Seq<char>>) -> Seq<EffectView> {
    order.map_values(|w: Seq<char>| EffectView::RefreshTitle(w, s.window_raw_title(w)))
}

/// Asks for the title of every window to be made anew.
pub fn refresh_all_titles(state: &AppState) -> (r: Vec<Effect>)
    requires
        state.wf(),
    ensures
        exists|order: Seq<Seq<char>>|
            #![trigger lists_windows(order, state@)]
            lists_windows(order, state@) && steps(r@) == all_titles(state@, order),
{
    let mut r: Vec<Effect> = Vec::new();
    let keys = state.window_labels();
    let ghost order = texts(keys@);
    let ghost all = all_titles(state@, order);
    let mut i: usize = 0;
    while i < keys.len()
        invariant
            i <= keys@.len(),
            state.wf(),
            order == texts(keys@),
            all == all_titles(state@, order),
            steps(r@) == all.take(i as int),
        decreases keys@.len() - i,
    {
        let ghost before = r@;
        let e = Effect::RefreshTitle(
            keys[i].clone(),
            tabs::window_raw_title(state, keys[i].as_str()),
        );
        r.push(e);
        assert(order[i as int] == keys@[i as int]@);
        assert(all[i as int] == e@);
        assert(steps(r@) =~= steps(before).push(e@));
        assert(all.take(i + 1) =~= all.take(i as int).push(e@));
        i = i + 1;
    }
    assert(all.take(i as int) =~= all);
    assert(lists_windows(order, state@));
    r
}

/// Asks for every tab bar to be told about its window, as after a change of colors.
pub fn repaint_windows(state: &AppState) -> (r: Vec<Effect>)
    requires
        state.wf(),
    ensures
        exists|order: Seq<Seq<char>>|
            #![trigger lists_windows(order, state@)]
            lists_windows(order, state@) && steps(r@) == order.map_values(
                |w: Seq<char>| EffectView::EmitTabs(w),
            ),
{
    let mut r: Vec<Effect> = Vec::new();
    let keys = state.window_labels();
    let ghost order = texts(keys@);
    let ghost all = order.map_values(|w: Seq<char>| EffectView::EmitTabs(w));
    let mut i: usize = 0;
    while i < keys.len()
        invariant
            i <= keys@.len(),
            order == texts(keys@),
            all == order.map_values(|w: Seq<char>| EffectView::EmitTabs(w)),
            steps(r@) == all.take(i as int),
        decreases keys@.len() - i,
    {
        let ghost before = r@;
        let e = Effect::EmitTabs(keys[i].clone());
        r.push(e);
        assert(order[i as int] == keys@[i as int]@);
        assert(all[i as int] == e@);
        assert(steps(r@) =~= steps(before).push(e@));
        assert(all.take(i + 1) =~= all.take(i as int).push(e@));
        i = i + 1;
    }
    assert(all.take(i as int) =~= all);
    assert(lists_windows(order, state@));
    r
}

} // verus!
