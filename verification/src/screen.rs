//! What the steps of the strip leave on the screen: which tabs are visible, and which pages
//! take themselves to be in front.
use vstd::prelude::*;

use crate::effect::EffectView;
use crate::label::owner_window;
use crate::laws::{law_close_keeps_the_others, lemma_close_keeps_active, lemma_index_of_own_label};
use crate::layout::{toggled, top_of};
use crate::newtab::{added, entry_for, with_new_tab, TabPlanView};
use crate::state::{labels, AppView, TabView};
use crate::tabs::{
    closed, cycled, detached, fit_steps, front_steps, leave_steps, lemma_without_distinct,
    reordered, selected,
};
use crate::windows::{forget_steps, forgotten};

verus! {

/// The tabs of a window that are visible, and those whose pages have not been told that
/// they are in the background.
#[verifier::ext_equal]
pub struct Screen {
    pub visible: Set<Seq<char>>,
    pub front: Set<Seq<char>>,
}

/// One tab alone is visible and in front.
pub open spec fn only(tab: Seq<char>) -> Screen {
    Screen { visible: set![tab], front: set![tab] }
}

impl Screen {
    /// The screen without a tab.
    pub open spec fn without(self, tab: Seq<char>) -> Screen {
        Screen { visible: self.visible.remove(tab), front: self.front.remove(tab) }
    }

    /// The screen with one more tab.
    pub open spec fn with(self, tab: Seq<char>) -> Screen {
        Screen { visible: self.visible.insert(tab), front: self.front.insert(tab) }
    }
}

/// The screen after one step.
pub open spec fn seen_after(v: Screen, e: EffectView) -> Screen {
    match e {
        EffectView::HideTab(t) => Screen { visible: v.visible.remove(t), ..v },
        EffectView::ShowTab(t) => Screen { visible: v.visible.insert(t), ..v },
        EffectView::Background(t, true) => Screen { front: v.front.remove(t), ..v },
        EffectView::Background(t, false) => Screen { front: v.front.insert(t), ..v },
        EffectView::CloseTab(t) => v.without(t),
        _ => v,
    }
}

/// The screen after some steps.
pub open spec fn seen(v: Screen, es: Seq<EffectView>) -> Screen
    decreases es.len(),
{
    if es.len() == 0 {
        v
    } else {
        seen_after(seen(v, es.drop_last()), es.last())
    }
}

proof fn lemma_seen_add(v: Screen, a: Seq<EffectView>, b: Seq<EffectView>)
    ensures
        seen(v, a + b) == seen(seen(v, a), b),
    decreases b.len(),
{
    if b.len() == 0 {
        assert(a + b =~= a);
    } else {
        lemma_seen_add(v, a, b.drop_last());
        assert((a + b).drop_last() =~= a + b.drop_last());
        assert((a + b).last() == b.last());
    }
}

/// Whether a step leaves the screen as it is.
pub open spec fn unseen(e: EffectView) -> bool {
    &&& !(e is HideTab)
    &&& !(e is ShowTab)
    &&& !(e is Background)
    &&& !(e is CloseTab)
}

proof fn lemma_seen_same(v: Screen, es: Seq<EffectView>)
    requires
        forall|i: int| 0 <= i < es.len() ==> unseen(#[trigger] es[i]),
    ensures
        seen(v, es) == v,
    decreases es.len(),
{
    if es.len() > 0 {
        let init = es.drop_last();
        assert forall|i: int| 0 <= i < init.len() implies unseen(#[trigger] init[i]) by {
            assert(unseen(es[i]));
        }
        lemma_seen_same(v, init);
        assert(unseen(es[es.len() - 1]));
    }
}

proof fn lemma_seen_one(v: Screen, e: EffectView)
    ensures
        seen(v, seq![e]) == seen_after(v, e),
{
    assert(seq![e].drop_last() =~= Seq::<EffectView>::empty());
    assert(seen(v, seq![e].drop_last()) == v);
}

proof fn lemma_seen_first(v: Screen, es: Seq<EffectView>)
    requires
        es.len() > 0,
    ensures
        seen(v, es) == seen(seen_after(v, es.first()), es.drop_first()),
{
    assert(es =~= seq![es.first()] + es.drop_first());
    lemma_seen_add(v, seq![es.first()], es.drop_first());
    lemma_seen_one(v, es.first());
}

proof fn lemma_seen_leave(v: Screen, p: Seq<char>)
    ensures
        seen(v, seq![EffectView::HideTab(p), EffectView::Background(p, true)]) == v.without(p),
{
    let a = seq![EffectView::HideTab(p), EffectView::Background(p, true)];
    assert(a.drop_first() =~= seq![EffectView::Background(p, true)]);
    lemma_seen_first(v, a);
    lemma_seen_one(seen_after(v, a.first()), EffectView::Background(p, true));
}

/// What bringing a tab to the front does to the screen.
proof fn lemma_seen_front(v: Screen, s: AppView, window: Seq<char>, tab: Seq<char>)
    ensures
        seen(v, front_steps(s, window, tab)) == v.with(tab),
{
    let a = front_steps(s, window, tab);
    let b = a.drop_first();
    let c = b.drop_first();
    let rest = c.drop_first();
    assert(a.first() == EffectView::ShowTab(tab));
    assert(b.first() == EffectView::FocusTab(tab));
    assert(c.first() == EffectView::Background(tab, false));
    lemma_seen_first(v, a);
    let v1 = seen_after(v, a.first());
    lemma_seen_first(v1, b);
    lemma_seen_first(v1, c);
    assert forall|i: int| 0 <= i < rest.len() implies unseen(#[trigger] rest[i]) by {
        assert(rest[i] == a[i + 3]);
    }
    lemma_seen_same(seen_after(v1, c.first()), rest);
}

/// What selecting does to the screen.
proof fn lemma_seen_select(v: Screen, s: AppView, window: Seq<char>, tab: Seq<char>, linux: bool)
    requires
        s.find(window, tab) is Some,
    ensures
        seen(v, selected(s, window, tab, linux).steps) == match s.active_tab(window) {
            Some(p) => if p != tab {
                v.without(p).with(tab)
            } else {
                v.with(tab)
            },
            None => v.with(tab),
        },
{
    let w = s.strip[window];
    let prev = w.active_label();
    let i = s.find(window, tab)->0;
    let s2 = s.with_window(window, w.with_active(i));
    let a = leave_steps(prev, tab);
    let b = fit_steps(tab, top_of(s, window), linux);
    let c = front_steps(s2, window, tab);
    assert(selected(s, window, tab, linux).steps == a + b + c);
    lemma_seen_add(v, a + b, c);
    lemma_seen_add(v, a, b);
    lemma_seen_same(seen(v, a), b);
    lemma_seen_front(seen(v, a), s2, window, tab);
    if prev is Some && prev->0 != tab {
        lemma_seen_leave(v, prev->0);
    } else {
        assert(a =~= Seq::empty());
    }
}

/// Where the active tab of a window is its only visible tab and the only one whose page
/// takes itself to be in front, the same holds of the selected tab after selecting.
pub proof fn law_select_shows_one_tab(s: AppView, window: Seq<char>, tab: Seq<char>, linux: bool)
    requires
        s.valid(),
        s.find(window, tab) is Some,
    ensures
        seen(only(s.active_tab(window)->0), selected(s, window, tab, linux).steps) == only(tab),
{
    let w = s.strip[window];
    labels(w.tabs).index_of_first_ensures(tab);
    let p = s.active_tab(window)->0;
    lemma_seen_select(only(p), s, window, tab, linux);
    assert(seen(only(p), selected(s, window, tab, linux).steps) =~= only(tab));
}

/// Where the active tab of a window is its only visible tab and the only one whose page
/// takes itself to be in front, the same holds of the tab that is active after one was
/// closed.
pub proof fn law_close_shows_one_tab(s: AppView, window: Seq<char>, tab: Seq<char>, linux: bool)
    requires
        s.valid(),
        s.find(window, tab) is Some,
        s.strip[window].distinct(),
        s.strip[window].tabs.len() > 1,
    ensures
        ({
            let after = closed(s, window, tab, linux);
            seen(only(s.active_tab(window)->0), after.steps) == only(
                after.state.active_tab(window)->0,
            )
        }),
{
    let w = s.strip[window];
    labels(w.tabs).index_of_first_ensures(tab);
    let i = w.index(tab)->0;
    assert(labels(w.tabs)[i] == tab);
    let w2 = w.without(i);
    let p = s.active_tab(window)->0;
    let v = only(p);
    law_close_keeps_the_others(s, window, tab, linux);
    lemma_close_keeps_active(w, i);
    lemma_without_distinct(w, i);
    lemma_index_of_own_label(w2, w2.active);
    let next = w2.active_label()->0;
    let s2 = detached(s, window, tab, i);
    let front = selected(s2, window, next, linux).steps;
    let a = seq![EffectView::ForgetNavigated(tab), EffectView::ForgetUrl(tab)];
    let b = seq![EffectView::CloseTab(tab)];
    let c = seq![EffectView::RemovePartition(w.tabs[i].partition)];
    let last = seq![EffectView::Persist];
    let gone = a + b + c;
    assert(closed(s, window, tab, linux).steps =~= gone + front + last);
    lemma_seen_add(v, gone + front, last);
    lemma_seen_add(v, gone, front);
    lemma_seen_add(v, a + b, c);
    lemma_seen_add(v, a, b);
    lemma_seen_same(v, a);
    lemma_seen_one(v, EffectView::CloseTab(tab));
    lemma_seen_same(v.without(tab), c);
    lemma_seen_select(v.without(tab), s2, window, next, linux);
    lemma_seen_same(seen(v, gone + front), last);
    if i != w.active {
        assert(labels(w.tabs)[w.active] == p);
        assert(p != tab);
    }
    assert(v.without(tab).with(next) =~= only(next));
}

/// Where the active tab of a window was its only visible tab, and the only one in front,
/// until the webview of a new one was made, the new tab is alone on the screen once it is
/// in the registry.
pub proof fn law_new_tab_shows_one_tab(s: AppView, window: Seq<char>, plan: TabPlanView)
    requires
        s.valid(),
        s.strip.contains_key(window),
        !labels(s.strip[window].tabs).contains(plan.label),
    ensures
        ({
            let before = match s.active_tab(window) {
                Some(p) => only(p).with(plan.label),
                None => only(plan.label),
            };
            let after = added(s, window, plan);
            &&& seen(before, after.steps) == only(plan.label)
            &&& after.state.active_tab(window) == Some(plan.label)
        }),
{
    let w = s.strip[window];
    let s2 = s.with_window(window, with_new_tab(w, entry_for(plan)));
    let prev = w.active_label();
    let v = match prev {
        Some(p) => only(p).with(plan.label),
        None => only(plan.label),
    };
    let leave: Seq<EffectView> = match prev {
        Some(p) => seq![EffectView::HideTab(p), EffectView::Background(p, true)],
        None => Seq::empty(),
    };
    let middle = seq![
        EffectView::FocusTab(plan.label),
        EffectView::EmitTabs(window),
        EffectView::RefreshTitle(window, s2.window_raw_title(window)),
        EffectView::Persist,
    ];
    let watch: Seq<EffectView> = match plan.restore_retry {
        Some(u) => seq![EffectView::WatchRestore(plan.label, u)],
        None => Seq::empty(),
    };
    assert(added(s, window, plan).steps == leave + middle + watch);
    lemma_seen_add(v, leave + middle, watch);
    lemma_seen_add(v, leave, middle);
    lemma_seen_same(seen(v, leave), middle);
    lemma_seen_same(seen(v, leave), watch);
    match prev {
        Some(p) => {
            lemma_seen_leave(v, p);
            assert(labels(w.tabs)[w.active] == p);
            assert(v.without(p) =~= only(plan.label));
        },
        None => {},
    }
}

/// Steps that end nothing: no webview, no window and no data partition.
pub open spec fn ends_nothing(es: Seq<EffectView>) -> bool {
    forall|i: int|
        0 <= i < es.len() ==> {
            &&& !(#[trigger] es[i] is CloseTab)
            &&& !(es[i] is CloseWindow)
            &&& !(es[i] is RemovePartition)
        }
}

/// Tabs that leave the front stay alive: selecting, cycling, adding and moving tabs closes
/// no webview and no window, and deletes no data.
pub proof fn law_hidden_tabs_stay_alive(
    s: AppView,
    window: Seq<char>,
    tab: Seq<char>,
    linux: bool,
    forward: bool,
    plan: TabPlanView,
    new_index: int,
)
    ensures
        ends_nothing(selected(s, window, tab, linux).steps),
        ends_nothing(cycled(s, tab, forward, linux).steps),
        ends_nothing(added(s, window, plan).steps),
        ends_nothing(reordered(s, window, tab, new_index).steps),
{
    lemma_select_ends_nothing(s, window, tab, linux);
    match owner_window(tab) {
        Some(o) => {
            let w = s.strip[o];
            lemma_select_ends_nothing(s, o, w.tabs[w.neighbour(forward)].label, linux);
        },
        None => {},
    }
}

proof fn lemma_select_ends_nothing(s: AppView, window: Seq<char>, tab: Seq<char>, linux: bool)
    ensures
        ends_nothing(selected(s, window, tab, linux).steps),
{
}

/// A destroyed window leaves the data partitions of its tabs alone: it may be that the
/// program quits, and the tabs are to come back with their cookies.
pub proof fn law_forgetting_keeps_partitions(s: AppView, window: Seq<char>)
    ensures
        ends_nothing(forgotten(s, window).steps),
{
    if s.strip.contains_key(window) {
        lemma_forget_ends_nothing(s.strip[window].tabs);
    }
}

proof fn lemma_forget_ends_nothing(tabs: Seq<TabView>)
    ensures
        ends_nothing(forget_steps(tabs)),
    decreases tabs.len(),
{
    if tabs.len() > 0 {
        lemma_forget_ends_nothing(tabs.drop_last());
    }
}

/// Steps that set the bounds of no webview that stands.
pub open spec fn moves_nothing(es: Seq<EffectView>) -> bool {
    forall|i: int|
        0 <= i < es.len() ==> !(#[trigger] es[i] is FitTab) && !(es[i] is ShowStrip)
}

/// On Linux the bounds of a webview are set when it is made and never again.
pub proof fn law_linux_moves_no_webview(
    s: AppView,
    window: Seq<char>,
    tab: Seq<char>,
    forward: bool,
    new_index: int,
    plan: TabPlanView,
    measured: bool,
    hint_shown: bool,
)
    ensures
        moves_nothing(selected(s, window, tab, true).steps),
        moves_nothing(closed(s, window, tab, true).steps),
        moves_nothing(cycled(s, tab, forward, true).steps),
        moves_nothing(reordered(s, window, tab, new_index).steps),
        moves_nothing(added(s, window, plan).steps),
        moves_nothing(toggled(s, window, true, measured, hint_shown).steps),
{
    lemma_select_moves_nothing(s, window, tab);
    if s.find(window, tab) is Some {
        let i = s.find(window, tab)->0;
        let next = s.strip[window].without(i).active_label()->0;
        lemma_select_moves_nothing(detached(s, window, tab, i), window, next);
    }
    match owner_window(tab) {
        Some(o) => {
            let w = s.strip[o];
            lemma_select_moves_nothing(s, o, w.tabs[w.neighbour(forward)].label);
        },
        None => {},
    }
}

proof fn lemma_select_moves_nothing(s: AppView, window: Seq<char>, tab: Seq<char>)
    ensures
        moves_nothing(selected(s, window, tab, true).steps),
{
}

} // verus!
