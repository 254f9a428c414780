//! What holds across the operations of the tab strip: labels, the active tab, the tab bar
//! and names.
use vstd::prelude::*;

use crate::changelog::{lines_without, section_lines, version_heading};
use crate::effect::EffectView;
use crate::label::{
    law_main_labels_distinct, law_owner_of_tab_label, law_suffix_of_tab_label,
    main_label, plain_window,
    owner_window, suffix, tab_label,
};
use crate::layout::{flipped, toggled};
use crate::newtab::{
    added, counted, label_pending, lemma_next_count, next_count, TabPlanView, TabSpecView,
};
use crate::state::{labels, lemma_made_later, made_label, AppView, WindowView};
use crate::tabs::{
    closed, cycled, landing, lemma_moved_distinct, lemma_moved_valid, lemma_ring,
    lemma_without_distinct, reordered, selected, source_of, unchanged,
};
use crate::text::lines;
use crate::titles::{busied, dotted, renamed, titled, with_title};
use crate::windows::{forgotten, registered};

verus! {

// ---------------------------------------------------------------------------
// Labels
// ---------------------------------------------------------------------------

/// The label that a window makes for its next tab is one that no tab of it carries.
pub proof fn law_next_label_is_free(s: AppView, window: Seq<char>, spec: TabSpecView)
    requires
        s.strip[window].numbered(window),
        next_count(s, window, spec) <= u64::MAX,
    ensures
        ({
            let k = next_count(s, window, spec);
            label_pending(counted(s.strip[window], k), window, tab_label(window, k))
        }),
{
    reveal(made_label);
    let w = s.strip[window];
    let k = next_count(s, window, spec);
    let l = tab_label(window, k);
    lemma_next_count(s, window, spec);
    law_suffix_of_tab_label(window, k as u64);
    let ls = labels(w.tabs);
    if ls.contains(l) {
        let i = choose|i: int| 0 <= i < ls.len() && ls[i] == l;
        assert(w.tabs[i].label == l);
        assert(made_label(window, w.tab_seq, w.tabs[i].label));
    }
}

/// A new tab is labelled with the next count of its window, unless that name is a reserved
/// partition; one that uses a partition again always is.
pub proof fn law_next_count_is_the_successor(s: AppView, window: Seq<char>, spec: TabSpecView)
    ensures
        ({
            let k = s.strip[window].tab_seq + 1;
            spec.partition_override is Some || !s.reserved.contains(tab_label(window, k))
                ==> next_count(s, window, spec) == k
        }),
{
    vstd::seq_lib::seq_to_set_is_finite(s.reserved);
    let k = s.strip[window].tab_seq + 1;
    if s.reserved.to_set().contains(tab_label(window, k)) {
        assert(s.reserved.contains(tab_label(window, k)));
    }
}

/// A label that a window made for a tab whose webview does not stand yet stays free,
/// whatever becomes of the other tabs meanwhile.
pub proof fn law_pending_label_stays_free(
    s: AppView,
    window: Seq<char>,
    label: Seq<char>,
    tab: Seq<char>,
    linux: bool,
    new_index: int,
    plan: TabPlanView,
    k: nat,
)
    requires
        s.valid(),
        s.numbered(),
        s.strip.contains_key(window),
        s.strip[window].tab_seq <= k,
        label_pending(s.strip[window], window, label),
        plan.label != label,
        0 <= new_index,
    ensures
        label_pending(selected(s, window, tab, linux).state.strip[window], window, label),
        label_pending(closed(s, window, tab, linux).state.strip[window], window, label),
        label_pending(reordered(s, window, tab, new_index).state.strip[window], window, label),
        label_pending(counted(s.strip[window], k), window, label),
        label_pending(added(s, window, plan).state.strip[window], window, label),
{
    let w = s.strip[window];
    let ls = labels(w.tabs);
    ls.index_of_first_ensures(tab);
    lemma_made_later(window, w.tab_seq, k, label);
    if s.find(window, tab) is Some {
        let i = w.index(tab)->0;
        if w.tabs.len() > 1 {
            law_close_keeps_the_others(s, window, tab, linux);
            let b = labels(closed(s, window, tab, linux).state.strip[window].tabs);
            if b.contains(label) {
                let j = choose|j: int| 0 <= j < b.len() && b[j] == label;
                let k = if j < i {
                    j
                } else {
                    j + 1
                };
                assert(ls[k] == label);
            }
        }
        let to = landing(w, new_index);
        let c = labels(w.moved(i, to).tabs);
        if c.contains(label) {
            let j = choose|j: int| 0 <= j < c.len() && c[j] == label;
            assert(ls[source_of(j, i, to)] == label);
        }
    }
    let d = labels(added(s, window, plan).state.strip[window].tabs);
    assert(d =~= ls.push(plan.label));
    if d.contains(label) {
        let j = choose|j: int| 0 <= j < d.len() && d[j] == label;
        assert(ls[j] == label);
    }
}

/// A tab is found again by its label alone: the label names the window that the tab
/// stands in, and the tab's place in it.
pub proof fn law_tab_is_found_by_its_label(s: AppView, window: Seq<char>, i: int)
    requires
        plain_window(window),
        s.numbered(),
        s.strip.contains_key(window),
        0 <= i < s.strip[window].tabs.len(),
    ensures
        owner_window(s.strip[window].tabs[i].label) == Some(window),
        s.find(window, s.strip[window].tabs[i].label) == Some(i),
{
    let w = s.strip[window];
    let l = w.tabs[i].label;
    assert(made_label(window, w.tab_seq, l));
    assert(l == tab_label(window, suffix(l)->0 as nat)) by {
        reveal(made_label);
    }
    law_owner_of_tab_label(window, suffix(l)->0 as nat);
    lemma_index_of_own_label(w, i);
}

pub proof fn lemma_index_of_own_label(w: WindowView, i: int)
    requires
        w.distinct(),
        0 <= i < w.tabs.len(),
    ensures
        w.index(w.tabs[i].label) == Some(i),
{
    let ls = labels(w.tabs);
    ls.index_of_first_ensures(w.tabs[i].label);
    assert(ls[i] == w.tabs[i].label);
    assert(ls.contains(w.tabs[i].label));
}

/// Every window in the registry has one of the labels counted so far.
pub open spec fn windows_counted(s: AppView) -> bool {
    forall|w: Seq<char>| #[trigger] s.strip.contains_key(w) ==> window_counted(w, s.window_seq)
}

/// Whether a label is that of one of the first `seq` windows.
pub open spec fn window_counted(w: Seq<char>, seq: nat) -> bool {
    exists|k: u64| 1 <= k <= seq && w == #[trigger] main_label(k as nat)
}

/// The label of the next window is one that no window has.
pub proof fn law_next_window_label_is_free(s: AppView)
    requires
        windows_counted(s),
        s.window_seq < u64::MAX,
    ensures
        !s.strip.contains_key(main_label(s.window_seq + 1)),
{
    let l = main_label(s.window_seq + 1);
    if s.strip.contains_key(l) {
        assert(window_counted(l, s.window_seq));
        let k = choose|k: u64| 1 <= k <= s.window_seq && l == #[trigger] main_label(k as nat);
        law_main_labels_distinct(k, (s.window_seq + 1) as u64);
    }
}

/// A new window, a destroyed one and a changed one leave every window with one of the
/// labels counted so far.
pub proof fn law_windows_stay_counted(
    s: AppView,
    mode: Seq<char>,
    window: Seq<char>,
    w: WindowView,
)
    requires
        windows_counted(s),
        s.window_seq < u64::MAX,
    ensures
        ({
            let claimed = AppView { window_seq: s.window_seq + 1, ..s };
            windows_counted(registered(claimed, main_label(s.window_seq + 1), mode))
        }),
        windows_counted(forgotten(s, window).state),
        s.strip.contains_key(window) ==> windows_counted(s.with_window(window, w)),
{
    let n = s.window_seq + 1;
    let claimed = AppView { window_seq: n, ..s };
    let s2 = registered(claimed, main_label(n), mode);
    assert forall|k: Seq<char>| #[trigger] s2.strip.contains_key(k) implies window_counted(k, n) by {
        if k == main_label(n) {
            assert(k == main_label((n as u64) as nat));
        } else {
            assert(s.strip.contains_key(k));
            let j = choose|j: u64| 1 <= j <= s.window_seq && k == #[trigger] main_label(j as nat);
            assert(1 <= j <= n && k == main_label(j as nat));
        }
    }
    let s3 = forgotten(s, window).state;
    assert forall|k: Seq<char>| #[trigger] s3.strip.contains_key(k) implies window_counted(
        k,
        s3.window_seq,
    ) by {
        assert(s.strip.contains_key(k));
    }
    let s4 = s.with_window(window, w);
    if s.strip.contains_key(window) {
        assert forall|k: Seq<char>| #[trigger] s4.strip.contains_key(k) implies window_counted(
            k,
            s4.window_seq,
        ) by {
            assert(s.strip.contains_key(k));
        }
    }
}

// ---------------------------------------------------------------------------
// The active tab
// ---------------------------------------------------------------------------

/// Selecting a tab makes it the active one, and no tab is added, lost or changed.
pub proof fn law_select_activates(s: AppView, window: Seq<char>, tab: Seq<char>, linux: bool)
    requires
        s.find(window, tab) is Some,
    ensures
        ({
            let s2 = selected(s, window, tab, linux).state;
            &&& s2.active_tab(window) == Some(tab)
            &&& s2.strip[window].tabs == s.strip[window].tabs
        }),
{
    let w = s.strip[window];
    labels(w.tabs).index_of_first_ensures(tab);
    let i = w.index(tab)->0;
    assert(labels(w.tabs)[i] == w.tabs[i].label);
}

/// The label of the tab that is active after one is closed.
pub proof fn lemma_close_keeps_active(w: WindowView, i: int)
    requires
        w.valid(),
        0 <= i < w.tabs.len(),
        w.tabs.len() > 1,
    ensures
        w.without(i).valid(),
        i != w.active ==> w.without(i).active_label() == w.active_label(),
        i == w.active && i + 1 < w.tabs.len() ==> w.without(i).active_label() == Some(
            w.tabs[i + 1].label,
        ),
        i == w.active && i + 1 == w.tabs.len() ==> w.without(i).active_label() == Some(
            w.tabs[i - 1].label,
        ),
{
}

/// Closing a tab that is not active leaves the active tab active. Closing the active tab
/// makes the tab after it active, or the one before where it was the last. All other tabs
/// stay as they are, in their order.
pub proof fn law_close_keeps_the_others(
    s: AppView,
    window: Seq<char>,
    tab: Seq<char>,
    linux: bool,
)
    requires
        s.valid(),
        s.find(window, tab) is Some,
        s.strip[window].distinct(),
        s.strip[window].tabs.len() > 1,
    ensures
        ({
            let w = s.strip[window];
            let i = s.find(window, tab)->0;
            let s2 = closed(s, window, tab, linux).state;
            &&& s2.strip[window].tabs == w.tabs.remove(i)
            &&& s2.active_tab(window) == if i != w.active {
                w.active_label()
            } else if i + 1 < w.tabs.len() {
                Some(w.tabs[i + 1].label)
            } else {
                Some(w.tabs[i - 1].label)
            }
            &&& s2.find(window, tab) is None
        }),
{
    let w = s.strip[window];
    labels(w.tabs).index_of_first_ensures(tab);
    let i = w.index(tab)->0;
    let w2 = w.without(i);
    lemma_close_keeps_active(w, i);
    lemma_without_distinct(w, i);
    lemma_index_of_own_label(w2, w2.active);
    let ls = labels(w2.tabs);
    ls.index_of_first_ensures(tab);
    if ls.contains(tab) {
        let j = choose|j: int| 0 <= j < ls.len() && ls[j] == tab;
        let k = if j < i {
            j
        } else {
            j + 1
        };
        assert(labels(w.tabs)[k] == tab);
        assert(labels(w.tabs)[i] == tab);
    }
}

/// Moving a tab leaves the active tab active, and the tabs are the same ones.
pub proof fn law_move_keeps_the_tabs(
    s: AppView,
    window: Seq<char>,
    tab: Seq<char>,
    new_index: int,
)
    requires
        s.valid(),
        s.find(window, tab) is Some,
        s.strip[window].distinct(),
        0 <= new_index,
    ensures
        ({
            let s2 = reordered(s, window, tab, new_index).state;
            &&& s2.active_tab(window) == s.active_tab(window)
            &&& s2.strip[window].tabs.to_multiset() == s.strip[window].tabs.to_multiset()
            &&& s2.find(window, tab) == Some(landing(s.strip[window], new_index))
        }),
{
    broadcast use vstd::seq_lib::group_to_multiset_ensures;

    let w = s.strip[window];
    labels(w.tabs).index_of_first_ensures(tab);
    let from = w.index(tab)->0;
    let to = landing(w, new_index);
    if from != to {
        let w2 = w.moved(from, to);
        lemma_moved_valid(w, from, to);
        lemma_moved_distinct(w, from, to);
        assert(w2.tabs[to] == w.tabs[from]);
        assert(labels(w.tabs)[from] == tab);
        lemma_index_of_own_label(w2, to);
        w.tabs.remove_ensures(from);
        assert(w2.tabs.to_multiset() == w.tabs.to_multiset().remove(w.tabs[from]).insert(
            w.tabs[from],
        ));
        assert(w.tabs.to_multiset().contains(w.tabs[from]));
        assert(w2.tabs.to_multiset() =~= w.tabs.to_multiset());
    }
}

/// Moving a tab and moving it back leaves everything as it was.
pub proof fn law_move_back_undoes(s: AppView, window: Seq<char>, tab: Seq<char>, new_index: int)
    requires
        s.valid(),
        s.find(window, tab) is Some,
        s.strip[window].distinct(),
        0 <= new_index,
    ensures
        ({
            let s2 = reordered(s, window, tab, new_index).state;
            reordered(s2, window, tab, s.find(window, tab)->0).state == s
        }),
{
    let w = s.strip[window];
    labels(w.tabs).index_of_first_ensures(tab);
    let from = w.index(tab)->0;
    let to = landing(w, new_index);
    if from != to {
        let w2 = w.moved(from, to);
        lemma_moved_valid(w, from, to);
        lemma_moved_distinct(w, from, to);
        assert(w2.tabs[to] == w.tabs[from]);
        assert(labels(w.tabs)[from] == tab);
        lemma_index_of_own_label(w2, to);
        let w3 = w2.moved(to, from);
        assert(w3.tabs =~= w.tabs);
        assert(w2.tabs[w2.active].label == w.tabs[w.active].label);
        lemma_index_of_own_label(w, w.active);
        assert(w3 =~= w);
        assert(s.strip.insert(window, w2).insert(window, w3) =~= s.strip);
    }
}

/// Going one tab forward and one back, or the other way round, leaves everything as it was,
/// whatever label names the window.
pub proof fn law_cycle_back_undoes(s: AppView, tab: Seq<char>, forward: bool, linux: bool)
    requires
        s.valid(),
        owner_window(tab) matches Some(o) ==> s.strip.contains_key(o) ==> s.strip[o].distinct(),
    ensures
        cycled(cycled(s, tab, forward, linux).state, tab, !forward, linux).state == s,
{
    match owner_window(tab) {
        Some(window) => {
            let w = s.strip[window];
            if s.strip.contains_key(window) && w.tabs.len() >= 2 {
                let len = w.tabs.len() as int;
                lemma_ring(w.active, len);
                let j = w.neighbour(forward);
                lemma_index_of_own_label(w, j);
                let w2 = w.with_active(j);
                lemma_ring(w2.active, len);
                assert(w2.neighbour(!forward) == w.active);
                lemma_index_of_own_label(w2, w.active);
                assert(w2.with_active(w.active) =~= w);
                assert(s.strip.insert(window, w2).insert(window, w) =~= s.strip);
            }
        },
        None => {},
    }
}

// ---------------------------------------------------------------------------
// The tab bar
// ---------------------------------------------------------------------------

/// Hiding the tab bar and showing it again leaves everything as it was.
pub proof fn law_toggle_twice_undoes(
    s: AppView,
    window: Seq<char>,
    linux: bool,
    measured: bool,
    hint_shown: bool,
)
    ensures
        toggled(
            toggled(s, window, linux, measured, hint_shown).state,
            window,
            linux,
            measured,
            hint_shown,
        ).state == s,
{
    if !linux && s.strip.contains_key(window) {
        let w = s.strip[window];
        let w2 = flipped(w);
        assert(flipped(w2) =~= w);
        assert(s.strip.insert(window, w2).insert(window, w) =~= s.strip);
    }
}

/// The shortcut is explained every time the tab bar is hidden, until the bar has been
/// brought back once: only that retires the hint, and a retired hint is not given again.
pub proof fn law_hint_until_brought_back(
    s: AppView,
    window: Seq<char>,
    measured: bool,
    hint_shown: bool,
)
    requires
        s.strip.contains_key(window),
    ensures
        ({
            let es = toggled(s, window, false, measured, hint_shown).steps;
            let hides = !s.strip[window].strip_hidden;
            &&& (exists|i: int| 0 <= i < es.len() && #[trigger] es[i] is Notify) <==> hides
                && !hint_shown
            &&& (exists|i: int| 0 <= i < es.len() && #[trigger] es[i] is RetireHint) <==> !hides
                && !hint_shown
        }),
{
    let es = toggled(s, window, false, measured, hint_shown).steps;
    if !hint_shown {
        let e = es[es.len() - 1];
        assert(e is Notify || e is RetireHint);
    }
}

// ---------------------------------------------------------------------------
// Names
// ---------------------------------------------------------------------------

/// A tab that the user named keeps its name, whatever its page calls itself.
pub proof fn law_given_name_outlives_page_titles(
    s: AppView,
    window: Seq<char>,
    i: int,
    title: Seq<char>,
    attention: bool,
    displayed: Seq<char>,
)
    requires
        plain_window(window),
        s.numbered(),
        s.strip.contains_key(window),
        0 <= i < s.strip[window].tabs.len(),
        s.strip[window].tabs[i].custom_title is Some,
    ensures
        ({
            let t = s.strip[window].tabs[i];
            let t2 = titled(s, t.label, title, attention, displayed).state.strip[window].tabs[i];
            &&& t2.title == t.title
            &&& t2.custom_title == t.custom_title
        }),
{
    law_tab_is_found_by_its_label(s, window, i);
}

/// A page title that came in while the tab had a name of the user's is not lost: once the
/// name is taken away, the tab shows what that title makes.
pub proof fn law_cleared_name_shows_page_title(
    s: AppView,
    window: Seq<char>,
    i: int,
    title: Seq<char>,
    attention: bool,
    shown_then: Seq<char>,
    shown_now: Seq<char>,
)
    requires
        plain_window(window),
        s.numbered(),
        s.strip.contains_key(window),
        0 <= i < s.strip[window].tabs.len(),
    ensures
        ({
                    let tab = s.strip[window].tabs[i].label;
            let s1 = titled(s, tab, title, attention, shown_then).state;
            let s2 = renamed(s1, window, tab, None, shown_now).state;
            &&& s1.raw_title(tab) == title
            &&& s2.strip[window].tabs[i].title == shown_now
            &&& s2.strip[window].tabs[i].custom_title is None
        }),
{
    let w = s.strip[window];
    let tab = w.tabs[i].label;
    law_tab_is_found_by_its_label(s, window, i);
    let s1 = titled(s, tab, title, attention, shown_then).state;
    let w1 = s1.strip[window];
    assert(labels(w1.tabs) =~= labels(w.tabs));
}

/// A report that says nothing new is silent: the tab bar is not told a second time.
pub proof fn law_repeated_reports_are_silent(
    s: AppView,
    window: Seq<char>,
    i: int,
    title: Seq<char>,
    attention: bool,
    displayed: Seq<char>,
    name: Seq<char>,
    busy: bool,
)
    requires
        plain_window(window),
        s.numbered(),
        s.strip.contains_key(window),
        0 <= i < s.strip[window].tabs.len(),
    ensures
        ({
            let tab = s.strip[window].tabs[i].label;
            let s1 = titled(s, tab, title, attention, displayed).state;
            let s2 = dotted(s, tab, name).state;
            let s3 = busied(s, tab, busy).state;
            &&& titled(s1, tab, title, attention, displayed) == unchanged(s1)
            &&& dotted(s2, tab, name) == unchanged(s2)
            &&& busied(s3, tab, busy) == unchanged(s3)
        }),
{
    let w = s.strip[window];
    let tab = w.tabs[i].label;
    law_tab_is_found_by_its_label(s, window, i);

    let s1 = titled(s, tab, title, attention, displayed).state;
    let w1 = s1.strip[window];
    assert(labels(w1.tabs) =~= labels(w.tabs));
    assert(with_title(w1.tabs[i], displayed, attention) =~= w1.tabs[i]);
    assert(w1.tabs.update(i, w1.tabs[i]) =~= w1.tabs);
    assert(w1.with_tab(i, w1.tabs[i]) =~= w1);
    assert(s1.raw_titles.insert(tab, title) =~= s1.raw_titles);
    assert(s1.strip.insert(window, w1) =~= s1.strip);
    assert(titled(s1, tab, title, attention, displayed) =~= unchanged(s1));

    let s2 = dotted(s, tab, name).state;
    assert(labels(s2.strip[window].tabs) =~= labels(w.tabs));
    let s3 = busied(s, tab, busy).state;
    assert(labels(s3.strip[window].tabs) =~= labels(w.tabs));
}

// ---------------------------------------------------------------------------
// Release notes
// ---------------------------------------------------------------------------

/// The notes of a version end at the next heading: none of their lines is one.
pub proof fn law_notes_stop_at_the_next_heading(md: Seq<char>, version: Seq<char>, i: int)
    requires
        section_lines(md, version) is Some,
        0 <= i < section_lines(md, version)->0.len(),
    ensures
        !"## "@.is_prefix_of(section_lines(md, version)->0[i]),
{
    let ls = lines(md);
    let start = lines_without(ls, version_heading(version));
    let below = ls.skip(start + 1);
    lemma_lines_without(below, "## "@, i);
}

proof fn lemma_lines_without(ls: Seq<Seq<char>>, prefix: Seq<char>, i: int)
    ensures
        0 <= lines_without(ls, prefix) <= ls.len(),
        0 <= i < lines_without(ls, prefix) ==> !prefix.is_prefix_of(ls[i]),
    decreases ls.len(),
{
    if ls.len() > 0 && !prefix.is_prefix_of(ls.first()) {
        lemma_lines_without(ls.drop_first(), prefix, i - 1);
        if 0 < i < ls.len() {
            assert(ls.drop_first()[i - 1] == ls[i]);
        }
    }
}

} // verus!
