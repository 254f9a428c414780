//! What holds of the data partitions that keep the cookies of one tab from those of all
//! others.
use vstd::prelude::*;

use crate::effect::EffectView;
use crate::label::{
    law_owner_of_tab_label, law_suffix_of_tab_label, lemma_main_label_plain, main_label,
    owner_window, suffix, tab_label,
};
use crate::laws::{law_close_keeps_the_others, window_counted, windows_counted};
use crate::layout::{flipped, toggled};
use crate::newtab::{
    added, counted, entry_for, lemma_next_count, next_count, plan_for, with_new_tab, CookieView,
    Jar, TabPlanView, TabSpecView,
};
use crate::profiles::captured;
use crate::session::{
    counted_to, including_all, reserved_for, session_reserved, session_uses, window_uses,
    SavedTab, SavedWindow,
};
use crate::state::{
    including, labels, lemma_made_later, made_label, AppView, TabView, WindowView,
};
use crate::tabs::{closed, cycled, landing, reordered, selected, source_of};
use crate::titles::{busied, dotted, edited, renamed, titled};
use crate::windows::{forgotten, registered};

verus! {

// ---------------------------------------------------------------------------
// Kept and distinct partitions
// ---------------------------------------------------------------------------

/// The data partitions of tabs, in order.
pub open spec fn partitions(tabs: Seq<TabView>) -> Seq<Seq<char>> {
    tabs.map_values(|t: TabView| t.partition)
}

/// Whether a tab of the window `v` uses this partition.
pub open spec fn uses(s: AppView, v: Seq<char>, p: Seq<char>) -> bool {
    s.strip.contains_key(v) && partitions(s.strip[v].tabs).contains(p)
}

/// Whether no new tab may take this partition.
pub open spec fn set_aside(s: AppView, p: Seq<char>) -> bool {
    s.reserved.contains(p)
}

/// Whether no new tab will get this partition, which belongs to the window `v`: it is set
/// aside, or it is a label that the window has counted past.
pub open spec fn jar_kept(s: AppView, v: Seq<char>, p: Seq<char>) -> bool {
    set_aside(s, p) || (s.strip.contains_key(v) && made_label(v, s.strip[v].tab_seq, p))
}

/// No new tab will get the partition of a tab, of whatever window.
pub open spec fn jars_reserved(s: AppView) -> bool {
    forall|v: Seq<char>, p: Seq<char>| #[trigger] uses(s, v, p) ==> jar_kept(s, v, p)
}

/// No two tabs share a partition, whether they stand in one window or in two.
pub open spec fn jars_distinct(s: AppView) -> bool {
    &&& forall|v: Seq<char>| #[trigger]
        s.strip.contains_key(v) ==> partitions(s.strip[v].tabs).no_duplicates()
    &&& forall|v1: Seq<char>, v2: Seq<char>, p: Seq<char>|
        #![trigger uses(s, v1, p), uses(s, v2, p)]
        uses(s, v1, p) && uses(s, v2, p) ==> v1 == v2
}

/// What held of the partitions in `s` holds of them in `s2`.
pub open spec fn keeps_jars(s: AppView, s2: AppView) -> bool {
    &&& jars_reserved(s) ==> jars_reserved(s2)
    &&& jars_distinct(s) ==> jars_distinct(s2)
}

/// The partition of a tab of `window` whose webview does not stand yet: no new tab will get
/// it, and no tab uses it.
pub open spec fn jar_pending(s: AppView, window: Seq<char>, p: Seq<char>) -> bool {
    jar_kept(s, window, p) && forall|v: Seq<char>| !#[trigger] uses(s, v, p)
}

/// A program without windows has its partitions apart.
pub proof fn lemma_no_windows_apart()
    ensures
        jars_reserved(AppView::empty()),
        jars_distinct(AppView::empty()),
        windows_counted(AppView::empty()),
{
}

// ---------------------------------------------------------------------------
// New tabs
// ---------------------------------------------------------------------------

/// The plan for the next tab of the window `main_label(n)`.
pub open spec fn next_plan(s: AppView, n: nat, spec: TabSpecView, isolated: bool) -> TabPlanView {
    plan_for(tab_label(main_label(n), next_count(s, main_label(n), spec)), spec, isolated)
}

/// The state once the next tab of the window `main_label(n)` is planned.
pub open spec fn begun_by(s: AppView, n: nat, spec: TabSpecView) -> AppView {
    let window = main_label(n);
    s.with_window(window, counted(s.strip[window], next_count(s, window, spec)))
}

/// The state once the next tab of the window `main_label(n)` is planned and stands.
pub open spec fn joined_by(s: AppView, n: nat, spec: TabSpecView, isolated: bool) -> AppView {
    added(begun_by(s, n, spec), main_label(n), next_plan(s, n, spec, isolated)).state
}

/// A new tab of any window gets a partition that is kept for no tab of any window.
pub proof fn law_new_partition_is_not_kept(
    s: AppView,
    n: nat,
    v: Seq<char>,
    p: Seq<char>,
    spec: TabSpecView,
    isolated: bool,
)
    requires
        windows_counted(s),
        s.strip.contains_key(main_label(n)),
        next_count(s, main_label(n), spec) <= u64::MAX,
        jar_kept(s, v, p),
        spec.partition_override is None,
    ensures
        next_plan(s, n, spec, isolated).partition != p,
{
    let window = main_label(n);
    let k = next_count(s, window, spec);
    let l = tab_label(window, k);
    lemma_next_count(s, window, spec);
    if p == l {
        reveal(made_label);
        assert(window_counted(v, s.window_seq));
        let m = choose|m: u64| 1 <= m <= s.window_seq && v == #[trigger] main_label(m as nat);
        lemma_main_label_plain(n);
        lemma_main_label_plain(m as nat);
        law_owner_of_tab_label(window, k);
        law_owner_of_tab_label(v, suffix(p)->0 as nat);
        law_suffix_of_tab_label(window, k as u64);
    }
}

/// A new tab of any window gets a partition that no tab of any window uses, so that
/// emptying it harms none of them.
pub proof fn law_new_partition_is_free_everywhere(
    s: AppView,
    n: nat,
    v: Seq<char>,
    i: int,
    spec: TabSpecView,
    isolated: bool,
)
    requires
        jars_reserved(s),
        windows_counted(s),
        s.strip.contains_key(main_label(n)),
        next_count(s, main_label(n), spec) <= u64::MAX,
        s.strip.contains_key(v),
        0 <= i < s.strip[v].tabs.len(),
        spec.partition_override is None,
    ensures
        next_plan(s, n, spec, isolated).partition != s.strip[v].tabs[i].partition,
{
    let p = s.strip[v].tabs[i].partition;
    assert(partitions(s.strip[v].tabs)[i] == p);
    assert(uses(s, v, p));
    law_new_partition_is_not_kept(s, n, v, p, spec, isolated);
}

/// Only a partition that its tab does not share with the past is emptied: one that is used
/// again is kept as it is.
pub proof fn law_reused_partition_is_kept(
    label: Seq<char>,
    spec: TabSpecView,
    isolated: bool,
)
    ensures
        spec.partition_override is Some ==> {
            let plan = plan_for(label, spec, isolated);
            &&& plan.partition == spec.partition_override->0
            &&& plan.jar != Jar::Fresh
        },
{
}

/// A planned tab leaves the partitions of all others alone. Its own is kept for it, and no
/// tab uses it; of one that is used again the first is promised where it is set aside.
pub proof fn law_begun_tab_keeps_jars(s: AppView, n: nat, spec: TabSpecView, isolated: bool)
    requires
        jars_reserved(s),
        windows_counted(s),
        s.strip.contains_key(main_label(n)),
        next_count(s, main_label(n), spec) <= u64::MAX,
    ensures
        ({
            let begun = begun_by(s, n, spec);
            let p = next_plan(s, n, spec, isolated).partition;
            &&& keeps_jars(s, begun)
            &&& windows_counted(begun)
            &&& spec.partition_override is None ==> jar_pending(begun, main_label(n), p)
            &&& spec.partition_override is Some && set_aside(s, p) ==> jar_kept(
                begun,
                main_label(n),
                p,
            )
        }),
{
    let window = main_label(n);
    let begun = begun_by(s, n, spec);
    let plan = next_plan(s, n, spec, isolated);
    let k = next_count(s, window, spec);
    lemma_begun_within(s, n, spec);
    lemma_within_keeps(s, begun);
    assert forall|v: Seq<char>| #[trigger] begun.strip.contains_key(v) implies window_counted(
        v,
        begun.window_seq,
    ) by {
        assert(s.strip.contains_key(v));
    }
    if spec.partition_override is None {
        lemma_next_count(s, window, spec);
        law_suffix_of_tab_label(window, k as u64);
        assert(made_label(window, k, plan.partition)) by {
            reveal(made_label);
        }
        assert forall|v: Seq<char>| !#[trigger] uses(begun, v, plan.partition) by {
            if uses(begun, v, plan.partition) {
                assert(uses(s, v, plan.partition));
                law_new_partition_is_not_kept(s, n, v, plan.partition, spec, isolated);
            }
        }
    }
}

/// A tab that stands leaves the partitions of all others alone where its own is kept for
/// it: no new tab will get one of them. Where no tab uses its partition, all stay distinct.
pub proof fn law_finished_tab_keeps_jars(s: AppView, window: Seq<char>, plan: TabPlanView)
    requires
        s.strip.contains_key(window),
        jar_kept(s, window, plan.partition),
    ensures
        ({
            let s2 = added(s, window, plan).state;
            &&& jars_reserved(s) ==> jars_reserved(s2)
            &&& jars_distinct(s) && (forall|v: Seq<char>| !#[trigger] uses(s, v, plan.partition))
                ==> jars_distinct(s2)
            &&& windows_counted(s) ==> windows_counted(s2)
            &&& forall|v: Seq<char>, p: Seq<char>| #[trigger]
                uses(s2, v, p) ==> uses(s, v, p) || (v == window && p == plan.partition)
        }),
{
    let s2 = added(s, window, plan).state;
    let w = s.strip[window];
    let w2 = with_new_tab(w, entry_for(plan));
    let a = partitions(w.tabs);
    let b = partitions(w2.tabs);
    assert(b =~= a.push(plan.partition));
    assert(s2.strip[window] == w2);
    assert forall|v: Seq<char>, p: Seq<char>| #[trigger] uses(s2, v, p) implies uses(s, v, p) || (p
        == plan.partition && v == window) by {
        if v == window {
            let j = choose|j: int| 0 <= j < b.len() && b[j] == p;
            if j < a.len() {
                assert(a[j] == p);
            }
        }
    }
    if jars_reserved(s) {
        assert forall|v: Seq<char>, p: Seq<char>| #[trigger] uses(s2, v, p) implies jar_kept(
            s2,
            v,
            p,
        ) by {
            if uses(s, v, p) {
                assert(jar_kept(s, v, p));
            }
        }
    }
    if jars_distinct(s) && (forall|v: Seq<char>| !#[trigger] uses(s, v, plan.partition)) {
        assert forall|v: Seq<char>| #[trigger] s2.strip.contains_key(v) implies partitions(
            s2.strip[v].tabs,
        ).no_duplicates() by {
            assert(s.strip.contains_key(v));
            if v == window {
                assert(!uses(s, window, plan.partition));
                assert forall|j: int, k: int|
                    0 <= j < b.len() && 0 <= k < b.len() && j != k implies b[j] != b[k] by {
                    if j == a.len() {
                        assert(a.contains(a[k]));
                    } else if k == a.len() {
                        assert(a.contains(a[j]));
                    } else {
                        assert(a[j] != a[k]);
                    }
                }
            }
        }
        assert forall|v1: Seq<char>, v2: Seq<char>, p: Seq<char>|
            #![trigger uses(s2, v1, p), uses(s2, v2, p)]
            uses(s2, v1, p) && uses(s2, v2, p) implies v1 == v2 by {
            if p == plan.partition {
                assert(!uses(s, v1, p));
                assert(!uses(s, v2, p));
            }
        }
    }
    if windows_counted(s) {
        assert forall|v: Seq<char>| #[trigger] s2.strip.contains_key(v) implies window_counted(
            v,
            s2.window_seq,
        ) by {
            assert(s.strip.contains_key(v));
        }
    }
}

/// A tab that is planned and made to stand at once leaves no tab with the partition of
/// another. So does one that uses a partition again that is set aside and that no tab uses.
pub proof fn law_new_tab_keeps_jars(s: AppView, n: nat, spec: TabSpecView, isolated: bool)
    requires
        jars_reserved(s),
        windows_counted(s),
        s.strip.contains_key(main_label(n)),
        next_count(s, main_label(n), spec) <= u64::MAX,
        spec.partition_override matches Some(p) ==> set_aside(s, p),
    ensures
        ({
            let s2 = joined_by(s, n, spec, isolated);
            &&& jars_reserved(s2)
            &&& jars_distinct(s) && (spec.partition_override matches Some(p) ==> forall|
                v: Seq<char>,
            | !#[trigger] uses(s, v, p)) ==> jars_distinct(s2)
            &&& windows_counted(s2)
            &&& s2.reserved == s.reserved
            &&& forall|v: Seq<char>, p: Seq<char>| #[trigger]
                uses(s2, v, p) ==> uses(s, v, p) || Some(p) == spec.partition_override
                    || !set_aside(s, p)
        }),
{
    let window = main_label(n);
    let begun = begun_by(s, n, spec);
    let plan = next_plan(s, n, spec, isolated);
    law_begun_tab_keeps_jars(s, n, spec, isolated);
    lemma_begun_within(s, n, spec);
    lemma_within_keeps(s, begun);
    lemma_next_count(s, window, spec);
    law_finished_tab_keeps_jars(begun, window, plan);
    if spec.partition_override is Some {
        assert forall|v: Seq<char>| #[trigger] uses(begun, v, plan.partition) implies uses(
            s,
            v,
            plan.partition,
        ) by {}
    }
    let s2 = joined_by(s, n, spec, isolated);
    assert forall|v: Seq<char>, p: Seq<char>| #[trigger] uses(s2, v, p) implies uses(s, v, p)
        || Some(p) == spec.partition_override || !set_aside(s, p) by {
        if uses(begun, v, p) {
            assert(uses(s, v, p));
        }
    }
}

// ---------------------------------------------------------------------------
// All other operations
// ---------------------------------------------------------------------------

/// The window `w2` holds tabs of `w` alone, each with its partition, and counts no less.
pub open spec fn shrinks(w: WindowView, w2: WindowView) -> bool {
    &&& w.tab_seq <= w2.tab_seq
    &&& partitions(w.tabs).no_duplicates() ==> partitions(w2.tabs).no_duplicates()
    &&& forall|p: Seq<char>| #[trigger]
        partitions(w2.tabs).contains(p) ==> partitions(w.tabs).contains(p)
}

/// The state `s2` holds windows of `s` alone, each with tabs of its own, counts no less, and
/// keeps no fewer partitions from new tabs.
pub open spec fn within(s: AppView, s2: AppView) -> bool {
    &&& forall|p: Seq<char>| #[trigger] set_aside(s, p) ==> set_aside(s2, p)
    &&& forall|v: Seq<char>| #[trigger]
        s2.strip.contains_key(v) ==> s.strip.contains_key(v) && shrinks(s.strip[v], s2.strip[v])
}

proof fn lemma_within_window(s: AppView, window: Seq<char>, w2: WindowView)
    requires
        s.strip.contains_key(window),
        shrinks(s.strip[window], w2),
    ensures
        within(s, s.with_window(window, w2)),
{
    let s2 = s.with_window(window, w2);
    assert forall|v: Seq<char>| #[trigger] s2.strip.contains_key(v) implies s.strip.contains_key(v)
        && shrinks(s.strip[v], s2.strip[v]) by {
        assert(shrinks(s.strip[v], s.strip[v]));
    }
}

proof fn lemma_same_strip_within(s: AppView, s2: AppView)
    requires
        s2.strip == s.strip,
        forall|p: Seq<char>| #[trigger] set_aside(s, p) ==> set_aside(s2, p),
    ensures
        within(s, s2),
{
    assert forall|v: Seq<char>| #[trigger] s2.strip.contains_key(v) implies s.strip.contains_key(v)
        && shrinks(s.strip[v], s2.strip[v]) by {}
}

proof fn lemma_within_keeps(s: AppView, s2: AppView)
    requires
        within(s, s2),
    ensures
        keeps_jars(s, s2),
        forall|v: Seq<char>, p: Seq<char>| #[trigger] uses(s2, v, p) ==> uses(s, v, p),
        forall|v: Seq<char>, p: Seq<char>|
            jar_pending(s, v, p) && s2.strip.contains_key(v) ==> #[trigger] jar_pending(s2, v, p),
{
    assert forall|v: Seq<char>, p: Seq<char>| #[trigger] uses(s2, v, p) implies uses(s, v, p) by {
        assert(shrinks(s.strip[v], s2.strip[v]));
    }
    assert forall|v: Seq<char>, p: Seq<char>|
        jar_kept(s, v, p) && s2.strip.contains_key(v) implies #[trigger] jar_kept(s2, v, p) by {
        if !set_aside(s, p) {
            assert(shrinks(s.strip[v], s2.strip[v]));
            lemma_made_later(v, s.strip[v].tab_seq, s2.strip[v].tab_seq, p);
        }
    }
    if jars_reserved(s) {
        assert forall|v: Seq<char>, p: Seq<char>| #[trigger] uses(s2, v, p) implies jar_kept(
            s2,
            v,
            p,
        ) by {
            assert(uses(s, v, p));
            assert(jar_kept(s, v, p));
        }
    }
    if jars_distinct(s) {
        assert forall|v: Seq<char>| #[trigger] s2.strip.contains_key(v) implies partitions(
            s2.strip[v].tabs,
        ).no_duplicates() by {
            assert(s.strip.contains_key(v));
            assert(shrinks(s.strip[v], s2.strip[v]));
        }
    }
    assert forall|v: Seq<char>, p: Seq<char>|
        jar_pending(s, v, p) && s2.strip.contains_key(v) implies #[trigger] jar_pending(
        s2,
        v,
        p,
    ) by {
        assert(jar_kept(s2, v, p));
        assert forall|u: Seq<char>| !#[trigger] uses(s2, u, p) by {
            assert(!uses(s, u, p));
        }
    }
}

proof fn lemma_without_shrinks(w: WindowView, i: int)
    requires
        0 <= i < w.tabs.len(),
    ensures
        shrinks(w, w.without(i)),
        partitions(w.tabs).no_duplicates() ==> !partitions(w.without(i).tabs).contains(
            w.tabs[i].partition,
        ),
{
    let a = partitions(w.tabs);
    let b = partitions(w.without(i).tabs);
    let from = |j: int|
        if j < i {
            j
        } else {
            j + 1
        };
    assert forall|j: int| 0 <= j < b.len() implies #[trigger] b[j] == a[from(j)] by {}
    assert forall|p: Seq<char>| #[trigger] b.contains(p) implies a.contains(p) by {
        let j = choose|j: int| 0 <= j < b.len() && b[j] == p;
        assert(a[from(j)] == p);
    }
    if a.no_duplicates() && b.contains(a[i]) {
        let j = choose|j: int| 0 <= j < b.len() && b[j] == a[i];
        assert(b[j] == a[from(j)]);
    }
}

proof fn lemma_moved_shrinks(w: WindowView, from: int, to: int)
    requires
        0 <= from < w.tabs.len(),
        0 <= to < w.tabs.len(),
    ensures
        shrinks(w, w.moved(from, to)),
{
    let a = partitions(w.tabs);
    let b = partitions(w.moved(from, to).tabs);
    assert forall|j: int| 0 <= j < b.len() implies #[trigger] b[j] == a[source_of(j, from, to)] by {}
    assert forall|p: Seq<char>| #[trigger] b.contains(p) implies a.contains(p) by {
        let j = choose|j: int| 0 <= j < b.len() && b[j] == p;
        assert(a[source_of(j, from, to)] == p);
    }
}

proof fn lemma_begun_within(s: AppView, n: nat, spec: TabSpecView)
    requires
        s.strip.contains_key(main_label(n)),
    ensures
        within(s, begun_by(s, n, spec)),
{
    let w = s.strip[main_label(n)];
    let k = next_count(s, main_label(n), spec);
    lemma_next_count(s, main_label(n), spec);
    assert(shrinks(w, counted(w, k)));
    lemma_within_window(s, main_label(n), counted(w, k));
}

proof fn lemma_selected_within(s: AppView, window: Seq<char>, tab: Seq<char>, linux: bool)
    ensures
        within(s, selected(s, window, tab, linux).state),
{
    lemma_same_strip_within(s, s);
    if s.find(window, tab) is Some {
        let w2 = s.strip[window].with_active(s.find(window, tab)->0);
        assert(shrinks(s.strip[window], w2));
        lemma_within_window(s, window, w2);
    }
}

proof fn lemma_closed_within(s: AppView, window: Seq<char>, tab: Seq<char>, linux: bool)
    requires
        s.valid(),
        s.strip.contains_key(window) ==> s.strip[window].distinct(),
    ensures
        within(s, closed(s, window, tab, linux).state),
{
    lemma_same_strip_within(s, s);
    if s.find(window, tab) is Some && s.strip[window].tabs.len() > 1 {
        let w = s.strip[window];
        labels(w.tabs).index_of_first_ensures(tab);
        let i = w.index(tab)->0;
        law_close_keeps_the_others(s, window, tab, linux);
        lemma_without_shrinks(w, i);
        let s2 = closed(s, window, tab, linux).state;
        let w2 = s2.strip[window];
        assert(w2.tabs == w.without(i).tabs && w2.tab_seq == w.tab_seq);
        assert(shrinks(w, w2));
        assert forall|v: Seq<char>| #[trigger] s2.strip.contains_key(v) implies s.strip.contains_key(
            v,
        ) && shrinks(s.strip[v], s2.strip[v]) by {
            assert(shrinks(s.strip[v], s.strip[v]));
        }
    }
}

proof fn lemma_reordered_within(s: AppView, window: Seq<char>, tab: Seq<char>, new_index: int)
    requires
        0 <= new_index,
    ensures
        within(s, reordered(s, window, tab, new_index).state),
{
    lemma_same_strip_within(s, s);
    if s.find(window, tab) is Some {
        let w = s.strip[window];
        labels(w.tabs).index_of_first_ensures(tab);
        let i = w.index(tab)->0;
        lemma_moved_shrinks(w, i, landing(w, new_index));
        lemma_within_window(s, window, w.moved(i, landing(w, new_index)));
    }
}

/// What selecting, cycling, closing and moving tabs and hiding the tab bar lead to holds the
/// same windows.
proof fn lemma_tabs_within(
    s: AppView,
    window: Seq<char>,
    tab: Seq<char>,
    linux: bool,
    forward: bool,
    new_index: int,
    measured: bool,
    hint_shown: bool,
)
    requires
        s.valid(),
        s.strip.contains_key(window) ==> s.strip[window].distinct(),
        0 <= new_index,
    ensures
        within(s, selected(s, window, tab, linux).state),
        within(s, cycled(s, tab, forward, linux).state),
        within(s, closed(s, window, tab, linux).state),
        within(s, reordered(s, window, tab, new_index).state),
        within(s, toggled(s, window, linux, measured, hint_shown).state),
{
    lemma_same_strip_within(s, s);
    lemma_selected_within(s, window, tab, linux);
    match owner_window(tab) {
        Some(o) => {
            let next = s.strip[o].tabs[s.strip[o].neighbour(forward)].label;
            lemma_selected_within(s, o, next, linux);
        },
        None => {},
    }
    lemma_closed_within(s, window, tab, linux);
    lemma_reordered_within(s, window, tab, new_index);
    if s.strip.contains_key(window) {
        let w2 = flipped(s.strip[window]);
        assert(shrinks(s.strip[window], w2));
        lemma_within_window(s, window, w2);
    }
}

/// Selecting, cycling, closing and moving tabs, and hiding the tab bar, leave every tab of
/// every window with a data partition to itself.
pub proof fn law_tabs_keep_jars(
    s: AppView,
    window: Seq<char>,
    tab: Seq<char>,
    linux: bool,
    forward: bool,
    new_index: int,
    measured: bool,
    hint_shown: bool,
)
    requires
        s.valid(),
        s.strip.contains_key(window) ==> s.strip[window].distinct(),
        0 <= new_index,
    ensures
        keeps_jars(s, selected(s, window, tab, linux).state),
        keeps_jars(s, cycled(s, tab, forward, linux).state),
        keeps_jars(s, closed(s, window, tab, linux).state),
        keeps_jars(s, reordered(s, window, tab, new_index).state),
        keeps_jars(s, toggled(s, window, linux, measured, hint_shown).state),
{
    lemma_tabs_within(s, window, tab, linux, forward, new_index, measured, hint_shown);
    lemma_within_keeps(s, selected(s, window, tab, linux).state);
    lemma_within_keeps(s, cycled(s, tab, forward, linux).state);
    lemma_within_keeps(s, closed(s, window, tab, linux).state);
    lemma_within_keeps(s, reordered(s, window, tab, new_index).state);
    lemma_within_keeps(s, toggled(s, window, linux, measured, hint_shown).state);
}

proof fn lemma_edited_within(s: AppView, s2: AppView, window: Seq<char>, i: int, t: TabView)
    requires
        s.strip.contains_key(window),
        0 <= i < s.strip[window].tabs.len(),
        t.partition == s.strip[window].tabs[i].partition,
        s2.strip == edited(s, window, i, t).strip,
        s2.reserved == s.reserved,
    ensures
        within(s, s2),
{
    let w = s.strip[window];
    let w2 = w.with_tab(i, t);
    assert(partitions(w2.tabs) =~= partitions(w.tabs));
    lemma_within_window(s, window, w2);
    assert forall|v: Seq<char>| #[trigger] s2.strip.contains_key(v) implies s.strip.contains_key(v)
        && shrinks(s.strip[v], s2.strip[v]) by {
        assert(edited(s, window, i, t).strip.contains_key(v));
    }
}

/// What pages report and what users name leads to states that hold the same windows.
proof fn lemma_reports_within(
    s: AppView,
    window: Seq<char>,
    tab: Seq<char>,
    title: Seq<char>,
    flag: bool,
    displayed: Seq<char>,
    name: Option<Seq<char>>,
    read: Option<Seq<CookieView>>,
)
    ensures
        within(s, titled(s, tab, title, flag, displayed).state),
        within(s, dotted(s, tab, title).state),
        within(s, busied(s, tab, flag).state),
        within(s, renamed(s, window, tab, name, displayed).state),
        within(s, captured(s, window, tab, flag, read).state),
{
    let s1 = titled(s, tab, title, flag, displayed).state;
    let s2 = dotted(s, tab, title).state;
    let s3 = busied(s, tab, flag).state;
    let s4 = renamed(s, window, tab, name, displayed).state;
    let s5 = captured(s, window, tab, flag, read).state;
    lemma_same_strip_within(s, s);
    match owner_window(tab) {
        Some(o) => {
            if s.find(o, tab) is Some {
                let i = s.find(o, tab)->0;
                labels(s.strip[o].tabs).index_of_first_ensures(tab);
                lemma_edited_within(s, s1, o, i, s1.strip[o].tabs[i]);
                if s2 != s {
                    lemma_edited_within(s, s2, o, i, s2.strip[o].tabs[i]);
                }
                if s3 != s {
                    lemma_edited_within(s, s3, o, i, s3.strip[o].tabs[i]);
                }
            } else {
                lemma_same_strip_within(s, s1);
            }
        },
        None => {},
    }
    if s.find(window, tab) is Some {
        let i = s.find(window, tab)->0;
        labels(s.strip[window].tabs).index_of_first_ensures(tab);
        lemma_edited_within(s, s4, window, i, s4.strip[window].tabs[i]);
        if s5 != s {
            lemma_edited_within(s, s5, window, i, s5.strip[window].tabs[i]);
        }
    }
}

/// What pages report and what users name leaves every tab of every window with a data
/// partition to itself.
pub proof fn law_reports_keep_jars(
    s: AppView,
    window: Seq<char>,
    tab: Seq<char>,
    title: Seq<char>,
    flag: bool,
    displayed: Seq<char>,
    name: Option<Seq<char>>,
    read: Option<Seq<CookieView>>,
)
    ensures
        keeps_jars(s, titled(s, tab, title, flag, displayed).state),
        keeps_jars(s, dotted(s, tab, title).state),
        keeps_jars(s, busied(s, tab, flag).state),
        keeps_jars(s, renamed(s, window, tab, name, displayed).state),
        keeps_jars(s, captured(s, window, tab, flag, read).state),
{
    lemma_reports_within(s, window, tab, title, flag, displayed, name, read);
    lemma_within_keeps(s, titled(s, tab, title, flag, displayed).state);
    lemma_within_keeps(s, dotted(s, tab, title).state);
    lemma_within_keeps(s, busied(s, tab, flag).state);
    lemma_within_keeps(s, renamed(s, window, tab, name, displayed).state);
    lemma_within_keeps(s, captured(s, window, tab, flag, read).state);
}

/// The state with one more window counted.
pub open spec fn one_more_window(s: AppView) -> AppView {
    AppView { window_seq: s.window_seq + 1, ..s }
}

proof fn lemma_forgotten_within(s: AppView, window: Seq<char>)
    ensures
        within(s, forgotten(s, window).state),
{
    let s2 = forgotten(s, window).state;
    assert forall|v: Seq<char>| #[trigger] s2.strip.contains_key(v) implies s.strip.contains_key(v)
        && shrinks(s.strip[v], s2.strip[v]) by {
        assert(shrinks(s.strip[v], s.strip[v]));
    }
}

/// A window that is counted, put into the registry or destroyed leaves every tab of every
/// window with a data partition to itself, at whatever time that happens.
pub proof fn law_windows_keep_jars(s: AppView, window: Seq<char>, mode: Seq<char>)
    ensures
        keeps_jars(s, one_more_window(s)),
        keeps_jars(s, registered(s, window, mode)),
        keeps_jars(s, forgotten(s, window).state),
{
    lemma_same_strip_within(s, one_more_window(s));
    lemma_within_keeps(s, one_more_window(s));
    lemma_forgotten_within(s, window);
    lemma_within_keeps(s, forgotten(s, window).state);
    let s3 = registered(s, window, mode);
    assert(partitions(s3.strip[window].tabs) =~= Seq::empty());
    assert forall|v: Seq<char>, p: Seq<char>| #[trigger] uses(s3, v, p) implies uses(s, v, p) && v
        != window by {}
    if jars_reserved(s) {
        assert forall|v: Seq<char>, p: Seq<char>| #[trigger] uses(s3, v, p) implies jar_kept(
            s3,
            v,
            p,
        ) by {
            assert(uses(s, v, p));
            assert(jar_kept(s, v, p));
        }
    }
    if jars_distinct(s) {
        assert forall|v: Seq<char>| #[trigger] s3.strip.contains_key(v) implies partitions(
            s3.strip[v].tabs,
        ).no_duplicates() by {
            if v != window {
                assert(s.strip.contains_key(v));
            }
        }
    }
}

// ---------------------------------------------------------------------------
// Partitions that are used again
// ---------------------------------------------------------------------------

proof fn lemma_including_all(r: Seq<Seq<char>>, tabs: Seq<SavedTab>, p: Seq<char>)
    ensures
        including_all(r, tabs).contains(p) <==> r.contains(p) || exists|j: int|
            0 <= j < tabs.len() && (#[trigger] tabs[j]).partition == Some(p),
    decreases tabs.len(),
{
    if tabs.len() > 0 {
        let init = tabs.drop_last();
        let before = including_all(r, init);
        lemma_including_all(r, init, p);
        assert(including_all(r, tabs).contains(p) <==> before.contains(p) || tabs.last().partition
            == Some(p)) by {
            match tabs.last().partition {
                Some(q) => {
                    let after = including(before, q);
                    if !before.contains(q) {
                        assert(after.last() == q);
                        if before.contains(p) {
                            let i = choose|i: int| 0 <= i < before.len() && before[i] == p;
                            assert(after[i] == p);
                        }
                        if after.contains(p) && p != q {
                            let i = choose|i: int| 0 <= i < after.len() && after[i] == p;
                            assert(before[i] == p);
                        }
                    }
                },
                None => {},
            }
        }
        if tabs.last().partition == Some(p) {
            assert(tabs[tabs.len() - 1].partition == Some(p));
        }
        if exists|j: int| 0 <= j < init.len() && (#[trigger] init[j]).partition == Some(p) {
            let j = choose|j: int| 0 <= j < init.len() && (#[trigger] init[j]).partition == Some(p);
            assert(tabs[j].partition == Some(p));
        }
        if exists|j: int| 0 <= j < tabs.len() && (#[trigger] tabs[j]).partition == Some(p) {
            let j = choose|j: int| 0 <= j < tabs.len() && (#[trigger] tabs[j]).partition == Some(p);
            if j < init.len() {
                assert(init[j].partition == Some(p));
            }
        }
    }
}

proof fn lemma_reserved_within(s: AppView, tabs: Seq<SavedTab>)
    ensures
        within(s, reserved_for(s, tabs)),
{
    let s2 = reserved_for(s, tabs);
    assert forall|p: Seq<char>| #[trigger] set_aside(s, p) implies set_aside(s2, p) by {
        lemma_including_all(s.reserved, tabs, p);
    }
    lemma_same_strip_within(s, s2);
}

/// When saved tabs are to come back, every tab of every window keeps its data partition to
/// itself, and exactly the partitions of the saved tabs are set aside besides those that
/// were.
pub proof fn law_restoration_sets_jars_aside(s: AppView, tabs: Seq<SavedTab>, p: Seq<char>)
    ensures
        keeps_jars(s, reserved_for(s, tabs)),
        windows_counted(s) ==> windows_counted(reserved_for(s, tabs)),
        set_aside(reserved_for(s, tabs), p) <==> set_aside(s, p) || exists|j: int|
            0 <= j < tabs.len() && (#[trigger] tabs[j]).partition == Some(p),
        forall|v: Seq<char>, q: Seq<char>| #[trigger]
            uses(reserved_for(s, tabs), v, q) ==> uses(s, v, q),
{
    lemma_reserved_within(s, tabs);
    lemma_within_keeps(s, reserved_for(s, tabs));
    lemma_including_all(s.reserved, tabs, p);
    if windows_counted(s) {
        assert forall|v: Seq<char>| #[trigger]
            reserved_for(s, tabs).strip.contains_key(v) implies window_counted(
            v,
            reserved_for(s, tabs).window_seq,
        ) by {
            assert(s.strip.contains_key(v));
        }
    }
}

/// When the partitions of a saved session are set aside, every tab of every window keeps its
/// data partition to itself, and each partition that the session uses is set aside: no new
/// tab takes one before its window comes back.
pub proof fn law_session_is_reserved(s: AppView, ws: Seq<SavedWindow>, p: Seq<char>)
    ensures
        within(s, session_reserved(s, ws)),
        keeps_jars(s, session_reserved(s, ws)),
        session_reserved(s, ws).strip == s.strip,
        set_aside(session_reserved(s, ws), p) <==> set_aside(s, p) || session_uses(ws, p),
    decreases ws.len(),
{
    if ws.len() > 0 {
        let init = ws.drop_last();
        let before = session_reserved(s, init);
        let tabs = ws.last().tabs;
        let after = reserved_for(before, tabs);
        law_session_is_reserved(s, init, p);
        law_restoration_sets_jars_aside(before, tabs, p);
        assert(within(s, after)) by {
            assert forall|q: Seq<char>| #[trigger] set_aside(s, q) implies set_aside(after, q) by {
                assert(set_aside(before, q));
                lemma_including_all(before.reserved, tabs, q);
            }
            lemma_same_strip_within(s, after);
        }
        lemma_within_keeps(s, after);
        assert(window_uses(ws.last(), p) <==> exists|j: int|
            0 <= j < tabs.len() && (#[trigger] tabs[j]).partition == Some(p));
        if window_uses(ws.last(), p) {
            assert(window_uses(ws[ws.len() - 1], p));
        }
        if session_uses(init, p) {
            let i = choose|i: int| 0 <= i < init.len() && window_uses(#[trigger] init[i], p);
            assert(window_uses(ws[i], p));
        }
        if session_uses(ws, p) {
            let i = choose|i: int| 0 <= i < ws.len() && window_uses(#[trigger] ws[i], p);
            if i < init.len() {
                assert(window_uses(init[i], p));
            }
        }
    } else {
        lemma_same_strip_within(s, s);
        lemma_within_keeps(s, s);
    }
}

/// The state with the count of a window moved on, as at the end of a restoration.
pub open spec fn moved_on(s: AppView, window: Seq<char>, k: nat) -> AppView {
    s.with_window(window, counted_to(s.strip[window], k))
}

proof fn lemma_moved_on_within(s: AppView, window: Seq<char>, k: nat)
    requires
        s.strip.contains_key(window),
    ensures
        within(s, moved_on(s, window, k)),
{
    let w2 = counted_to(s.strip[window], k);
    assert(shrinks(s.strip[window], w2));
    lemma_within_window(s, window, w2);
}

/// The end of a restoration leaves every tab of every window with a data partition to
/// itself.
pub proof fn law_end_of_restoration_keeps_jars(s: AppView, window: Seq<char>, k: nat)
    requires
        s.strip.contains_key(window),
    ensures
        keeps_jars(s, moved_on(s, window, k)),
{
    lemma_moved_on_within(s, window, k);
    lemma_within_keeps(s, moved_on(s, window, k));
}

// ---------------------------------------------------------------------------
// While a webview is being made
// ---------------------------------------------------------------------------

/// The partition of a planned tab stays its own while its webview is being made, whatever
/// becomes of other tabs meanwhile.
pub proof fn law_pending_jar_survives_tabs(
    s: AppView,
    window: Seq<char>,
    p: Seq<char>,
    other: Seq<char>,
    tab: Seq<char>,
    linux: bool,
    forward: bool,
    new_index: int,
    measured: bool,
    hint_shown: bool,
)
    requires
        s.valid(),
        s.strip.contains_key(other) ==> s.strip[other].distinct(),
        0 <= new_index,
        s.strip.contains_key(window),
        jar_pending(s, window, p),
    ensures
        jar_pending(selected(s, other, tab, linux).state, window, p),
        jar_pending(cycled(s, tab, forward, linux).state, window, p),
        jar_pending(closed(s, other, tab, linux).state, window, p),
        jar_pending(reordered(s, other, tab, new_index).state, window, p),
        jar_pending(toggled(s, other, linux, measured, hint_shown).state, window, p),
{
    lemma_tabs_within(s, other, tab, linux, forward, new_index, measured, hint_shown);
    lemma_within_keeps(s, selected(s, other, tab, linux).state);
    lemma_within_keeps(s, cycled(s, tab, forward, linux).state);
    lemma_within_keeps(s, closed(s, other, tab, linux).state);
    lemma_within_keeps(s, reordered(s, other, tab, new_index).state);
    lemma_within_keeps(s, toggled(s, other, linux, measured, hint_shown).state);
}

/// The partition of a planned tab stays its own while its webview is being made, whatever
/// pages report and users name meanwhile.
pub proof fn law_pending_jar_survives_reports(
    s: AppView,
    window: Seq<char>,
    p: Seq<char>,
    other: Seq<char>,
    tab: Seq<char>,
    title: Seq<char>,
    flag: bool,
    displayed: Seq<char>,
    name: Option<Seq<char>>,
    read: Option<Seq<CookieView>>,
)
    requires
        s.strip.contains_key(window),
        jar_pending(s, window, p),
    ensures
        jar_pending(titled(s, tab, title, flag, displayed).state, window, p),
        jar_pending(dotted(s, tab, title).state, window, p),
        jar_pending(busied(s, tab, flag).state, window, p),
        jar_pending(renamed(s, other, tab, name, displayed).state, window, p),
        jar_pending(captured(s, other, tab, flag, read).state, window, p),
{
    lemma_reports_within(s, other, tab, title, flag, displayed, name, read);
    lemma_within_keeps(s, titled(s, tab, title, flag, displayed).state);
    lemma_within_keeps(s, dotted(s, tab, title).state);
    lemma_within_keeps(s, busied(s, tab, flag).state);
    lemma_within_keeps(s, renamed(s, other, tab, name, displayed).state);
    lemma_within_keeps(s, captured(s, other, tab, flag, read).state);
}

/// The partition of a planned tab stays its own while its webview is being made, whatever
/// other windows come, go or are restored meanwhile, and whatever other tabs are planned or
/// get to stand with partitions of their own.
pub proof fn law_pending_jar_survives_windows(
    s: AppView,
    window: Seq<char>,
    p: Seq<char>,
    other: Seq<char>,
    mode: Seq<char>,
    n: nat,
    spec: TabSpecView,
    v: Seq<char>,
    plan: TabPlanView,
    tabs: Seq<SavedTab>,
    session: Seq<SavedWindow>,
    k: nat,
)
    requires
        s.strip.contains_key(window),
        jar_pending(s, window, p),
        other != window,
        s.strip.contains_key(main_label(n)),
        plan.partition != p,
        s.strip.contains_key(v),
    ensures
        jar_pending(one_more_window(s), window, p),
        jar_pending(registered(s, other, mode), window, p),
        jar_pending(forgotten(s, other).state, window, p),
        jar_pending(begun_by(s, n, spec), window, p),
        jar_pending(added(s, v, plan).state, window, p),
        jar_pending(reserved_for(s, tabs), window, p),
        jar_pending(session_reserved(s, session), window, p),
        jar_pending(moved_on(s, v, k), window, p),
{
    lemma_same_strip_within(s, one_more_window(s));
    lemma_within_keeps(s, one_more_window(s));
    lemma_forgotten_within(s, other);
    lemma_within_keeps(s, forgotten(s, other).state);
    lemma_begun_within(s, n, spec);
    lemma_within_keeps(s, begun_by(s, n, spec));
    lemma_reserved_within(s, tabs);
    lemma_within_keeps(s, reserved_for(s, tabs));
    law_session_is_reserved(s, session, p);
    lemma_within_keeps(s, session_reserved(s, session));
    lemma_moved_on_within(s, v, k);
    lemma_within_keeps(s, moved_on(s, v, k));
    let s3 = registered(s, other, mode);
    assert(partitions(s3.strip[other].tabs) =~= Seq::empty());
    assert forall|u: Seq<char>| !#[trigger] uses(s3, u, p) by {
        assert(!uses(s, u, p));
    }
    let s4 = added(s, v, plan).state;
    let a = partitions(s.strip[v].tabs);
    let b = partitions(s4.strip[v].tabs);
    assert(b =~= a.push(plan.partition));
    assert forall|u: Seq<char>| !#[trigger] uses(s4, u, p) by {
        assert(!uses(s, u, p));
        if u == v && b.contains(p) {
            let j = choose|j: int| 0 <= j < b.len() && b[j] == p;
            assert(a[j] == p);
        }
    }
}

/// A partition that is set aside stays so, whatever becomes of tabs and windows.
pub proof fn law_set_aside_stays_so(
    s: AppView,
    window: Seq<char>,
    tab: Seq<char>,
    linux: bool,
    forward: bool,
    new_index: int,
    measured: bool,
    hint_shown: bool,
    mode: Seq<char>,
    n: nat,
    spec: TabSpecView,
    plan: TabPlanView,
    k: nat,
    p: Seq<char>,
)
    requires
        set_aside(s, p),
    ensures
        set_aside(selected(s, window, tab, linux).state, p),
        set_aside(cycled(s, tab, forward, linux).state, p),
        set_aside(closed(s, window, tab, linux).state, p),
        set_aside(reordered(s, window, tab, new_index).state, p),
        set_aside(toggled(s, window, linux, measured, hint_shown).state, p),
        set_aside(one_more_window(s), p),
        set_aside(registered(s, window, mode), p),
        set_aside(forgotten(s, window).state, p),
        set_aside(begun_by(s, n, spec), p),
        set_aside(added(s, window, plan).state, p),
        set_aside(moved_on(s, window, k), p),
{
}

/// A partition that is set aside stays so, whatever pages report and users name, and
/// whatever saved windows come back.
pub proof fn law_set_aside_outlives_reports(
    s: AppView,
    window: Seq<char>,
    tab: Seq<char>,
    title: Seq<char>,
    flag: bool,
    displayed: Seq<char>,
    name: Option<Seq<char>>,
    read: Option<Seq<CookieView>>,
    tabs: Seq<SavedTab>,
    session: Seq<SavedWindow>,
    p: Seq<char>,
)
    requires
        set_aside(s, p),
    ensures
        set_aside(titled(s, tab, title, flag, displayed).state, p),
        set_aside(dotted(s, tab, title).state, p),
        set_aside(busied(s, tab, flag).state, p),
        set_aside(renamed(s, window, tab, name, displayed).state, p),
        set_aside(captured(s, window, tab, flag, read).state, p),
        set_aside(reserved_for(s, tabs), p),
        set_aside(session_reserved(s, session), p),
{
    lemma_including_all(s.reserved, tabs, p);
    law_session_is_reserved(s, session, p);
}

// ---------------------------------------------------------------------------
// Deleting
// ---------------------------------------------------------------------------

/// Closing a tab deletes no data but its own: no tab that stays, in whatever window, uses
/// a partition that is deleted.
pub proof fn law_close_deletes_own_data_only(
    s: AppView,
    window: Seq<char>,
    tab: Seq<char>,
    linux: bool,
    k: int,
    v: Seq<char>,
)
    requires
        s.valid(),
        s.find(window, tab) is Some,
        s.strip[window].distinct(),
        s.strip[window].tabs.len() > 1,
        jars_distinct(s),
        0 <= k < closed(s, window, tab, linux).steps.len(),
        closed(s, window, tab, linux).steps[k] is RemovePartition,
    ensures
        ({
            let after = closed(s, window, tab, linux);
            &&& after.steps[k] == EffectView::RemovePartition(
                s.strip[window].tabs[s.find(window, tab)->0].partition,
            )
            &&& !uses(after.state, v, after.steps[k]->RemovePartition_0)
        }),
{
    let w = s.strip[window];
    labels(w.tabs).index_of_first_ensures(tab);
    let i = w.index(tab)->0;
    let p = w.tabs[i].partition;
    let s2 = closed(s, window, tab, linux).state;
    law_close_keeps_the_others(s, window, tab, linux);
    lemma_without_shrinks(w, i);
    assert(partitions(w.tabs)[i] == p);
    assert(uses(s, window, p));
    lemma_closed_within(s, window, tab, linux);
    lemma_within_keeps(s, s2);
    assert(s2.strip[window].tabs == w.without(i).tabs);
    if uses(s2, v, p) {
        assert(uses(s, v, p));
    }
}

/// No partition that the saved session uses is deleted at startup, and every other one is.
pub proof fn law_startup_deletes_orphans_only(
    session: Seq<SavedWindow>,
    on_disk: Seq<Seq<char>>,
    p: Seq<char>,
)
    ensures
        on_disk.filter(|q: Seq<char>| !session_uses(session, q)).contains(p) <==> on_disk.contains(
            p,
        ) && !session_uses(session, p),
{
    let orphan = |q: Seq<char>| !session_uses(session, q);
    lemma_filter_contains(on_disk, orphan, p);
}

proof fn lemma_filter_contains(s: Seq<Seq<char>>, f: spec_fn(Seq<char>) -> bool, p: Seq<char>)
    ensures
        s.filter(f).contains(p) <==> s.contains(p) && f(p),
    decreases s.len(),
{
    reveal(Seq::filter);
    if s.len() > 0 {
        let t = s.drop_last();
        lemma_filter_contains(t, f, p);
        assert(s.contains(p) <==> t.contains(p) || s.last() == p) by {
            if t.contains(p) {
                let k = choose|k: int| 0 <= k < t.len() && t[k] == p;
                assert(s[k] == p);
            }
            if s.contains(p) && s.last() != p {
                let k = choose|k: int| 0 <= k < s.len() && s[k] == p;
                assert(t[k] == p);
            }
            assert(s[s.len() - 1] == s.last());
        }
        if f(s.last()) {
            let u = t.filter(f);
            let v = u.push(s.last());
            assert(v.contains(p) <==> u.contains(p) || s.last() == p) by {
                if u.contains(p) {
                    let k = choose|k: int| 0 <= k < u.len() && u[k] == p;
                    assert(v[k] == p);
                }
                if v.contains(p) && s.last() != p {
                    let k = choose|k: int| 0 <= k < v.len() && v[k] == p;
                    assert(u[k] == p);
                }
                assert(v[v.len() - 1] == s.last());
            }
        }
    }
}

} // verus!
