//! What is saved of the open windows, and what of it comes back.
use vstd::prelude::*;

use crate::address::address;
use crate::label::suffix;
use crate::session::{
    counted_to, front_tab, including_all, largest_suffix, page_url, reserved_for,
    restored_address, restored_tab, restored_tabs, saved_session, saved_url, saved_window,
    session_reserved, session_uses, window_uses, OpenView, ReportView, SavedTab, SavedWindow,
};
use crate::state::{AppView, WindowView};

verus! {

// ---------------------------------------------------------------------------
// Windows
// ---------------------------------------------------------------------------

/// The registry knows the window, and it has tabs.
pub open spec fn worth_saving(s: AppView, o: OpenView) -> bool {
    s.strip.contains_key(o.label) && s.strip[o.label].tabs.len() > 0
}

/// Every open window that the registry knows and that has tabs is saved, once and in order,
/// and no other is: there is one entry for each of them.
pub proof fn law_every_open_window_is_saved(s: AppView, open: Seq<OpenView>, target: Seq<char>)
    ensures
        ({
            let kept = open.filter(|o: OpenView| worth_saving(s, o));
            let saved = saved_session(s, open, target);
            &&& saved.len() == kept.len()
            &&& forall|i: int|
                0 <= i < kept.len() ==> #[trigger] saved[i] == saved_window(
                    s.strip[kept[i].label],
                    kept[i],
                    target,
                )
        }),
    decreases open.len(),
{
    reveal(Seq::filter);
    if open.len() > 0 {
        law_every_open_window_is_saved(s, open.drop_last(), target);
    }
}

/// Where every open window is known and has tabs, entry `i` of the saved session is open
/// window `i`.
pub proof fn law_saved_session_follows_the_open_windows(
    s: AppView,
    open: Seq<OpenView>,
    target: Seq<char>,
)
    requires
        forall|i: int| 0 <= i < open.len() ==> worth_saving(s, #[trigger] open[i]),
    ensures
        saved_session(s, open, target).len() == open.len(),
        forall|i: int|
            0 <= i < open.len() ==> #[trigger] saved_session(s, open, target)[i] == saved_window(
                s.strip[open[i].label],
                open[i],
                target,
            ),
    decreases open.len(),
{
    if open.len() > 0 {
        let init = open.drop_last();
        assert forall|i: int| 0 <= i < init.len() implies worth_saving(s, #[trigger] init[i]) by {
            assert(init[i] == open[i]);
        }
        law_saved_session_follows_the_open_windows(s, init, target);
        assert(worth_saving(s, open[open.len() - 1]));
        let r = saved_session(s, open, target);
        assert forall|i: int| 0 <= i < open.len() implies #[trigger] r[i] == saved_window(
            s.strip[open[i].label],
            open[i],
            target,
        ) by {
            if i < init.len() {
                assert(r[i] == saved_session(s, init, target)[i]);
            }
        }
    }
}

/// Saving some windows and then others is saving all of them.
pub proof fn law_sessions_add_up(
    s: AppView,
    a: Seq<OpenView>,
    b: Seq<OpenView>,
    target: Seq<char>,
)
    ensures
        saved_session(s, a + b, target) == saved_session(s, a, target) + saved_session(
            s,
            b,
            target,
        ),
    decreases b.len(),
{
    if b.len() == 0 {
        assert(a + b =~= a);
    } else {
        law_sessions_add_up(s, a, b.drop_last(), target);
        assert((a + b).drop_last() =~= a + b.drop_last());
        assert((a + b).last() == b.last());
    }
}

/// A saved window has the frame and the active place of the open one, and all its tabs in
/// their order, each with its profile, its name and its data partition; a tab without a
/// partition is saved without one.
pub proof fn law_saved_window_holds_every_tab(w: WindowView, o: OpenView, target: Seq<char>)
    ensures
        ({
            let sw = saved_window(w, o, target);
            &&& sw.frame == o.frame
            &&& sw.active == w.active
            &&& sw.tabs.len() == w.tabs.len()
            &&& forall|i: int|
                0 <= i < w.tabs.len() ==> {
                    let t = w.tabs[i];
                    let st = #[trigger] sw.tabs[i];
                    &&& st.profile == t.profile
                    &&& st.custom_title == t.custom_title
                    &&& t.partition.len() > 0 ==> st.partition == Some(t.partition)
                    &&& t.partition.len() == 0 ==> st.partition is None
                    &&& st.url == saved_url(o.reports, t.label, target)
                }
        }),
{
}

// ---------------------------------------------------------------------------
// Addresses
// ---------------------------------------------------------------------------

/// The report at `r` is the first one of the tab with this label.
pub open spec fn first_report(reports: Seq<ReportView>, label: Seq<char>, r: int) -> bool {
    &&& 0 <= r < reports.len()
    &&& reports[r].label == label
    &&& forall|j: int| 0 <= j < r ==> (#[trigger] reports[j]).label != label
}

/// The page reported an address that is not one of an `about:` page.
pub open spec fn page_reported(r: ReportView) -> bool {
    r.reported is Some && !"about:"@.is_prefix_of(r.reported->0)
}

/// The address that is saved for a tab is the one that its page reported, unless that is an
/// `about:` page; else the one that its webview gives, once it has loaded a page; else the
/// target.
pub proof fn law_saved_address_is_the_best_known(
    reports: Seq<ReportView>,
    label: Seq<char>,
    r: int,
    target: Seq<char>,
)
    ensures
        first_report(reports, label, r) ==> {
            let at = reports[r];
            let url = saved_url(reports, label, target);
            &&& page_reported(at) ==> url == at.reported->0
            &&& !page_reported(at) && at.navigated && at.live is Some ==> url == at.live->0
            &&& !page_reported(at) && !(at.navigated && at.live is Some) ==> url == target
        },
        (forall|j: int| 0 <= j < reports.len() ==> (#[trigger] reports[j]).label != label)
            ==> saved_url(reports, label, target) == target,
{
    let names = reports.map_values(|v: ReportView| v.label);
    names.index_of_first_ensures(label);
    assert(forall|j: int| 0 <= j < reports.len() ==> names[j] == (#[trigger] reports[j]).label);
    if first_report(reports, label, r) {
        assert(names[r] == label);
        assert(names.contains(label));
        let k = names.index_of_first(label)->0;
        if k < r {
            assert(reports[k].label == label);
        }
    }
    if (forall|j: int| 0 <= j < reports.len() ==> (#[trigger] reports[j]).label != label)
        && names.contains(label) {
        let k = choose|k: int| 0 <= k < names.len() && names[k] == label;
        assert(reports[k].label == label);
    }
}

/// A reported address counts unless it is that of an `about:` page.
pub proof fn law_about_pages_are_no_addresses(u: Seq<char>)
    ensures
        "about:"@.is_prefix_of(u) ==> page_url(Some(u)) is None,
        !"about:"@.is_prefix_of(u) ==> page_url(Some(u)) == Some(u),
        page_url(None) is None,
{
}

// ---------------------------------------------------------------------------
// Tabs that come back
// ---------------------------------------------------------------------------

/// A restored tab loads its saved address where that is one, and the target where it is not.
pub proof fn law_restored_address_prefers_the_saved_one(url: Seq<char>, target: Seq<char>)
    ensures
        address(url) is Some ==> restored_address(url, target) == address(url),
        address(url) is None ==> restored_address(url, target) == address(target),
{
}

/// Every saved tab with an address of its own comes back, and every other one where the
/// target is an address: once each, in order, and no other tab does.
pub proof fn law_every_saved_tab_comes_back(tabs: Seq<SavedTab>, target: Seq<char>, macos: bool)
    ensures
        ({
            let kept = tabs.filter(
                |t: SavedTab| address(t.url) is Some || address(target) is Some,
            );
            let back = restored_tabs(tabs, target, macos);
            &&& back.len() == kept.len()
            &&& forall|i: int|
                0 <= i < kept.len() ==> #[trigger] back[i] == restored_tab(
                    kept[i],
                    if address(kept[i].url) is Some {
                        address(kept[i].url)->0
                    } else {
                        address(target)->0
                    },
                    macos,
                )
        }),
    decreases tabs.len(),
{
    reveal(Seq::filter);
    if tabs.len() > 0 {
        law_every_saved_tab_comes_back(tabs.drop_last(), target, macos);
    }
}

/// The tab that comes to the front after a restoration is the one at the saved place, and
/// the last one where there are fewer; none where no tab came back.
pub proof fn law_front_tab_is_the_saved_one(w: WindowView, active: int)
    requires
        0 <= active,
    ensures
        active < w.tabs.len() ==> front_tab(w, active) == Some(w.tabs[active].label),
        0 < w.tabs.len() <= active ==> front_tab(w, active) == Some(
            w.tabs[w.tabs.len() - 1].label,
        ),
        w.tabs.len() == 0 ==> front_tab(w, active) is None,
{
}

// ---------------------------------------------------------------------------
// Partitions
// ---------------------------------------------------------------------------

/// The count that the partition of a saved tab ends with.
pub open spec fn partition_count(t: SavedTab) -> nat {
    match t.partition {
        Some(p) => match suffix(p) {
            Some(k) => k as nat,
            None => 0,
        },
        None => 0,
    }
}

/// The largest count of saved tabs is at least that of each of them, and is that of one of
/// them unless it is zero.
pub proof fn law_largest_count_is_the_maximum(tabs: Seq<SavedTab>)
    ensures
        forall|i: int|
            0 <= i < tabs.len() ==> partition_count(#[trigger] tabs[i]) <= largest_suffix(tabs),
        largest_suffix(tabs) > 0 ==> exists|i: int|
            0 <= i < tabs.len() && partition_count(#[trigger] tabs[i]) == largest_suffix(tabs),
    decreases tabs.len(),
{
    if tabs.len() > 0 {
        let init = tabs.drop_last();
        law_largest_count_is_the_maximum(init);
        assert forall|i: int| 0 <= i < tabs.len() implies partition_count(#[trigger] tabs[i])
            <= largest_suffix(tabs) by {
            if i < init.len() {
                assert(init[i] == tabs[i]);
            }
        }
        if largest_suffix(tabs) > 0 {
            if largest_suffix(tabs) == largest_suffix(init) {
                let k = choose|k: int|
                    0 <= k < init.len() && partition_count(#[trigger] init[k]) == largest_suffix(
                        init,
                    );
                assert(init[k] == tabs[k]);
            } else {
                assert(partition_count(tabs[tabs.len() - 1]) == largest_suffix(tabs));
            }
        }
    }
}

/// At the end of a restoration the count of a window is never below what it was nor below
/// the count asked for, and is one of the two. Nothing else changes.
pub proof fn law_restoration_only_counts_on(w: WindowView, n: nat)
    ensures
        ({
            let w2 = counted_to(w, n);
            &&& w2.tab_seq >= w.tab_seq && w2.tab_seq >= n
            &&& w2.tab_seq == w.tab_seq || w2.tab_seq == n
            &&& w2.tabs == w.tabs && w2.active == w.active && w2.strip_hidden == w.strip_hidden
        }),
{
}

/// Setting partitions aside adds those of the saved tabs and no others, behind the ones that
/// were there, and touches nothing else.
pub proof fn law_exactly_the_saved_partitions_are_set_aside(
    s: AppView,
    tabs: Seq<SavedTab>,
    p: Seq<char>,
)
    ensures
        ({
            let s2 = reserved_for(s, tabs);
            &&& s2.reserved.contains(p) <==> s.reserved.contains(p) || exists|i: int|
                0 <= i < tabs.len() && #[trigger] tabs[i].partition == Some(p)
            &&& s.reserved.len() <= s2.reserved.len()
            &&& s2.reserved.take(s.reserved.len() as int) == s.reserved
            &&& s.reserved.no_duplicates() ==> s2.reserved.no_duplicates()
            &&& s2.strip == s.strip && s2.raw_titles == s.raw_titles
            &&& s2.window_modes == s.window_modes && s2.window_seq == s.window_seq
        }),
    decreases tabs.len(),
{
    if tabs.len() == 0 {
        assert(s.reserved.take(s.reserved.len() as int) =~= s.reserved);
    } else {
        let init = tabs.drop_last();
        law_exactly_the_saved_partitions_are_set_aside(s, init, p);
        let before = including_all(s.reserved, init);
        let after = including_all(s.reserved, tabs);
        let last = tabs[tabs.len() - 1];
        if exists|i: int| 0 <= i < init.len() && #[trigger] init[i].partition == Some(p) {
            let i = choose|i: int| 0 <= i < init.len() && #[trigger] init[i].partition == Some(p);
            assert(tabs[i].partition == Some(p));
        }
        if exists|i: int| 0 <= i < tabs.len() && #[trigger] tabs[i].partition == Some(p) {
            let i = choose|i: int| 0 <= i < tabs.len() && #[trigger] tabs[i].partition == Some(p);
            if i < init.len() {
                assert(init[i].partition == Some(p));
            }
        }
        if last.partition is Some && !before.contains(last.partition->0) {
            let q = last.partition->0;
            assert(after == before.push(q));
            assert(after[before.len() as int] == q);
            if before.contains(p) {
                let k = choose|k: int| 0 <= k < before.len() && before[k] == p;
                assert(after[k] == p);
            }
            assert(after.take(s.reserved.len() as int) =~= before.take(s.reserved.len() as int));
            if before.no_duplicates() {
                assert(after.no_duplicates());
            }
        } else {
            assert(after == before);
        }
    }
}

/// Setting a session's partitions aside adds those of the tabs of all its windows and no
/// others.
pub proof fn law_exactly_the_session_is_set_aside(s: AppView, ws: Seq<SavedWindow>, p: Seq<char>)
    ensures
        ({
            let s2 = session_reserved(s, ws);
            &&& s2.reserved.contains(p) <==> s.reserved.contains(p) || exists|k: int, i: int|
                #![trigger ws[k].tabs[i]]
                0 <= k < ws.len() && 0 <= i < ws[k].tabs.len() && ws[k].tabs[i].partition == Some(p)
            &&& s2.strip == s.strip && s2.raw_titles == s.raw_titles
            &&& s2.window_modes == s.window_modes && s2.window_seq == s.window_seq
        }),
    decreases ws.len(),
{
    if ws.len() > 0 {
        let init = ws.drop_last();
        law_exactly_the_session_is_set_aside(s, init, p);
        let before = session_reserved(s, init);
        let last = ws[ws.len() - 1];
        law_exactly_the_saved_partitions_are_set_aside(before, last.tabs, p);
        if exists|k: int, i: int|
            #![trigger init[k].tabs[i]]
            0 <= k < init.len() && 0 <= i < init[k].tabs.len() && init[k].tabs[i].partition == Some(
                p,
            ) {
            let (k, i) = choose|k: int, i: int|
                #![trigger init[k].tabs[i]]
                0 <= k < init.len() && 0 <= i < init[k].tabs.len() && init[k].tabs[i].partition
                    == Some(p);
            assert(ws[k].tabs[i].partition == Some(p));
        }
        if exists|i: int| 0 <= i < last.tabs.len() && #[trigger] last.tabs[i].partition == Some(p) {
            let i = choose|i: int|
                0 <= i < last.tabs.len() && #[trigger] last.tabs[i].partition == Some(p);
            assert(ws[ws.len() - 1].tabs[i].partition == Some(p));
        }
        if exists|k: int, i: int|
            #![trigger ws[k].tabs[i]]
            0 <= k < ws.len() && 0 <= i < ws[k].tabs.len() && ws[k].tabs[i].partition == Some(p) {
            let (k, i) = choose|k: int, i: int|
                #![trigger ws[k].tabs[i]]
                0 <= k < ws.len() && 0 <= i < ws[k].tabs.len() && ws[k].tabs[i].partition == Some(
                    p,
                );
            if k < init.len() {
                assert(init[k].tabs[i].partition == Some(p));
            } else {
                assert(last.tabs[i].partition == Some(p));
            }
        }
    }
}

/// A session uses a partition exactly where some tab of some window of it has it.
pub proof fn law_session_uses_the_partitions_of_its_tabs(ws: Seq<SavedWindow>, p: Seq<char>)
    ensures
        session_uses(ws, p) <==> exists|k: int, i: int|
            #![trigger ws[k].tabs[i]]
            0 <= k < ws.len() && 0 <= i < ws[k].tabs.len() && ws[k].tabs[i].partition == Some(p),
{
    if session_uses(ws, p) {
        let k = choose|k: int| 0 <= k < ws.len() && window_uses(#[trigger] ws[k], p);
        let i = choose|i: int|
            0 <= i < ws[k].tabs.len() && #[trigger] ws[k].tabs[i].partition == Some(p);
        assert(ws[k].tabs[i].partition == Some(p));
    }
    if exists|k: int, i: int|
        #![trigger ws[k].tabs[i]]
        0 <= k < ws.len() && 0 <= i < ws[k].tabs.len() && ws[k].tabs[i].partition == Some(p) {
        let (k, i) = choose|k: int, i: int|
            #![trigger ws[k].tabs[i]]
            0 <= k < ws.len() && 0 <= i < ws[k].tabs.len() && ws[k].tabs[i].partition == Some(p);
        assert(window_uses(ws[k], p));
    }
}

} // verus!
