//! What comes back when saved windows are restored.
use vstd::prelude::*;

use crate::address::AddressView;
use crate::jars::{
    jars_distinct, jars_reserved, joined_by, law_new_partition_is_not_kept, law_new_tab_keeps_jars,
    law_restoration_sets_jars_aside, next_plan, partitions, set_aside, uses,
};
use crate::label::{main_label, tab_label};
use crate::laws::windows_counted;
use crate::newtab::{
    entry_for, lemma_next_count, next_count, plan_for, profile_of, CookieView, TabSpecView,
};
use crate::session::{
    counted_to, front_tab, largest_suffix, reserved_for, restored_address, restored_tab,
    restored_tabs, saved_tab, saved_url, saved_window, OpenView, SavedTab,
};
use crate::state::{AppView, TabView, WindowView};

verus! {

/// The cookie that a restored tab starts with selects the profile that was saved.
pub proof fn law_restored_cookie_selects_profile(
    t: SavedTab,
    a: AddressView,
)
    ensures
        profile_of(restored_tab(t, a, false).seed) == t.profile,
{
    let seed = restored_tab(t, a, false).seed;
    let names = seed.map_values(|c: CookieView| c.name);
    names.index_of_first_ensures("hermes_profile"@);
    match t.profile {
        Some(p) => {
            assert(names[0] == "hermes_profile"@);
            assert(names.contains("hermes_profile"@));
        },
        None => {
            assert(names.len() == 0);
        },
    }
}

/// Whether a tab came back as it was: its profile, its data partition, and the name that
/// the user gave it.
pub open spec fn same_tab(t: TabView, back: TabView) -> bool {
    &&& back.profile == t.profile
    &&& back.dot_profile == t.profile
    &&& back.partition == t.partition
    &&& back.custom_title == t.custom_title
    &&& t.custom_title is Some ==> back.title == t.custom_title->0
}

/// Whether a saved tab has an address to come back from.
pub open spec fn comes_back(t: SavedTab, target: Seq<char>) -> bool {
    restored_address(t.url, target) is Some
}

/// Where every saved tab has an address, each comes back, in order.
pub proof fn law_restoration_brings_back_every_tab(
    tabs: Seq<SavedTab>,
    target: Seq<char>,
    macos: bool,
)
    requires
        forall|i: int| 0 <= i < tabs.len() ==> comes_back(#[trigger] tabs[i], target),
    ensures
        restored_tabs(tabs, target, macos).len() == tabs.len(),
        forall|i: int|
            0 <= i < tabs.len() ==> #[trigger] restored_tabs(tabs, target, macos)[i]
                == restored_tab(tabs[i], restored_address(tabs[i].url, target)->0, macos),
    decreases tabs.len(),
{
    if tabs.len() > 0 {
        let init = tabs.drop_last();
        assert forall|i: int| 0 <= i < init.len() implies comes_back(#[trigger] init[i], target) by {
            assert(comes_back(tabs[i], target));
        }
        law_restoration_brings_back_every_tab(init, target, macos);
        assert(comes_back(tabs[tabs.len() - 1], target));
        let r = restored_tabs(tabs, target, macos);
        assert forall|i: int| 0 <= i < tabs.len() implies #[trigger] r[i] == restored_tab(
            tabs[i],
            restored_address(tabs[i].url, target)->0,
            macos,
        ) by {
            if i < init.len() {
                assert(r[i] == restored_tabs(init, target, macos)[i]);
                assert(init[i] == tabs[i]);
            }
        }
    }
}

/// The state in which the window `main_label(n)` got these tabs, one after the other.
pub open spec fn filled(s: AppView, n: nat, specs: Seq<TabSpecView>, isolated: bool) -> AppView
    decreases specs.len(),
{
    if specs.len() == 0 {
        s
    } else {
        joined_by(filled(s, n, specs.drop_last(), isolated), n, specs.last(), isolated)
    }
}

/// Tabs that all use a partition again are labelled with consecutive counts.
proof fn lemma_filled(s: AppView, n: nat, specs: Seq<TabSpecView>, isolated: bool)
    requires
        s.strip.contains_key(main_label(n)),
        forall|i: int| 0 <= i < specs.len() ==> (#[trigger] specs[i]).partition_override is Some,
    ensures
        ({
            let w = s.strip[main_label(n)];
            let after = filled(s, n, specs, isolated);
            let back = after.strip[main_label(n)];
            &&& after.strip.contains_key(main_label(n))
            &&& back.tab_seq == w.tab_seq + specs.len()
            &&& back.tabs.len() == w.tabs.len() + specs.len()
            &&& forall|i: int|
                0 <= i < specs.len() ==> #[trigger] back.tabs[w.tabs.len() + i] == entry_for(
                    plan_for(
                        tab_label(main_label(n), (w.tab_seq + i + 1) as nat),
                        specs[i],
                        isolated,
                    ),
                )
        }),
    decreases specs.len(),
{
    if specs.len() > 0 {
        let init = specs.drop_last();
        assert forall|i: int| 0 <= i < init.len() implies (
        #[trigger] init[i]).partition_override is Some by {
            assert(init[i] == specs[i]);
        }
        lemma_filled(s, n, init, isolated);
        assert(specs[specs.len() - 1].partition_override is Some);
        let w = s.strip[main_label(n)];
        let before = filled(s, n, init, isolated).strip[main_label(n)];
        let back = filled(s, n, specs, isolated).strip[main_label(n)];
        assert forall|i: int| 0 <= i < specs.len() implies #[trigger] back.tabs[w.tabs.len() + i]
            == entry_for(
            plan_for(tab_label(main_label(n), (w.tab_seq + i + 1) as nat), specs[i], isolated),
        ) by {
            if i < init.len() {
                assert(back.tabs[w.tabs.len() + i] == before.tabs[w.tabs.len() + i]);
                assert(init[i] == specs[i]);
            }
        }
    }
}

/// Whether no two saved tabs have the same data partition.
pub open spec fn saved_apart(tabs: Seq<SavedTab>) -> bool {
    forall|i: int, j: int|
        0 <= i < tabs.len() && 0 <= j < tabs.len() && i != j && tabs[i].partition is Some
            ==> #[trigger] tabs[i].partition != #[trigger] tabs[j].partition
}

/// Whether a tab of some window uses the partition of a saved tab.
pub open spec fn in_use(s: AppView, t: SavedTab) -> bool {
    t.partition is Some && exists|v: Seq<char>| #[trigger] uses(s, v, t.partition->0)
}

/// Whether the saved tabs from `k` on have partitions of their own, which no tab uses.
pub open spec fn apart_from(s: AppView, tabs: Seq<SavedTab>, k: int) -> bool {
    &&& jars_distinct(s)
    &&& saved_apart(tabs)
    &&& forall|j: int| k <= j < tabs.len() ==> !in_use(s, #[trigger] tabs[j])
}

/// What holds once the first `k` saved tabs stand again.
proof fn lemma_first_tabs(
    start: AppView,
    n: nat,
    tabs: Seq<SavedTab>,
    target: Seq<char>,
    macos: bool,
    isolated: bool,
    k: int,
)
    requires
        0 <= k <= tabs.len(),
        jars_reserved(start),
        windows_counted(start),
        start.strip.contains_key(main_label(n)),
        forall|j: int|
            0 <= j < tabs.len() && (#[trigger] tabs[j]).partition is Some ==> set_aside(
                start,
                tabs[j].partition->0,
            ),
        filled(start, n, restored_tabs(tabs.take(k), target, macos), isolated).strip[main_label(
            n,
        )].tab_seq <= u64::MAX,
    ensures
        ({
            let after = filled(start, n, restored_tabs(tabs.take(k), target, macos), isolated);
            &&& jars_reserved(after)
            &&& windows_counted(after)
            &&& after.strip.contains_key(main_label(n))
            &&& after.reserved == start.reserved
            &&& apart_from(start, tabs, 0) ==> apart_from(after, tabs, k)
        }),
    decreases k,
{
    if k > 0 {
        let first = restored_tabs(tabs.take(k - 1), target, macos);
        let before = filled(start, n, first, isolated);
        let t = tabs[k - 1];
        assert(tabs.take(k).drop_last() =~= tabs.take(k - 1));
        assert(tabs.take(k).last() == t);
        match restored_address(t.url, target) {
            Some(a) => {
                let spec = restored_tab(t, a, macos);
                assert(restored_tabs(tabs.take(k), target, macos) =~= first.push(spec));
                assert(first.push(spec).drop_last() =~= first);
                let after = joined_by(before, n, spec, isolated);
                assert(filled(start, n, first.push(spec), isolated) == after);
                lemma_next_count(before, main_label(n), spec);
                assert(after.strip[main_label(n)].tab_seq == next_count(
                    before,
                    main_label(n),
                    spec,
                ));
                lemma_first_tabs(start, n, tabs, target, macos, isolated, k - 1);
                if t.partition is Some {
                    assert(set_aside(start, tabs[k - 1].partition->0));
                }
                law_new_tab_keeps_jars(before, n, spec, isolated);
                if apart_from(start, tabs, 0) {
                    assert(!in_use(before, tabs[k - 1]));
                    assert forall|j: int| k <= j < tabs.len() implies !in_use(
                        after,
                        #[trigger] tabs[j],
                    ) by {
                        if in_use(after, tabs[j]) {
                            let p = tabs[j].partition->0;
                            let v = choose|v: Seq<char>| #[trigger] uses(after, v, p);
                            assert(!in_use(before, tabs[j]));
                            assert(!uses(before, v, p));
                            assert(tabs[j].partition != tabs[k - 1].partition);
                            assert(set_aside(start, p));
                        }
                    }
                }
            },
            None => {
                lemma_first_tabs(start, n, tabs, target, macos, isolated, k - 1);
            },
        }
    } else {
        assert(tabs.take(0) =~= Seq::empty());
    }
}

/// The state once the partitions of saved tabs were set aside and the window
/// `main_label(n)` got the tabs.
pub open spec fn brought_back(
    s: AppView,
    n: nat,
    tabs: Seq<SavedTab>,
    target: Seq<char>,
    macos: bool,
    isolated: bool,
) -> AppView {
    filled(reserved_for(s, tabs), n, restored_tabs(tabs, target, macos), isolated)
}

/// A restoration leaves every partition that is in use to its tabs, so that no later tab of
/// any window takes one of them. Where the saved tabs have partitions of their own that no
/// tab uses, it leaves every tab with a partition to itself. It does so for saved tabs
/// without a partition too.
pub proof fn law_restoration_keeps_jars(
    s: AppView,
    n: nat,
    tabs: Seq<SavedTab>,
    target: Seq<char>,
    macos: bool,
    isolated: bool,
)
    requires
        jars_reserved(s),
        windows_counted(s),
        s.strip.contains_key(main_label(n)),
        brought_back(s, n, tabs, target, macos, isolated).strip[main_label(n)].tab_seq <= u64::MAX,
    ensures
        ({
            let after = brought_back(s, n, tabs, target, macos, isolated);
            &&& jars_reserved(after)
            &&& windows_counted(after)
            &&& apart_from(s, tabs, 0) ==> jars_distinct(after)
            &&& forall|p: Seq<char>| set_aside(s, p) ==> #[trigger] set_aside(after, p)
            &&& forall|j: int|
                0 <= j < tabs.len() && (#[trigger] tabs[j]).partition is Some ==> set_aside(
                    after,
                    tabs[j].partition->0,
                )
        }),
{
    let start = reserved_for(s, tabs);
    law_restoration_sets_jars_aside(s, tabs, Seq::empty());
    assert forall|j: int| 0 <= j < tabs.len() && (#[trigger] tabs[j]).partition is Some implies set_aside(
        start,
        tabs[j].partition->0,
    ) by {
        law_restoration_sets_jars_aside(s, tabs, tabs[j].partition->0);
    }
    if apart_from(s, tabs, 0) {
        assert forall|j: int| 0 <= j < tabs.len() implies !in_use(start, #[trigger] tabs[j]) by {
            assert(!in_use(s, tabs[j]));
            if in_use(start, tabs[j]) {
                let v = choose|v: Seq<char>| #[trigger] uses(start, v, tabs[j].partition->0);
                assert(uses(s, v, tabs[j].partition->0));
            }
        }
    }
    assert(tabs.take(tabs.len() as int) =~= tabs);
    lemma_first_tabs(start, n, tabs, target, macos, isolated, tabs.len() as int);
    let after = brought_back(s, n, tabs, target, macos, isolated);
    assert forall|p: Seq<char>| set_aside(s, p) implies #[trigger] set_aside(after, p) by {
        law_restoration_sets_jars_aside(s, tabs, p);
    }
}

/// After a restoration a new tab of any window gets a partition that none of the restored
/// tabs has, whether they are still open or not.
pub proof fn law_new_tab_takes_no_restored_partition(
    s: AppView,
    n: nat,
    tabs: Seq<SavedTab>,
    target: Seq<char>,
    macos: bool,
    isolated: bool,
    m: nat,
    j: int,
    spec: TabSpecView,
)
    requires
        jars_reserved(s),
        windows_counted(s),
        s.strip.contains_key(main_label(n)),
        brought_back(s, n, tabs, target, macos, isolated).strip[main_label(n)].tab_seq <= u64::MAX,
        brought_back(s, n, tabs, target, macos, isolated).strip.contains_key(main_label(m)),
        next_count(brought_back(s, n, tabs, target, macos, isolated), main_label(m), spec)
            <= u64::MAX,
        0 <= j < tabs.len(),
        spec.partition_override is None,
    ensures
        Some(
            next_plan(
                brought_back(s, n, tabs, target, macos, isolated),
                m,
                spec,
                isolated,
            ).partition,
        ) != tabs[j].partition,
{
    law_restoration_keeps_jars(s, n, tabs, target, macos, isolated);
    if tabs[j].partition is Some {
        let after = brought_back(s, n, tabs, target, macos, isolated);
        let p = tabs[j].partition->0;
        assert(set_aside(after, p));
        law_new_partition_is_not_kept(after, m, main_label(m), p, spec, isolated);
    }
}

/// A window that is saved and restored comes back with its tabs in their order, labelled
/// with the first counts of the window. Each has the profile, the data partition and the
/// user's name that it had, and loads the address that was saved; the tab that was active
/// is brought to the front.
pub proof fn law_restored_window_is_the_saved_one(
    w: WindowView,
    o: OpenView,
    target: Seq<char>,
    macos: bool,
    isolated: bool,
    s: AppView,
    n: nat,
)
    requires
        w.valid(),
        w.tabs.len() > 0,
        forall|j: int|
            0 <= j < w.tabs.len() ==> (#[trigger] w.tabs[j]).partition.len() > 0 && comes_back(
                saved_tab(w.tabs[j], saved_url(o.reports, w.tabs[j].label, target)),
                target,
            ),
        s.strip.contains_key(main_label(n)),
        s.strip[main_label(n)] == WindowView::empty(),
    ensures
        ({
            let sw = saved_window(w, o, target);
            let specs = restored_tabs(sw.tabs, target, macos);
            let after = brought_back(s, n, sw.tabs, target, macos, isolated);
            let back = counted_to(after.strip[main_label(n)], largest_suffix(sw.tabs));
            &&& back.tabs.len() == w.tabs.len()
            &&& forall|i: int|
                0 <= i < w.tabs.len() ==> {
                    &&& same_tab(w.tabs[i], #[trigger] back.tabs[i])
                    &&& back.tabs[i].label == tab_label(main_label(n), (i + 1) as nat)
                    &&& Some(specs[i].target) == restored_address(
                        saved_url(o.reports, w.tabs[i].label, target),
                        target,
                    )
                }
            &&& front_tab(back, sw.active) == Some(back.tabs[w.active].label)
            &&& partitions(back.tabs) == partitions(w.tabs)
        }),
{
    let sw = saved_window(w, o, target);
    let specs = restored_tabs(sw.tabs, target, macos);
    assert forall|j: int| 0 <= j < sw.tabs.len() implies comes_back(#[trigger] sw.tabs[j], target) by {
        assert(sw.tabs[j] == saved_tab(w.tabs[j], saved_url(o.reports, w.tabs[j].label, target)));
    }
    law_restoration_brings_back_every_tab(sw.tabs, target, macos);
    assert forall|i: int| 0 <= i < specs.len() implies (
    #[trigger] specs[i]).partition_override is Some by {
        assert(sw.tabs[i] == saved_tab(w.tabs[i], saved_url(o.reports, w.tabs[i].label, target)));
        assert(comes_back(sw.tabs[i], target));
    }
    let start = reserved_for(s, sw.tabs);
    lemma_filled(start, n, specs, isolated);
    let after = brought_back(s, n, sw.tabs, target, macos, isolated);
    let back = counted_to(after.strip[main_label(n)], largest_suffix(sw.tabs));
    assert forall|i: int| 0 <= i < w.tabs.len() implies {
        &&& same_tab(w.tabs[i], #[trigger] back.tabs[i])
        &&& back.tabs[i].label == tab_label(main_label(n), (i + 1) as nat)
        &&& Some(specs[i].target) == restored_address(
            saved_url(o.reports, w.tabs[i].label, target),
            target,
        )
    } by {
        let saved = sw.tabs[i];
        assert(saved == saved_tab(w.tabs[i], saved_url(o.reports, w.tabs[i].label, target)));
        assert(comes_back(saved, target));
        assert(specs[i] == restored_tab(saved, restored_address(saved.url, target)->0, macos));
        assert(back.tabs[i] == after.strip[main_label(n)].tabs[0 + i]);
        let seed = specs[i].seed;
        if w.tabs[i].profile is None {
            let names = seed.map_values(|c: CookieView| c.name);
            names.index_of_first_ensures("hermes_profile"@);
            assert(names.len() == 0);
        }
    }
    assert(partitions(back.tabs) =~= partitions(w.tabs)) by {
        assert forall|i: int| 0 <= i < w.tabs.len() implies #[trigger] partitions(back.tabs)[i]
            == partitions(w.tabs)[i] by {
            assert(same_tab(w.tabs[i], back.tabs[i]));
        }
    }
}

} // verus!
