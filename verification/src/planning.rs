//! What a new tab is made of, and how it joins its window.
use vstd::prelude::*;

use crate::address::{address, lowercase, parsed_url, root_path, AddressView};
use crate::conduct::{other_windows_same, remembered};
use crate::effect::EffectView;
use crate::label::tab_label;
use crate::newtab::{
    added, counted, cut_off, lemma_next_free, next_count, plan_for, profile_of, Jar, TabPlanView,
    TabSpecView,
};
use crate::session::{restored_tab, SavedTab};
use crate::state::AppView;

verus! {

// ---------------------------------------------------------------------------
// The plan
// ---------------------------------------------------------------------------

/// Wherever tabs have partitions of their own and there are cookies to set, the cookies are
/// set before the address is loaded, whether the partition is fresh or used again: the
/// webview starts on the blank page. In all other cases it starts on the address.
pub proof fn law_cookies_are_set_before_the_address_is_loaded(
    label: Seq<char>,
    spec: TabSpecView,
    isolated: bool,
)
    ensures
        ({
            let plan = plan_for(label, spec, isolated);
            &&& isolated && spec.seed.len() > 0 ==> plan.seeded && plan.first_url == "about:blank"@
            &&& !isolated || spec.seed.len() == 0 ==> !plan.seeded && plan.first_url
                == spec.target.href
        }),
{
}

/// Two tabs that differ in the partition alone are made in the same way but for what happens
/// to the partition: the one that is given is kept, and without one the tab gets a fresh one
/// named like itself. Where tabs have no partitions of their own, nothing is done to any.
pub proof fn law_partition_decides_nothing_else(
    label: Seq<char>,
    spec: TabSpecView,
    p: Seq<char>,
    isolated: bool,
)
    ensures
        ({
            let fresh = plan_for(
                label,
                (TabSpecView { partition_override: None, ..spec }),
                isolated,
            );
            let again = plan_for(
                label,
                (TabSpecView { partition_override: Some(p), ..spec }),
                isolated,
            );
            &&& again.seeded == fresh.seeded && again.first_url == fresh.first_url
            &&& again.profile == fresh.profile && again.allowed_host == fresh.allowed_host
            &&& again.custom_title == fresh.custom_title
            &&& again.restore_retry == fresh.restore_retry
            &&& again.label == label && fresh.label == label
            &&& again.partition == p && fresh.partition == label
            &&& isolated ==> again.jar == Jar::Kept && fresh.jar == Jar::Fresh
            &&& !isolated ==> again.jar == Jar::Shared && fresh.jar == Jar::Shared
        }),
{
}

/// A tab opens on the profile that it is known to have, else on the one that its cookies
/// select. It may navigate within the host of its address, in lower case, and carries its
/// name and the address to load again.
pub proof fn law_plan_carries_what_was_asked_for(
    label: Seq<char>,
    spec: TabSpecView,
    isolated: bool,
)
    ensures
        ({
            let plan = plan_for(label, spec, isolated);
            &&& spec.profile_hint is Some ==> plan.profile == spec.profile_hint
            &&& spec.profile_hint is None ==> plan.profile == profile_of(spec.seed)
            &&& spec.target.host matches Some(h) ==> plan.allowed_host == Some(lowercase(h))
            &&& spec.target.host is None ==> plan.allowed_host is None
            &&& plan.custom_title == spec.custom_title
            &&& plan.restore_retry == spec.restore_retry
        }),
{
}

/// A saved tab with a profile that is brought back where tabs have partitions of their own,
/// off macOS, has the cookie of that profile set before its address is loaded, whether it
/// uses its partition again or not: one cookie, pinned to the host of the address.
pub proof fn law_restored_profile_is_set_before_the_address_is_loaded(
    label: Seq<char>,
    t: SavedTab,
    a: AddressView,
)
    requires
        t.profile is Some,
    ensures
        ({
            let spec = restored_tab(t, a, false);
            let plan = plan_for(label, spec, true);
            &&& plan.seeded
            &&& plan.first_url == "about:blank"@
            &&& plan.profile == t.profile
            &&& spec.seed.len() == 1
            &&& spec.seed[0].name == "hermes_profile"@
            &&& spec.seed[0].value == t.profile->0
            &&& spec.seed[0].domain == a.host
        }),
{
}

/// A saved tab without a profile, and any on macOS, is brought back without cookies and
/// loads its address at once.
pub proof fn law_restored_without_profile_loads_at_once(
    label: Seq<char>,
    t: SavedTab,
    a: AddressView,
    macos: bool,
    isolated: bool,
)
    requires
        t.profile is None || macos,
    ensures
        restored_tab(t, a, macos).seed.len() == 0,
        !plan_for(label, restored_tab(t, a, macos), isolated).seeded,
        plan_for(label, restored_tab(t, a, macos), isolated).first_url == a.href,
{
}

/// A saved tab is brought back at the address that was found for it, with the partition,
/// the profile and the name that were saved. It is watched for a bounce exactly where its
/// address is deeper than the root of the site.
pub proof fn law_restored_tab_keeps_what_was_saved(t: SavedTab, a: AddressView, macos: bool)
    ensures
        ({
            let spec = restored_tab(t, a, macos);
            &&& spec.target == a
            &&& spec.partition_override == t.partition
            &&& spec.profile_hint == t.profile
            &&& spec.custom_title == t.custom_title
            &&& a.path.len() == 0 || a.path == "/"@ ==> spec.restore_retry is None
            &&& a.path.len() != 0 && a.path != "/"@ ==> spec.restore_retry == Some(a.href)
        }),
{
}

/// An address has the parts that its text was taken apart into; a text that could not be is
/// none. The root of a site has the empty path or `/`, and no other.
pub proof fn law_address_has_the_parsed_parts(u: Seq<char>, path: Seq<char>)
    ensures
        match parsed_url(u) {
            Some(parts) => address(u) matches Some(a) && a.href == parts.0 && a.host == parts.1
                && a.path == parts.2,
            None => address(u) is None,
        },
        root_path(path) <==> path.len() == 0 || (path.len() == 1 && path[0] == '/'),
{
    reveal_strlit("/");
    if path.len() == 1 && path[0] == '/' {
        assert(path =~= "/"@);
    }
}

/// A tunnel that is up, or that the target does not need, cuts nothing off.
pub proof fn law_only_a_missing_tunnel_cuts_off(mode: Seq<char>, tunnel_up: bool)
    ensures
        tunnel_up ==> !cut_off(mode, tunnel_up),
        mode != "ssh"@ ==> !cut_off(mode, tunnel_up),
        cut_off("ssh"@, false),
{
}

// ---------------------------------------------------------------------------
// The count
// ---------------------------------------------------------------------------

/// A tab that gets a partition named like itself takes the first count past the last one
/// whose label is not reserved; a tab that uses a partition again takes the very next count.
/// Counting changes nothing but the count.
pub proof fn law_next_count_is_the_first_free_one(s: AppView, window: Seq<char>, spec: TabSpecView)
    ensures
        ({
            let w = s.strip[window];
            let k = next_count(s, window, spec);
            &&& k > w.tab_seq
            &&& spec.partition_override is Some ==> k == w.tab_seq + 1
            &&& spec.partition_override is None ==> {
                &&& !s.reserved.contains(tab_label(window, k))
                &&& forall|j: nat|
                    w.tab_seq < j < k ==> s.reserved.contains(#[trigger] tab_label(window, j))
            }
            &&& counted(w, k).tab_seq == k
            &&& counted(w, k).tabs == w.tabs && counted(w, k).active == w.active
            &&& counted(w, k).strip_hidden == w.strip_hidden
        }),
{
    vstd::seq_lib::seq_to_set_is_finite(s.reserved);
    let w = s.strip[window];
    lemma_next_free(s.reserved.to_set(), window, w.tab_seq + 1);
    assert(forall|p: Seq<char>|
        s.reserved.contains(p) <==> #[trigger] s.reserved.to_set().contains(p));
}

// ---------------------------------------------------------------------------
// The entry
// ---------------------------------------------------------------------------

/// A tab whose webview stands joins its window at the end, behind all tabs that were there,
/// and is the active one. It is neither busy nor asking for attention, has the profile and
/// the partition of its plan, shows that profile, and is called as the user named it, or
/// `New Tab`.
pub proof fn law_new_tab_joins_at_the_end(s: AppView, window: Seq<char>, plan: TabPlanView)
    requires
        s.strip.contains_key(window),
    ensures
        ({
            let w = s.strip[window];
            let s2 = added(s, window, plan).state;
            let w2 = s2.strip[window];
            let t = w2.tabs[w.tabs.len() as int];
            &&& w2.tabs.len() == w.tabs.len() + 1
            &&& forall|j: int| 0 <= j < w.tabs.len() ==> #[trigger] w2.tabs[j] == w.tabs[j]
            &&& w2.active == w.tabs.len()
            &&& w2.tab_seq == w.tab_seq && w2.strip_hidden == w.strip_hidden
            &&& t.label == plan.label && t.partition == plan.partition
            &&& t.profile == plan.profile && t.dot_profile == plan.profile
            &&& !t.busy && !t.attention
            &&& t.custom_title == plan.custom_title
            &&& plan.custom_title is Some ==> t.title == plan.custom_title->0
            &&& plan.custom_title is None ==> t.title == "New Tab"@
            &&& other_windows_same(s, s2, window) && s2.raw_titles == s.raw_titles
        }),
{
    let s2 = added(s, window, plan).state;
    assert(s2.strip.dom() =~= s.strip.dom());
}

/// The tab that was active is hidden and told so, the new one is focused, the tab bar and
/// the window title follow, and the session is saved; a tab that is to be watched is watched
/// after that. A window that is gone gets nothing.
pub proof fn law_new_tab_steps(s: AppView, window: Seq<char>, plan: TabPlanView)
    requires
        s.valid(),
    ensures
        ({
            let w = s.strip[window];
            let o = added(s, window, plan);
            let was = w.tabs[w.active].label;
            let leaving = seq![EffectView::HideTab(was), EffectView::Background(was, true)];
            let coming = seq![
                EffectView::FocusTab(plan.label),
                EffectView::EmitTabs(window),
                EffectView::RefreshTitle(window, remembered(s, plan.label)),
                EffectView::Persist,
            ];
            let joined = if w.tabs.len() > 0 {
                leaving + coming
            } else {
                coming
            };
            &&& !s.strip.contains_key(window) ==> o.state == s && o.steps.len() == 0
            &&& s.strip.contains_key(window) && plan.restore_retry is None ==> o.steps == joined
            &&& s.strip.contains_key(window) && plan.restore_retry is Some ==> o.steps
                == joined.push(EffectView::WatchRestore(plan.label, plan.restore_retry->0))
        }),
{
    let o = added(s, window, plan);
    if s.strip.contains_key(window) {
        assert(o.state.active_tab(window) == Some(plan.label));
    }
}

} // verus!
