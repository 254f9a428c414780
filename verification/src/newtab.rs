//! Making a tab: the plan for its webview and its data partition, and its entry in the
//! registry once the webview stands.
use vstd::prelude::*;

use crate::address;
use crate::address::{host_within, Address, AddressView};
use crate::effect::{steps, Effect, EffectView};
use crate::label;
use crate::label::{law_counts_make_labels_distinct, tab_label};
use crate::state::{
    labels, lemma_made_later, made_label, AppState, AppView, TabEntry, TabView, WindowView,
};
use crate::tabs;
use crate::tabs::{lemma_with_window_numbered, unchanged, Outcome};
use crate::text;
use crate::text::opt_text;

verus! {

// ---------------------------------------------------------------------------
// Cookies
// ---------------------------------------------------------------------------

/// A cookie, as far as the strip looks into it.
#[derive(Debug)]
pub struct Cookie {
    pub name: String,
    pub value: String,
    /// The host that the cookie is pinned to.
    pub domain: Option<String>,
}

/// What a cookie is.
#[verifier::ext_equal]
pub struct CookieView {
    pub name: Seq<char>,
    pub value: Seq<char>,
    pub domain: Option<Seq<char>>,
}

impl View for Cookie {
    type V = CookieView;

    open spec fn view(&self) -> CookieView {
        CookieView { name: self.name@, value: self.value@, domain: opt_text(self.domain) }
    }
}

/// What a list of cookies holds.
pub open spec fn cookie_views(v: Seq<Cookie>) -> Seq<CookieView> {
    v.map_values(|c: Cookie| c@)
}

/// The profile that a set of cookies selects: the value of the first cookie named
/// `hermes_profile`; none means the default profile.
pub open spec fn profile_of(cookies: Seq<CookieView>) -> Option<Seq<char>> {
    match cookies.map_values(|c: CookieView| c.name).index_of_first("hermes_profile"@) {
        Some(i) => Some(cookies[i].value),
        None => None,
    }
}

/// The profile that a set of cookies selects; none means the default profile.
pub fn profile_from_cookies(cookies: &Vec<Cookie>) -> (r: Option<String>)
    ensures
        opt_text(r) == profile_of(cookie_views(cookies@)),
{
    let ghost names = cookie_views(cookies@).map_values(|c: CookieView| c.name);
    let ghost key = "hermes_profile"@;
    proof {
        names.index_of_first_ensures(key);
    }
    let mut i: usize = 0;
    while i < cookies.len()
        invariant
            i <= cookies@.len(),
            key == "hermes_profile"@,
            names == cookie_views(cookies@).map_values(|c: CookieView| c.name),
            forall|j: int| 0 <= j < i ==> names[j] != key,
            match names.index_of_first(key) {
                Some(k) => 0 <= k < names.len() && names[k] == key && forall|j: int|
                    0 <= j < k ==> names[j] != key,
                None => !names.contains(key),
            },
        decreases cookies@.len() - i,
    {
        if text::same(cookies[i].name.as_str(), "hermes_profile") {
            assert(names[i as int] == key);
            assert(names.contains(key));
            return Some(cookies[i].value.clone());
        }
        assert(names[i as int] == cookies@[i as int].name@);
        i = i + 1;
    }
    None
}

// ---------------------------------------------------------------------------
// A further tab
// ---------------------------------------------------------------------------

/// The preferences that the strip reads.
#[derive(Debug)]
pub struct Prefs {
    /// `ssh` where the target is reached through a tunnel.
    pub connection_mode: String,
    /// The address that a new tab loads.
    pub target_url: String,
}

/// Whether a new tab may be opened, and how.
#[derive(Debug)]
pub enum NewTab {
    /// The window is gone, or the tunnel is down.
    Refused,
    /// The preferences hold no address.
    BadTarget,
    /// The tab loads `target`. With `inherit` it starts from the cookies of the tab
    /// `opener`, or of the one in front where that is none.
    Open { target: Address, opener: Option<String>, inherit: bool },
}

/// Whether the target is behind a tunnel that is down.
pub open spec fn cut_off(mode: Seq<char>, tunnel_up: bool) -> bool {
    mode == "ssh"@ && !tunnel_up
}

/// Decides whether a window gets a further tab. `open` tells whether the window exists,
/// `tunnel_up` whether the tunnel is connected.
pub fn add_tab(
    state: &AppState,
    p: &Prefs,
    window_label: &str,
    open: bool,
    tunnel_up: bool,
    macos: bool,
) -> (r: NewTab)
    requires
        state.wf(),
    ensures
        match r {
            NewTab::Refused => !open || cut_off(p.connection_mode@, tunnel_up),
            NewTab::BadTarget => {
                &&& open && !cut_off(p.connection_mode@, tunnel_up)
                &&& address::address(p.target_url@) is None
            },
            NewTab::Open { target, opener, inherit } => {
                &&& open && !cut_off(p.connection_mode@, tunnel_up)
                &&& address::address(p.target_url@) == Some(target@)
                &&& opt_text(opener) == state@.active_tab(window_label@)
                &&& inherit == !macos
            },
        },
{
    if !open {
        return NewTab::Refused;
    }
    if text::same(p.connection_mode.as_str(), "ssh") && !tunnel_up {
        return NewTab::Refused;
    }
    match address::parse_address(p.target_url.as_str()) {
        Some(target) => {
            let opener: Option<String> = match state.window(window_label) {
                Some(w) => w.active_label(),
                None => None,
            };
            NewTab::Open { target, opener, inherit: !macos }
        },
        None => NewTab::BadTarget,
    }
}

/// What a pair of a window label and a tab label holds.
pub open spec fn opt_pair(p: Option<(String, String)>) -> Option<(Seq<char>, Seq<char>)> {
    match p {
        Some((window, tab)) => Some((window@, tab@)),
        None => None,
    }
}

/// The tab whose cookies a new tab of `window_label` starts from: the opener where its
/// webview stands, else the tab in front; none where there is neither.
pub fn cookie_source(
    window_label: &str,
    opener: Option<String>,
    stands: bool,
    front: Option<(String, String)>,
) -> (r: Option<(String, String)>)
    ensures
        opt_pair(r) == match opener {
            Some(tab) if stands => Some((window_label@, tab@)),
            _ => opt_pair(front),
        },
{
    match opener {
        Some(tab) => if stands {
            Some((window_label.to_owned(), tab))
        } else {
            front
        },
        None => front,
    }
}

/// A tab that loads `target` in a fresh partition that starts with the cookies `seed`.
pub fn fresh_tab(target: Address, seed: Vec<Cookie>) -> (r: TabSpec)
    ensures
        r@ == (TabSpecView {
            target: target@,
            seed: cookie_views(seed@),
            partition_override: None,
            profile_hint: None,
            custom_title: None,
            restore_retry: None,
        }),
{
    TabSpec {
        target,
        seed,
        partition_override: None,
        profile_hint: None,
        custom_title: None,
        restore_retry: None,
    }
}

// ---------------------------------------------------------------------------
// The plan
// ---------------------------------------------------------------------------

/// What a new or a restored tab is to be.
#[derive(Debug)]
pub struct TabSpec {
    /// The address that the tab loads.
    pub target: Address,
    /// Cookies to put into the tab's partition before it loads.
    pub seed: Vec<Cookie>,
    /// A data partition to use again; without one the tab gets a fresh partition of its
    /// own.
    pub partition_override: Option<String>,
    /// The profile to show before the page has loaded.
    pub profile_hint: Option<String>,
    /// The name that the user gave the tab.
    pub custom_title: Option<String>,
    /// The address to load again should a restored tab bounce to the root.
    pub restore_retry: Option<String>,
}

/// What a tab is to be.
#[verifier::ext_equal]
pub struct TabSpecView {
    pub target: AddressView,
    pub seed: Seq<CookieView>,
    pub partition_override: Option<Seq<char>>,
    pub profile_hint: Option<Seq<char>>,
    pub custom_title: Option<Seq<char>>,
    pub restore_retry: Option<Seq<char>>,
}

impl View for TabSpec {
    type V = TabSpecView;

    open spec fn view(&self) -> TabSpecView {
        TabSpecView {
            target: self.target@,
            seed: cookie_views(self.seed@),
            partition_override: opt_text(self.partition_override),
            profile_hint: opt_text(self.profile_hint),
            custom_title: opt_text(self.custom_title),
            restore_retry: opt_text(self.restore_retry),
        }
    }
}

/// What to do with a tab's data partition before its webview is made.
#[derive(Clone, Copy, Debug, PartialEq, Eq, Structural)]
pub enum Jar {
    /// The tab has no partition of its own.
    Shared,
    /// Keep what the partition holds; make it where it is missing.
    Kept,
    /// Delete what the partition holds and make it anew.
    Fresh,
}

/// How a tab's webview is made.
#[derive(Debug)]
pub struct TabPlan {
    pub label: String,
    pub partition: String,
    pub jar: Jar,
    /// The profile that the tab opens on.
    pub profile: Option<String>,
    /// Whether cookies are put into the partition before the address is loaded.
    pub seeded: bool,
    /// What the webview loads at first.
    pub first_url: String,
    /// The host that the tab may navigate within.
    pub allowed_host: Option<String>,
    pub custom_title: Option<String>,
    pub restore_retry: Option<String>,
}

/// How a tab's webview is made.
#[verifier::ext_equal]
pub struct TabPlanView {
    pub label: Seq<char>,
    pub partition: Seq<char>,
    pub jar: Jar,
    pub profile: Option<Seq<char>>,
    pub seeded: bool,
    pub first_url: Seq<char>,
    pub allowed_host: Option<Seq<char>>,
    pub custom_title: Option<Seq<char>>,
    pub restore_retry: Option<Seq<char>>,
}

impl View for TabPlan {
    type V = TabPlanView;

    open spec fn view(&self) -> TabPlanView {
        TabPlanView {
            label: self.label@,
            partition: self.partition@,
            jar: self.jar,
            profile: opt_text(self.profile),
            seeded: self.seeded,
            first_url: self.first_url@,
            allowed_host: opt_text(self.allowed_host),
            custom_title: opt_text(self.custom_title),
            restore_retry: opt_text(self.restore_retry),
        }
    }
}

/// The plan for a tab with this label. `isolated` tells whether tabs have partitions of
/// their own here.
pub open spec fn plan_for(label: Seq<char>, spec: TabSpecView, isolated: bool) -> TabPlanView {
    let seeded = isolated && spec.seed.len() > 0;
    TabPlanView {
        label,
        partition: match spec.partition_override {
            Some(p) => p,
            None => label,
        },
        jar: if !isolated {
            Jar::Shared
        } else if spec.partition_override is Some {
            Jar::Kept
        } else {
            Jar::Fresh
        },
        profile: match spec.profile_hint {
            Some(p) => Some(p),
            None => profile_of(spec.seed),
        },
        seeded,
        first_url: if seeded {
            "about:blank"@
        } else {
            spec.target.href
        },
        allowed_host: host_within(spec.target),
        custom_title: spec.custom_title,
        restore_retry: spec.restore_retry,
    }
}

/// The first count, from `k` on, whose label is no reserved partition.
pub open spec fn next_free(reserved: Set<Seq<char>>, window: Seq<char>, k: nat) -> nat
    decreases reserved.len(),
    when reserved.finite()
{
    if reserved.contains(tab_label(window, k)) {
        next_free(reserved.remove(tab_label(window, k)), window, k + 1)
    } else {
        k
    }
}

/// The count of the next tab of a window. A tab that gets a partition of its own, named
/// like it, passes over the names that are reserved; one that uses a partition again does
/// not need to.
pub open spec fn next_count(s: AppView, window: Seq<char>, spec: TabSpecView) -> nat {
    let k = s.strip[window].tab_seq + 1;
    if spec.partition_override is None {
        next_free(s.reserved.to_set(), window, k)
    } else {
        k
    }
}

/// How many names may be passed over before the next tab of a window gets its own.
pub open spec fn passed_over(s: AppView, spec: TabSpecView) -> nat {
    if spec.partition_override is None {
        s.reserved.len()
    } else {
        0
    }
}

/// What the first free count is.
pub proof fn lemma_next_free(reserved: Set<Seq<char>>, window: Seq<char>, k: nat)
    requires
        reserved.finite(),
    ensures
        k <= next_free(reserved, window, k) <= k + reserved.len(),
        !reserved.contains(tab_label(window, next_free(reserved, window, k))),
        forall|j: nat|
            k <= j < next_free(reserved, window, k) ==> reserved.contains(
                #[trigger] tab_label(window, j),
            ),
    decreases reserved.len(),
{
    let l = tab_label(window, k);
    if reserved.contains(l) {
        lemma_next_free(reserved.remove(l), window, k + 1);
        law_counts_make_labels_distinct(window, k, next_free(reserved, window, k));
    }
}

/// The next count of a window is past its last one, and the label that it makes is no
/// reserved partition where the tab needs it to be none.
pub proof fn lemma_next_count(s: AppView, window: Seq<char>, spec: TabSpecView)
    ensures
        s.strip[window].tab_seq < next_count(s, window, spec),
        next_count(s, window, spec) <= s.strip[window].tab_seq + 1 + passed_over(s, spec),
        spec.partition_override is None ==> !s.reserved.contains(
            tab_label(window, next_count(s, window, spec)),
        ),
{
    vstd::seq_lib::seq_to_set_is_finite(s.reserved);
    s.reserved.lemma_cardinality_of_set();
    let k = s.strip[window].tab_seq + 1;
    lemma_next_free(s.reserved.to_set(), window, k);
    assert(forall|p: Seq<char>| s.reserved.contains(p) ==> #[trigger] s.reserved.to_set().contains(p));
}

/// The window with its count at `k`.
pub open spec fn counted(w: WindowView, k: nat) -> WindowView {
    WindowView { tab_seq: k, ..w }
}

/// The count of the next tab of a window, from `from` on, that passes over reserved names.
fn free_count(state: &AppState, window_label: &str, from: u64) -> (r: u64)
    requires
        from + state@.reserved.len() <= u64::MAX,
    ensures
        r == next_free(state@.reserved.to_set(), window_label@, from as nat),
{
    let ghost reserved = state@.reserved.to_set();
    let ghost k = next_free(reserved, window_label@, from as nat);
    proof {
        vstd::seq_lib::seq_to_set_is_finite(state@.reserved);
        state@.reserved.lemma_cardinality_of_set();
        lemma_next_free(reserved, window_label@, from as nat);
    }
    let mut r: u64 = from;
    while state.is_reserved(label::make_tab_label(window_label, r).as_str())
        invariant
            from <= r <= k <= u64::MAX,
            reserved == state@.reserved.to_set(),
            !reserved.contains(tab_label(window_label@, k)),
            forall|j: nat|
                from <= j < k ==> reserved.contains(#[trigger] tab_label(window_label@, j)),
        decreases k - r,
    {
        assert(reserved.contains(tab_label(window_label@, r as nat)));
        r = r + 1;
    }
    assert(!reserved.contains(tab_label(window_label@, r as nat)));
    r
}

/// Counts a new tab of a window and plans its webview; none where the window is gone.
/// `open` tells whether the window exists, `isolated` whether tabs have data partitions
/// of their own.
pub fn begin_tab(
    state: &mut AppState,
    window_label: &str,
    spec: &TabSpec,
    open: bool,
    isolated: bool,
) -> (r: Option<TabPlan>)
    requires
        old(state).wf(),
        old(state)@.strip.contains_key(window_label@) ==> old(state)@.strip[window_label@].tab_seq
            + passed_over(old(state)@, spec@) < u64::MAX,
    ensures
        final(state).wf(),
        match r {
            Some(plan) => {
                let w = old(state)@.strip[window_label@];
                let k = next_count(old(state)@, window_label@, spec@);
                &&& open && old(state)@.strip.contains_key(window_label@)
                &&& final(state)@ == old(state)@.with_window(window_label@, counted(w, k))
                &&& plan@ == plan_for(tab_label(window_label@, k), spec@, isolated)
            },
            None => {
                &&& !(open && old(state)@.strip.contains_key(window_label@))
                &&& final(state)@ == old(state)@
            },
        },
        old(state)@.numbered() ==> final(state)@.numbered(),
{
    if !open {
        return None;
    }
    let ghost s = state@;
    let ghost w = s.strip[window_label@];
    let ghost k = next_count(s, window_label@, spec@);
    let last: u64 = match state.window(window_label) {
        Some(win) => win.tab_seq,
        None => {
            return None;
        },
    };
    proof {
        lemma_next_count(s, window_label@, spec@);
    }
    let seq: u64 = if spec.partition_override.is_none() {
        free_count(state, window_label, last + 1)
    } else {
        last + 1
    };
    if let Some(mut win) = state.take_window(window_label) {
        win.tab_seq = seq;
        assert(win@ =~= counted(w, k));
        state.put_window(window_label, win);
    }
    assert(state@ =~= s.with_window(window_label@, counted(w, k)));
    proof {
        if s.numbered() {
            lemma_counted_numbered(w, window_label@, k);
        }
        lemma_with_window_numbered(s, window_label@, counted(w, k));
    }
    let label: String = label::make_tab_label(window_label, seq);
    let reuse: bool = spec.partition_override.is_some();
    let partition: String = match &spec.partition_override {
        Some(p) => p.clone(),
        None => label.clone(),
    };
    let jar: Jar = if !isolated {
        Jar::Shared
    } else if reuse {
        Jar::Kept
    } else {
        Jar::Fresh
    };
    let profile: Option<String> = match &spec.profile_hint {
        Some(p) => Some(p.clone()),
        None => profile_from_cookies(&spec.seed),
    };
    let seeded: bool = isolated && spec.seed.len() > 0;
    let first_url: String = if seeded {
        "about:blank".to_owned()
    } else {
        spec.target.href.clone()
    };
    let plan = TabPlan {
        label,
        partition,
        jar,
        profile,
        seeded,
        first_url,
        allowed_host: address::allowed_host(&spec.target),
        custom_title: text::copy_opt(&spec.custom_title),
        restore_retry: text::copy_opt(&spec.restore_retry),
    };
    Some(plan)
}

proof fn lemma_counted_numbered(w: WindowView, window: Seq<char>, k: nat)
    requires
        w.numbered(window),
        w.tab_seq <= k,
    ensures
        counted(w, k).numbered(window),
{
    let w2 = counted(w, k);
    assert forall|i: int| 0 <= i < w2.tabs.len() implies made_label(
        window,
        w2.tab_seq,
        #[trigger] w2.tabs[i].label,
    ) by {
        lemma_made_later(window, w.tab_seq, w2.tab_seq, w.tabs[i].label);
    }
}

// ---------------------------------------------------------------------------
// The entry
// ---------------------------------------------------------------------------

/// The entry of a tab whose webview was made by this plan.
pub open spec fn entry_for(plan: TabPlanView) -> TabView {
    TabView {
        label: plan.label,
        title: match plan.custom_title {
            Some(t) => t,
            None => "New Tab"@,
        },
        attention: false,
        busy: false,
        profile: plan.profile,
        dot_profile: plan.profile,
        partition: plan.partition,
        custom_title: plan.custom_title,
    }
}

/// The window with one more tab, which is the active one.
pub open spec fn with_new_tab(w: WindowView, t: TabView) -> WindowView {
    WindowView { tabs: w.tabs.push(t), active: w.tabs.len() as int, ..w }
}

/// The tab `label` takes the place of `prev` in front, and a restored tab is watched.
pub open spec fn arrival_steps(
    prev: Option<Seq<char>>,
    window: Seq<char>,
    raw_title: Seq<char>,
    label: Seq<char>,
    restore_retry: Option<Seq<char>>,
) -> Seq<EffectView> {
    (match prev {
        Some(p) => seq![EffectView::HideTab(p), EffectView::Background(p, true)],
        None => Seq::empty(),
    }) + seq![
        EffectView::FocusTab(label),
        EffectView::EmitTabs(window),
        EffectView::RefreshTitle(window, raw_title),
        EffectView::Persist,
    ] + (match restore_retry {
        Some(u) => seq![EffectView::WatchRestore(label, u)],
        None => Seq::empty(),
    })
}

/// The new tab takes the place of the active one in front, at the end of the tab bar; a
/// restored tab is watched. Nothing happens where the window is gone.
pub open spec fn added(s: AppView, window: Seq<char>, plan: TabPlanView) -> Outcome {
    if s.strip.contains_key(window) {
        let w = s.strip[window];
        let s2 = s.with_window(window, with_new_tab(w, entry_for(plan)));
        Outcome {
            state: s2,
            steps: arrival_steps(
                w.active_label(),
                window,
                s2.window_raw_title(window),
                plan.label,
                plan.restore_retry,
            ),
        }
    } else {
        unchanged(s)
    }
}

/// Whether the label of a plan is one that its window made and no tab carries.
pub open spec fn label_pending(w: WindowView, window: Seq<char>, label: Seq<char>) -> bool {
    made_label(window, w.tab_seq, label) && !labels(w.tabs).contains(label)
}

/// The steps for a tab that takes the place of `prev` in front.
fn arrive(
    prev: Option<String>,
    window_label: &str,
    raw_title: String,
    label: String,
    restore_retry: Option<String>,
) -> (r: Vec<Effect>)
    ensures
        steps(r@) == arrival_steps(
            opt_text(prev),
            window_label@,
            raw_title@,
            label@,
            opt_text(restore_retry),
        ),
{
    let mut r: Vec<Effect> = Vec::new();
    if let Some(p) = prev {
        r.push(Effect::HideTab(p.clone()));
        r.push(Effect::Background(p, true));
    }
    r.push(Effect::FocusTab(label.clone()));
    r.push(Effect::EmitTabs(window_label.to_owned()));
    r.push(Effect::RefreshTitle(window_label.to_owned(), raw_title));
    r.push(Effect::Persist);
    if let Some(u) = restore_retry {
        r.push(Effect::WatchRestore(label, u));
    }
    r
}

/// Puts the tab into the registry once its webview stands.
pub fn finish_tab(state: &mut AppState, window_label: &str, plan: TabPlan) -> (r: Vec<Effect>)
    requires
        old(state).wf(),
    ensures
        final(state).wf(),
        (Outcome { state: final(state)@, steps: steps(r@) }) == added(
            old(state)@,
            window_label@,
            plan@,
        ),
        old(state)@.numbered() && (old(state)@.strip.contains_key(window_label@) ==> label_pending(
            old(state)@.strip[window_label@],
            window_label@,
            plan@.label,
        )) ==> final(state)@.numbered(),
{
    let ghost s = state@;
    let prev: Option<String> = match state.window(window_label) {
        Some(w) => w.active_label(),
        None => {
            let none: Vec<Effect> = Vec::new();
            assert(steps(none@) =~= Seq::empty());
            return none;
        },
    };
    let ghost w = s.strip[window_label@];
    let ghost w2 = with_new_tab(w, entry_for(plan@));
    let ghost pv = plan@;
    let label: String = plan.label.clone();
    if let Some(mut win) = state.take_window(window_label) {
        let title: String = match &plan.custom_title {
            Some(t) => t.clone(),
            None => "New Tab".to_owned(),
        };
        let n: usize = win.tabs.len();
        let entry = TabEntry {
            label: plan.label,
            title,
            attention: false,
            busy: false,
            profile: text::copy_opt(&plan.profile),
            dot_profile: plan.profile,
            partition: plan.partition,
            custom_title: plan.custom_title,
        };
        assert(entry@ =~= entry_for(pv));
        win.tabs.push(entry);
        win.active = n;
        assert(win@.tabs =~= w2.tabs);
        assert(win@ =~= w2);
        state.put_window(window_label, win);
    }
    assert(state@ =~= s.with_window(window_label@, w2));
    proof {
        if w.numbered(window_label@) && label_pending(w, window_label@, pv.label) {
            lemma_new_tab_numbered(w, window_label@, entry_for(pv));
        }
        lemma_with_window_numbered(s, window_label@, w2);
    }
    let raw: String = tabs::window_raw_title(state, window_label);
    arrive(prev, window_label, raw, label, plan.restore_retry)
}

proof fn lemma_new_tab_numbered(w: WindowView, window: Seq<char>, t: TabView)
    requires
        w.numbered(window),
        label_pending(w, window, t.label),
    ensures
        with_new_tab(w, t).numbered(window),
{
    let w2 = with_new_tab(w, t);
    let a = labels(w.tabs);
    let b = labels(w2.tabs);
    assert(b =~= a.push(t.label));
    assert forall|i: int| 0 <= i < w2.tabs.len() implies made_label(
        window,
        w2.tab_seq,
        #[trigger] w2.tabs[i].label,
    ) by {
        if i < w.tabs.len() {
            assert(made_label(window, w.tab_seq, w.tabs[i].label));
        }
    }
    assert forall|j: int, k: int| 0 <= j < b.len() && 0 <= k < b.len() && j != k implies b[j]
        != b[k] by {
        if j < a.len() && k < a.len() {
            assert(a[j] != a[k]);
        } else if j < a.len() {
            assert(a.contains(a[j]));
        } else {
            assert(a.contains(a[k]));
        }
    }
}

} // verus!
