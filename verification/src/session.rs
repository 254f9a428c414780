//! Saving the strip windows and bringing them back.
use vstd::prelude::*;

use crate::address;
use crate::address::{address, root_path, Address, AddressView};
use crate::label;
use crate::label::suffix;
use crate::newtab::{cookie_views, Cookie, CookieView, Prefs, TabSpec, TabSpecView};
use crate::state::{
    including, lemma_made_later, made_label, AppState, AppView, TabView, WindowTabs, WindowView,
};
use crate::tabs::lemma_with_window_numbered;
use crate::text;
use crate::text::{opt_str, opt_text, texts};

verus! {

// ---------------------------------------------------------------------------
// Types
// ---------------------------------------------------------------------------

/// A saved tab.
#[derive(Debug)]
pub struct SessionTab {
    pub url: String,
    pub profile: Option<String>,
    /// The data partition that holds the tab's cookies.
    pub partition: Option<String>,
    pub custom_title: Option<String>,
}

/// What a saved tab is.
#[verifier::ext_equal]
pub struct SavedTab {
    pub url: Seq<char>,
    pub profile: Option<Seq<char>>,
    pub partition: Option<Seq<char>>,
    pub custom_title: Option<Seq<char>>,
}

impl View for SessionTab {
    type V = SavedTab;

    open spec fn view(&self) -> SavedTab {
        SavedTab {
            url: self.url@,
            profile: opt_text(self.profile),
            partition: opt_text(self.partition),
            custom_title: opt_text(self.custom_title),
        }
    }
}

/// What a list of saved tabs holds.
pub open spec fn saved_tabs(v: Seq<SessionTab>) -> Seq<SavedTab> {
    v.map_values(|t: SessionTab| t@)
}

/// A saved strip window.
#[derive(Debug)]
pub struct SessionWindow {
    /// Left, top, width and height in pixels.
    pub frame: Option<[i64; 4]>,
    pub active: usize,
    pub tabs: Vec<SessionTab>,
}

/// What a saved window is.
#[verifier::ext_equal]
pub struct SavedWindow {
    pub frame: Option<[i64; 4]>,
    pub active: int,
    pub tabs: Seq<SavedTab>,
}

impl View for SessionWindow {
    type V = SavedWindow;

    open spec fn view(&self) -> SavedWindow {
        SavedWindow {
            frame: self.frame,
            active: self.active as int,
            tabs: saved_tabs(self.tabs@),
        }
    }
}

/// What a list of saved windows holds.
pub open spec fn saved_windows(v: Seq<SessionWindow>) -> Seq<SavedWindow> {
    v.map_values(|w: SessionWindow| w@)
}

// ---------------------------------------------------------------------------
// Saving
// ---------------------------------------------------------------------------

/// What the shell knows of a tab's address.
#[derive(Debug)]
pub struct TabReport {
    pub label: String,
    /// The address that the page reported.
    pub reported: Option<String>,
    /// Whether the tab has loaded a page.
    pub navigated: bool,
    /// The address that the webview gives.
    pub live: Option<String>,
}

/// What the shell knows of a tab's address.
#[verifier::ext_equal]
pub struct ReportView {
    pub label: Seq<char>,
    pub reported: Option<Seq<char>>,
    pub navigated: bool,
    pub live: Option<Seq<char>>,
}

impl View for TabReport {
    type V = ReportView;

    open spec fn view(&self) -> ReportView {
        ReportView {
            label: self.label@,
            reported: opt_text(self.reported),
            navigated: self.navigated,
            live: opt_text(self.live),
        }
    }
}

pub open spec fn report_views(v: Seq<TabReport>) -> Seq<ReportView> {
    v.map_values(|t: TabReport| t@)
}

/// An open window, with its frame and what is known of its tabs.
#[derive(Debug)]
pub struct OpenWindow {
    pub label: String,
    pub frame: Option<[i64; 4]>,
    pub reports: Vec<TabReport>,
}

/// An open window, with its frame and what is known of its tabs.
#[verifier::ext_equal]
pub struct OpenView {
    pub label: Seq<char>,
    pub frame: Option<[i64; 4]>,
    pub reports: Seq<ReportView>,
}

impl View for OpenWindow {
    type V = OpenView;

    open spec fn view(&self) -> OpenView {
        OpenView {
            label: self.label@,
            frame: self.frame,
            reports: report_views(self.reports@),
        }
    }
}

pub open spec fn open_views(v: Seq<OpenWindow>) -> Seq<OpenView> {
    v.map_values(|w: OpenWindow| w@)
}

/// The address that a page reported; none where it is an `about:` page.
pub open spec fn page_url(reported: Option<Seq<char>>) -> Option<Seq<char>> {
    match reported {
        Some(u) => if "about:"@.is_prefix_of(u) {
            None
        } else {
            Some(u)
        },
        None => None,
    }
}

/// The address of a tab: the one that its page reported, else the one that its webview
/// gives once it has loaded a page, else none.
pub open spec fn known_url(r: ReportView) -> Option<Seq<char>> {
    match page_url(r.reported) {
        Some(u) => Some(u),
        None => if r.navigated {
            r.live
        } else {
            None
        },
    }
}

/// Whether a tab's webview is asked for its address: only where the page reported none,
/// and never before the tab has loaded a page.
pub fn asks_webview(reported: Option<&str>, navigated: bool) -> (r: bool)
    ensures
        r == (navigated && page_url(opt_str(reported)) is None),
{
    match reported {
        Some(u) => navigated && text::starts_with(u, "about:"),
        None => navigated,
    }
}

/// The address to save for a tab: the known one, or the target where none is known.
pub open spec fn saved_url(
    reports: Seq<ReportView>,
    label: Seq<char>,
    target: Seq<char>,
) -> Seq<char> {
    match reports.map_values(|r: ReportView| r.label).index_of_first(label) {
        Some(i) => match known_url(reports[i]) {
            Some(u) => u,
            None => target,
        },
        None => target,
    }
}

/// A tab as it is saved.
pub open spec fn saved_tab(t: TabView, url: Seq<char>) -> SavedTab {
    SavedTab {
        url,
        profile: t.profile,
        partition: if t.partition.len() > 0 {
            Some(t.partition)
        } else {
            None
        },
        custom_title: t.custom_title,
    }
}

/// A window as it is saved.
pub open spec fn saved_window(w: WindowView, o: OpenView, target: Seq<char>) -> SavedWindow {
    SavedWindow {
        frame: o.frame,
        active: w.active,
        tabs: w.tabs.map_values(
            |t: TabView| saved_tab(t, saved_url(o.reports, t.label, target)),
        ),
    }
}

/// The open windows as they are saved, in order: those that the registry knows and that
/// have tabs.
pub open spec fn saved_session(s: AppView, open: Seq<OpenView>, target: Seq<char>) -> Seq<
    SavedWindow,
>
    decreases open.len(),
{
    if open.len() == 0 {
        Seq::empty()
    } else {
        let before = saved_session(s, open.drop_last(), target);
        let o = open.last();
        if s.strip.contains_key(o.label) && s.strip[o.label].tabs.len() > 0 {
            before.push(saved_window(s.strip[o.label], o, target))
        } else {
            before
        }
    }
}

/// The address to save for the tab with this label.
fn url_to_save(reports: &Vec<TabReport>, label: &str, target: &str) -> (r: String)
    ensures
        r@ == saved_url(report_views(reports@), label@, target@),
{
    let ghost names = report_views(reports@).map_values(|r: ReportView| r.label);
    proof {
        names.index_of_first_ensures(label@);
    }
    let mut i: usize = 0;
    while i < reports.len()
        invariant
            i <= reports@.len(),
            names == report_views(reports@).map_values(|r: ReportView| r.label),
            forall|j: int| 0 <= j < i ==> names[j] != label@,
            match names.index_of_first(label@) {
                Some(k) => 0 <= k < names.len() && names[k] == label@ && forall|j: int|
                    0 <= j < k ==> names[j] != label@,
                None => !names.contains(label@),
            },
        decreases reports@.len() - i,
    {
        assert(names[i as int] == reports@[i as int].label@);
        if text::same(reports[i].label.as_str(), label) {
            assert(names.contains(label@));
            assert(names.index_of_first(label@) == Some(i as int));
            assert(report_views(reports@)[i as int] == reports@[i as int]@);
            if let Some(u) = &reports[i].reported {
                if !text::starts_with(u.as_str(), "about:") {
                    return u.clone();
                }
            }
            if reports[i].navigated {
                if let Some(u) = &reports[i].live {
                    return u.clone();
                }
            }
            return target.to_owned();
        }
        i = i + 1;
    }
    target.to_owned()
}

/// Saves one window.
fn save_window(w: &WindowTabs, o: &OpenWindow, target: &str) -> (r: SessionWindow)
    requires
        w@.valid(),
        w.tabs@.len() > 0,
    ensures
        r@ == saved_window(w@, o@, target@),
{
    let ghost model = saved_window(w@, o@, target@);
    let mut tabs: Vec<SessionTab> = Vec::new();
    let mut i: usize = 0;
    while i < w.tabs.len()
        invariant
            i <= w.tabs@.len(),
            tabs@.len() == i,
            model == saved_window(w@, o@, target@),
            forall|j: int| 0 <= j < i ==> (#[trigger] tabs@[j])@ == model.tabs[j],
        decreases w.tabs@.len() - i,
    {
        let t = &w.tabs[i];
        let url: String = url_to_save(&o.reports, t.label.as_str(), target);
        let partition: Option<String> = if t.partition.as_str().is_empty() {
            None
        } else {
            Some(t.partition.clone())
        };
        let saved = SessionTab {
            url,
            profile: text::copy_opt(&t.profile),
            partition,
            custom_title: text::copy_opt(&t.custom_title),
        };
        assert(w@.tabs[i as int] == t@);
        assert(saved@ =~= saved_tab(t@, saved_url(o@.reports, t@.label, target@)));
        assert(model.tabs[i as int] == saved@);
        tabs.push(saved);
        i = i + 1;
    }
    assert(saved_tabs(tabs@) =~= model.tabs);
    SessionWindow { frame: o.frame, active: w.active, tabs }
}

/// The open windows as they are saved, in order. `target_url` stands in for an address
/// that is not known.
pub fn session_windows(state: &AppState, target_url: &str, open: &Vec<OpenWindow>) -> (r: Vec<
    SessionWindow,
>)
    requires
        state.wf(),
    ensures
        saved_windows(r@) == saved_session(state@, open_views(open@), target_url@),
{
    let ghost all = open_views(open@);
    let mut r: Vec<SessionWindow> = Vec::new();
    let mut i: usize = 0;
    assert(saved_windows(r@) =~= saved_session(state@, all.take(0), target_url@));
    while i < open.len()
        invariant
            i <= open@.len(),
            state.wf(),
            all == open_views(open@),
            saved_windows(r@) == saved_session(state@, all.take(i as int), target_url@),
        decreases open@.len() - i,
    {
        let o = &open[i];
        assert(all.take(i + 1).drop_last() =~= all.take(i as int));
        assert(all.take(i + 1).last() == o@);
        let ghost before = r@;
        if let Some(w) = state.window(o.label.as_str()) {
            if w.tabs.len() > 0 {
                let sw = save_window(w, o, target_url);
                r.push(sw);
                assert(saved_windows(r@) =~= saved_windows(before).push(sw@));
            }
        }
        i = i + 1;
    }
    assert(all.take(i as int) =~= all);
    r
}

// ---------------------------------------------------------------------------
// Data partitions that are used again
// ---------------------------------------------------------------------------

/// The largest tab count among the partitions of saved tabs; zero where there is none.
pub open spec fn largest_suffix(tabs: Seq<SavedTab>) -> nat
    decreases tabs.len(),
{
    if tabs.len() == 0 {
        0
    } else {
        let before = largest_suffix(tabs.drop_last());
        let here: nat = match tabs.last().partition {
            Some(p) => match suffix(p) {
                Some(k) => k as nat,
                None => 0,
            },
            None => 0,
        };
        if here > before {
            here
        } else {
            before
        }
    }
}

/// The window with its count moved on to `n` where it was below.
pub open spec fn counted_to(w: WindowView, n: nat) -> WindowView {
    WindowView {
        tab_seq: if n > w.tab_seq {
            n
        } else {
            w.tab_seq
        },
        ..w
    }
}

fn largest_partition_suffix(tabs: &Vec<SessionTab>) -> (r: u64)
    ensures
        r == largest_suffix(saved_tabs(tabs@)),
{
    let ghost all = saved_tabs(tabs@);
    let mut r: u64 = 0;
    let mut i: usize = 0;
    while i < tabs.len()
        invariant
            i <= tabs@.len(),
            all == saved_tabs(tabs@),
            r == largest_suffix(all.take(i as int)),
        decreases tabs@.len() - i,
    {
        assert(all.take(i + 1).drop_last() =~= all.take(i as int));
        assert(all.take(i + 1).last() == tabs@[i as int]@);
        if let Some(p) = &tabs[i].partition {
            if let Some(k) = label::partition_suffix(p.as_str()) {
                if k > r {
                    r = k;
                }
            }
        }
        i = i + 1;
    }
    assert(all.take(i as int) =~= all);
    r
}

/// A window that counts on keeps the labels in order.
proof fn lemma_counted_to_numbered(w: WindowView, window: Seq<char>, n: nat)
    requires
        w.numbered(window),
    ensures
        counted_to(w, n).numbered(window),
{
    let w2 = counted_to(w, n);
    assert forall|i: int| 0 <= i < w2.tabs.len() implies made_label(
        window,
        w2.tab_seq,
        #[trigger] w2.tabs[i].label,
    ) by {
        lemma_made_later(window, w.tab_seq, w2.tab_seq, w.tabs[i].label);
    }
}

/// Moves the count of a window on to `n`; nothing happens where the window is unknown.
fn count_tabs_to(state: &mut AppState, window_label: &str, n: u64)
    requires
        old(state).wf(),
    ensures
        final(state).wf(),
        final(state)@ == if old(state)@.strip.contains_key(window_label@) {
            old(state)@.with_window(
                window_label@,
                counted_to(old(state)@.strip[window_label@], n as nat),
            )
        } else {
            old(state)@
        },
        old(state)@.numbered() ==> final(state)@.numbered(),
{
    let ghost s = state@;
    match state.take_window(window_label) {
        Some(mut w) => {
            let ghost wv = w@;
            if n > w.tab_seq {
                w.tab_seq = n;
            }
            assert(w@ =~= counted_to(wv, n as nat));
            state.put_window(window_label, w);
            assert(state@ =~= s.with_window(window_label@, counted_to(wv, n as nat)));
            proof {
                if wv.numbered(window_label@) {
                    lemma_counted_to_numbered(wv, window_label@, n as nat);
                }
                lemma_with_window_numbered(s, window_label@, counted_to(wv, n as nat));
            }
        },
        None => {
            assert(state@ =~= s);
        },
    }
}

/// A list of data partitions with those of saved tabs in it.
pub open spec fn including_all(reserved: Seq<Seq<char>>, tabs: Seq<SavedTab>) -> Seq<Seq<char>>
    decreases tabs.len(),
{
    if tabs.len() == 0 {
        reserved
    } else {
        let before = including_all(reserved, tabs.drop_last());
        match tabs.last().partition {
            Some(p) => including(before, p),
            None => before,
        }
    }
}

/// The state in which no new tab may take a partition of the saved tabs.
pub open spec fn reserved_for(s: AppView, tabs: Seq<SavedTab>) -> AppView {
    AppView { reserved: including_all(s.reserved, tabs), ..s }
}

/// The state in which no new tab may take a partition of the saved windows.
pub open spec fn session_reserved(s: AppView, ws: Seq<SavedWindow>) -> AppView
    decreases ws.len(),
{
    if ws.len() == 0 {
        s
    } else {
        reserved_for(session_reserved(s, ws.drop_last()), ws.last().tabs)
    }
}

/// Keeps the partitions of saved tabs from new tabs.
fn reserve_tabs(state: &mut AppState, tabs: &Vec<SessionTab>)
    requires
        old(state).wf(),
    ensures
        final(state).wf(),
        final(state)@ == reserved_for(old(state)@, saved_tabs(tabs@)),
        old(state)@.numbered() ==> final(state)@.numbered(),
{
    let ghost s = state@;
    let ghost all = saved_tabs(tabs@);
    let mut i: usize = 0;
    while i < tabs.len()
        invariant
            i <= tabs@.len(),
            all == saved_tabs(tabs@),
            state.wf(),
            state@ == reserved_for(s, all.take(i as int)),
        decreases tabs@.len() - i,
    {
        assert(all.take(i + 1).drop_last() =~= all.take(i as int));
        assert(all.take(i + 1).last() == tabs@[i as int]@);
        if let Some(p) = &tabs[i].partition {
            state.reserve(p.as_str());
        }
        i = i + 1;
    }
    assert(all.take(i as int) =~= all);
    assert(state@.strip == s.strip);
}

/// Keeps the partitions of the saved session from new tabs, before its windows come back.
pub fn reserve_partitions(state: &mut AppState, saved: &Vec<SessionWindow>)
    requires
        old(state).wf(),
    ensures
        final(state).wf(),
        final(state)@ == session_reserved(old(state)@, saved_windows(saved@)),
        old(state)@.numbered() ==> final(state)@.numbered(),
{
    let ghost s = state@;
    let ghost all = saved_windows(saved@);
    let mut i: usize = 0;
    while i < saved.len()
        invariant
            i <= saved@.len(),
            all == saved_windows(saved@),
            state.wf(),
            state@ == session_reserved(s, all.take(i as int)),
            s.numbered() ==> state@.numbered(),
        decreases saved@.len() - i,
    {
        assert(all.take(i + 1).drop_last() =~= all.take(i as int));
        assert(all.take(i + 1).last() == saved@[i as int]@);
        reserve_tabs(state, &saved[i].tabs);
        i = i + 1;
    }
    assert(all.take(i as int) =~= all);
}

// ---------------------------------------------------------------------------
// Bringing back
// ---------------------------------------------------------------------------

/// The address that a restored tab loads: its saved one, or the target where that is no
/// address; none where neither is.
pub open spec fn restored_address(url: Seq<char>, target: Seq<char>) -> Option<AddressView> {
    match address(url) {
        Some(a) => Some(a),
        None => address(target),
    }
}

/// The cookie that selects a profile, pinned to the host that the tab loads from.
pub open spec fn profile_cookie(profile: Seq<char>, host: Option<Seq<char>>) -> CookieView {
    CookieView { name: "hermes_profile"@, value: profile, domain: host }
}

/// What a restored tab is to be.
pub open spec fn restored_tab(t: SavedTab, a: AddressView, macos: bool) -> TabSpecView {
    TabSpecView {
        target: a,
        seed: match t.profile {
            Some(p) => if macos {
                Seq::empty()
            } else {
                seq![profile_cookie(p, a.host)]
            },
            None => Seq::empty(),
        },
        partition_override: t.partition,
        profile_hint: t.profile,
        custom_title: t.custom_title,
        restore_retry: if root_path(a.path) {
            None
        } else {
            Some(a.href)
        },
    }
}

/// What the restored tabs are to be, in order. A tab without an address is left out.
pub open spec fn restored_tabs(tabs: Seq<SavedTab>, target: Seq<char>, macos: bool) -> Seq<
    TabSpecView,
>
    decreases tabs.len(),
{
    if tabs.len() == 0 {
        Seq::empty()
    } else {
        let before = restored_tabs(tabs.drop_last(), target, macos);
        match restored_address(tabs.last().url, target) {
            Some(a) => before.push(restored_tab(tabs.last(), a, macos)),
            None => before,
        }
    }
}

/// What a list of tabs is to be.
pub open spec fn spec_views(v: Seq<TabSpec>) -> Seq<TabSpecView> {
    v.map_values(|t: TabSpec| t@)
}

/// What one saved tab is to be when it comes back from this address.
fn restore_tab(t: &SessionTab, a: Address, macos: bool) -> (r: TabSpec)
    ensures
        r@ == restored_tab(t@, a@, macos),
{
    let mut seed: Vec<Cookie> = Vec::new();
    if !macos {
        if let Some(p) = &t.profile {
            seed.push(
                Cookie {
                    name: "hermes_profile".to_owned(),
                    value: p.clone(),
                    domain: text::copy_opt(&a.host),
                },
            );
        }
    }
    assert(cookie_views(seed@) =~= restored_tab(t@, a@, macos).seed);
    let restore_retry: Option<String> = if address::is_root_path(a.path.as_str()) {
        None
    } else {
        Some(a.href.clone())
    };
    TabSpec {
        target: a,
        seed,
        partition_override: text::copy_opt(&t.partition),
        profile_hint: text::copy_opt(&t.profile),
        custom_title: text::copy_opt(&t.custom_title),
        restore_retry,
    }
}

/// The tabs that a saved window comes back with; none where it had no tabs, and no window
/// is to be opened then. The partitions that they use again are kept from new tabs, of
/// whatever window, before the first of them is made.
pub fn restore_window(
    state: &mut AppState,
    p: &Prefs,
    sw: &SessionWindow,
    macos: bool,
) -> (r: Option<Vec<TabSpec>>)
    requires
        old(state).wf(),
    ensures
        final(state).wf(),
        match r {
            Some(specs) => {
                &&& sw@.tabs.len() > 0
                &&& spec_views(specs@) == restored_tabs(sw@.tabs, p.target_url@, macos)
                &&& final(state)@ == reserved_for(old(state)@, sw@.tabs)
            },
            None => sw@.tabs.len() == 0 && final(state)@ == old(state)@,
        },
        old(state)@.numbered() ==> final(state)@.numbered(),
{
    if sw.tabs.len() == 0 {
        return None;
    }
    reserve_tabs(state, &sw.tabs);
    Some(restore_tabs(p, sw, macos))
}

/// What the tabs of a saved window are to be.
fn restore_tabs(p: &Prefs, sw: &SessionWindow, macos: bool) -> (r: Vec<TabSpec>)
    ensures
        spec_views(r@) == restored_tabs(sw@.tabs, p.target_url@, macos),
{
    let ghost all = saved_tabs(sw.tabs@);
    let ghost target = p.target_url@;
    let mut r: Vec<TabSpec> = Vec::new();
    let mut i: usize = 0;
    assert(spec_views(r@) =~= restored_tabs(all.take(0), target, macos));
    while i < sw.tabs.len()
        invariant
            i <= sw.tabs@.len(),
            all == saved_tabs(sw.tabs@),
            target == p.target_url@,
            spec_views(r@) == restored_tabs(all.take(i as int), target, macos),
        decreases sw.tabs@.len() - i,
    {
        let t = &sw.tabs[i];
        assert(all.take(i + 1).drop_last() =~= all.take(i as int));
        assert(all.take(i + 1).last() == t@);
        let ghost before = r@;
        let found: Option<Address> = match address::parse_address(t.url.as_str()) {
            Some(a) => Some(a),
            None => address::parse_address(p.target_url.as_str()),
        };
        if let Some(a) = found {
            let spec = restore_tab(t, a, macos);
            r.push(spec);
            assert(spec_views(r@) =~= spec_views(before).push(spec@));
        }
        i = i + 1;
    }
    assert(all.take(i as int) =~= all);
    r
}

/// The tab to bring to the front: the one at the saved index, or the last one where there
/// are fewer tabs.
pub open spec fn front_tab(w: WindowView, active: int) -> Option<Seq<char>> {
    if w.tabs.len() == 0 {
        None
    } else if active < w.tabs.len() {
        Some(w.tabs[active].label)
    } else {
        Some(w.tabs.last().label)
    }
}

/// Ends the restoration of a window whose tabs stand: its tab count moves past that of
/// every partition that it brought back, and the label of the tab to bring to the front is
/// returned.
pub fn finish_restore(state: &mut AppState, window_label: &str, sw: &SessionWindow) -> (r: Option<
    String,
>)
    requires
        old(state).wf(),
    ensures
        final(state).wf(),
        old(state)@.strip.contains_key(window_label@) ==> {
            let w = old(state)@.strip[window_label@];
            &&& final(state)@ == old(state)@.with_window(
                window_label@,
                counted_to(w, largest_suffix(sw@.tabs)),
            )
            &&& opt_text(r) == front_tab(w, sw@.active)
        },
        !old(state)@.strip.contains_key(window_label@) ==> r is None && final(state)@ == old(
            state,
        )@,
        old(state)@.numbered() ==> final(state)@.numbered(),
{
    let n: u64 = largest_partition_suffix(&sw.tabs);
    let front: Option<String> = match state.window(window_label) {
        Some(w) => if w.tabs.len() == 0 {
            None
        } else if sw.active < w.tabs.len() {
            Some(w.tabs[sw.active].label.clone())
        } else {
            Some(w.tabs[w.tabs.len() - 1].label.clone())
        },
        None => None,
    };
    count_tabs_to(state, window_label, n);
    front
}

/// Whether a restored tab bounced: its page reported the root of a site in place of the
/// address that it was to load.
pub fn restore_bounced(reported: Option<&str>) -> (r: bool)
    ensures
        r == match opt_str(reported) {
            Some(u) => match address(u) {
                Some(a) => root_path(a.path),
                None => false,
            },
            None => false,
        },
{
    match reported {
        Some(u) => address::url_is_root(u),
        None => false,
    }
}

/// Whether a finished load shows a page of the tab; the `about:` page that a tab starts on
/// while its cookies are set is none.
pub fn page_shown(finished: bool, scheme: &str) -> (r: bool)
    ensures
        r == (finished && scheme@ != "about"@),
{
    finished && !text::same(scheme, "about")
}

// ---------------------------------------------------------------------------
// Data partitions
// ---------------------------------------------------------------------------

/// Whether a saved window uses this data partition.
pub open spec fn window_uses(w: SavedWindow, partition: Seq<char>) -> bool {
    exists|i: int| 0 <= i < w.tabs.len() && #[trigger] w.tabs[i].partition == Some(partition)
}

/// Whether a saved session uses this data partition.
pub open spec fn session_uses(ws: Seq<SavedWindow>, partition: Seq<char>) -> bool {
    exists|i: int| 0 <= i < ws.len() && window_uses(#[trigger] ws[i], partition)
}

fn uses_partition(saved: &Vec<SessionWindow>, partition: &str) -> (r: bool)
    ensures
        r == session_uses(saved_windows(saved@), partition@),
{
    let ghost ws = saved_windows(saved@);
    let mut i: usize = 0;
    while i < saved.len()
        invariant
            i <= saved@.len(),
            ws == saved_windows(saved@),
            forall|k: int| 0 <= k < i ==> !window_uses(#[trigger] ws[k], partition@),
        decreases saved@.len() - i,
    {
        let w = &saved[i];
        assert(ws[i as int] == w@);
        let mut j: usize = 0;
        while j < w.tabs.len()
            invariant
                i < saved@.len(),
                ws == saved_windows(saved@),
                ws[i as int] == w@,
                j <= w.tabs@.len(),
                forall|k: int| 0 <= k < j ==> #[trigger] w@.tabs[k].partition != Some(partition@),
            decreases w.tabs@.len() - j,
        {
            assert(w@.tabs[j as int] == w.tabs@[j as int]@);
            if let Some(p) = &w.tabs[j].partition {
                if text::same(p.as_str(), partition) {
                    assert(w@.tabs[j as int].partition == Some(partition@));
                    assert(window_uses(ws[i as int], partition@));
                    return true;
                }
            }
            j = j + 1;
        }
        i = i + 1;
    }
    false
}

/// Picks the data partitions to delete at startup, out of those on disk: all that the
/// saved session does not use.
pub fn clear_partitions(saved: &Vec<SessionWindow>, on_disk: &Vec<String>) -> (r: Vec<String>)
    ensures
        texts(r@) == texts(on_disk@).filter(
            |p: Seq<char>| !session_uses(saved_windows(saved@), p),
        ),
{
    let ghost all = texts(on_disk@);
    let ghost orphan = |p: Seq<char>| !session_uses(saved_windows(saved@), p);
    let mut r: Vec<String> = Vec::new();
    let mut i: usize = 0;
    proof {
        reveal(Seq::filter);
        assert(texts(r@) =~= all.take(0).filter(orphan));
    }
    while i < on_disk.len()
        invariant
            i <= on_disk@.len(),
            all == texts(on_disk@),
            orphan == (|p: Seq<char>| !session_uses(saved_windows(saved@), p)),
            texts(r@) == all.take(i as int).filter(orphan),
        decreases on_disk@.len() - i,
    {
        proof {
            reveal(Seq::filter);
        }
        let ghost before = r@;
        assert(all.take(i + 1).drop_last() =~= all.take(i as int));
        assert(all.take(i + 1).last() == on_disk@[i as int]@);
        if !uses_partition(saved, on_disk[i].as_str()) {
            r.push(on_disk[i].clone());
            assert(texts(r@) =~= texts(before).push(on_disk@[i as int]@));
        }
        i = i + 1;
    }
    assert(all.take(i as int) =~= all);
    r
}

} // verus!
