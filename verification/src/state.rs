//! The registry of strip windows and their tabs.
use vstd::prelude::*;

use crate::label::{suffix, tab_label};
use crate::registry::LabelMap;
use crate::text;
use crate::text::{opt_text, texts};

verus! {

// ---------------------------------------------------------------------------
// Model
// ---------------------------------------------------------------------------

/// What a tab is.
#[verifier::ext_equal]
pub struct TabView {
    pub label: Seq<char>,
    pub title: Seq<char>,
    pub attention: bool,
    pub busy: bool,
    pub profile: Option<Seq<char>>,
    pub dot_profile: Option<Seq<char>>,
    pub partition: Seq<char>,
    pub custom_title: Option<Seq<char>>,
}

/// What a strip window holds: its tabs in display order, the index of the active one,
/// the count of tabs made so far, and whether its tab bar is hidden.
#[verifier::ext_equal]
pub struct WindowView {
    pub tabs: Seq<TabView>,
    pub active: int,
    pub tab_seq: nat,
    pub strip_hidden: bool,
}

/// The labels of tabs, in order.
pub open spec fn labels(tabs: Seq<TabView>) -> Seq<Seq<char>> {
    tabs.map_values(|t: TabView| t.label)
}

impl WindowView {
    /// A window without tabs.
    pub open spec fn empty() -> WindowView {
        WindowView { tabs: Seq::empty(), active: 0, tab_seq: 0, strip_hidden: false }
    }

    /// The active index names a tab; it is zero where there is none.
    pub open spec fn valid(self) -> bool {
        if self.tabs.len() == 0 {
            self.active == 0
        } else {
            0 <= self.active < self.tabs.len()
        }
    }

    /// Where the tab with this label stands.
    pub open spec fn index(self, label: Seq<char>) -> Option<int> {
        labels(self.tabs).index_of_first(label)
    }

    /// The label of the active tab; none where the window has no tab.
    pub open spec fn active_label(self) -> Option<Seq<char>> {
        if 0 <= self.active < self.tabs.len() {
            Some(self.tabs[self.active].label)
        } else {
            None
        }
    }

    /// The window with another tab active.
    pub open spec fn with_active(self, i: int) -> WindowView {
        WindowView { active: i, ..self }
    }

    /// The window with one tab changed.
    pub open spec fn with_tab(self, i: int, t: TabView) -> WindowView {
        WindowView { tabs: self.tabs.update(i, t), ..self }
    }

    /// No two tabs carry the same label.
    pub open spec fn distinct(self) -> bool {
        labels(self.tabs).no_duplicates()
    }

    /// Every tab carries a label that this window made, and no two the same one.
    pub open spec fn numbered(self, window: Seq<char>) -> bool {
        &&& self.distinct()
        &&& forall|i: int|
            0 <= i < self.tabs.len() ==> made_label(window, self.tab_seq, #[trigger] self.tabs[i].label)
    }
}

/// Whether a window made the tab label `l` by the time its count was `seq`.
#[verifier::opaque]
pub open spec fn made_label(window: Seq<char>, seq: nat, l: Seq<char>) -> bool {
    match suffix(l) {
        Some(k) => 1 <= k <= seq && l == tab_label(window, k as nat),
        None => false,
    }
}

/// A label that was made stays made while the window counts on.
pub proof fn lemma_made_later(window: Seq<char>, a: nat, b: nat, l: Seq<char>)
    requires
        a <= b,
        made_label(window, a, l),
    ensures
        made_label(window, b, l),
{
    reveal(made_label);
}

/// What the program remembers of its strip windows: the windows by label, the last page
/// title of each tab, the connection mode that each window was opened in, the count of
/// windows made so far, and the data partitions that no new tab may take.
#[verifier::ext_equal]
pub struct AppView {
    pub strip: Map<Seq<char>, WindowView>,
    pub raw_titles: Map<Seq<char>, Seq<char>>,
    pub window_modes: Map<Seq<char>, Seq<char>>,
    pub window_seq: nat,
    pub reserved: Seq<Seq<char>>,
}

/// A list of data partitions with this one in it.
pub open spec fn including(reserved: Seq<Seq<char>>, p: Seq<char>) -> Seq<Seq<char>> {
    if reserved.contains(p) {
        reserved
    } else {
        reserved.push(p)
    }
}

impl AppView {
    pub open spec fn empty() -> AppView {
        AppView {
            strip: Map::empty(),
            raw_titles: Map::empty(),
            window_modes: Map::empty(),
            window_seq: 0,
            reserved: Seq::empty(),
        }
    }

    /// Every window is valid.
    pub open spec fn valid(self) -> bool {
        forall|w: Seq<char>| #[trigger]
            self.strip.contains_key(w) ==> self.strip[w].valid()
    }

    /// Every window's tabs carry distinct labels that the window made.
    pub open spec fn numbered(self) -> bool {
        forall|w: Seq<char>| #[trigger]
            self.strip.contains_key(w) ==> self.strip[w].numbered(w)
    }

    /// The state with the window `w` set to `v`.
    pub open spec fn with_window(self, w: Seq<char>, v: WindowView) -> AppView {
        AppView { strip: self.strip.insert(w, v), ..self }
    }

    /// The tab that a window label and a tab label name.
    pub open spec fn find(self, w: Seq<char>, tab: Seq<char>) -> Option<int> {
        if self.strip.contains_key(w) {
            self.strip[w].index(tab)
        } else {
            None
        }
    }

    /// The label of the active tab of the window `w`.
    pub open spec fn active_tab(self, w: Seq<char>) -> Option<Seq<char>> {
        if self.strip.contains_key(w) {
            self.strip[w].active_label()
        } else {
            None
        }
    }

    /// The last page title that the tab reported; empty before the first one.
    pub open spec fn raw_title(self, tab: Seq<char>) -> Seq<char> {
        if self.raw_titles.contains_key(tab) {
            self.raw_titles[tab]
        } else {
            Seq::empty()
        }
    }

    /// The page title that the title of the window `w` is made of: that of its active
    /// tab.
    pub open spec fn window_raw_title(self, w: Seq<char>) -> Seq<char> {
        match self.active_tab(w) {
            Some(tab) => self.raw_title(tab),
            None => Seq::empty(),
        }
    }
}

/// Whether `order` lists the windows of the registry, once each.
pub open spec fn lists_windows(order: Seq<Seq<char>>, s: AppView) -> bool {
    &&& order.no_duplicates()
    &&& forall|w: Seq<char>| order.contains(w) <==> s.strip.contains_key(w)
}

// ---------------------------------------------------------------------------
// Types
// ---------------------------------------------------------------------------

/// One tab of a strip window.
#[derive(Debug)]
pub struct TabEntry {
    /// The label of the tab's webview.
    pub label: String,
    /// The name that the tab bar shows.
    pub title: String,
    /// Whether the page asks for attention.
    pub attention: bool,
    /// Whether the page is streaming.
    pub busy: bool,
    /// The profile that the tab's cookies select; none for the default one.
    pub profile: Option<String>,
    /// The profile whose dot the tab bar shows.
    pub dot_profile: Option<String>,
    /// The data partition that holds the tab's cookies.
    pub partition: String,
    /// The name that the user gave the tab.
    pub custom_title: Option<String>,
}

impl View for TabEntry {
    type V = TabView;

    open spec fn view(&self) -> TabView {
        TabView {
            label: self.label@,
            title: self.title@,
            attention: self.attention,
            busy: self.busy,
            profile: opt_text(self.profile),
            dot_profile: opt_text(self.dot_profile),
            partition: self.partition@,
            custom_title: opt_text(self.custom_title),
        }
    }
}

impl TabEntry {
    /// A copy of the entry.
    pub fn copy(&self) -> (r: TabEntry)
        ensures
            r@ == self@,
    {
        TabEntry {
            label: self.label.clone(),
            title: self.title.clone(),
            attention: self.attention,
            busy: self.busy,
            profile: text::copy_opt(&self.profile),
            dot_profile: text::copy_opt(&self.dot_profile),
            partition: self.partition.clone(),
            custom_title: text::copy_opt(&self.custom_title),
        }
    }
}

/// What a list of tab entries holds.
pub open spec fn tab_views(tabs: Seq<TabEntry>) -> Seq<TabView> {
    tabs.map_values(|t: TabEntry| t@)
}

/// A copy of a list of entries.
pub fn copy_tabs(tabs: &Vec<TabEntry>) -> (r: Vec<TabEntry>)
    ensures
        tab_views(r@) == tab_views(tabs@),
{
    let mut r: Vec<TabEntry> = Vec::new();
    let mut i: usize = 0;
    while i < tabs.len()
        invariant
            i <= tabs@.len(),
            r@.len() == i,
            forall|j: int| 0 <= j < i ==> (#[trigger] r@[j])@ == tabs@[j]@,
        decreases tabs@.len() - i,
    {
        r.push(tabs[i].copy());
        i = i + 1;
    }
    assert(tab_views(r@) =~= tab_views(tabs@));
    r
}

/// The tabs of one strip window.
#[derive(Debug)]
pub struct WindowTabs {
    pub tabs: Vec<TabEntry>,
    pub active: usize,
    pub tab_seq: u64,
    pub strip_hidden: bool,
}

impl View for WindowTabs {
    type V = WindowView;

    open spec fn view(&self) -> WindowView {
        WindowView {
            tabs: tab_views(self.tabs@),
            active: self.active as int,
            tab_seq: self.tab_seq as nat,
            strip_hidden: self.strip_hidden,
        }
    }
}

impl Default for WindowTabs {
    fn default() -> (r: WindowTabs)
        ensures
            r@ == WindowView::empty(),
    {
        let r = WindowTabs { tabs: Vec::new(), active: 0, tab_seq: 0, strip_hidden: false };
        assert(r@ =~= WindowView::empty());
        r
    }
}

impl WindowTabs {
    /// Where the tab with this label stands.
    pub fn position(&self, label: &str) -> (r: Option<usize>)
        ensures
            match r {
                Some(i) => self@.index(label@) == Some(i as int) && i < self.tabs@.len()
                    && self.tabs@[i as int].label@ == label@,
                None => self@.index(label@) is None,
            },
    {
        let ghost ls = labels(self@.tabs);
        proof {
            ls.index_of_first_ensures(label@);
        }
        let mut i: usize = 0;
        while i < self.tabs.len()
            invariant
                i <= self.tabs@.len(),
                ls == labels(self@.tabs),
                forall|j: int| 0 <= j < i ==> ls[j] != label@,
                match ls.index_of_first(label@) {
                    Some(k) => 0 <= k < ls.len() && ls[k] == label@ && forall|j: int|
                        0 <= j < k ==> ls[j] != label@,
                    None => !ls.contains(label@),
                },
            decreases self.tabs@.len() - i,
        {
            if text::same(self.tabs[i].label.as_str(), label) {
                assert(ls[i as int] == label@);
                assert(ls.contains(label@));
                return Some(i);
            }
            i = i + 1;
        }
        assert(forall|j: int| 0 <= j < ls.len() ==> ls[j] != label@);
        None
    }

    /// The label of the active tab.
    pub fn active_label(&self) -> (r: Option<String>)
        ensures
            opt_text(r) == self@.active_label(),
    {
        if self.active < self.tabs.len() {
            Some(self.tabs[self.active].label.clone())
        } else {
            None
        }
    }
}

/// What the program remembers of its strip windows.
pub struct AppState {
    strip: LabelMap<WindowTabs>,
    raw_titles: LabelMap<String>,
    window_modes: LabelMap<String>,
    window_seq: u64,
    reserved: Vec<String>,
}

impl View for AppState {
    type V = AppView;

    closed spec fn view(&self) -> AppView {
        AppView {
            strip: self.strip@,
            raw_titles: self.raw_titles@,
            window_modes: self.window_modes@,
            window_seq: self.window_seq as nat,
            reserved: texts(self.reserved@),
        }
    }
}

impl AppState {
    /// The maps hold each label once, and every window is valid.
    pub closed spec fn wf(&self) -> bool {
        &&& self.strip.wf()
        &&& self.raw_titles.wf()
        &&& self.window_modes.wf()
        &&& self@.valid()
    }

    /// Every window of a well-formed registry is valid.
    pub proof fn lemma_wf_valid(&self)
        requires
            self.wf(),
        ensures
            self@.valid(),
    {
    }

    /// A program without windows.
    pub fn new() -> (r: AppState)
        ensures
            r.wf(),
            r@ == AppView::empty(),
    {
        let r = AppState {
            strip: LabelMap::new(),
            raw_titles: LabelMap::new(),
            window_modes: LabelMap::new(),
            window_seq: 0,
            reserved: Vec::new(),
        };
        assert(r@ =~= AppView::empty());
        r
    }

    /// The window with this label.
    pub fn window(&self, label: &str) -> (r: Option<&WindowTabs>)
        requires
            self.wf(),
        ensures
            match r {
                Some(w) => self@.strip.contains_key(label@) && w@ == self@.strip[label@] && w@.valid(),
                None => !self@.strip.contains_key(label@),
            },
    {
        self.strip.get(label)
    }

    /// Takes a window out of the registry.
    pub(crate) fn take_window(&mut self, label: &str) -> (r: Option<WindowTabs>)
        requires
            old(self).wf(),
        ensures
            final(self).wf(),
            final(self)@ == (AppView { strip: old(self)@.strip.remove(label@), ..old(self)@ }),
            match r {
                Some(w) => old(self)@.strip.contains_key(label@) && w@ == old(self)@.strip[label@]
                    && w@.valid(),
                None => !old(self)@.strip.contains_key(label@),
            },
    {
        let ghost before = self@;
        let r = self.strip.remove(label);
        proof {
            assert forall|w: Seq<char>| #[trigger] self@.strip.contains_key(w) implies self@.strip[w].valid() by {
                assert(before.strip.contains_key(w));
            }
        }
        r
    }

    /// Puts a window into the registry, in place of any other with its label.
    pub(crate) fn put_window(&mut self, label: &str, w: WindowTabs)
        requires
            old(self).wf(),
            w@.valid(),
        ensures
            final(self).wf(),
            final(self)@ == old(self)@.with_window(label@, w@),
    {
        let ghost before = self@;
        self.strip.insert(label.to_owned(), w);
        proof {
            assert forall|k: Seq<char>| #[trigger] self@.strip.contains_key(k) implies self@.strip[k].valid() by {
                if k != label@ {
                    assert(before.strip.contains_key(k));
                }
            }
        }
    }

    /// The labels of all strip windows, once each.
    pub fn window_labels(&self) -> (r: Vec<String>)
        requires
            self.wf(),
        ensures
            lists_windows(texts(r@), self@),
    {
        self.strip.keys()
    }

    /// The last page title that a tab reported; empty before the first one.
    pub fn raw_title(&self, tab: &str) -> (r: String)
        requires
            self.wf(),
        ensures
            r@ == self@.raw_title(tab@),
    {
        match self.raw_titles.get(tab) {
            Some(t) => t.clone(),
            None => String::new(),
        }
    }

    /// Records a page title.
    pub(crate) fn set_raw_title(&mut self, tab: &str, title: &str)
        requires
            old(self).wf(),
        ensures
            final(self).wf(),
            final(self)@ == (AppView {
                raw_titles: old(self)@.raw_titles.insert(tab@, title@),
                ..old(self)@
            }),
    {
        self.raw_titles.insert(tab.to_owned(), title.to_owned());
        assert(self@.strip == old(self)@.strip);
    }

    /// Forgets a page title.
    pub(crate) fn drop_raw_title(&mut self, tab: &str)
        requires
            old(self).wf(),
        ensures
            final(self).wf(),
            final(self)@ == (AppView {
                raw_titles: old(self)@.raw_titles.remove(tab@),
                ..old(self)@
            }),
    {
        let _ = self.raw_titles.remove(tab);
        assert(self@.strip == old(self)@.strip);
    }

    /// The connection mode that a window was opened in.
    pub fn window_mode(&self, label: &str) -> (r: Option<String>)
        requires
            self.wf(),
        ensures
            match r {
                Some(m) => self@.window_modes.contains_key(label@) && m@
                    == self@.window_modes[label@],
                None => !self@.window_modes.contains_key(label@),
            },
    {
        match self.window_modes.get(label) {
            Some(m) => Some(m.clone()),
            None => None,
        }
    }

    /// Records the connection mode of a window.
    pub(crate) fn set_window_mode(&mut self, label: &str, mode: &str)
        requires
            old(self).wf(),
        ensures
            final(self).wf(),
            final(self)@ == (AppView {
                window_modes: old(self)@.window_modes.insert(label@, mode@),
                ..old(self)@
            }),
    {
        self.window_modes.insert(label.to_owned(), mode.to_owned());
        assert(self@.strip == old(self)@.strip);
    }

    /// The number of windows made so far.
    pub fn window_count(&self) -> (r: u64)
        ensures
            r == self@.window_seq,
    {
        self.window_seq
    }

    /// Whether no new tab may take this data partition.
    pub fn is_reserved(&self, partition: &str) -> (r: bool)
        ensures
            r == self@.reserved.contains(partition@),
    {
        let mut i: usize = 0;
        while i < self.reserved.len()
            invariant
                i <= self.reserved@.len(),
                forall|j: int| 0 <= j < i ==> self@.reserved[j] != partition@,
            decreases self.reserved@.len() - i,
        {
            if text::same(self.reserved[i].as_str(), partition) {
                assert(self@.reserved[i as int] == partition@);
                return true;
            }
            i = i + 1;
        }
        false
    }

    /// The number of data partitions that no new tab may take.
    pub fn reserved_count(&self) -> (r: usize)
        ensures
            r == self@.reserved.len(),
    {
        self.reserved.len()
    }

    /// Keeps a data partition from new tabs.
    pub(crate) fn reserve(&mut self, partition: &str)
        requires
            old(self).wf(),
        ensures
            final(self).wf(),
            final(self)@ == (AppView {
                reserved: including(old(self)@.reserved, partition@),
                ..old(self)@
            }),
    {
        if !self.is_reserved(partition) {
            self.reserved.push(partition.to_owned());
            assert(self@.reserved =~= old(self)@.reserved.push(partition@));
        }
        assert(self@.strip == old(self)@.strip);
    }

    /// Counts one more window.
    pub(crate) fn count_window(&mut self) -> (r: u64)
        requires
            old(self).wf(),
            old(self)@.window_seq < u64::MAX,
        ensures
            final(self).wf(),
            r == old(self)@.window_seq + 1,
            final(self)@ == (AppView { window_seq: r as nat, ..old(self)@ }),
    {
        self.window_seq = self.window_seq + 1;
        self.window_seq
    }
}

} // verus!
