//! Selecting, closing, cycling and moving the tabs of a strip window.
use vstd::prelude::*;

use crate::effect::{steps, Effect, EffectView};
use crate::label;
use crate::label::owner_window;
use crate::layout;
use crate::layout::top_of;
use crate::state::{labels, made_label, AppState, AppView, WindowView};
use crate::text;
use crate::text::texts;

verus! {

// ---------------------------------------------------------------------------
// Selecting
// ---------------------------------------------------------------------------

/// A state and the steps that lead on from it.
#[verifier::ext_equal]
pub struct Outcome {
    pub state: AppView,
    pub steps: Seq<EffectView>,
}

/// Nothing happens.
pub open spec fn unchanged(s: AppView) -> Outcome {
    Outcome { state: s, steps: Seq::empty() }
}

/// The tab that was in front leaves the screen, unless it is the one that comes.
pub open spec fn leave_steps(prev: Option<Seq<char>>, tab: Seq<char>) -> Seq<EffectView> {
    match prev {
        Some(p) => if p != tab {
            seq![EffectView::HideTab(p), EffectView::Background(p, true)]
        } else {
            Seq::empty()
        },
        None => Seq::empty(),
    }
}

/// The bounds of the tab that comes are set anew, except on Linux.
pub open spec fn fit_steps(tab: Seq<char>, top: u32, linux: bool) -> Seq<EffectView> {
    if linux {
        Seq::empty()
    } else {
        seq![EffectView::FitTab(tab, top)]
    }
}

/// The tab comes to the front, and the tab bar, the window title, the profile dot and
/// the saved session follow.
pub open spec fn front_steps(s: AppView, window: Seq<char>, tab: Seq<char>) -> Seq<EffectView> {
    seq![
        EffectView::ShowTab(tab),
        EffectView::FocusTab(tab),
        EffectView::Background(tab, false),
        EffectView::EmitTabs(window),
        EffectView::RefreshTitle(window, s.window_raw_title(window)),
        EffectView::CaptureProfile(window, tab),
        EffectView::Persist,
    ]
}

/// The tab becomes the active one of its window. Nothing happens where the window or
/// the tab is unknown.
pub open spec fn selected(s: AppView, window: Seq<char>, tab: Seq<char>, linux: bool) -> Outcome {
    match s.find(window, tab) {
        Some(i) => {
            let w = s.strip[window];
            let s2 = s.with_window(window, w.with_active(i));
            Outcome {
                state: s2,
                steps: leave_steps(w.active_label(), tab) + fit_steps(
                    tab,
                    top_of(s, window),
                    linux,
                ) + front_steps(s2, window, tab),
            }
        },
        None => unchanged(s),
    }
}

/// The page title that the title of a window is made of: that of its active tab.
pub fn window_raw_title(state: &AppState, window_label: &str) -> (r: String)
    requires
        state.wf(),
    ensures
        r@ == state@.window_raw_title(window_label@),
{
    match state.window(window_label) {
        Some(w) => match w.active_label() {
            Some(tab) => state.raw_title(tab.as_str()),
            None => String::new(),
        },
        None => String::new(),
    }
}

/// Brings a tab of an open window to the front. `open` tells whether the window exists.
pub fn select_tab(
    state: &mut AppState,
    window_label: &str,
    tab_label: &str,
    open: bool,
    linux: bool,
) -> (r: Vec<Effect>)
    requires
        old(state).wf(),
    ensures
        final(state).wf(),
        (Outcome { state: final(state)@, steps: steps(r@) }) == if open {
            selected(old(state)@, window_label@, tab_label@, linux)
        } else {
            unchanged(old(state)@)
        },
        old(state)@.numbered() ==> final(state)@.numbered(),
{
    let mut r: Vec<Effect> = Vec::new();
    assert(steps(r@) =~= Seq::empty());
    if !open {
        return r;
    }
    let ghost before = state@;
    let (idx, prev): (usize, Option<String>) = match state.window(window_label) {
        Some(w) => match w.position(tab_label) {
            Some(i) => (i, w.active_label()),
            None => {
                return r;
            },
        },
        None => {
            return r;
        },
    };
    let top: u32 = layout::content_top(state, window_label);
    if let Some(mut w) = state.take_window(window_label) {
        w.active = idx;
        state.put_window(window_label, w);
    }
    let ghost s2 = before.with_window(window_label@, before.strip[window_label@].with_active(idx as int));
    assert(state@ =~= s2);
    proof {
        lemma_with_window_numbered(before, window_label@, s2.strip[window_label@]);
    }
    if let Some(p) = prev {
        if !text::same(p.as_str(), tab_label) {
            r.push(Effect::HideTab(p.clone()));
            r.push(Effect::Background(p, true));
        }
    }
    if !linux {
        r.push(Effect::FitTab(tab_label.to_owned(), top));
    }
    r.push(Effect::ShowTab(tab_label.to_owned()));
    r.push(Effect::FocusTab(tab_label.to_owned()));
    r.push(Effect::Background(tab_label.to_owned(), false));
    r.push(Effect::EmitTabs(window_label.to_owned()));
    r.push(Effect::RefreshTitle(window_label.to_owned(), window_raw_title(state, window_label)));
    r.push(Effect::CaptureProfile(window_label.to_owned(), tab_label.to_owned()));
    r.push(Effect::Persist);
    assert(steps(r@) =~= selected(before, window_label@, tab_label@, linux).steps);
    r
}

/// Changing one window keeps the labels in order where the new window has them in order.
pub proof fn lemma_with_window_numbered(s: AppView, window: Seq<char>, w: WindowView)
    ensures
        s.numbered() && w.numbered(window) ==> s.with_window(window, w).numbered(),
{
    if s.numbered() && w.numbered(window) {
        let s2 = s.with_window(window, w);
        assert forall|k: Seq<char>| #[trigger]
            s2.strip.contains_key(k) implies s2.strip[k].numbered(k) by {
            if k != window {
                assert(s.strip.contains_key(k));
            }
        }
    }
}

// ---------------------------------------------------------------------------
// Closing
// ---------------------------------------------------------------------------

impl WindowView {
    /// The window without its tab `i`. The active tab stays active; where it is the one
    /// that goes, the tab that moves up to its place takes over, or the last one.
    pub open spec fn without(self, i: int) -> WindowView {
        let n = self.tabs.len() - 1;
        WindowView {
            tabs: self.tabs.remove(i),
            active: if self.active >= n {
                n - 1
            } else if i < self.active {
                self.active - 1
            } else {
                self.active
            },
            ..self
        }
    }
}

/// The tab goes, with its webview and its data, and the active tab comes to the front.
/// The last tab takes its window along. Nothing happens where the window or the tab is
/// unknown.
pub open spec fn closed(s: AppView, window: Seq<char>, tab: Seq<char>, linux: bool) -> Outcome {
    if !s.strip.contains_key(window) {
        unchanged(s)
    } else if s.strip[window].tabs.len() <= 1 {
        Outcome { state: s, steps: seq![EffectView::CloseWindow(window)] }
    } else {
        match s.find(window, tab) {
            Some(i) => {
                let w = s.strip[window];
                let s2 = detached(s, window, tab, i);
                let front = selected(s2, window, w.without(i).active_label()->0, linux);
                Outcome {
                    state: front.state,
                    steps: seq![
                        EffectView::ForgetNavigated(tab),
                        EffectView::ForgetUrl(tab),
                        EffectView::CloseTab(tab),
                        EffectView::RemovePartition(w.tabs[i].partition),
                    ] + front.steps + seq![EffectView::Persist],
                }
            },
            None => unchanged(s),
        }
    }
}

/// Taking a tab out keeps the labels distinct.
pub proof fn lemma_without_distinct(w: WindowView, i: int)
    requires
        w.distinct(),
        0 <= i < w.tabs.len(),
    ensures
        w.without(i).distinct(),
{
    let a = labels(w.tabs);
    let b = labels(w.without(i).tabs);
    assert forall|j: int, k: int| 0 <= j < b.len() && 0 <= k < b.len() && j != k implies b[j]
        != b[k] by {
        let j2 = if j < i {
            j
        } else {
            j + 1
        };
        let k2 = if k < i {
            k
        } else {
            k + 1
        };
        assert(b[j] == a[j2] && b[k] == a[k2]);
    }
}

/// Taking a tab out keeps the labels in order.
pub proof fn lemma_without_numbered(w: WindowView, window: Seq<char>, i: int)
    requires
        w.numbered(window),
        0 <= i < w.tabs.len(),
    ensures
        w.without(i).numbered(window),
{
    let w2 = w.without(i);
    lemma_without_distinct(w, i);
    assert forall|j: int| 0 <= j < w2.tabs.len() implies made_label(
        window,
        w2.tab_seq,
        #[trigger] w2.tabs[j].label,
    ) by {
        let k = if j < i {
            j
        } else {
            j + 1
        };
        assert(w2.tabs[j] == w.tabs[k]);
    }
}

/// The state without a tab.
pub open spec fn detached(s: AppView, window: Seq<char>, tab: Seq<char>, i: int) -> AppView {
    AppView {
        raw_titles: s.raw_titles.remove(tab),
        ..s.with_window(window, s.strip[window].without(i))
    }
}

/// Takes a tab out of the registry; returns the label of the tab that is active then, and
/// the partition of the one that went.
fn detach(state: &mut AppState, window_label: &str, tab_label: &str, idx: usize) -> (r: (
    String,
    String,
))
    requires
        old(state).wf(),
        old(state)@.strip.contains_key(window_label@),
        idx < old(state)@.strip[window_label@].tabs.len(),
        old(state)@.strip[window_label@].tabs.len() > 1,
    ensures
        final(state).wf(),
        final(state)@ == detached(old(state)@, window_label@, tab_label@, idx as int),
        final(state)@.strip[window_label@].active_label() == Some(r.0@),
        r.1@ == old(state)@.strip[window_label@].tabs[idx as int].partition,
        old(state)@.numbered() ==> final(state)@.numbered(),
{
    let ghost s = state@;
    let ghost w = s.strip[window_label@];
    let ghost w2 = w.without(idx as int);
    let mut next: String = String::new();
    let mut partition: String = String::new();
    if let Some(mut win) = state.take_window(window_label) {
        let gone = win.tabs.remove(idx);
        partition = gone.partition;
        if win.active >= win.tabs.len() {
            win.active = win.tabs.len() - 1;
        } else if idx < win.active {
            win.active = win.active - 1;
        }
        assert(win@.tabs =~= w2.tabs);
        assert(win@ =~= w2);
        next = win.tabs[win.active].label.clone();
        state.put_window(window_label, win);
    }
    assert(w2.active_label() == Some(next@));
    state.drop_raw_title(tab_label);
    assert(state@ =~= detached(s, window_label@, tab_label@, idx as int));
    proof {
        if s.numbered() {
            lemma_without_numbered(w, window_label@, idx as int);
            lemma_with_window_numbered(s, window_label@, w2);
            assert(state@.strip == s.with_window(window_label@, w2).strip);
        }
    }
    (next, partition)
}

/// Closes a tab. `open` tells whether the window exists.
pub fn close_tab(
    state: &mut AppState,
    window_label: &str,
    tab_label: &str,
    open: bool,
    linux: bool,
) -> (r: Vec<Effect>)
    requires
        old(state).wf(),
    ensures
        final(state).wf(),
        (Outcome { state: final(state)@, steps: steps(r@) }) == if open {
            closed(old(state)@, window_label@, tab_label@, linux)
        } else {
            unchanged(old(state)@)
        },
        old(state)@.numbered() ==> final(state)@.numbered(),
{
    let mut r: Vec<Effect> = Vec::new();
    assert(steps(r@) =~= Seq::empty());
    if !open {
        return r;
    }
    let ghost s = state@;
    let idx: usize = match state.window(window_label) {
        Some(w) => {
            if w.tabs.len() <= 1 {
                r.push(Effect::CloseWindow(window_label.to_owned()));
                assert(steps(r@) =~= seq![EffectView::CloseWindow(window_label@)]);
                return r;
            }
            match w.position(tab_label) {
                Some(i) => i,
                None => {
                    return r;
                },
            }
        },
        None => {
            return r;
        },
    };
    let (next, partition): (String, String) = detach(state, window_label, tab_label, idx);
    r.push(Effect::ForgetNavigated(tab_label.to_owned()));
    r.push(Effect::ForgetUrl(tab_label.to_owned()));
    r.push(Effect::CloseTab(tab_label.to_owned()));
    r.push(Effect::RemovePartition(partition));
    let ghost first = steps(r@);
    let mut front = select_tab(state, window_label, next.as_str(), true, linux);
    let ghost second = steps(front@);
    r.append(&mut front);
    assert(steps(r@) =~= first + second);
    r.push(Effect::Persist);
    assert(steps(r@) =~= closed(s, window_label@, tab_label@, linux).steps);
    r
}

/// Closes a tab of the window that its label names.
pub fn close_tab_by_label(
    state: &mut AppState,
    tab_label: &str,
    open: bool,
    linux: bool,
) -> (r: Vec<Effect>)
    requires
        old(state).wf(),
    ensures
        final(state).wf(),
        (Outcome { state: final(state)@, steps: steps(r@) }) == match owner_window(tab_label@) {
            Some(w) if open => closed(old(state)@, w, tab_label@, linux),
            _ => unchanged(old(state)@),
        },
        old(state)@.numbered() ==> final(state)@.numbered(),
{
    match label::window_of_tab(tab_label) {
        Some(w) => close_tab(state, w.as_str(), tab_label, open, linux),
        None => {
            let r: Vec<Effect> = Vec::new();
            assert(steps(r@) =~= Seq::empty());
            r
        },
    }
}

// ---------------------------------------------------------------------------
// Cycling
// ---------------------------------------------------------------------------

impl WindowView {
    /// The place of the tab next to the active one, in a ring.
    pub open spec fn neighbour(self, forward: bool) -> int {
        let n = self.tabs.len() as int;
        if forward {
            (self.active + 1) % n
        } else {
            (self.active + n - 1) % n
        }
    }
}

/// The neighbour of the active tab comes to the front, in the window that the tab label
/// names. Nothing happens where that window is unknown or has fewer than two tabs.
pub open spec fn cycled(s: AppView, tab: Seq<char>, forward: bool, linux: bool) -> Outcome {
    match owner_window(tab) {
        Some(window) => if s.strip.contains_key(window) && s.strip[window].tabs.len() >= 2 {
            let w = s.strip[window];
            selected(s, window, w.tabs[w.neighbour(forward)].label, linux)
        } else {
            unchanged(s)
        },
        None => unchanged(s),
    }
}

/// Brings the next or the previous tab to the front. `open` tells whether the window
/// exists.
pub fn cycle_tab(
    state: &mut AppState,
    tab_label: &str,
    forward: bool,
    open: bool,
    linux: bool,
) -> (r: Vec<Effect>)
    requires
        old(state).wf(),
    ensures
        final(state).wf(),
        (Outcome { state: final(state)@, steps: steps(r@) }) == if open {
            cycled(old(state)@, tab_label@, forward, linux)
        } else {
            unchanged(old(state)@)
        },
        old(state)@.numbered() ==> final(state)@.numbered(),
{
    let r: Vec<Effect> = Vec::new();
    assert(steps(r@) =~= Seq::empty());
    let window: String = match label::window_of_tab(tab_label) {
        Some(w) => w,
        None => {
            return r;
        },
    };
    let next: String = match state.window(window.as_str()) {
        Some(w) => {
            let len: usize = w.tabs.len();
            if len < 2 {
                return r;
            }
            let idx: usize = if forward {
                if w.active + 1 == len {
                    0
                } else {
                    w.active + 1
                }
            } else if w.active == 0 {
                len - 1
            } else {
                w.active - 1
            };
            proof {
                lemma_ring(w@.active, len as int);
            }
            assert(idx == w@.neighbour(forward));
            w.tabs[idx].label.clone()
        },
        None => {
            return r;
        },
    };
    select_tab(state, window.as_str(), next.as_str(), open, linux)
}

pub proof fn lemma_ring(a: int, n: int)
    requires
        0 <= a < n,
    ensures
        (a + 1) % n == if a + 1 == n {
            0
        } else {
            a + 1
        },
        (a + n - 1) % n == if a == 0 {
            n - 1
        } else {
            a - 1
        },
{
    if a + 1 == n {
        vstd::arithmetic::div_mod::lemma_mod_self_0(n);
    } else {
        vstd::arithmetic::div_mod::lemma_small_mod((a + 1) as nat, n as nat);
    }
    if a == 0 {
        vstd::arithmetic::div_mod::lemma_small_mod((n - 1) as nat, n as nat);
    } else {
        vstd::arithmetic::div_mod::lemma_mod_add_multiples_vanish(a - 1, n);
        vstd::arithmetic::div_mod::lemma_small_mod((a - 1) as nat, n as nat);
        assert(a + n - 1 == n + (a - 1));
    }
}

// ---------------------------------------------------------------------------
// Moving
// ---------------------------------------------------------------------------

impl WindowView {
    /// The window with the tab at `from` moved to `to`. The active tab stays active.
    pub open spec fn moved(self, from: int, to: int) -> WindowView {
        let tabs = self.tabs.remove(from).insert(to, self.tabs[from]);
        WindowView {
            tabs,
            active: labels(tabs).index_of_first(self.tabs[self.active].label)->0,
            ..self
        }
    }
}

/// Where a tab lands that is to be moved to `new_index`.
pub open spec fn landing(w: WindowView, new_index: int) -> int {
    if new_index < w.tabs.len() {
        new_index
    } else {
        w.tabs.len() - 1
    }
}

/// The tab moves to another place in its window, the last one where the index is too
/// large. Nothing happens where the tab is unknown or stands there already.
pub open spec fn reordered(s: AppView, window: Seq<char>, tab: Seq<char>, new_index: int) -> Outcome {
    match s.find(window, tab) {
        Some(from) => {
            let w = s.strip[window];
            let to = landing(w, new_index);
            if from == to {
                unchanged(s)
            } else {
                Outcome {
                    state: s.with_window(window, w.moved(from, to)),
                    steps: seq![EffectView::EmitTabs(window), EffectView::Persist],
                }
            }
        },
        None => unchanged(s),
    }
}

/// Where a tab stood before it was moved.
pub open spec fn source_of(j: int, from: int, to: int) -> int {
    if j == to {
        from
    } else {
        let k = if j < to {
            j
        } else {
            j - 1
        };
        if k < from {
            k
        } else {
            k + 1
        }
    }
}

proof fn lemma_moved_tabs(w: WindowView, from: int, to: int)
    requires
        0 <= from < w.tabs.len(),
        0 <= to < w.tabs.len(),
    ensures
        w.moved(from, to).tabs.len() == w.tabs.len(),
        forall|j: int|
            0 <= j < w.tabs.len() ==> #[trigger] w.moved(from, to).tabs[j] == w.tabs[source_of(
                j,
                from,
                to,
            )],
{
}

pub proof fn lemma_moved_valid(w: WindowView, from: int, to: int)
    requires
        w.valid(),
        0 <= from < w.tabs.len(),
        0 <= to < w.tabs.len(),
    ensures
        w.moved(from, to).valid(),
        w.moved(from, to).active_label() == w.active_label(),
        w.moved(from, to).index(w.tabs[w.active].label) == Some(w.moved(from, to).active),
{
    let w2 = w.moved(from, to);
    let ls = labels(w2.tabs);
    let al = w.tabs[w.active].label;
    lemma_moved_tabs(w, from, to);
    ls.index_of_first_ensures(al);
    // The place that the active tab moved to.
    let k = if w.active < from {
        w.active
    } else {
        w.active - 1
    };
    let j = if w.active == from {
        to
    } else if k < to {
        k
    } else {
        k + 1
    };
    assert(source_of(j, from, to) == w.active);
    assert(ls[j] == al);
    assert(ls.contains(al));
}

/// Moving a tab keeps the labels distinct.
pub proof fn lemma_moved_distinct(w: WindowView, from: int, to: int)
    requires
        w.distinct(),
        0 <= from < w.tabs.len(),
        0 <= to < w.tabs.len(),
    ensures
        w.moved(from, to).distinct(),
{
    let w2 = w.moved(from, to);
    let a = labels(w.tabs);
    let b = labels(w2.tabs);
    lemma_moved_tabs(w, from, to);
    assert forall|j: int, k: int| 0 <= j < b.len() && 0 <= k < b.len() && j != k implies b[j]
        != b[k] by {
        assert(w2.tabs[j] == w.tabs[source_of(j, from, to)]);
        assert(w2.tabs[k] == w.tabs[source_of(k, from, to)]);
        assert(b[j] == a[source_of(j, from, to)]);
        assert(b[k] == a[source_of(k, from, to)]);
    }
}

/// Moving a tab keeps the labels in order.
pub proof fn lemma_moved_numbered(w: WindowView, window: Seq<char>, from: int, to: int)
    requires
        w.numbered(window),
        0 <= from < w.tabs.len(),
        0 <= to < w.tabs.len(),
    ensures
        w.moved(from, to).numbered(window),
{
    let w2 = w.moved(from, to);
    lemma_moved_distinct(w, from, to);
    lemma_moved_tabs(w, from, to);
    assert forall|j: int| 0 <= j < w2.tabs.len() implies made_label(
        window,
        w2.tab_seq,
        #[trigger] w2.tabs[j].label,
    ) by {
        assert(w2.tabs[j] == w.tabs[source_of(j, from, to)]);
    }
}

/// Moves a tab to another place in its window.
pub fn reorder_tab(
    state: &mut AppState,
    window_label: &str,
    tab_label: &str,
    new_index: usize,
) -> (r: Vec<Effect>)
    requires
        old(state).wf(),
    ensures
        final(state).wf(),
        (Outcome { state: final(state)@, steps: steps(r@) }) == reordered(
            old(state)@,
            window_label@,
            tab_label@,
            new_index as int,
        ),
        old(state)@.numbered() ==> final(state)@.numbered(),
{
    let mut r: Vec<Effect> = Vec::new();
    assert(steps(r@) =~= Seq::empty());
    let ghost s = state@;
    let (from, to): (usize, usize) = match state.window(window_label) {
        Some(w) => match w.position(tab_label) {
            Some(i) => (
                i,
                if new_index < w.tabs.len() {
                    new_index
                } else {
                    w.tabs.len() - 1
                },
            ),
            None => {
                return r;
            },
        },
        None => {
            return r;
        },
    };
    if from == to {
        return r;
    }
    let ghost w = s.strip[window_label@];
    let ghost w2 = w.moved(from as int, to as int);
    proof {
        lemma_moved_valid(w, from as int, to as int);
        if s.numbered() {
            lemma_moved_numbered(w, window_label@, from as int, to as int);
        }
        lemma_with_window_numbered(s, window_label@, w2);
    }
    if let Some(mut win) = state.take_window(window_label) {
        let active_label: String = win.tabs[win.active].label.clone();
        let tab = win.tabs.remove(from);
        win.tabs.insert(to, tab);
        assert(win@.tabs =~= w2.tabs);
        if let Some(i) = win.position(active_label.as_str()) {
            win.active = i;
        }
        assert(win@ =~= w2);
        state.put_window(window_label, win);
    }
    assert(state@ =~= s.with_window(window_label@, w2));
    r.push(Effect::EmitTabs(window_label.to_owned()));
    r.push(Effect::Persist);
    assert(steps(r@) =~= reordered(s, window_label@, tab_label@, new_index as int).steps);
    r
}

// ---------------------------------------------------------------------------
// Background and focus
// ---------------------------------------------------------------------------

/// Tells the active tab of a window whether it is in the background, as when the whole
/// window loses or gains the focus. `open` tells whether the window exists.
pub fn set_active_tab_backgrounded(
    state: &AppState,
    window_label: &str,
    backgrounded: bool,
    open: bool,
) -> (r: Vec<Effect>)
    requires
        state.wf(),
    ensures
        steps(r@) == match state@.active_tab(window_label@) {
            Some(tab) if open => seq![EffectView::Background(tab, backgrounded)],
            _ => Seq::empty(),
        },
{
    let mut r: Vec<Effect> = Vec::new();
    if open {
        if let Some(w) = state.window(window_label) {
            if let Some(tab) = w.active_label() {
                r.push(Effect::Background(tab, backgrounded));
            }
        }
    }
    r
}

/// The script that tells a page whether it is in the background.
pub fn backgrounded_script(backgrounded: bool) -> (r: String)
    ensures
        r@ == "window.__hermesSetBackgrounded&&window.__hermesSetBackgrounded("@ + (
        if backgrounded {
            "true"@
        } else {
            "false"@
        }) + ")"@,
{
    let head: String = text::concat(
        "window.__hermesSetBackgrounded&&window.__hermesSetBackgrounded(",
        if backgrounded {
            "true"
        } else {
            "false"
        },
    );
    text::concat(head.as_str(), ")")
}

/// A content window and whether it has the focus.
#[derive(Debug)]
pub struct WindowHandle {
    pub label: String,
    pub focused: bool,
}

/// The first window that has the focus.
pub open spec fn first_focused(handles: Seq<WindowHandle>) -> Option<WindowHandle>
    decreases handles.len(),
{
    if handles.len() == 0 {
        None
    } else if handles.first().focused {
        Some(handles.first())
    } else {
        first_focused(handles.drop_first())
    }
}

/// The window in front: the first one with the focus, else the last one.
pub open spec fn front_window(handles: Seq<WindowHandle>) -> Option<Seq<char>> {
    match first_focused(handles) {
        Some(h) => Some(h.label@),
        None => if handles.len() > 0 {
            Some(handles.last().label@)
        } else {
            None
        },
    }
}

/// The window in front and its active tab; none where there is no window, or where it is
/// not a strip window or has no tab.
pub fn focused_active_webview(state: &AppState, handles: &Vec<WindowHandle>) -> (r: Option<
    (String, String),
>)
    requires
        state.wf(),
    ensures
        match r {
            Some((window, tab)) => front_window(handles@) == Some(window@)
                && state@.active_tab(window@) == Some(tab@),
            None => match front_window(handles@) {
                Some(window) => state@.active_tab(window) is None,
                None => true,
            },
        },
{
    if handles.len() == 0 {
        return None;
    }
    let mut i: usize = 0;
    assert(handles@.skip(0) =~= handles@);
    while i < handles.len() && !handles[i].focused
        invariant
            i <= handles@.len(),
            first_focused(handles@) == first_focused(handles@.skip(i as int)),
        decreases handles@.len() - i,
    {
        assert(handles@.skip(i as int).drop_first() =~= handles@.skip(i + 1));
        i = i + 1;
    }
    let front: usize = if i < handles.len() {
        i
    } else {
        handles.len() - 1
    };
    assert(front_window(handles@) == Some(handles@[front as int].label@)) by {
        if i < handles@.len() {
            assert(handles@.skip(i as int).first() == handles@[i as int]);
        }
    }
    match state.window(handles[front].label.as_str()) {
        Some(w) => match w.active_label() {
            Some(tab) => Some((handles[front].label.clone(), tab)),
            None => None,
        },
        None => None,
    }
}

/// The labels of tabs among the labels of webviews.
pub fn all_tab_webviews(webviews: &Vec<String>) -> (r: Vec<String>)
    ensures
        texts(r@) == texts(webviews@).filter(|l: Seq<char>| "tab-"@.is_prefix_of(l)),
{
    let ghost all = texts(webviews@);
    let ghost of_tab = |l: Seq<char>| "tab-"@.is_prefix_of(l);
    let mut r: Vec<String> = Vec::new();
    let mut i: usize = 0;
    proof {
        reveal(Seq::filter);
        assert(texts(r@) =~= all.take(0).filter(of_tab));
    }
    while i < webviews.len()
        invariant
            i <= webviews@.len(),
            all == texts(webviews@),
            of_tab == (|l: Seq<char>| "tab-"@.is_prefix_of(l)),
            texts(r@) == all.take(i as int).filter(of_tab),
        decreases webviews@.len() - i,
    {
        proof {
            reveal(Seq::filter);
        }
        let ghost before = r@;
        assert(all.take(i + 1).drop_last() =~= all.take(i as int));
        assert(all.take(i + 1).last() == webviews@[i as int]@);
        if text::starts_with(webviews[i].as_str(), "tab-") {
            r.push(webviews[i].clone());
            assert(texts(r@) =~= texts(before).push(webviews@[i as int]@));
        }
        i = i + 1;
    }
    assert(all.take(i as int) =~= all);
    r
}

} // verus!
