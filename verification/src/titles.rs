//! What the tab bar shows of a tab: its name, its profile, and whether it is busy or asks
//! for attention.
use vstd::prelude::*;

use crate::effect::{steps, Effect, EffectView};
use crate::label;
use crate::label::owner_window;
use crate::state::{labels, made_label, AppState, AppView, TabView};
use crate::tabs;
use crate::tabs::{lemma_with_window_numbered, unchanged, Outcome};
use crate::text;
use crate::text::{opt_text, trimmed};

verus! {

/// The state with one tab changed.
pub open spec fn edited(s: AppView, window: Seq<char>, i: int, t: TabView) -> AppView {
    s.with_window(window, s.strip[window].with_tab(i, t))
}

/// A tab that keeps its label keeps the labels in order.
pub proof fn lemma_edited_numbered(s: AppView, window: Seq<char>, i: int, t: TabView)
    requires
        s.strip.contains_key(window),
        0 <= i < s.strip[window].tabs.len(),
        t.label == s.strip[window].tabs[i].label,
    ensures
        s.numbered() ==> edited(s, window, i, t).numbered(),
{
    let w = s.strip[window];
    let w2 = w.with_tab(i, t);
    assert(labels(w2.tabs) =~= labels(w.tabs));
    if w.numbered(window) {
        assert forall|j: int| 0 <= j < w2.tabs.len() implies made_label(
            window,
            w2.tab_seq,
            #[trigger] w2.tabs[j].label,
        ) by {
            assert(made_label(window, w.tab_seq, w.tabs[j].label));
        }
    }
    lemma_with_window_numbered(s, window, w2);
}

// ---------------------------------------------------------------------------
// Page titles
// ---------------------------------------------------------------------------

/// The tab after its page reported a title: a name that the user gave it stays.
pub open spec fn with_title(t: TabView, displayed: Seq<char>, attention: bool) -> TabView {
    TabView {
        title: if t.custom_title is None {
            displayed
        } else {
            t.title
        },
        attention,
        ..t
    }
}

/// The page title is remembered, whether or not the tab is known. The tab bar and the
/// window title follow only where what the tab bar shows has changed.
pub open spec fn titled(
    s: AppView,
    tab: Seq<char>,
    title: Seq<char>,
    attention: bool,
    displayed: Seq<char>,
) -> Outcome {
    match owner_window(tab) {
        Some(window) => {
            let s1 = AppView { raw_titles: s.raw_titles.insert(tab, title), ..s };
            match s1.find(window, tab) {
                Some(i) => {
                    let t = s1.strip[window].tabs[i];
                    let t2 = with_title(t, displayed, attention);
                    let s2 = edited(s1, window, i, t2);
                    Outcome {
                        state: s2,
                        steps: if t.title != t2.title || t.attention != t2.attention {
                            seq![
                                EffectView::EmitTabs(window),
                                EffectView::RefreshTitle(window, s2.window_raw_title(window)),
                            ]
                        } else {
                            Seq::empty()
                        },
                    }
                },
                None => unchanged(s1),
            }
        },
        None => unchanged(s),
    }
}

/// A tab's page reported a title and whether it asks for attention. `displayed` is the
/// name that the tab bar makes of the page title.
pub fn set_tab_title(
    state: &mut AppState,
    tab_label: &str,
    title: &str,
    attention: bool,
    displayed: &str,
) -> (r: Vec<Effect>)
    requires
        old(state).wf(),
    ensures
        final(state).wf(),
        (Outcome { state: final(state)@, steps: steps(r@) }) == titled(
            old(state)@,
            tab_label@,
            title@,
            attention,
            displayed@,
        ),
        old(state)@.numbered() ==> final(state)@.numbered(),
{
    let mut r: Vec<Effect> = Vec::new();
    assert(steps(r@) =~= Seq::empty());
    let ghost s = state@;
    let window: String = match label::window_of_tab(tab_label) {
        Some(w) => w,
        None => {
            return r;
        },
    };
    state.set_raw_title(tab_label, title);
    let ghost s1 = state@;
    let i: usize = match state.window(window.as_str()) {
        Some(w) => match w.position(tab_label) {
            Some(i) => i,
            None => {
                return r;
            },
        },
        None => {
            return r;
        },
    };
    let ghost t = s1.strip[window@].tabs[i as int];
    let ghost t2 = with_title(t, displayed@, attention);
    let mut changed: bool = false;
    if let Some(mut win) = state.take_window(window.as_str()) {
        let mut tab = win.tabs.remove(i);
        assert(tab@ == t);
        let new_title: String = if tab.custom_title.is_none() {
            displayed.to_owned()
        } else {
            tab.title.clone()
        };
        changed = !text::same(tab.title.as_str(), new_title.as_str()) || tab.attention
            != attention;
        tab.title = new_title;
        tab.attention = attention;
        assert(tab@ =~= t2);
        win.tabs.insert(i, tab);
        assert(win@.tabs =~= s1.strip[window@].tabs.update(i as int, t2));
        state.put_window(window.as_str(), win);
    }
    assert(state@ =~= edited(s1, window@, i as int, t2));
    proof {
        lemma_edited_numbered(s1, window@, i as int, t2);
        assert(s.numbered() ==> s1.numbered());
    }
    if changed {
        r.push(Effect::EmitTabs(window.clone()));
        let raw: String = tabs::window_raw_title(state, window.as_str());
        r.push(Effect::RefreshTitle(window, raw));
    }
    assert(steps(r@) =~= titled(s, tab_label@, title@, attention, displayed@).steps);
    r
}

// ---------------------------------------------------------------------------
// Profile dot and busy flag
// ---------------------------------------------------------------------------

/// A tab changes to `t2`; the tab bar follows only where that makes a difference.
pub open spec fn shown(s: AppView, window: Seq<char>, i: int, t2: TabView) -> Outcome {
    if s.strip[window].tabs[i] == t2 {
        unchanged(s)
    } else {
        Outcome { state: edited(s, window, i, t2), steps: seq![EffectView::EmitTabs(window)] }
    }
}

/// The profile that a reported name stands for: the empty name is the default profile.
pub open spec fn reported_profile(name: Seq<char>) -> Option<Seq<char>> {
    if name.len() == 0 {
        None
    } else {
        Some(name)
    }
}

/// The tab's dot takes the color of the profile that its page reported.
pub open spec fn dotted(s: AppView, tab: Seq<char>, name: Seq<char>) -> Outcome {
    match owner_window(tab) {
        Some(window) => match s.find(window, tab) {
            Some(i) => shown(
                s,
                window,
                i,
                (TabView { dot_profile: reported_profile(name), ..s.strip[window].tabs[i] }),
            ),
            None => unchanged(s),
        },
        None => unchanged(s),
    }
}

/// A tab's page reported its active profile.
pub fn set_tab_dot_profile(state: &mut AppState, tab_label: &str, name: &str) -> (r: Vec<Effect>)
    requires
        old(state).wf(),
    ensures
        final(state).wf(),
        (Outcome { state: final(state)@, steps: steps(r@) }) == dotted(
            old(state)@,
            tab_label@,
            name@,
        ),
        old(state)@.numbered() ==> final(state)@.numbered(),
{
    let mut r: Vec<Effect> = Vec::new();
    assert(steps(r@) =~= Seq::empty());
    let ghost s = state@;
    let window: String = match label::window_of_tab(tab_label) {
        Some(w) => w,
        None => {
            return r;
        },
    };
    let value: Option<String> = if name.is_empty() {
        None
    } else {
        Some(name.to_owned())
    };
    let i: usize = match state.window(window.as_str()) {
        Some(w) => match w.position(tab_label) {
            Some(i) => {
                if text::same_opt(&w.tabs[i].dot_profile, &value) {
                    assert((TabView { dot_profile: reported_profile(name@), ..w.tabs@[i as int]@ })
                        =~= w.tabs@[i as int]@);
                    return r;
                }
                i
            },
            None => {
                return r;
            },
        },
        None => {
            return r;
        },
    };
    let ghost t = s.strip[window@].tabs[i as int];
    let ghost t2 = TabView { dot_profile: reported_profile(name@), ..t };
    if let Some(mut win) = state.take_window(window.as_str()) {
        let mut tab = win.tabs.remove(i);
        assert(tab@ == t);
        tab.dot_profile = value;
        assert(tab@ =~= t2);
        win.tabs.insert(i, tab);
        assert(win@.tabs =~= s.strip[window@].tabs.update(i as int, t2));
        state.put_window(window.as_str(), win);
    }
    assert(state@ =~= edited(s, window@, i as int, t2));
    proof {
        lemma_edited_numbered(s, window@, i as int, t2);
    }
    r.push(Effect::EmitTabs(window));
    assert(steps(r@) =~= dotted(s, tab_label@, name@).steps);
    r
}

/// The tab bar shows whether the tab's page is streaming.
pub open spec fn busied(s: AppView, tab: Seq<char>, busy: bool) -> Outcome {
    match owner_window(tab) {
        Some(window) => match s.find(window, tab) {
            Some(i) => shown(s, window, i, (TabView { busy, ..s.strip[window].tabs[i] })),
            None => unchanged(s),
        },
        None => unchanged(s),
    }
}

/// A tab's page reported whether it is streaming.
pub fn set_tab_busy(state: &mut AppState, tab_label: &str, busy: bool) -> (r: Vec<Effect>)
    requires
        old(state).wf(),
    ensures
        final(state).wf(),
        (Outcome { state: final(state)@, steps: steps(r@) }) == busied(
            old(state)@,
            tab_label@,
            busy,
        ),
        old(state)@.numbered() ==> final(state)@.numbered(),
{
    let mut r: Vec<Effect> = Vec::new();
    assert(steps(r@) =~= Seq::empty());
    let ghost s = state@;
    let window: String = match label::window_of_tab(tab_label) {
        Some(w) => w,
        None => {
            return r;
        },
    };
    let i: usize = match state.window(window.as_str()) {
        Some(w) => match w.position(tab_label) {
            Some(i) => {
                if w.tabs[i].busy == busy {
                    assert((TabView { busy, ..w.tabs@[i as int]@ }) =~= w.tabs@[i as int]@);
                    return r;
                }
                i
            },
            None => {
                return r;
            },
        },
        None => {
            return r;
        },
    };
    let ghost t = s.strip[window@].tabs[i as int];
    let ghost t2 = TabView { busy, ..t };
    if let Some(mut win) = state.take_window(window.as_str()) {
        let mut tab = win.tabs.remove(i);
        assert(tab@ == t);
        tab.busy = busy;
        assert(tab@ =~= t2);
        win.tabs.insert(i, tab);
        assert(win@.tabs =~= s.strip[window@].tabs.update(i as int, t2));
        state.put_window(window.as_str(), win);
    }
    assert(state@ =~= edited(s, window@, i as int, t2));
    proof {
        lemma_edited_numbered(s, window@, i as int, t2);
    }
    r.push(Effect::EmitTabs(window));
    assert(steps(r@) =~= busied(s, tab_label@, busy).steps);
    r
}

// ---------------------------------------------------------------------------
// Names that the user gives
// ---------------------------------------------------------------------------

/// The longest name that a tab takes, in characters.
pub const NAME_LENGTH: usize = 60;

/// The name that the user's text makes: without blank space around it and cut to length;
/// none where nothing is left.
pub open spec fn given_name(name: Option<Seq<char>>) -> Option<Seq<char>> {
    match name {
        Some(n) => {
            let t = trimmed(n);
            if t.len() == 0 {
                None
            } else if t.len() > NAME_LENGTH {
                Some(t.take(NAME_LENGTH as int))
            } else {
                Some(t)
            }
        },
        None => None,
    }
}

/// The name that the user's text makes.
pub fn clean_name(name: Option<String>) -> (r: Option<String>)
    ensures
        opt_text(r) == given_name(opt_text(name)),
{
    match name {
        Some(n) => {
            let t = text::trim(n.as_str());
            if t.as_str().is_empty() {
                return None;
            }
            let v = text::to_chars(t.as_str());
            if v.len() > NAME_LENGTH {
                assert(v@.subrange(0, NAME_LENGTH as int) =~= t@.take(NAME_LENGTH as int));
                Some(text::string_of(&v, 0, NAME_LENGTH))
            } else {
                Some(t)
            }
        },
        None => None,
    }
}

/// The tab with a name of the user's, or with the name that its page title makes.
pub open spec fn with_name(t: TabView, name: Option<Seq<char>>, displayed: Seq<char>) -> TabView {
    TabView {
        title: match name {
            Some(n) => n,
            None => displayed,
        },
        custom_title: name,
        ..t
    }
}

/// The tab takes the user's name, or goes back to its page title. Nothing happens where
/// the tab is unknown.
pub open spec fn renamed(
    s: AppView,
    window: Seq<char>,
    tab: Seq<char>,
    name: Option<Seq<char>>,
    displayed: Seq<char>,
) -> Outcome {
    match s.find(window, tab) {
        Some(i) => {
            let s2 = edited(
                s,
                window,
                i,
                with_name(s.strip[window].tabs[i], given_name(name), displayed),
            );
            Outcome {
                state: s2,
                steps: seq![
                    EffectView::EmitTabs(window),
                    EffectView::RefreshTitle(window, s2.window_raw_title(window)),
                    EffectView::Persist,
                ],
            }
        },
        None => unchanged(s),
    }
}

/// Renames a tab; no name, or a blank one, takes the user's name away. `displayed` is the
/// name that the tab bar makes of the tab's last page title.
pub fn rename_tab(
    state: &mut AppState,
    window_label: &str,
    tab_label: &str,
    name: Option<String>,
    displayed: &str,
) -> (r: Vec<Effect>)
    requires
        old(state).wf(),
    ensures
        final(state).wf(),
        (Outcome { state: final(state)@, steps: steps(r@) }) == renamed(
            old(state)@,
            window_label@,
            tab_label@,
            opt_text(name),
            displayed@,
        ),
        old(state)@.numbered() ==> final(state)@.numbered(),
{
    let mut r: Vec<Effect> = Vec::new();
    assert(steps(r@) =~= Seq::empty());
    let ghost s = state@;
    let ghost given = opt_text(name);
    let name: Option<String> = clean_name(name);
    let i: usize = match state.window(window_label) {
        Some(w) => match w.position(tab_label) {
            Some(i) => i,
            None => {
                return r;
            },
        },
        None => {
            return r;
        },
    };
    let ghost t = s.strip[window_label@].tabs[i as int];
    let ghost t2 = with_name(t, given_name(given), displayed@);
    if let Some(mut win) = state.take_window(window_label) {
        let mut tab = win.tabs.remove(i);
        assert(tab@ == t);
        tab.title = match &name {
            Some(n) => n.clone(),
            None => displayed.to_owned(),
        };
        tab.custom_title = name;
        assert(tab@ =~= t2);
        win.tabs.insert(i, tab);
        assert(win@.tabs =~= s.strip[window_label@].tabs.update(i as int, t2));
        state.put_window(window_label, win);
    }
    assert(state@ =~= edited(s, window_label@, i as int, t2));
    proof {
        lemma_edited_numbered(s, window_label@, i as int, t2);
    }
    r.push(Effect::EmitTabs(window_label.to_owned()));
    r.push(Effect::RefreshTitle(window_label.to_owned(), tabs::window_raw_title(state, window_label)));
    r.push(Effect::Persist);
    assert(steps(r@) =~= renamed(s, window_label@, tab_label@, given, displayed@).steps);
    r
}

} // verus!
