//! Where the tab bar and the tabs stand inside their window.
use vstd::prelude::*;

use crate::effect::{steps, Effect, EffectView};
use crate::label;
use crate::label::strip_label;
use crate::state::{labels, made_label, AppState, AppView, WindowView};
use crate::tabs::{lemma_with_window_numbered, unchanged, Outcome};

verus! {

/// The height of the tab bar in logical pixels.
pub const STRIP_HEIGHT: u32 = 38;

/// Whether the tab bar of the window is hidden; that of an unknown window is not.
pub open spec fn hidden_in(s: AppView, window: Seq<char>) -> bool {
    s.strip.contains_key(window) && s.strip[window].strip_hidden
}

/// Where the tabs of the window begin: below the tab bar, or at the top where the bar is
/// hidden.
pub open spec fn top_of(s: AppView, window: Seq<char>) -> u32 {
    if hidden_in(s, window) {
        0
    } else {
        STRIP_HEIGHT
    }
}

/// Whether the tab bar of a window is hidden.
pub fn strip_hidden(state: &AppState, window_label: &str) -> (r: bool)
    requires
        state.wf(),
    ensures
        r == hidden_in(state@, window_label@),
{
    match state.window(window_label) {
        Some(w) => w.strip_hidden,
        None => false,
    }
}

/// How many logical pixels below the top of its window a tab begins.
pub fn content_top(state: &AppState, window_label: &str) -> (r: u32)
    requires
        state.wf(),
    ensures
        r == top_of(state@, window_label@),
{
    if strip_hidden(state, window_label) {
        0
    } else {
        STRIP_HEIGHT
    }
}

/// The tab bar and the active tab take their places: the bar across the top, or out of
/// sight where it is hidden, and the tab below it.
pub open spec fn layout_steps(s: AppView, window: Seq<char>) -> Seq<EffectView> {
    seq![
        if hidden_in(s, window) {
            EffectView::HideStrip(strip_label(window))
        } else {
            EffectView::ShowStrip(strip_label(window))
        },
    ] + (match s.active_tab(window) {
        Some(tab) => seq![EffectView::FitTab(tab, top_of(s, window))],
        None => Seq::empty(),
    })
}

/// Fits the tab bar and the active tab into their window. Nothing is moved on Linux, nor
/// where the window could not be measured.
pub fn layout(state: &AppState, window_label: &str, linux: bool, measured: bool) -> (r: Vec<Effect>)
    requires
        state.wf(),
    ensures
        steps(r@) == if linux || !measured {
            Seq::empty()
        } else {
            layout_steps(state@, window_label@)
        },
{
    let mut r: Vec<Effect> = Vec::new();
    if linux || !measured {
        assert(steps(r@) =~= Seq::empty());
        return r;
    }
    let strip: String = label::make_strip_label(window_label);
    if strip_hidden(state, window_label) {
        r.push(Effect::HideStrip(strip));
    } else {
        r.push(Effect::ShowStrip(strip));
    }
    if let Some(w) = state.window(window_label) {
        if let Some(tab) = w.active_label() {
            r.push(Effect::FitTab(tab, content_top(state, window_label)));
        }
    }
    assert(steps(r@) =~= layout_steps(state@, window_label@));
    r
}

/// The window with its tab bar hidden or shown.
pub open spec fn flipped(w: WindowView) -> WindowView {
    WindowView { strip_hidden: !w.strip_hidden, ..w }
}

/// What is said about the shortcut that brings the tab bar back: a notification each time
/// the bar is hidden, until the user has brought it back once.
pub open spec fn hint_steps(now_hidden: bool, hint_shown: bool) -> Seq<EffectView> {
    if hint_shown {
        Seq::empty()
    } else if now_hidden {
        seq![
            EffectView::Notify("Tab bar hidden"@, "Press Ctrl+Shift+B to show it again."@),
        ]
    } else {
        seq![EffectView::RetireHint]
    }
}

/// The tab bar of the window disappears or comes back, the window is laid out anew, and
/// the user gets a hint. Nothing happens on Linux or where the window is unknown.
pub open spec fn toggled(
    s: AppView,
    window: Seq<char>,
    linux: bool,
    measured: bool,
    hint_shown: bool,
) -> Outcome {
    if linux || !s.strip.contains_key(window) {
        unchanged(s)
    } else {
        let w2 = flipped(s.strip[window]);
        let s2 = s.with_window(window, w2);
        Outcome {
            state: s2,
            steps: (if measured {
                layout_steps(s2, window)
            } else {
                Seq::empty()
            }) + hint_steps(w2.strip_hidden, hint_shown),
        }
    }
}

/// Hides or shows the tab bar of a window. `measured` tells whether the window exists and
/// its size is known, `hint_shown` whether the user has brought a tab bar back before.
pub fn toggle_strip(
    state: &mut AppState,
    window_label: &str,
    linux: bool,
    measured: bool,
    hint_shown: bool,
) -> (r: Vec<Effect>)
    requires
        old(state).wf(),
    ensures
        final(state).wf(),
        (Outcome { state: final(state)@, steps: steps(r@) }) == toggled(
            old(state)@,
            window_label@,
            linux,
            measured,
            hint_shown,
        ),
        old(state)@.numbered() ==> final(state)@.numbered(),
{
    let ghost s = state@;
    let none: Vec<Effect> = Vec::new();
    assert(steps(none@) =~= Seq::empty());
    if linux {
        return none;
    }
    let mut now_hidden: bool = false;
    match state.take_window(window_label) {
        Some(mut w) => {
            let ghost wv = w@;
            w.strip_hidden = !w.strip_hidden;
            now_hidden = w.strip_hidden;
            assert(w@ =~= flipped(wv));
            state.put_window(window_label, w);
        },
        None => {
            assert(state@ =~= s);
            return none;
        },
    }
    let ghost w2 = flipped(s.strip[window_label@]);
    assert(state@ =~= s.with_window(window_label@, w2));
    proof {
        if s.strip[window_label@].numbered(window_label@) {
            assert(labels(w2.tabs) == labels(s.strip[window_label@].tabs));
            assert forall|i: int| 0 <= i < w2.tabs.len() implies made_label(
                window_label@,
                w2.tab_seq,
                #[trigger] w2.tabs[i].label,
            ) by {
                assert(w2.tabs[i] == s.strip[window_label@].tabs[i]);
            }
            assert(w2.numbered(window_label@));
        }
        lemma_with_window_numbered(s, window_label@, w2);
    }
    let mut r: Vec<Effect> = layout(state, window_label, linux, measured);
    if !hint_shown {
        if now_hidden {
            r.push(
                Effect::Notify(
                    "Tab bar hidden".to_owned(),
                    "Press Ctrl+Shift+B to show it again.".to_owned(),
                ),
            );
        } else {
            r.push(Effect::RetireHint);
        }
    }
    assert(steps(r@) =~= toggled(s, window_label@, linux, measured, hint_shown).steps);
    r
}

} // verus!
