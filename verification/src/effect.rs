//! What a decision asks the shell to do.
use vstd::prelude::*;


verus! {

/// One step for the shell. Steps on a webview or a window that is gone are skipped.
#[derive(Debug)]
pub enum Effect {
    /// Hide a tab's webview.
    HideTab(String),
    /// Show a tab's webview.
    ShowTab(String),
    /// Give a tab's webview the keyboard focus.
    FocusTab(String),
    /// Let a tab's webview fill its window from this many logical pixels below the top.
    FitTab(String, u32),
    /// Tell a tab's page whether it is in the background.
    Background(String, bool),
    /// Destroy a tab's webview.
    CloseTab(String),
    /// Close a window.
    CloseWindow(String),
    /// Hide a tab bar.
    HideStrip(String),
    /// Show a tab bar across the top of its window.
    ShowStrip(String),
    /// Forget that a tab has navigated.
    ForgetNavigated(String),
    /// Forget the address that a tab reported.
    ForgetUrl(String),
    /// Delete a data partition.
    RemovePartition(String),
    /// Send the tabs of a window to its tab bar.
    EmitTabs(String),
    /// Make a window's title out of a page title.
    RefreshTitle(String, String),
    /// Read the profile of a tab, given its window and its label.
    CaptureProfile(String, String),
    /// Save the session.
    Persist,
    /// Show a notification with a title and a body.
    Notify(String, String),
    /// Remember that the user knows how to bring the tab bar back.
    RetireHint,
    /// Look after a restored tab: load this address again should it have bounced.
    WatchRestore(String, String),
}

/// What a step is.
pub enum EffectView {
    HideTab(Seq<char>),
    ShowTab(Seq<char>),
    FocusTab(Seq<char>),
    FitTab(Seq<char>, u32),
    Background(Seq<char>, bool),
    CloseTab(Seq<char>),
    CloseWindow(Seq<char>),
    HideStrip(Seq<char>),
    ShowStrip(Seq<char>),
    ForgetNavigated(Seq<char>),
    ForgetUrl(Seq<char>),
    RemovePartition(Seq<char>),
    EmitTabs(Seq<char>),
    RefreshTitle(Seq<char>, Seq<char>),
    CaptureProfile(Seq<char>, Seq<char>),
    Persist,
    Notify(Seq<char>, Seq<char>),
    RetireHint,
    WatchRestore(Seq<char>, Seq<char>),
}

impl View for Effect {
    type V = EffectView;

    open spec fn view(&self) -> EffectView {
        match *self {
            Effect::HideTab(t) => EffectView::HideTab(t@),
            Effect::ShowTab(t) => EffectView::ShowTab(t@),
            Effect::FocusTab(t) => EffectView::FocusTab(t@),
            Effect::FitTab(t, top) => EffectView::FitTab(t@, top),
            Effect::Background(t, b) => EffectView::Background(t@, b),
            Effect::CloseTab(t) => EffectView::CloseTab(t@),
            Effect::CloseWindow(w) => EffectView::CloseWindow(w@),
            Effect::HideStrip(s) => EffectView::HideStrip(s@),
            Effect::ShowStrip(s) => EffectView::ShowStrip(s@),
            Effect::ForgetNavigated(t) => EffectView::ForgetNavigated(t@),
            Effect::ForgetUrl(t) => EffectView::ForgetUrl(t@),
            Effect::RemovePartition(p) => EffectView::RemovePartition(p@),
            Effect::EmitTabs(w) => EffectView::EmitTabs(w@),
            Effect::RefreshTitle(w, raw) => EffectView::RefreshTitle(w@, raw@),
            Effect::CaptureProfile(w, t) => EffectView::CaptureProfile(w@, t@),
            Effect::Persist => EffectView::Persist,
            Effect::Notify(a, b) => EffectView::Notify(a@, b@),
            Effect::RetireHint => EffectView::RetireHint,
            Effect::WatchRestore(t, u) => EffectView::WatchRestore(t@, u@),
        }
    }
}

/// What a list of steps is.
pub open spec fn steps(v: Seq<Effect>) -> Seq<EffectView> {
    v.map_values(|e: Effect| e@)
}

} // verus!
