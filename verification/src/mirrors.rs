//! The models show the values that they stand for: every field, and every item of a list.
use vstd::prelude::*;

use crate::address::{opt_address, Address};
use crate::effect::{steps, Effect, EffectView};
use crate::newtab::{cookie_views, opt_pair, Cookie, TabPlan, TabSpec};
use crate::profiles::opt_cookies;
use crate::session::{
    open_views, report_views, saved_tabs, saved_windows, spec_views, OpenWindow, SessionTab,
    SessionWindow, TabReport,
};
use crate::state::{labels, tab_views, TabEntry, TabView, WindowTabs};
use crate::text::{opt_str, opt_text, texts};

verus! {

/// An optional text is that of the string, and absent where the string is.
pub proof fn law_optional_texts_are_kept(s: Option<String>, t: Option<&str>)
    ensures
        s is Some <==> opt_text(s) is Some,
        s is Some ==> opt_text(s)->0 == s->0@,
        t is Some <==> opt_str(t) is Some,
        t is Some ==> opt_str(t)->0 == t->0@,
{
}

/// A pair of labels, an address and a read of cookies are kept whole, and absent where they
/// are.
pub proof fn law_optional_values_are_kept(
    pair: Option<(String, String)>,
    a: Option<Address>,
    read: Option<Vec<Cookie>>,
)
    ensures
        pair is Some <==> opt_pair(pair) is Some,
        pair matches Some((window, tab)) ==> opt_pair(pair) == Some((window@, tab@)),
        a is Some <==> opt_address(a) is Some,
        a is Some ==> opt_address(a)->0 == a->0@,
        read is Some <==> opt_cookies(read) is Some,
        read is Some ==> opt_cookies(read)->0 == cookie_views(read->0@),
{
}

/// A list of texts, tabs, labels or cookies shows each of its items at its place.
pub proof fn law_lists_are_kept(
    ss: Seq<String>,
    ts: Seq<TabEntry>,
    vs: Seq<TabView>,
    cs: Seq<Cookie>,
    i: int,
)
    ensures
        texts(ss).len() == ss.len(),
        0 <= i < ss.len() ==> texts(ss)[i] == ss[i]@,
        tab_views(ts).len() == ts.len(),
        0 <= i < ts.len() ==> tab_views(ts)[i] == ts[i]@,
        labels(vs).len() == vs.len(),
        0 <= i < vs.len() ==> labels(vs)[i] == vs[i].label,
        cookie_views(cs).len() == cs.len(),
        0 <= i < cs.len() ==> cookie_views(cs)[i] == cs[i]@,
{
}

/// A list of what is saved, reported, open or planned shows each of its items at its place.
pub proof fn law_saved_lists_are_kept(
    ts: Seq<SessionTab>,
    ws: Seq<SessionWindow>,
    rs: Seq<TabReport>,
    os: Seq<OpenWindow>,
    ps: Seq<TabSpec>,
    i: int,
)
    ensures
        saved_tabs(ts).len() == ts.len(),
        0 <= i < ts.len() ==> saved_tabs(ts)[i] == ts[i]@,
        saved_windows(ws).len() == ws.len(),
        0 <= i < ws.len() ==> saved_windows(ws)[i] == ws[i]@,
        report_views(rs).len() == rs.len(),
        0 <= i < rs.len() ==> report_views(rs)[i] == rs[i]@,
        open_views(os).len() == os.len(),
        0 <= i < os.len() ==> open_views(os)[i] == os[i]@,
        spec_views(ps).len() == ps.len(),
        0 <= i < ps.len() ==> spec_views(ps)[i] == ps[i]@,
{
}

/// A tab and a window show what they hold.
pub proof fn law_tabs_and_windows_are_shown(t: TabEntry, w: WindowTabs)
    ensures
        t@.label == t.label@ && t@.title == t.title@ && t@.partition == t.partition@,
        t@.attention == t.attention && t@.busy == t.busy,
        t@.profile == opt_text(t.profile) && t@.dot_profile == opt_text(t.dot_profile),
        t@.custom_title == opt_text(t.custom_title),
        w@.tabs == tab_views(w.tabs@) && w@.active == w.active,
        w@.tab_seq == w.tab_seq && w@.strip_hidden == w.strip_hidden,
{
}

/// A cookie, an address, what a tab is to be and how it is made show what they hold.
pub proof fn law_plans_are_shown(c: Cookie, a: Address, t: TabSpec, p: TabPlan)
    ensures
        c@.name == c.name@ && c@.value == c.value@ && c@.domain == opt_text(c.domain),
        a@.href == a.href@ && a@.host == opt_text(a.host) && a@.path == a.path@,
        t@.target == t.target@ && t@.seed == cookie_views(t.seed@),
        t@.partition_override == opt_text(t.partition_override),
        t@.profile_hint == opt_text(t.profile_hint),
        t@.custom_title == opt_text(t.custom_title),
        t@.restore_retry == opt_text(t.restore_retry),
        p@.label == p.label@ && p@.partition == p.partition@ && p@.jar == p.jar,
        p@.profile == opt_text(p.profile) && p@.seeded == p.seeded,
        p@.first_url == p.first_url@ && p@.allowed_host == opt_text(p.allowed_host),
        p@.custom_title == opt_text(p.custom_title),
        p@.restore_retry == opt_text(p.restore_retry),
{
}

/// What is saved and what is known of open windows show what they hold.
pub proof fn law_saved_values_are_shown(
    t: SessionTab,
    w: SessionWindow,
    r: TabReport,
    o: OpenWindow,
)
    ensures
        t@.url == t.url@ && t@.profile == opt_text(t.profile),
        t@.partition == opt_text(t.partition) && t@.custom_title == opt_text(t.custom_title),
        w@.frame == w.frame && w@.active == w.active && w@.tabs == saved_tabs(w.tabs@),
        r@.label == r.label@ && r@.reported == opt_text(r.reported),
        r@.navigated == r.navigated && r@.live == opt_text(r.live),
        o@.label == o.label@ && o@.frame == o.frame && o@.reports == report_views(o.reports@),
{
}

/// A list of steps shows each step at its place, with what it is about.
pub proof fn law_steps_are_shown(es: Seq<Effect>, i: int)
    requires
        0 <= i < es.len(),
    ensures
        steps(es).len() == es.len(),
        match es[i] {
            Effect::HideTab(t) => steps(es)[i] == EffectView::HideTab(t@),
            Effect::ShowTab(t) => steps(es)[i] == EffectView::ShowTab(t@),
            Effect::FocusTab(t) => steps(es)[i] == EffectView::FocusTab(t@),
            Effect::FitTab(t, top) => steps(es)[i] == EffectView::FitTab(t@, top),
            Effect::Background(t, b) => steps(es)[i] == EffectView::Background(t@, b),
            Effect::CloseTab(t) => steps(es)[i] == EffectView::CloseTab(t@),
            Effect::CloseWindow(w) => steps(es)[i] == EffectView::CloseWindow(w@),
            Effect::HideStrip(b) => steps(es)[i] == EffectView::HideStrip(b@),
            Effect::ShowStrip(b) => steps(es)[i] == EffectView::ShowStrip(b@),
            Effect::ForgetNavigated(t) => steps(es)[i] == EffectView::ForgetNavigated(t@),
            Effect::ForgetUrl(t) => steps(es)[i] == EffectView::ForgetUrl(t@),
            Effect::RemovePartition(p) => steps(es)[i] == EffectView::RemovePartition(p@),
            Effect::EmitTabs(w) => steps(es)[i] == EffectView::EmitTabs(w@),
            Effect::RefreshTitle(w, raw) => steps(es)[i] == EffectView::RefreshTitle(w@, raw@),
            Effect::CaptureProfile(w, t) => steps(es)[i] == EffectView::CaptureProfile(w@, t@),
            Effect::Persist => steps(es)[i] is Persist,
            Effect::Notify(a, b) => steps(es)[i] == EffectView::Notify(a@, b@),
            Effect::RetireHint => steps(es)[i] is RetireHint,
            Effect::WatchRestore(t, u) => steps(es)[i] == EffectView::WatchRestore(t@, u@),
        },
{
}

} // verus!
