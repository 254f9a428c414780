//! Labels of windows, tabs and tab-bar webviews.
//!
//! A strip window is `main-{n}`, its tab bar is `strip-{n}` and its tabs are
//! `tab-{n}-{m}`, where `n` counts windows and `m` counts the tabs of one window.
use vstd::prelude::*;

use crate::text;
use crate::text::{
    after_last, before_first, decimal, is_digit, law_number_of_decimal, lemma_decimal_digits,
    lemma_decimal_value, number,
};

verus! {

/// `main-{n}`
pub open spec fn main_label(n: nat) -> Seq<char> {
    "main-"@ + decimal(n)
}

/// What stands behind `main-` in a window label; `0` for any other label.
pub open spec fn window_number(window: Seq<char>) -> Seq<char> {
    if "main-"@.is_prefix_of(window) {
        window.skip(5)
    } else {
        "0"@
    }
}

/// `tab-{n}-{m}` for tab `m` of the window `main-{n}`.
pub open spec fn tab_label(window: Seq<char>, m: nat) -> Seq<char> {
    ("tab-"@ + window_number(window)).push('-') + decimal(m)
}

/// `strip-{n}` for the window `main-{n}`.
pub open spec fn strip_label(window: Seq<char>) -> Seq<char> {
    "strip-"@ + window_number(window)
}

/// The window that a tab label belongs to; none where the label is no tab's.
pub open spec fn owner_window(tab: Seq<char>) -> Option<Seq<char>> {
    if "tab-"@.is_prefix_of(tab) {
        Some("main-"@ + before_first(tab.skip(4), '-'))
    } else {
        None
    }
}

/// The tab count that stands behind the last hyphen of a partition id.
pub open spec fn suffix(id: Seq<char>) -> Option<u64> {
    number(after_last(id, '-'))
}

/// The window label of a tab label: `main-{n}` for `tab-{n}-{m}`.
pub fn window_of_tab(tab_label: &str) -> (r: Option<String>)
    ensures
        match r {
            Some(w) => owner_window(tab_label@) == Some(w@),
            None => owner_window(tab_label@) is None,
        },
{
    if !text::starts_with(tab_label, "tab-") {
        return None;
    }
    proof {
        reveal_strlit("tab-");
    }
    let v = text::to_chars(tab_label);
    let rest = text::string_of(&v, 4, v.len());
    assert(rest@ =~= tab_label@.skip(4));
    let n = text::text_before_first(rest.as_str(), '-');
    Some(text::concat("main-", n.as_str()))
}

/// What stands behind `main-` in a window label; `0` for any other label.
pub fn window_seq(window_label: &str) -> (r: String)
    ensures
        r@ == window_number(window_label@),
{
    if text::starts_with(window_label, "main-") {
        proof {
            reveal_strlit("main-");
        }
        let v = text::to_chars(window_label);
        assert(v@.subrange(5, v@.len() as int) =~= window_label@.skip(5));
        text::string_of(&v, 5, v.len())
    } else {
        "0".to_owned()
    }
}

/// The tab count at the end of a partition id or tab label: 3 for `tab-1-3`.
pub fn partition_suffix(id: &str) -> (r: Option<u64>)
    ensures
        r == suffix(id@),
{
    text::parse_number(text::text_after_last(id, '-').as_str())
}

/// The label of window `n`.
pub fn make_main_label(n: u64) -> (r: String)
    ensures
        r@ == main_label(n as nat),
{
    text::concat("main-", text::to_decimal(n).as_str())
}

/// The label of tab `m` of a window.
pub fn make_tab_label(window_label: &str, m: u64) -> (r: String)
    ensures
        r@ == tab_label(window_label@, m as nat),
{
    let mut r = text::concat("tab-", window_seq(window_label).as_str());
    r.push('-');
    text::concat(r.as_str(), text::to_decimal(m).as_str())
}

/// The label of a window's tab bar.
pub fn make_strip_label(window_label: &str) -> (r: String)
    ensures
        r@ == strip_label(window_label@),
{
    text::concat("strip-", window_seq(window_label).as_str())
}

// ---------------------------------------------------------------------------
// Laws
// ---------------------------------------------------------------------------

/// A tab label ends with its tab count, whatever the window is called.
pub proof fn law_suffix_of_tab_label(window: Seq<char>, m: u64)
    ensures
        suffix(tab_label(window, m as nat)) == Some(m),
{
    let head = "tab-"@ + window_number(window);
    let d = decimal(m as nat);
    let l = tab_label(window, m as nat);
    lemma_decimal_digits(m as nat);
    l.index_of_last_ensures('-');
    assert(l[head.len() as int] == '-');
    assert(l.contains('-'));
    let i = l.index_of_last('-')->0;
    if i > head.len() {
        assert(l[i] == d[i - head.len() - 1]);
        assert(is_digit(d[i - head.len() - 1]));
    }
    assert(l.skip(i + 1) =~= d);
    law_number_of_decimal(m);
}

/// Whether a label is `main-` and something without a hyphen.
pub open spec fn plain_window(window: Seq<char>) -> bool {
    "main-"@.is_prefix_of(window) && !window_number(window).contains('-')
}

/// The label of a counted window is a plain one.
pub proof fn lemma_main_label_plain(n: nat)
    ensures
        plain_window(main_label(n)),
        window_number(main_label(n)) == decimal(n),
{
    reveal_strlit("main-");
    let w = main_label(n);
    let d = decimal(n);
    lemma_decimal_digits(n);
    assert("main-"@ =~= w.subrange(0, 5));
    assert(window_number(w) =~= d);
    if d.contains('-') {
        let i = choose|i: int| 0 <= i < d.len() && d[i] == '-';
        assert(is_digit(d[i]));
    }
}

/// The owner of a window's tab is that window, whatever stands behind `main-` in its label,
/// as long as it holds no hyphen.
pub proof fn law_owner_of_tab_label(window: Seq<char>, m: nat)
    requires
        plain_window(window),
    ensures
        owner_window(tab_label(window, m)) == Some(window),
{
    reveal_strlit("tab-");
    reveal_strlit("main-");
    let d = window_number(window);
    let l = tab_label(window, m);
    assert("tab-"@ =~= l.subrange(0, 4));
    let rest = l.skip(4);
    assert(rest =~= d.push('-') + decimal(m));
    rest.index_of_first_ensures('-');
    assert(rest[d.len() as int] == '-');
    assert(rest.contains('-'));
    let i = rest.index_of_first('-')->0;
    if i < d.len() {
        assert(rest[i] == d[i]);
        assert(d.contains('-'));
    }
    assert(rest.take(i) =~= d);
    assert(window.subrange(0, 5) == "main-"@);
    assert("main-"@ + d =~= window);
}

/// A window gives its tabs labels that differ.
pub proof fn law_counts_make_labels_distinct(window: Seq<char>, a: nat, b: nat)
    ensures
        tab_label(window, a) == tab_label(window, b) ==> a == b,
{
    let head = ("tab-"@ + window_number(window)).push('-');
    if tab_label(window, a) == tab_label(window, b) {
        assert(tab_label(window, a).skip(head.len() as int) =~= decimal(a));
        assert(tab_label(window, b).skip(head.len() as int) =~= decimal(b));
        lemma_decimal_value(a);
        lemma_decimal_value(b);
    }
}

/// Two windows of different counts have different labels.
pub proof fn law_main_labels_distinct(a: u64, b: u64)
    ensures
        main_label(a as nat) == main_label(b as nat) ==> a == b,
{
    if main_label(a as nat) == main_label(b as nat) {
        reveal_strlit("main-");
        assert(main_label(a as nat).skip(5) =~= decimal(a as nat));
        assert(main_label(b as nat).skip(5) =~= decimal(b as nat));
        law_number_of_decimal(a);
        law_number_of_decimal(b);
    }
}

/// No two tabs share a label, whether they stand in one window or in two.
pub proof fn law_tab_labels_distinct(n1: u64, m1: u64, n2: u64, m2: u64)
    ensures
        tab_label(main_label(n1 as nat), m1 as nat) == tab_label(main_label(n2 as nat), m2 as nat)
            ==> n1 == n2 && m1 == m2,
{
    law_suffix_of_tab_label(main_label(n1 as nat), m1);
    law_suffix_of_tab_label(main_label(n2 as nat), m2);
    lemma_main_label_plain(n1 as nat);
    lemma_main_label_plain(n2 as nat);
    law_owner_of_tab_label(main_label(n1 as nat), m1 as nat);
    law_owner_of_tab_label(main_label(n2 as nat), m2 as nat);
    law_main_labels_distinct(n1, n2);
}

} // verus!
