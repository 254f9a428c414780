//! What the text primitives, the labels and the release notes come to.
use vstd::prelude::*;

use crate::changelog::{lines_without, section, section_lines};
use crate::label::{main_label, owner_window, strip_label, suffix, tab_label, window_number};
use crate::platform::{first_backend, named_backend, runs_on_x11};
use crate::text::{
    after_last, all_digits, ascii_lowered, before_first, decimal, digits_value, is_digit, joined,
    lemma_decimal_digits, lemma_decimal_value, lines, number, split, trim_end, trim_start,
    trimmed, white_space, without_cr, without_plus,
};

verus! {

// ---------------------------------------------------------------------------
// White space and letters
// ---------------------------------------------------------------------------

/// White space is the tab, the line endings and the other controls next to them, the space,
/// and the 19 further code points that Unicode gives the property.
pub proof fn law_white_space_has_25_members(c: char)
    ensures
        white_space(c) <==> seq![
            0x09u32, 0x0a, 0x0b, 0x0c, 0x0d, 0x20, 0x85, 0xa0, 0x1680, 0x2000, 0x2001, 0x2002, 0x2003,
            0x2004, 0x2005, 0x2006, 0x2007, 0x2008, 0x2009, 0x200a, 0x2028, 0x2029, 0x202f, 0x205f,
            0x3000,
        ].contains(c as u32),
{
    let all = seq![
        0x09u32, 0x0a, 0x0b, 0x0c, 0x0d, 0x20, 0x85, 0xa0, 0x1680, 0x2000, 0x2001, 0x2002, 0x2003,
        0x2004, 0x2005, 0x2006, 0x2007, 0x2008, 0x2009, 0x200a, 0x2028, 0x2029, 0x202f, 0x205f,
        0x3000,
    ];
    let n = c as u32;
    if 0x09 <= n <= 0x0d {
        assert(all[n - 0x09] == n);
    } else if 0x2000 <= n <= 0x200a {
        assert(all[n - 0x2000 + 9] == n);
    } else if white_space(c) {
        assert(all[5] == 0x20 && all[6] == 0x85 && all[7] == 0xa0 && all[8] == 0x1680);
        assert(all[20] == 0x2028 && all[21] == 0x2029 && all[22] == 0x202f);
        assert(all[23] == 0x205f && all[24] == 0x3000);
    }
}

proof fn lemma_trim_start(s: Seq<char>) -> (lo: int)
    ensures
        0 <= lo <= s.len(),
        trim_start(s) == s.subrange(lo, s.len() as int),
        forall|k: int| 0 <= k < lo ==> white_space(#[trigger] s[k]),
        lo < s.len() ==> !white_space(s[lo]),
    decreases s.len(),
{
    if s.len() > 0 && white_space(s.first()) {
        let rest = s.drop_first();
        let lo = lemma_trim_start(rest);
        assert(rest.subrange(lo, rest.len() as int) =~= s.subrange(lo + 1, s.len() as int));
        assert forall|k: int| 0 <= k < lo + 1 implies white_space(#[trigger] s[k]) by {
            if k > 0 {
                assert(s[k] == rest[k - 1]);
            }
        }
        if lo < rest.len() {
            assert(s[lo + 1] == rest[lo]);
        }
        lo + 1
    } else {
        assert(s.subrange(0, s.len() as int) =~= s);
        0
    }
}

proof fn lemma_trim_end(s: Seq<char>) -> (hi: int)
    ensures
        0 <= hi <= s.len(),
        trim_end(s) == s.subrange(0, hi),
        forall|k: int| hi <= k < s.len() ==> white_space(#[trigger] s[k]),
        hi > 0 ==> !white_space(s[hi - 1]),
    decreases s.len(),
{
    if s.len() > 0 && white_space(s.last()) {
        let rest = s.drop_last();
        let hi = lemma_trim_end(rest);
        assert(rest.subrange(0, hi) =~= s.subrange(0, hi));
        assert forall|k: int| hi <= k < s.len() implies white_space(#[trigger] s[k]) by {
            if k < rest.len() {
                assert(s[k] == rest[k]);
            }
        }
        if hi > 0 {
            assert(s[hi - 1] == rest[hi - 1]);
        }
        hi
    } else {
        assert(s.subrange(0, s.len() as int) =~= s);
        s.len() as int
    }
}

/// Trimming cuts a piece out of a text: what stands before it and after it is white space,
/// and the piece neither begins nor ends with any.
pub proof fn law_trimmed_has_no_blank_ends(s: Seq<char>)
    ensures
        exists|lo: int, hi: int|
            #![trigger s.subrange(lo, hi)]
            {
                &&& 0 <= lo <= hi <= s.len()
                &&& trimmed(s) == s.subrange(lo, hi)
                &&& forall|k: int| 0 <= k < lo ==> white_space(#[trigger] s[k])
                &&& forall|k: int| hi <= k < s.len() ==> white_space(#[trigger] s[k])
                &&& lo < hi ==> !white_space(s[lo]) && !white_space(s[hi - 1])
            },
{
    let lo = lemma_trim_start(s);
    let t = trim_start(s);
    let n = lemma_trim_end(t);
    let hi = lo + n;
    assert(t.subrange(0, n) =~= s.subrange(lo, hi));
    assert forall|k: int| hi <= k < s.len() implies white_space(#[trigger] s[k]) by {
        assert(s[k] == t[k - lo]);
    }
    if n > 0 {
        assert(s[hi - 1] == t[n - 1]);
    }
    assert(trimmed(s) == s.subrange(lo, hi));
}

/// Lower case changes the ASCII capitals, each into the letter 32 places on, and nothing
/// else.
pub proof fn law_lower_case_changes_capitals_only(s: Seq<char>, i: int)
    requires
        0 <= i < s.len(),
    ensures
        ascii_lowered(s).len() == s.len(),
        'A' <= s[i] <= 'Z' ==> ascii_lowered(s)[i] as u32 == s[i] as u32 + 32,
        !('A' <= s[i] <= 'Z') ==> ascii_lowered(s)[i] == s[i],
{
}

// ---------------------------------------------------------------------------
// Pieces
// ---------------------------------------------------------------------------

/// What stands before the first separator holds none, and the separator follows it; a text
/// without one is taken whole.
pub proof fn law_before_first_ends_at_the_separator(s: Seq<char>, sep: char)
    ensures
        ({
            let b = before_first(s, sep);
            &&& !b.contains(sep)
            &&& s.contains(sep) ==> b.len() < s.len() && s[b.len() as int] == sep && b == s.take(
                b.len() as int,
            )
            &&& !s.contains(sep) ==> b == s
        }),
{
    s.index_of_first_ensures(sep);
    let b = before_first(s, sep);
    if b.contains(sep) {
        let k = choose|k: int| 0 <= k < b.len() && b[k] == sep;
        assert(s[k] == sep);
    }
}

/// What stands behind the last separator holds none, and the separator precedes it; a text
/// without one is taken whole.
pub proof fn law_after_last_begins_at_the_separator(s: Seq<char>, sep: char)
    ensures
        ({
            let a = after_last(s, sep);
            let at = s.len() - a.len();
            &&& !a.contains(sep)
            &&& s.contains(sep) ==> at > 0 && s[at - 1] == sep && a == s.skip(at)
            &&& !s.contains(sep) ==> a == s
        }),
{
    s.index_of_last_ensures(sep);
    let a = after_last(s, sep);
    if a.contains(sep) {
        let k = choose|k: int| 0 <= k < a.len() && a[k] == sep;
        assert(s[s.len() - a.len() + k] == sep);
    }
}

/// Joining nothing gives the empty text, joining one part gives it back, and one part more
/// comes behind the others and a separator.
pub proof fn law_joined_puts_one_separator_between(
    parts: Seq<Seq<char>>,
    part: Seq<char>,
    sep: char,
)
    ensures
        joined(Seq::empty(), sep) == Seq::<char>::empty(),
        joined(seq![part], sep) == part,
        parts.len() > 0 ==> joined(parts.push(part), sep) == joined(parts, sep) + seq![sep] + part,
{
    if parts.len() > 0 {
        assert(parts.push(part).drop_last() =~= parts);
        assert(joined(parts, sep).push(sep) + part =~= joined(parts, sep) + seq![sep] + part);
    }
}

/// Splitting takes a text apart at every separator: no part holds one, and the parts with
/// separators between them are the text again.
pub proof fn law_joining_the_parts_gives_the_text_back(s: Seq<char>, sep: char)
    ensures
        split(s, sep).len() > 0,
        joined(split(s, sep), sep) == s,
        forall|i: int| 0 <= i < split(s, sep).len() ==> !(#[trigger] split(s, sep)[i]).contains(sep),
    decreases s.len(),
{
    let parts = split(s, sep);
    if s.len() > 0 {
        let init = split(s.drop_last(), sep);
        law_joining_the_parts_gives_the_text_back(s.drop_last(), sep);
        if s.last() == sep {
            law_joined_puts_one_separator_between(init, Seq::empty(), sep);
            assert(joined(init, sep) + seq![sep] + Seq::<char>::empty() =~= s);
        } else {
            let head = init.drop_last();
            let part = init.last().push(s.last());
            law_joined_puts_one_separator_between(head, part, sep);
            law_joined_puts_one_separator_between(head, init.last(), sep);
            assert(head.push(init.last()) =~= init);
            if head.len() > 0 {
                let before = joined(head, sep) + seq![sep];
                assert(before + init.last() == s.drop_last());
                assert(before + part =~= (before + init.last()).push(s.last()));
                assert(before + part =~= s);
            } else {
                assert(init =~= seq![init.last()]);
                assert(head.push(part) =~= seq![part]);
                assert(part =~= s);
            }
            assert(!init[init.len() - 1].contains(sep));
            if part.contains(sep) {
                let k = choose|k: int| 0 <= k < part.len() && part[k] == sep;
                assert(init.last()[k] == sep);
            }
        }
        assert forall|i: int| 0 <= i < parts.len() implies !(#[trigger] parts[i]).contains(sep) by {
            if i < parts.len() - 1 {
                assert(parts[i] == init[i]);
            }
        }
    }
}

/// A text without a separator is one part, and a separator ends the part before it.
pub proof fn law_split_ends_a_part_at_a_separator(head: Seq<char>, rest: Seq<char>, sep: char)
    requires
        !head.contains(sep),
    ensures
        split(head, sep) == seq![head],
        split(head + seq![sep] + rest, sep) == seq![head] + split(rest, sep),
{
    lemma_split_whole(head, sep);
    lemma_split_first(head, rest, sep);
}

proof fn lemma_split_whole(head: Seq<char>, sep: char)
    requires
        !head.contains(sep),
    ensures
        split(head, sep) == seq![head],
    decreases head.len(),
{
    if head.len() > 0 {
        let init = head.drop_last();
        if init.contains(sep) {
            let k = choose|k: int| 0 <= k < init.len() && init[k] == sep;
            assert(head[k] == sep);
        }
        lemma_split_whole(init, sep);
        assert(head[head.len() - 1] != sep);
        assert(init.push(head.last()) =~= head);
        assert(split(head, sep) =~= seq![head]);
    } else {
        assert(head =~= Seq::<char>::empty());
    }
}

proof fn lemma_split_first(head: Seq<char>, rest: Seq<char>, sep: char)
    requires
        !head.contains(sep),
    ensures
        split(head + seq![sep] + rest, sep) == seq![head] + split(rest, sep),
        split(rest, sep).len() > 0,
    decreases rest.len(),
{
    let s = head + seq![sep] + rest;
    if rest.len() == 0 {
        assert(s.drop_last() =~= head);
        assert(s.last() == sep);
        lemma_split_whole(head, sep);
        assert(split(s, sep) =~= seq![head] + split(rest, sep));
    } else {
        let init = rest.drop_last();
        lemma_split_first(head, init, sep);
        assert(s.drop_last() =~= head + seq![sep] + init);
        assert(s.last() == rest.last());
        let a = seq![head] + split(init, sep);
        assert(a.last() == split(init, sep).last());
        assert(a.drop_last() =~= seq![head] + split(init, sep).drop_last());
        assert(split(s, sep) =~= seq![head] + split(rest, sep));
    }
}

/// A text has no lines where it is empty, and one where it has no line ending. A line ending
/// ends the line before it, which loses one carriage return at its end, and the lines of the
/// rest follow.
pub proof fn law_lines_end_at_line_endings(head: Seq<char>, rest: Seq<char>)
    requires
        !head.contains('\n'),
    ensures
        lines(Seq::empty()).len() == 0,
        head.len() > 0 ==> lines(head) == seq![head],
        head.len() > 0 && head.last() == '\r' ==> lines(head + seq!['\n'] + rest) == seq![
            head.drop_last(),
        ] + lines(rest),
        head.len() == 0 || head.last() != '\r' ==> lines(head + seq!['\n'] + rest) == seq![head]
            + lines(rest),
{
    let s = head + seq!['\n'] + rest;
    lemma_split_whole(Seq::empty(), '\n');
    lemma_split_whole(head, '\n');
    lemma_split_first(head, rest, '\n');
    let parts = split(rest, '\n');
    assert(split(s, '\n').last() == parts.last());
    assert(split(s, '\n').drop_last() =~= seq![head] + parts.drop_last());
    assert(split(s, '\n').drop_last().map_values(|p| without_cr(p)) =~= seq![without_cr(head)]
        + parts.drop_last().map_values(|p| without_cr(p)));
    assert(lines(s) =~= seq![without_cr(head)] + lines(rest));
}

// ---------------------------------------------------------------------------
// Numbers
// ---------------------------------------------------------------------------

/// A number is written in digits, without a zero in front unless it is zero, and each digit
/// counts ten times as much as the one after it.
pub proof fn law_decimal_is_positional(n: nat, s: Seq<char>, d: nat)
    requires
        d < 10,
    ensures
        decimal(n).len() > 0,
        forall|i: int| 0 <= i < decimal(n).len() ==> '0' <= #[trigger] decimal(n)[i] <= '9',
        n > 0 ==> decimal(n)[0] != '0',
        digits_value(decimal(n)) == n,
        digits_value(Seq::empty()) == 0,
        digits_value(s.push((d + 48) as char)) == 10 * digits_value(s) + d,
{
    lemma_decimal_digits(n);
    lemma_decimal_value(n);
    if n > 0 {
        lemma_decimal_first(n);
    }
    assert(s.push((d + 48) as char).drop_last() =~= s);
    assert forall|i: int| 0 <= i < decimal(n).len() implies '0' <= #[trigger] decimal(n)[i]
        <= '9' by {
        assert(is_digit(decimal(n)[i]));
    }
}

proof fn lemma_decimal_first(n: nat)
    requires
        n > 0,
    ensures
        decimal(n).len() > 0,
        decimal(n)[0] != '0',
    decreases n,
{
    if n >= 10 {
        lemma_decimal_first(n / 10);
        assert(decimal(n)[0] == decimal(n / 10)[0]);
    }
}

/// Digits are read as the number that they write, with or without a plus sign in front, as
/// long as it fits in 64 bits. Nothing else is read: not the empty text, and none with a
/// character that is no digit.
pub proof fn law_number_reads_digits(d: Seq<char>)
    ensures
        d.len() > 0 && (forall|i: int| 0 <= i < d.len() ==> '0' <= #[trigger] d[i] <= '9') ==> {
            &&& digits_value(d) <= u64::MAX ==> number(d) == Some(digits_value(d) as u64)
            &&& digits_value(d) > u64::MAX ==> number(d) is None
            &&& number(seq!['+'] + d) == number(d)
        },
        (exists|i: int| 0 <= i < d.len() && !('0' <= #[trigger] d[i] <= '9')) ==> {
            &&& d[0] != '+' ==> number(d) is None
            &&& number(seq!['+'] + d) is None
        },
        d.len() == 0 ==> number(d) is None && number(seq!['+'] + d) is None,
{
    let p = seq!['+'] + d;
    assert(p.drop_first() =~= d);
    assert(without_plus(p) == d);
    if d.len() > 0 && (forall|i: int| 0 <= i < d.len() ==> '0' <= #[trigger] d[i] <= '9') {
        assert('0' <= d[0]);
        assert(all_digits(d));
    }
    if exists|i: int| 0 <= i < d.len() && !('0' <= #[trigger] d[i] <= '9') {
        let i = choose|i: int| 0 <= i < d.len() && !('0' <= #[trigger] d[i] <= '9');
        assert(!is_digit(d[i]));
        assert(!all_digits(d));
    }
}

// ---------------------------------------------------------------------------
// Labels
// ---------------------------------------------------------------------------

/// The parts of window `n` are named after it, whatever `n` is: its tab bar, and its tabs by
/// their count. A window of another kind lends the name `0`.
pub proof fn law_labels_are_named_after_the_window(n: Seq<char>, other: Seq<char>, m: nat)
    requires
        !"main-"@.is_prefix_of(other),
    ensures
        window_number("main-"@ + n) == n,
        strip_label("main-"@ + n) == "strip-"@ + n,
        tab_label("main-"@ + n, m) == "tab-"@ + n + "-"@ + decimal(m),
        main_label(m) == "main-"@ + decimal(m),
        window_number(other) == "0"@,
        strip_label(other) == "strip-"@ + "0"@,
        tab_label(other, m) == "tab-"@ + "0"@ + "-"@ + decimal(m),
{
    reveal_strlit("main-");
    reveal_strlit("-");
    let w = "main-"@ + n;
    assert("main-"@ =~= w.subrange(0, 5));
    assert(window_number(w) =~= n);
    assert(("tab-"@ + n).push('-') =~= "tab-"@ + n + "-"@);
    assert(("tab-"@ + "0"@).push('-') =~= "tab-"@ + "0"@ + "-"@);
}

/// A tab label names the window whose number stands between its first two hyphens, whatever
/// follows; a label that does not begin like one names none.
pub proof fn law_tab_labels_name_their_window(n: Seq<char>, rest: Seq<char>, other: Seq<char>)
    requires
        !n.contains('-'),
        !"tab-"@.is_prefix_of(other),
    ensures
        owner_window("tab-"@ + n) == Some("main-"@ + n),
        owner_window("tab-"@ + n + seq!['-'] + rest) == Some("main-"@ + n),
        owner_window(other) is None,
{
    reveal_strlit("tab-");
    let a = "tab-"@ + n;
    let b = "tab-"@ + n + seq!['-'] + rest;
    assert("tab-"@ =~= a.subrange(0, 4));
    assert("tab-"@ =~= b.subrange(0, 4));
    assert(a.skip(4) =~= n);
    let c = n + seq!['-'] + rest;
    assert(b.skip(4) =~= c);
    law_before_first_ends_at_the_separator(n, '-');
    law_before_first_ends_at_the_separator(c, '-');
    assert(c[n.len() as int] == '-');
    assert(c.contains('-'));
    let d = before_first(c, '-');
    if d.len() < n.len() {
        assert(n[d.len() as int] == '-');
    }
    if d.len() > n.len() {
        assert(d[n.len() as int] == '-');
    }
    assert(d =~= n);
}

/// The count at the end of a partition's name is the number behind its last hyphen, or the
/// whole name where it has none.
pub proof fn law_suffix_is_behind_the_last_hyphen(head: Seq<char>, d: Seq<char>)
    requires
        !d.contains('-'),
    ensures
        suffix(d) == number(d),
        suffix(head + seq!['-'] + d) == number(d),
{
    let s = head + seq!['-'] + d;
    law_after_last_begins_at_the_separator(d, '-');
    law_after_last_begins_at_the_separator(s, '-');
    assert(s[head.len() as int] == '-');
    assert(s.contains('-'));
    let a = after_last(s, '-');
    let at = s.len() - a.len();
    if at - 1 > head.len() {
        assert(d[at - 2 - head.len()] == '-');
    }
    if at - 1 < head.len() {
        assert(a[head.len() - at] == '-');
    }
    assert(a =~= d);
}

// ---------------------------------------------------------------------------
// Release notes
// ---------------------------------------------------------------------------

proof fn lemma_lines_before(ls: Seq<Seq<char>>, prefix: Seq<char>, n: int)
    requires
        0 <= n <= ls.len(),
        forall|i: int| 0 <= i < n ==> !prefix.is_prefix_of(#[trigger] ls[i]),
        n < ls.len() ==> prefix.is_prefix_of(ls[n]),
    ensures
        lines_without(ls, prefix) == n,
    decreases ls.len(),
{
    if n > 0 {
        let rest = ls.drop_first();
        assert(!prefix.is_prefix_of(ls[0]));
        assert forall|i: int| 0 <= i < n - 1 implies !prefix.is_prefix_of(#[trigger] rest[i]) by {
            assert(rest[i] == ls[i + 1]);
        }
        lemma_lines_before(rest, prefix, n - 1);
    }
}

/// The notes of a version are all lines between the first heading that names it and the next
/// heading of any version, or the end of the text.
pub proof fn law_notes_stand_between_two_headings(
    md: Seq<char>,
    version: Seq<char>,
    start: int,
    end: int,
)
    requires
        0 <= start < end <= lines(md).len(),
        ("## [v"@ + version + "]"@).is_prefix_of(lines(md)[start]),
        forall|i: int|
            0 <= i < start ==> !("## [v"@ + version + "]"@).is_prefix_of(#[trigger] lines(md)[i]),
        forall|i: int| start < i < end ==> !"## "@.is_prefix_of(#[trigger] lines(md)[i]),
        end < lines(md).len() ==> "## "@.is_prefix_of(lines(md)[end]),
    ensures
        section_lines(md, version) == Some(lines(md).subrange(start + 1, end)),
{
    let ls = lines(md);
    lemma_lines_before(ls, "## [v"@ + version + "]"@, start);
    let below = ls.skip(start + 1);
    assert forall|i: int| 0 <= i < end - start - 1 implies !"## "@.is_prefix_of(
        #[trigger] below[i],
    ) by {
        assert(below[i] == ls[start + 1 + i]);
    }
    if end < ls.len() {
        assert(below[end - start - 1] == ls[end]);
    }
    lemma_lines_before(below, "## "@, end - start - 1);
    assert(below.take(end - start - 1) =~= ls.subrange(start + 1, end));
}

/// Where no heading names the version there are no notes. Where one does, the notes are the
/// lines under it, put together and without blanks around them, unless nothing is left.
pub proof fn law_notes_are_the_lines_without_blanks(md: Seq<char>, version: Seq<char>)
    ensures
        (forall|i: int|
            0 <= i < lines(md).len() ==> !("## [v"@ + version + "]"@).is_prefix_of(
                #[trigger] lines(md)[i],
            )) ==> section(md, version) is None,
        section_lines(md, version) matches Some(body) ==> {
            let t = trimmed(joined(body, '\n'));
            &&& t.len() > 0 ==> section(md, version) == Some(t)
            &&& t.len() == 0 ==> section(md, version) is None
        },
{
    let ls = lines(md);
    if forall|i: int|
        0 <= i < ls.len() ==> !("## [v"@ + version + "]"@).is_prefix_of(#[trigger] ls[i]) {
        lemma_lines_before(ls, "## [v"@ + version + "]"@, ls.len() as int);
    }
}

// ---------------------------------------------------------------------------
// Backends
// ---------------------------------------------------------------------------

/// The entry, without blanks and in lower case, is this name.
pub open spec fn names(entry: Seq<char>, name: Seq<char>) -> bool {
    ascii_lowered(trimmed(entry)) == name
}

/// The first entry that names a backend that is told apart decides, whatever stands before
/// and behind it and whatever display there is.
pub proof fn law_first_known_backend_decides(list: Seq<char>, i: int, wayland_display: bool)
    requires
        0 <= i < split(list, ',').len(),
        forall|j: int|
            0 <= j < i ==> !names(#[trigger] split(list, ',')[j], "x11"@) && !names(
                split(list, ',')[j],
                "wayland"@,
            ),
    ensures
        names(split(list, ',')[i], "x11"@) ==> runs_on_x11(Some(list), wayland_display),
        names(split(list, ',')[i], "wayland"@) ==> !runs_on_x11(Some(list), wayland_display),
{
    let entries = split(list, ',');
    reveal_strlit("x11");
    reveal_strlit("wayland");
    assert("x11"@.len() != "wayland"@.len());
    lemma_first_backend(entries, i);
}

/// Where no entry names a known backend, and where there is no list, the program runs on X11
/// exactly where there is no Wayland display.
pub proof fn law_display_decides_without_a_backend(list: Seq<char>, wayland_display: bool)
    ensures
        runs_on_x11(None, wayland_display) == !wayland_display,
        (forall|j: int|
            0 <= j < split(list, ',').len() ==> !names(#[trigger] split(list, ',')[j], "x11"@)
                && !names(split(list, ',')[j], "wayland"@)) ==> runs_on_x11(
            Some(list),
            wayland_display,
        ) == !wayland_display,
{
    let entries = split(list, ',');
    if forall|j: int|
        0 <= j < entries.len() ==> !names(#[trigger] entries[j], "x11"@) && !names(
            entries[j],
            "wayland"@,
        ) {
        lemma_first_backend(entries, entries.len() as int);
    }
}

proof fn lemma_first_backend(entries: Seq<Seq<char>>, n: int)
    requires
        0 <= n <= entries.len(),
        forall|j: int|
            0 <= j < n ==> !names(#[trigger] entries[j], "x11"@) && !names(
                entries[j],
                "wayland"@,
            ),
    ensures
        n == entries.len() ==> first_backend(entries) is None,
        n < entries.len() && named_backend(entries[n]) is Some ==> first_backend(entries)
            == named_backend(entries[n]),
    decreases entries.len(),
{
    if n > 0 {
        let rest = entries.drop_first();
        assert(!names(entries[0], "x11"@));
        assert forall|j: int| 0 <= j < n - 1 implies !names(#[trigger] rest[j], "x11"@) && !names(
            rest[j],
            "wayland"@,
        ) by {
            assert(rest[j] == entries[j + 1]);
        }
        lemma_first_backend(rest, n - 1);
    }
}

} // verus!
