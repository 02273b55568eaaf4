//! The naming rules a command line forces on a document: where an operation
//! sits in the two-level command tree, and what happens when two things in one
//! operation want the same flag.

use vstd::prelude::*;

use crate::model::Method;
use crate::text::{
    append_str, ascii_lower, chars_of, is_alnum, is_digit, is_lower,
    is_upper, lower, string_of,
};

verus! {

// ---------------------------------------------------------------------------
// The spelling rule
// ---------------------------------------------------------------------------

/// One character of a name the user types: `[a-z0-9-]`.
pub open spec fn allowed(c: char) -> bool {
    is_lower(c) || is_digit(c) || c == '-'
}

/// One step of kebab-casing: what the output and the "previous character was
/// a lowercase letter or a digit" flag become after reading `c`, with `next`
/// the character after it.
///
/// A capital starts a new word when the character before it ended a word, or
/// when the one after it is lowercase (`HTTPStatus` is `http-status`). Any
/// character outside `[A-Za-z0-9]` is a separator. A `-` is written only
/// between two words, never twice in a row and never first.
pub open spec fn kebab_step(out: Seq<char>, prev: bool, c: char, next: Option<char>) -> (
    Seq<char>,
    bool,
) {
    let hyphenated = if out.len() > 0 && out.last() != '-' {
        out.push('-')
    } else {
        out
    };
    if is_upper(c) {
        let starts_word = prev || (next is Some && is_lower(next->0));
        let out1 = if starts_word {
            hyphenated
        } else {
            out
        };
        (out1.push(ascii_lower(c)), false)
    } else if is_alnum(c) {
        (out.push(c), true)
    } else {
        (hyphenated, false)
    }
}

/// The state after reading the first `i` characters of `s`.
pub open spec fn kebab_scan(s: Seq<char>, i: int) -> (Seq<char>, bool)
    decreases i,
{
    if i <= 0 {
        (seq![], false)
    } else {
        let before = kebab_scan(s, i - 1);
        let next = if i < s.len() {
            Some(s[i])
        } else {
            None
        };
        kebab_step(before.0, before.1, s[i - 1], next)
    }
}

/// `s` without the `-`s at its start.
pub open spec fn strip_leading(s: Seq<char>) -> Seq<char>
    decreases s.len(),
{
    if s.len() > 0 && s[0] == '-' {
        strip_leading(s.drop_first())
    } else {
        s
    }
}

/// `s` without the `-`s at its end.
pub open spec fn strip_trailing(s: Seq<char>) -> Seq<char>
    decreases s.len(),
{
    if s.len() > 0 && s.last() == '-' {
        strip_trailing(s.drop_last())
    } else {
        s
    }
}

/// `s` with the `-`s at both ends taken off.
pub open spec fn trim_hyphens(s: Seq<char>) -> Seq<char> {
    strip_trailing(strip_leading(s))
}

/// The kebab-case of `s`: lowercase words joined by `-`.
pub open spec fn kebab_of(s: Seq<char>) -> Seq<char> {
    trim_hyphens(kebab_scan(s, s.len() as int).0)
}

/// A name a user can type as a flag or a command: `[a-z0-9-]`, with every `-`
/// between two words.
pub open spec fn canonical(t: Seq<char>) -> bool {
    &&& forall|i: int| 0 <= i < t.len() ==> allowed(#[trigger] t[i])
    &&& t.len() > 0 ==> t[0] != '-' && t.last() != '-'
    &&& forall|i: int| 0 <= i < t.len() - 1 ==> !(#[trigger] t[i] == '-' && t[i + 1] == '-')
}

/// What the scan keeps true of its output: only allowed characters, never a
/// `-` first, never two in a row.
pub open spec fn scanned(t: Seq<char>) -> bool {
    &&& forall|i: int| 0 <= i < t.len() ==> allowed(#[trigger] t[i])
    &&& t.len() > 0 ==> t[0] != '-'
    &&& forall|i: int| 0 <= i < t.len() - 1 ==> !(#[trigger] t[i] == '-' && t[i + 1] == '-')
}

proof fn lemma_lower_allowed(c: char)
    requires
        is_upper(c),
    ensures
        is_lower(ascii_lower(c)),
{
}

proof fn lemma_scan_scanned(s: Seq<char>, i: int)
    requires
        0 <= i <= s.len(),
    ensures
        scanned(kebab_scan(s, i).0),
    decreases i,
{
    if i > 0 {
        lemma_scan_scanned(s, i - 1);
        let before = kebab_scan(s, i - 1);
        let c = s[i - 1];
        if is_upper(c) {
            lemma_lower_allowed(c);
        }
    }
}

proof fn lemma_strip_leading(s: Seq<char>)
    requires
        scanned(s),
    ensures
        strip_leading(s) == s,
{
}

proof fn lemma_strip_trailing_scanned(s: Seq<char>)
    requires
        scanned(s),
    ensures
        canonical(strip_trailing(s)),
        strip_trailing(s).len() == s.len() || strip_trailing(s) == s.drop_last(),
    decreases s.len(),
{
    if s.len() > 0 && s.last() == '-' {
        let d = s.drop_last();
        assert(scanned(d));
        if d.len() > 0 {
            assert(d.last() == s[s.len() - 2]);
            assert(d.last() != '-');
        }
        assert(strip_trailing(d) == d);
    }
}

/// Whatever goes in, kebab-casing comes out in `[a-z0-9-]`, with no `-` at
/// either end and none doubled.
pub proof fn lemma_kebab_canonical(s: Seq<char>)
    ensures
        canonical(kebab_of(s)),
{
    lemma_scan_scanned(s, s.len() as int);
    let t = kebab_scan(s, s.len() as int).0;
    lemma_strip_leading(t);
    lemma_strip_trailing_scanned(t);
}

proof fn lemma_scan_of_canonical(t: Seq<char>, i: int)
    requires
        canonical(t),
        0 <= i <= t.len(),
    ensures
        kebab_scan(t, i).0 == t.take(i),
    decreases i,
{
    if i > 0 {
        lemma_scan_of_canonical(t, i - 1);
        let c = t[i - 1];
        assert(allowed(c));
        assert(t.take(i) == t.take(i - 1).push(c));
        if c == '-' {
            assert(i - 1 > 0);
            assert(t.take(i - 1).last() == t[i - 2]);
        }
    }
}

/// A name already in kebab-case is its own kebab-case.
pub proof fn lemma_canonical_fixed(t: Seq<char>)
    requires
        canonical(t),
    ensures
        kebab_of(t) == t,
{
    lemma_scan_of_canonical(t, t.len() as int);
    assert(t.take(t.len() as int) == t);
    lemma_strip_leading(t);
    assert(strip_trailing(t) == t);
}

/// Kebab-casing twice is kebab-casing once.
pub proof fn lemma_kebab_idempotent(s: Seq<char>)
    ensures
        kebab_of(kebab_of(s)) == kebab_of(s),
{
    lemma_kebab_canonical(s);
    lemma_canonical_fixed(kebab_of(s));
}

/// Whether the character at `i` is a lowercase letter.
pub open spec fn lower_at(s: Seq<char>, i: int) -> bool {
    0 <= i < s.len() && is_lower(s[i])
}

/// Two texts that agree on their first `i` characters, and on whether a
/// lowercase letter follows them, scan alike that far.
proof fn lemma_scan_agree(s: Seq<char>, t: Seq<char>, i: int)
    requires
        0 <= i <= s.len(),
        i <= t.len(),
        forall|k: int| 0 <= k < i ==> s[k] == t[k],
        lower_at(s, i) == lower_at(t, i),
    ensures
        kebab_scan(s, i) == kebab_scan(t, i),
    decreases i,
{
    if i > 0 {
        assert(lower_at(s, i - 1) == lower_at(t, i - 1));
        lemma_scan_agree(s, t, i - 1);
        assert(s[i - 1] == t[i - 1]);
    }
}

/// Scanning a run of letters and digits writes something, and the last thing
/// written is not a `-`.
proof fn lemma_word_scan(w: Seq<char>, i: int)
    requires
        0 < i <= w.len(),
        forall|k: int| 0 <= k < w.len() ==> is_alnum(#[trigger] w[k]),
    ensures
        kebab_scan(w, i).0.len() > 0,
        kebab_scan(w, i).0.last() != '-',
{
    let c = w[i - 1];
    assert(is_alnum(c));
    if is_upper(c) {
        lemma_lower_allowed(c);
    }
}

/// A step after output that ends in `-` writes what it would write from
/// nothing, after that output.
proof fn lemma_step_after(p: Seq<char>, o: Seq<char>, prev: bool, c: char, next: Option<char>)
    requires
        p.len() > 0,
        p.last() == '-',
    ensures
        kebab_step(p + o, prev, c, next).0 == p + kebab_step(o, prev, c, next).0,
        kebab_step(p + o, prev, c, next).1 == kebab_step(o, prev, c, next).1,
{
    if o.len() == 0 {
        assert(p + o =~= p);
        assert(p + o.push('-') =~= (p + o).push('-'));
    } else {
        assert((p + o).last() == o.last());
        assert(p + o.push('-') =~= (p + o).push('-'));
    }
    assert(forall|x: char| #[trigger] (p + o).push(x) =~= p + o.push(x));
    assert(forall|x: char| #[trigger] (p + o.push('-')).push(x) =~= p + o.push('-').push(x));
}

/// Past a word and the separator after it, the scan is the word's scan, one
/// `-`, and the scan of what follows from its start.
proof fn lemma_scan_after_separator(w1: Seq<char>, sep: char, w2: Seq<char>, i: int)
    requires
        w1.len() > 0,
        forall|k: int| 0 <= k < w1.len() ==> is_alnum(#[trigger] w1[k]),
        !is_alnum(sep),
        w1.len() + 1 <= i <= w1.len() + 1 + w2.len(),
    ensures
        kebab_scan(w1 + seq![sep] + w2, i).0 == kebab_scan(w1, w1.len() as int).0 + seq!['-'] + kebab_scan(
            w2,
            i - w1.len() - 1,
        ).0,
        kebab_scan(w1 + seq![sep] + w2, i).1 == kebab_scan(w2, i - w1.len() - 1).1,
    decreases i,
{
    let s = w1 + seq![sep] + w2;
    let m = w1.len() + 1;
    let head = kebab_scan(w1, w1.len() as int).0;
    lemma_word_scan(w1, w1.len() as int);
    if i == m {
        assert forall|k: int| 0 <= k < w1.len() implies s[k] == w1[k] by {}
        assert(s[w1.len() as int] == sep);
        lemma_scan_agree(s, w1, w1.len() as int);
        assert(kebab_scan(w2, 0).0 == Seq::<char>::empty());
        assert(head + seq!['-'] + Seq::<char>::empty() =~= head.push('-'));
    } else {
        lemma_scan_after_separator(w1, sep, w2, i - 1);
        let p = head + seq!['-'];
        let before = kebab_scan(w2, i - 1 - m);
        assert(s[i - 1] == w2[i - 1 - m]);
        if i < s.len() {
            assert(s[i] == w2[i - m]);
        }
        lemma_step_after(p, before.0, before.1, s[i - 1], if i < s.len() { Some(s[i]) } else { None });
    }
}

/// Once the scan of a text has reached `p` followed by the scan of the start
/// of `w2`, where `p` ends with `-` and the text goes on as `w2` does, it
/// stays that way to the end.
proof fn lemma_scan_continues(s: Seq<char>, m: int, w2: Seq<char>, p: Seq<char>, j0: int, i: int)
    requires
        0 <= m,
        s.len() == m + w2.len(),
        forall|k: int| 0 <= k < w2.len() ==> s[m + k] == w2[k],
        p.len() > 0,
        p.last() == '-',
        0 <= j0 <= w2.len(),
        kebab_scan(s, m + j0).0 == p + kebab_scan(w2, j0).0,
        kebab_scan(s, m + j0).1 == kebab_scan(w2, j0).1,
        m + j0 <= i <= s.len(),
    ensures
        kebab_scan(s, i).0 == p + kebab_scan(w2, i - m).0,
        kebab_scan(s, i).1 == kebab_scan(w2, i - m).1,
    decreases i,
{
    if i > m + j0 {
        lemma_scan_continues(s, m, w2, p, j0, i - 1);
        let before = kebab_scan(w2, i - 1 - m);
        assert(s[i - 1] == w2[i - 1 - m]);
        if i < s.len() {
            assert(s[i] == w2[i - m]);
        }
        lemma_step_after(p, before.0, before.1, s[i - 1], if i < s.len() { Some(s[i]) } else { None });
    }
}

/// A capital starts a new word after a lowercase letter or a digit, and
/// before a lowercase letter: the two halves of `createVoucher`, `page2Size`,
/// `HTTPStatus` or `APIKey` are kebab-cased apart and joined by exactly one
/// `-`.
pub proof fn lemma_capital_starts_word(w1: Seq<char>, w2: Seq<char>)
    requires
        w1.len() > 0,
        w2.len() > 0,
        forall|k: int| 0 <= k < w1.len() ==> is_alnum(#[trigger] w1[k]),
        forall|k: int| 0 <= k < w2.len() ==> is_alnum(#[trigger] w2[k]),
        is_upper(w2[0]),
        !is_upper(w1.last()) || (w2.len() >= 2 && is_lower(w2[1])),
    ensures
        kebab_of(w1 + w2) == kebab_of(w1) + seq!['-'] + kebab_of(w2),
{
    let s = w1 + w2;
    let m = w1.len() as int;
    let a = kebab_scan(w1, m).0;
    let b = kebab_scan(w2, w2.len() as int).0;
    lemma_word_scan(w1, m);
    lemma_word_scan(w2, w2.len() as int);
    assert forall|k: int| 0 <= k < m implies s[k] == w1[k] by {}
    assert(s[m] == w2[0]);
    lemma_scan_agree(s, w1, m);
    assert(!is_upper(w1.last()) ==> kebab_scan(w1, m).1) by {
        assert(is_alnum(w1[m - 1]));
    }
    if w2.len() >= 2 {
        assert(s[m + 1] == w2[1]);
    }
    let c = w2[0];
    lemma_lower_allowed(c);
    let p = a + seq!['-'];
    assert(kebab_scan(w2, 0).0 == Seq::<char>::empty());
    assert(kebab_scan(w2, 1).0 =~= seq![ascii_lower(c)]);
    assert(kebab_scan(s, m + 1).0 =~= p + kebab_scan(w2, 1).0);
    assert forall|k: int| 0 <= k < w2.len() implies s[m + k] == w2[k] by {}
    lemma_scan_continues(s, m, w2, p, 1, s.len() as int);
    lemma_scan_scanned(w1, m);
    lemma_scan_scanned(w2, w2.len() as int);
    lemma_trim_untouched(a);
    lemma_trim_untouched(b);
    let joined = p + b;
    assert(joined[0] == a[0]);
    assert(joined.last() == b.last());
    lemma_trim_untouched(joined);
    assert(joined =~= a + seq!['-'] + b);
}

/// A run of capitals is one word: `HTTP` is `http`, and `ID` is `id`, never
/// split a letter at a time.
pub proof fn lemma_capitals_one_word(w: Seq<char>)
    requires
        w.len() > 0,
        forall|k: int| 0 <= k < w.len() ==> is_upper(#[trigger] w[k]),
    ensures
        kebab_of(w) == letters_lowered(w),
{
    lemma_capitals_scan(w, w.len() as int);
    lemma_kebab_keeps_letters(w);
    let t = kebab_scan(w, w.len() as int).0;
    lemma_word_scan(w, w.len() as int);
    lemma_scan_scanned(w, w.len() as int);
    lemma_trim_untouched(t);
    lemma_hyphen_free(t);
}

proof fn lemma_capitals_scan(w: Seq<char>, i: int)
    requires
        0 <= i <= w.len(),
        forall|k: int| 0 <= k < w.len() ==> is_upper(#[trigger] w[k]),
    ensures
        forall|k: int| 0 <= k < kebab_scan(w, i).0.len() ==> #[trigger] kebab_scan(w, i).0[k] != '-',
        !kebab_scan(w, i).1,
    decreases i,
{
    if i > 0 {
        lemma_capitals_scan(w, i - 1);
        let c = w[i - 1];
        assert(is_upper(c));
        if i < w.len() {
            assert(is_upper(w[i]));
        }
        lemma_lower_allowed(c);
    }
}

proof fn lemma_hyphen_free(t: Seq<char>)
    requires
        forall|k: int| 0 <= k < t.len() ==> #[trigger] t[k] != '-',
    ensures
        unhyphenated(t) == t,
    decreases t.len(),
{
    if t.len() > 0 {
        lemma_hyphen_free(t.drop_last());
        assert(t.drop_last().push(t.last()) =~= t);
    }
}

proof fn lemma_scan_through_separators(w1: Seq<char>, seps: Seq<char>, w2: Seq<char>, j: int)
    requires
        w1.len() > 0,
        forall|k: int| 0 <= k < w1.len() ==> is_alnum(#[trigger] w1[k]),
        forall|k: int| 0 <= k < seps.len() ==> !is_alnum(#[trigger] seps[k]),
        1 <= j <= seps.len(),
    ensures
        kebab_scan(w1 + seps + w2, w1.len() + j).0 == kebab_scan(w1, w1.len() as int).0 + seq!['-'],
        !kebab_scan(w1 + seps + w2, w1.len() + j).1,
    decreases j,
{
    let s = w1 + seps + w2;
    let m = w1.len() as int;
    let a = kebab_scan(w1, m).0;
    lemma_word_scan(w1, m);
    assert(!is_alnum(seps[j - 1]));
    assert(s[m + j - 1] == seps[j - 1]);
    if j == 1 {
        assert forall|k: int| 0 <= k < m implies s[k] == w1[k] by {}
        assert(s[m] == seps[0]);
        lemma_scan_agree(s, w1, m);
    } else {
        lemma_scan_through_separators(w1, seps, w2, j - 1);
        assert((a + seq!['-']).last() == '-');
    }
}

/// A run of separators between two words — `__`, ` - `, `--` — becomes
/// exactly one `-` between their kebab-cases.
pub proof fn lemma_separators_join_words(w1: Seq<char>, seps: Seq<char>, w2: Seq<char>)
    requires
        w1.len() > 0,
        w2.len() > 0,
        seps.len() > 0,
        forall|k: int| 0 <= k < w1.len() ==> is_alnum(#[trigger] w1[k]),
        forall|k: int| 0 <= k < w2.len() ==> is_alnum(#[trigger] w2[k]),
        forall|k: int| 0 <= k < seps.len() ==> !is_alnum(#[trigger] seps[k]),
    ensures
        kebab_of(w1 + seps + w2) == kebab_of(w1) + seq!['-'] + kebab_of(w2),
{
    let s = w1 + seps + w2;
    let m: int = (w1.len() + seps.len()) as int;
    let a = kebab_scan(w1, w1.len() as int).0;
    let b = kebab_scan(w2, w2.len() as int).0;
    let p = a + seq!['-'];
    lemma_scan_through_separators(w1, seps, w2, seps.len() as int);
    assert(kebab_scan(w2, 0).0 == Seq::<char>::empty());
    assert(kebab_scan(s, m).0 =~= p + kebab_scan(w2, 0).0);
    assert forall|k: int| 0 <= k < w2.len() implies s[m + k] == w2[k] by {}
    lemma_scan_continues(s, m, w2, p, 0, s.len() as int);
    lemma_word_scan(w1, w1.len() as int);
    lemma_word_scan(w2, w2.len() as int);
    lemma_scan_scanned(w1, w1.len() as int);
    lemma_scan_scanned(w2, w2.len() as int);
    lemma_trim_untouched(a);
    lemma_trim_untouched(b);
    let joined = p + b;
    assert(joined[0] == a[0]);
    assert(joined.last() == b.last());
    lemma_trim_untouched(joined);
    assert(joined =~= a + seq!['-'] + b);
}

/// Scanned output that starts and ends with no `-` is its own kebab-case.
proof fn lemma_trim_untouched(t: Seq<char>)
    requires
        t.len() > 0,
        t[0] != '-',
        t.last() != '-',
    ensures
        trim_hyphens(t) == t,
{
}

/// A separator between two words — anything outside `[A-Za-z0-9]` between
/// two runs of letters and digits — becomes exactly one `-` between their
/// kebab-cases, whatever case either word is in: `MAX_PAGE` is `max-page`.
pub proof fn lemma_separator_joins_words(w1: Seq<char>, sep: char, w2: Seq<char>)
    requires
        w1.len() > 0,
        w2.len() > 0,
        forall|k: int| 0 <= k < w1.len() ==> is_alnum(#[trigger] w1[k]),
        forall|k: int| 0 <= k < w2.len() ==> is_alnum(#[trigger] w2[k]),
        !is_alnum(sep),
    ensures
        kebab_of(w1 + seq![sep] + w2) == kebab_of(w1) + seq!['-'] + kebab_of(w2),
{
    let s = w1 + seq![sep] + w2;
    lemma_scan_after_separator(w1, sep, w2, s.len() as int);
    let a = kebab_scan(w1, w1.len() as int).0;
    let b = kebab_scan(w2, w2.len() as int).0;
    assert(s.len() - w1.len() - 1 == w2.len());
    lemma_word_scan(w1, w1.len() as int);
    lemma_word_scan(w2, w2.len() as int);
    lemma_scan_scanned(w1, w1.len() as int);
    lemma_scan_scanned(w2, w2.len() as int);
    lemma_trim_untouched(a);
    lemma_trim_untouched(b);
    let joined = a + seq!['-'] + b;
    assert(joined[0] == a[0]);
    assert(joined.last() == b.last());
    lemma_trim_untouched(joined);
}

/// `t` with its `-`s taken out.
pub open spec fn unhyphenated(t: Seq<char>) -> Seq<char>
    decreases t.len(),
{
    if t.len() == 0 {
        t
    } else if t.last() == '-' {
        unhyphenated(t.drop_last())
    } else {
        unhyphenated(t.drop_last()).push(t.last())
    }
}

/// The ASCII letters and digits of `s`, in order, lowercased.
pub open spec fn letters_lowered(s: Seq<char>) -> Seq<char>
    decreases s.len(),
{
    if s.len() == 0 {
        s
    } else if is_alnum(s.last()) {
        letters_lowered(s.drop_last()).push(ascii_lower(s.last()))
    } else {
        letters_lowered(s.drop_last())
    }
}

proof fn lemma_unhyphenated_push(t: Seq<char>, c: char)
    ensures
        unhyphenated(t.push(c)) == if c == '-' { unhyphenated(t) } else { unhyphenated(t).push(c) },
{
    assert(t.push(c).drop_last() =~= t);
}

proof fn lemma_unhyphenated_strip_leading(t: Seq<char>)
    ensures
        unhyphenated(strip_leading(t)) == unhyphenated(t),
    decreases t.len(),
{
    if t.len() > 0 && t[0] == '-' {
        lemma_unhyphenated_strip_leading(t.drop_first());
        lemma_unhyphenated_drop_first(t);
    }
}

proof fn lemma_unhyphenated_drop_first(t: Seq<char>)
    requires
        t.len() > 0,
        t[0] == '-',
    ensures
        unhyphenated(t.drop_first()) == unhyphenated(t),
    decreases t.len(),
{
    if t.len() > 1 {
        lemma_unhyphenated_drop_first(t.drop_last());
        assert(t.drop_last().drop_first() =~= t.drop_first().drop_last());
        assert(t.drop_first().last() == t.last());
    } else {
        assert(t.drop_first() =~= Seq::<char>::empty());
        assert(t.drop_last() =~= Seq::<char>::empty());
    }
}

proof fn lemma_unhyphenated_strip_trailing(t: Seq<char>)
    ensures
        unhyphenated(strip_trailing(t)) == unhyphenated(t),
    decreases t.len(),
{
    if t.len() > 0 && t.last() == '-' {
        lemma_unhyphenated_strip_trailing(t.drop_last());
    }
}

proof fn lemma_scan_letters(s: Seq<char>, i: int)
    requires
        0 <= i <= s.len(),
    ensures
        unhyphenated(kebab_scan(s, i).0) == letters_lowered(s.take(i)),
    decreases i,
{
    if i > 0 {
        lemma_scan_letters(s, i - 1);
        let before = kebab_scan(s, i - 1).0;
        let c = s[i - 1];
        assert(s.take(i).drop_last() =~= s.take(i - 1));
        assert(s.take(i).last() == c);
        lemma_unhyphenated_push(before, '-');
        if is_upper(c) {
            lemma_lower_allowed(c);
            lemma_unhyphenated_push(before, ascii_lower(c));
            lemma_unhyphenated_push(before.push('-'), ascii_lower(c));
        } else if is_alnum(c) {
            lemma_unhyphenated_push(before, c);
        }
    }
}

/// Kebab-casing keeps every ASCII letter and digit of a name, in order and
/// lowercased, and adds nothing but `-`s between them: take the `-`s out of
/// `kebab("MAX_PAGE_SIZE")` and `maxpagesize` is what is left.
pub proof fn lemma_kebab_keeps_letters(s: Seq<char>)
    ensures
        unhyphenated(kebab_of(s)) == letters_lowered(s),
{
    lemma_scan_letters(s, s.len() as int);
    assert(s.take(s.len() as int) =~= s);
    let t = kebab_scan(s, s.len() as int).0;
    lemma_unhyphenated_strip_leading(t);
    lemma_unhyphenated_strip_trailing(strip_leading(t));
}

/// Kebab-case, over characters.
pub fn kebab_chars(name: &[char]) -> (out: Vec<char>)
    ensures
        out@ == kebab_of(name@),
{
    let mut out: Vec<char> = Vec::new();
    let mut prev = false;
    let mut i: usize = 0;
    while i < name.len()
        invariant
            i <= name.len(),
            (out@, prev) == kebab_scan(name@, i as int),
        decreases name.len() - i,
    {
        let c = name[i];
        let hyphen = out.len() > 0 && out[out.len() - 1] != '-';
        if 'A' <= c && c <= 'Z' {
            let starts_word = prev || (i + 1 < name.len() && 'a' <= name[i + 1] && name[i + 1]
                <= 'z');
            if starts_word && hyphen {
                out.push('-');
            }
            out.push(lower(c));
            prev = false;
        } else if ('a' <= c && c <= 'z') || ('0' <= c && c <= '9') {
            out.push(c);
            prev = true;
        } else {
            if hyphen {
                out.push('-');
            }
            prev = false;
        }
        i += 1;
    }
    trim(&out)
}

/// `s` with the `-`s at both ends taken off.
fn trim(s: &Vec<char>) -> (out: Vec<char>)
    ensures
        out@ == trim_hyphens(s@),
{
    let mut start: usize = 0;
    assert(s@.skip(0) == s@);
    while start < s.len() && s[start] == '-'
        invariant
            start <= s.len(),
            strip_leading(s@) == strip_leading(s@.skip(start as int)),
        decreases s.len() - start,
    {
        assert(s@.skip(start as int).drop_first() == s@.skip(start + 1));
        start += 1;
    }
    let ghost led = s@.skip(start as int);
    assert(strip_leading(led) == led);
    let mut end: usize = s.len();
    while end > start && s[end - 1] == '-'
        invariant
            start <= end <= s.len(),
            strip_trailing(led) == strip_trailing(s@.subrange(start as int, end as int)),
        decreases end,
    {
        assert(s@.subrange(start as int, end as int).drop_last() == s@.subrange(
            start as int,
            end - 1,
        ));
        end -= 1;
    }
    assert(led == s@.subrange(start as int, s.len() as int));
    let mut out: Vec<char> = Vec::new();
    let mut k: usize = start;
    while k < end
        invariant
            start <= k <= end,
            end <= s.len(),
            out@ == s@.subrange(start as int, k as int),
        decreases end - k,
    {
        out.push(s[k]);
        k += 1;
    }
    out
}

/// `createVoucher` and `internal_ref` both become flag-shaped: lowercase words
/// joined by `-`. Characters outside `[A-Za-z0-9]` are separators.
pub fn kebab(name: &str) -> (out: String)
    ensures
        out@ == kebab_of(name@),
{
    let chars = chars_of(name);
    let out = kebab_chars(chars.as_slice());
    string_of(out.as_slice())
}

/// A name the document offers that is not spellable as a command.
#[derive(Debug, Clone, PartialEq, Eq)]
pub struct NameError {
    /// What the name was read off, so the message says where to go and look:
    /// a path segment, or the `x-cli-` marker that overrode it.
    pub origin: &'static str,
    /// The name, as the document spells it.
    pub raw: String,
}

impl NameError {
    /// `the {origin} `{raw}` does not kebab-case into [a-z0-9-]`.
    pub fn message(&self) -> (out: String)
        ensures
            out@ == "the "@ + self.origin@ + " `"@ + self.raw@
                + "` does not kebab-case into [a-z0-9-]"@,
    {
        let mut text: Vec<char> = Vec::new();
        append_str(&mut text, "the ");
        append_str(&mut text, self.origin);
        append_str(&mut text, " `");
        append_str(&mut text, self.raw.as_str());
        append_str(&mut text, "` does not kebab-case into [a-z0-9-]");
        string_of(text.as_slice())
    }
}

/// Whether every character of `name` is one a user can type.
fn all_allowed(name: &[char]) -> (r: bool)
    ensures
        r == (forall|i: int| 0 <= i < name@.len() ==> allowed(#[trigger] name@[i])),
{
    let mut i: usize = 0;
    while i < name.len()
        invariant
            i <= name.len(),
            forall|j: int| 0 <= j < i ==> allowed(#[trigger] name@[j]),
        decreases name.len() - i,
    {
        let c = name[i];
        if !(('a' <= c && c <= 'z') || ('0' <= c && c <= '9') || c == '-') {
            assert(!allowed(name@[i as int]));
            return false;
        }
        i += 1;
    }
    true
}

/// The spelling rule, over characters: the kebab-case of `raw`, or the
/// refusal naming where `raw` came from.
pub fn spell(origin: &'static str, raw: &[char]) -> (r: Result<String, NameError>)
    ensures
        r is Ok <==> kebab_of(raw@).len() > 0,
        r matches Ok(name) ==> name@ == kebab_of(raw@),
        r matches Err(e) ==> e.origin == origin && e.raw@ == raw@,
{
    let name = kebab_chars(raw);
    if name.len() == 0 || !all_allowed(name.as_slice()) {
        proof {
            lemma_kebab_canonical(raw@);
        }
        return Err(NameError { origin, raw: string_of(raw) });
    }
    Ok(string_of(name.as_slice()))
}

/// The one spelling rule for a name the user has to type: kebab-cased, and
/// `[a-z0-9-]` once it is.
pub fn spelled(origin: &'static str, raw: &str) -> (r: Result<String, NameError>)
    ensures
        r is Ok <==> kebab_of(raw@).len() > 0,
        r matches Ok(name) ==> name@ == kebab_of(raw@),
        r matches Err(e) ==> e.origin == origin && e.raw@ == raw@,
{
    let chars = chars_of(raw);
    spell(origin, chars.as_slice())
}

/// Did this flag have to move aside from the plain kebab-case of its wire name?
pub fn renamed(flag: &str, wire_name: &str) -> (r: bool)
    ensures
        r == (flag@ != kebab_of(wire_name@)),
{
    let flag = chars_of(flag);
    let wire = chars_of(wire_name);
    let kebabbed = kebab_chars(wire.as_slice());
    !crate::text::same_chars(flag.as_slice(), kebabbed.as_slice())
}

/// One half of a command name: kebab-cased, `[a-z0-9-]` only.
///
/// A command is two of these, `<group> <command>` — `vouchers update`.
#[derive(Debug)]
pub struct CommandName(String);

impl View for CommandName {
    type V = Seq<char>;

    closed spec fn view(&self) -> Seq<char> {
        self.0@
    }
}

impl CommandName {
    /// Every command name is spelled by the rule, and is not empty.
    #[verifier::type_invariant]
    spec fn spelled_by_the_rule(self) -> bool {
        canonical(self.0@) && self.0@.len() > 0
    }

    /// `renderVoucher` becomes `render-voucher`; anything that will not reduce to
    /// `[a-z0-9-]` is rejected rather than mangled.
    pub fn new(origin: &'static str, raw: &str) -> (r: Result<Self, NameError>)
        ensures
            r is Ok <==> kebab_of(raw@).len() > 0,
            r matches Ok(name) ==> name@ == kebab_of(raw@),
            r matches Err(e) ==> e.origin == origin && e.raw@ == raw@,
    {
        let chars = chars_of(raw);
        Self::from_chars(origin, chars.as_slice())
    }

    /// The same, over characters.
    pub fn from_chars(origin: &'static str, raw: &[char]) -> (r: Result<Self, NameError>)
        ensures
            r is Ok <==> kebab_of(raw@).len() > 0,
            r matches Ok(name) ==> name@ == kebab_of(raw@),
            r matches Err(e) ==> e.origin == origin && e.raw@ == raw@,
    {
        proof {
            lemma_kebab_canonical(raw@);
        }
        match spell(origin, raw) {
            Ok(name) => Ok(CommandName(name)),
            Err(e) => Err(e),
        }
    }

    /// The name, which the spelling rule always admits.
    pub fn as_str(&self) -> (r: &str)
        ensures
            r@ == self@,
            canonical(r@),
            r@.len() > 0,
    {
        proof {
            use_type_invariant(self);
        }
        self.0.as_str()
    }

    /// The same name again.
    pub fn duplicate(&self) -> (r: Self)
        ensures
            r@ == self@,
    {
        proof {
            use_type_invariant(self);
        }
        CommandName(self.0.clone())
    }

    /// Whether the two are one name.
    pub fn same(&self, other: &Self) -> (r: bool)
        ensures
            r == (self@ == other@),
    {
        self.0 == other.0
    }
}

} // verus!

verus! {

// ---------------------------------------------------------------------------
// Where an operation sits in the command tree
// ---------------------------------------------------------------------------

/// One character of a path read into its segments: a `/` closes the segment
/// being read (an empty one is dropped), anything else extends it.
pub open spec fn split_step(acc: (Seq<Seq<char>>, Seq<char>), c: char) -> (
    Seq<Seq<char>>,
    Seq<char>,
) {
    if c == '/' {
        (
            if acc.1.len() > 0 {
                acc.0.push(acc.1)
            } else {
                acc.0
            },
            seq![],
        )
    } else {
        (acc.0, acc.1.push(c))
    }
}

/// The segments closed, and the one being read, after the first `i`
/// characters of `p`.
pub open spec fn split_scan(p: Seq<char>, i: int) -> (Seq<Seq<char>>, Seq<char>)
    decreases i,
{
    if i <= 0 {
        (seq![], seq![])
    } else {
        split_step(split_scan(p, i - 1), p[i - 1])
    }
}

/// A path's segments: the non-empty runs between its `/`s.
/// `/vouchers/{id}/render` is three.
pub open spec fn segments(p: Seq<char>) -> Seq<Seq<char>> {
    let acc = split_scan(p, p.len() as int);
    if acc.1.len() > 0 {
        acc.0.push(acc.1)
    } else {
        acc.0
    }
}

/// A segment the caller fills in, `{id}`.
pub open spec fn templated(segment: Seq<char>) -> bool {
    segment.contains('{')
}

/// Whether every path's segments say `shared` at `depth`, and each has a
/// literal segment below it.
pub open spec fn descends(paths: Seq<Seq<char>>, depth: int) -> bool {
    &&& paths.len() > 0
    &&& depth < segments(paths[0]).len()
    &&& forall|i: int|
        0 <= i < paths.len() ==> {
            let segs = #[trigger] segments(paths[i]);
            &&& depth + 1 < segs.len()
            &&& segs[depth] == segments(paths[0])[depth]
            &&& !templated(segs[depth + 1])
        }
}

/// The last literal segment among `segs[from..upto]`, by index.
pub open spec fn last_literal(segs: Seq<Seq<char>>, from: int, upto: int) -> Option<int>
    decreases upto - from,
{
    if upto <= from {
        None
    } else if !templated(segs[upto - 1]) {
        Some(upto - 1)
    } else {
        last_literal(segs, from, upto - 1)
    }
}

/// What an operation whose path has nothing left to say is called.
///
/// A safe method reads: one resource where the path addresses one, the
/// collection where it does not. Everything else is named for what it does.
pub open spec fn verb_of(method: Method, addressed: bool) -> Seq<char> {
    match method {
        Method::Post => "create"@,
        Method::Put => "update"@,
        Method::Patch => "patch"@,
        Method::Delete => "delete"@,
        Method::Head => "head"@,
        Method::Options => "options"@,
        Method::Trace => "trace"@,
        Method::Get => if addressed {
            "get"@
        } else {
            "list"@
        },
    }
}

/// The segments of `p`, as characters.
pub fn segments_of(p: &[char]) -> (out: Vec<Vec<char>>)
    ensures
        out@.len() == segments(p@).len(),
        forall|i: int| 0 <= i < out@.len() ==> (#[trigger] out@[i])@ == segments(p@)[i],
{
    let mut done: Vec<Vec<char>> = Vec::new();
    let mut run: Vec<char> = Vec::new();
    let mut i: usize = 0;
    while i < p.len()
        invariant
            i <= p.len(),
            done@.len() == split_scan(p@, i as int).0.len(),
            forall|k: int| 0 <= k < done@.len() ==> (#[trigger] done@[k])@ == split_scan(
                p@,
                i as int,
            ).0[k],
            run@ == split_scan(p@, i as int).1,
        decreases p.len() - i,
    {
        if p[i] == '/' {
            if run.len() > 0 {
                done.push(run);
            }
            run = Vec::new();
        } else {
            run.push(p[i]);
        }
        i += 1;
    }
    if run.len() > 0 {
        done.push(run);
    }
    done
}

/// Whether `segment` is filled in by the caller.
pub fn is_templated(segment: &[char]) -> (r: bool)
    ensures
        r == templated(segment@),
{
    let mut i: usize = 0;
    while i < segment.len()
        invariant
            i <= segment.len(),
            forall|j: int| 0 <= j < i ==> segment@[j] != '{',
        decreases segment.len() - i,
    {
        if segment[i] == '{' {
            assert(segment@[i as int] == '{');
            return true;
        }
        i += 1;
    }
    false
}

/// What an operation whose path has nothing left to say is called.
pub fn verb(method: Method, addressed: bool) -> (r: &'static str)
    ensures
        r@ == verb_of(method, addressed),
{
    match method {
        Method::Post => "create",
        Method::Put => "update",
        Method::Patch => "patch",
        Method::Delete => "delete",
        Method::Head => "head",
        Method::Options => "options",
        Method::Trace => "trace",
        Method::Get => if addressed {
            "get"
        } else {
            "list"
        },
    }
}

/// Where each of a document's operations sits in the command tree.
///
/// The group is a path segment, and which one is a fact about the whole
/// document: the first, unless every operation shares it — a document served
/// entirely under `/v1` must not collapse into one group named `v1`. So the
/// rule is read off every path once, with [`Grouping::of`], and then applied
/// to one path at a time.
#[derive(Debug, Clone, Copy)]
pub struct Grouping {
    depth: usize,
}

/// The views of a list of paths.
pub open spec fn path_views(paths: Seq<&str>) -> Seq<Seq<char>> {
    paths.map_values(|p: &str| p@)
}

impl Grouping {
    /// How many leading segments every path shares before the one that
    /// names its group.
    pub closed spec fn depth(self) -> nat {
        self.depth as nat
    }

    /// Read the rule off every path the document declares.
    ///
    /// Descend while every path says the same thing — a segment they all share
    /// tells nothing apart — and stop at the first segment that distinguishes
    /// them, or before a path parameter, which names a value rather than a
    /// resource.
    pub fn of(paths: &[&str]) -> (r: Self)
        ensures
            forall|d: int| 0 <= d < r.depth() ==> descends(path_views(paths@), d),
            !descends(path_views(paths@), r.depth() as int),
    {
        let ghost views = path_views(paths@);
        let mut segs: Vec<Vec<Vec<char>>> = Vec::new();
        let mut i: usize = 0;
        while i < paths.len()
            invariant
                i <= paths.len(),
                views == path_views(paths@),
                segs@.len() == i,
                forall|k: int|
                    0 <= k < i ==> (#[trigger] segs@[k])@.len() == segments(views[k]).len(),
                forall|k: int, m: int|
                    0 <= k < i && 0 <= m < segs@[k]@.len() ==> (#[trigger] segs@[k]@[m])@
                        == segments(views[k])[m],
            decreases paths.len() - i,
        {
            let chars = chars_of(paths[i]);
            segs.push(segments_of(chars.as_slice()));
            i += 1;
        }
        if paths.len() == 0 {
            return Grouping { depth: 0 };
        }
        let mut depth: usize = 0;
        while depth < segs[0].len()
            invariant
                paths.len() > 0,
                views == path_views(paths@),
                segs@.len() == paths.len(),
                forall|k: int|
                    0 <= k < paths.len() ==> (#[trigger] segs@[k])@.len() == segments(
                        views[k],
                    ).len(),
                forall|k: int, m: int|
                    0 <= k < paths.len() && 0 <= m < segs@[k]@.len() ==> (#[trigger] segs@[k]@[
                        m
                    ])@ == segments(views[k])[m],
                forall|d: int| 0 <= d < depth ==> descends(views, d),
            decreases segs@[0]@.len() - depth,
        {
            let here = Self::descends_at(&segs, depth);
            proof {
                if here {
                    assert forall|i: int| 0 <= i < views.len() implies ({
                        let s = #[trigger] segments(views[i]);
                        &&& depth + 1 < s.len()
                        &&& s[depth as int] == segments(views[0])[depth as int]
                        &&& !templated(s[depth + 1])
                    }) by {
                        let s = segs@[i]@;
                        assert(s[depth as int]@ == segments(views[i])[depth as int]);
                        assert(s[depth + 1]@ == segments(views[i])[depth + 1]);
                        assert(segs@[0]@[depth as int]@ == segments(views[0])[depth as int]);
                    }
                    assert(descends(views, depth as int));
                } else {
                    if descends(views, depth as int) {
                        assert forall|i: int| 0 <= i < segs@.len() implies ({
                            let s = #[trigger] segs@[i]@;
                            &&& depth + 1 < s.len()
                            &&& s[depth as int]@ == segs@[0]@[depth as int]@
                            &&& !templated(s[depth as int + 1]@)
                        }) by {
                            let v = segments(views[i]);
                            assert(segs@[i]@[depth as int]@ == v[depth as int]);
                            assert(segs@[i]@[depth + 1]@ == v[depth + 1]);
                            assert(segs@[0]@[depth as int]@ == segments(views[0])[depth as int]);
                        }
                    }
                }
            }
            if !here {
                return Grouping { depth };
            }
            depth += 1;
        }
        Grouping { depth }
    }

    /// `descends`, read off the segments already split.
    fn descends_at(segs: &Vec<Vec<Vec<char>>>, depth: usize) -> (r: bool)
        requires
            segs@.len() > 0,
            depth < segs@[0]@.len(),
        ensures
            r == (forall|i: int|
                0 <= i < segs@.len() ==> {
                    let s = #[trigger] segs@[i]@;
                    &&& depth + 1 < s.len()
                    &&& s[depth as int]@ == segs@[0]@[depth as int]@
                    &&& !templated(s[depth as int + 1]@)
                }),
    {
        let shared = &segs[0][depth];
        let mut i: usize = 0;
        while i < segs.len()
            invariant
                segs@.len() > 0,
                depth < segs@[0]@.len(),
                shared@ == segs@[0]@[depth as int]@,
                i <= segs.len(),
                forall|k: int|
                    0 <= k < i ==> {
                        let s = #[trigger] segs@[k]@;
                        &&& depth + 1 < s.len()
                        &&& s[depth as int]@ == segs@[0]@[depth as int]@
                        &&& !templated(s[depth as int + 1]@)
                    },
            decreases segs.len() - i,
        {
            let here = &segs[i];
            if !(here.len() > 0 && depth < here.len() - 1 && crate::text::same_chars(
                here[depth].as_slice(),
                shared.as_slice(),
            ) && !is_templated(here[depth + 1].as_slice())) {
                assert(!({
                    let s = segs@[i as int]@;
                    &&& depth + 1 < s.len()
                    &&& s[depth as int]@ == segs@[0]@[depth as int]@
                    &&& !templated(s[depth as int + 1]@)
                }));
                return false;
            }
            i += 1;
        }
        true
    }

    /// The group `path` belongs to: its segment at this depth, or the whole
    /// path where it has none there.
    pub fn group(&self, path: &str) -> (r: Result<CommandName, NameError>)
        ensures
            ({
                let segs = segments(path@);
                let raw = if self.depth() < segs.len() {
                    segs[self.depth() as int]
                } else {
                    path@
                };
                &&& r is Ok <==> kebab_of(raw).len() > 0
                &&& r matches Ok(name) ==> name@ == kebab_of(raw)
                &&& r matches Err(e) ==> e.origin == "path segment" && e.raw@ == raw
            }),
    {
        let chars = chars_of(path);
        let segs = segments_of(chars.as_slice());
        if self.depth < segs.len() {
            CommandName::from_chars("path segment", segs[self.depth].as_slice())
        } else {
            CommandName::from_chars("path segment", chars.as_slice())
        }
    }

    /// What one operation is called under its group: the last literal segment
    /// below the group, or — where the path has none left to spend — whatever
    /// its method makes of it.
    pub fn leaf(&self, path: &str, method: Method) -> (r: Result<CommandName, NameError>)
        ensures
            ({
                let segs = segments(path@);
                let raw = match last_literal(segs, self.depth() + 1int, segs.len() as int) {
                    Some(k) => segs[k],
                    None => verb_of(method, exists|k: int| 0 <= k < segs.len() && templated(#[trigger] segs[k])),
                };
                let origin: &str = if last_literal(segs, self.depth() + 1int, segs.len() as int) is Some {
                    "path segment"
                } else {
                    "method"
                };
                &&& r is Ok <==> kebab_of(raw).len() > 0
                &&& r matches Ok(name) ==> name@ == kebab_of(raw)
                &&& r matches Err(e) ==> e.origin == origin && e.raw@ == raw
            }),
    {
        let chars = chars_of(path);
        let segs = segments_of(chars.as_slice());
        let ghost sv = segments(path@);
        let mut upto: usize = segs.len();
        while upto > 0 && upto - 1 > self.depth && is_templated(segs[upto - 1].as_slice())
            invariant
                upto <= segs.len(),
                segs@.len() == sv.len(),
                forall|i: int| 0 <= i < segs@.len() ==> (#[trigger] segs@[i])@ == sv[i],
                last_literal(sv, self.depth + 1, sv.len() as int) == last_literal(
                    sv,
                    self.depth + 1,
                    upto as int,
                ),
            decreases upto,
        {
            upto -= 1;
        }
        if upto > 0 && upto - 1 > self.depth {
            return CommandName::from_chars("path segment", segs[upto - 1].as_slice());
        }
        let mut addressed = false;
        let mut k: usize = 0;
        while k < segs.len()
            invariant
                k <= segs.len(),
                segs@.len() == sv.len(),
                forall|i: int| 0 <= i < segs@.len() ==> (#[trigger] segs@[i])@ == sv[i],
                addressed == exists|i: int| 0 <= i < k && templated(#[trigger] sv[i]),
            decreases segs.len() - k,
        {
            if is_templated(segs[k].as_slice()) {
                addressed = true;
            }
            k += 1;
        }
        let word = chars_of(verb(method, addressed));
        CommandName::from_chars("method", word.as_slice())
    }
}

} // verus!

verus! {

// ---------------------------------------------------------------------------
// One subcommand's flags
// ---------------------------------------------------------------------------

/// A word the command line spends on saying yes, and what it says yes to.
///
/// Both are typed by a person in order to let something irreversible happen, so
/// neither may be quietly answered by a flag that carries data.
#[derive(Debug, Clone, Copy, PartialEq, Eq, Structural)]
pub enum Protected {
    /// The confirmation. Its spelling is the adopter's, so the way out is to
    /// choose another one.
    Commit,
    /// One of the operation's named gates. Its spelling is the document's own
    /// correction layer, so the way out is to rename it there.
    Gate,
}

/// A document name that wanted a word the command line had already spent on
/// saying yes.
#[derive(Debug, Clone, PartialEq, Eq)]
pub struct Clash {
    /// The word both of them wanted.
    pub word: String,
    /// Which kind of yes it is, and so which way out the refusal offers.
    pub kind: Protected,
}

/// The `k`th name a claim for `preferred` tries: the name itself, then
/// `prefix-preferred`, then `prefix-preferred-3`, `prefix-preferred-4`, ….
pub open spec fn candidate(preferred: Seq<char>, prefix: Seq<char>, k: nat) -> Seq<char> {
    if k == 0 {
        preferred
    } else if k == 1 {
        prefix + seq!['-'] + preferred
    } else {
        prefix + seq!['-'] + preferred + seq!['-'] + crate::text::decimal(k + 1)
    }
}

/// The flag names one subcommand has already spent.
///
/// `PUT /vouchers/{id}` takes an `id` in the path and an `id` in the body; clap
/// panics on a duplicate name, so the second claimant is prefixed rather than
/// dropped.
#[derive(Debug)]
pub struct Namespace {
    /// Every flag this subcommand has spent, guarded words included.
    taken: Vec<String>,
    /// The words a document name may not take over, and why each is guarded.
    guarded: Vec<(String, Protected)>,
}

/// What one claim does: a guarded `preferred` is refused with the first
/// guard that names it and nothing is spent; any other gets the first
/// candidate not yet spent, which is then spent. The guards never change.
pub open spec fn claims(
    before: Namespace,
    after: Namespace,
    preferred: Seq<char>,
    prefix: Seq<char>,
    r: Result<String, Clash>,
) -> bool {
    let g = before.guarded();
    &&& after.guarded() == g
    &&& match r {
        Err(clash) => exists|i: int|
            0 <= i < g.len() && g[i].0 == preferred && clash.word@ == g[i].0 && clash.kind
                == g[i].1 && (forall|j: int| 0 <= j < i ==> (#[trigger] g[j]).0 != preferred)
                && after.taken() == before.taken(),
        Ok(name) => (forall|i: int| 0 <= i < g.len() ==> (#[trigger] g[i]).0 != preferred)
            && exists|n: nat|
            name@ == candidate(preferred, prefix, n) && !before.taken().contains(name@) && (forall|
                k: nat,
            | k < n ==> before.taken().contains(#[trigger] candidate(preferred, prefix, k)))
                && after.taken() == before.taken().push(name@),
    }
}

/// Whether every guarded word of a namespace is among its spent flags.
pub open spec fn guards_spent(ns: Namespace) -> bool {
    forall|i: int| 0 <= i < ns.guarded().len() ==> ns.taken().contains(#[trigger] ns.guarded()[i].0)
}

/// A namespace starts with its guarded words spent, and a claim keeps them
/// spent; since a claim hands out only a flag not yet spent, no guarded word
/// is ever handed out, however many claims came before.
pub proof fn lemma_guarded_never_handed_out(
    before: Namespace,
    after: Namespace,
    preferred: Seq<char>,
    prefix: Seq<char>,
    r: Result<String, Clash>,
)
    requires
        guards_spent(before),
        claims(before, after, preferred, prefix, r),
    ensures
        guards_spent(after),
        r matches Ok(name) ==> forall|i: int| 0 <= i < after.guarded().len() ==> (#[trigger] after.guarded()[i]).0 != name@,
{
    assert forall|i: int| 0 <= i < after.guarded().len() implies after.taken().contains(#[trigger] after.guarded()[i].0) by {
        assert(before.taken().contains(before.guarded()[i].0));
        if r is Ok {
            let k = choose|k: int| 0 <= k < before.taken().len() && before.taken()[k] == before.guarded()[i].0;
            assert(after.taken()[k] == before.taken()[k]);
        }
    }
    if r is Ok {
        assert forall|i: int| 0 <= i < after.guarded().len() implies (#[trigger] after.guarded()[i]).0 != r->Ok_0@ by {
            assert(before.taken().contains(before.guarded()[i].0));
        }
    }
}

impl Namespace {
    /// Every guarded word is among the spent flags, from the start and after
    /// every claim.
    #[verifier::type_invariant]
    spec fn guards_kept(self) -> bool {
        guards_spent(self)
    }

    /// Every flag spent so far, in the order it was spent.
    pub closed spec fn taken(&self) -> Seq<Seq<char>> {
        self.taken@.map_values(|s: String| s@)
    }

    /// The guarded words, and why each is guarded.
    pub closed spec fn guarded(&self) -> Seq<(Seq<char>, Protected)> {
        self.guarded@.map_values(|g: (String, Protected)| (g.0@, g.1))
    }

    /// Start with the CLI's own flags already spent, and with the words that
    /// may not be renamed around at all.
    ///
    /// The flags that carry a request's *data* move aside for each other. The
    /// words that carry a person's *consent* do not: a `--commit` that
    /// silently became `--body-commit` is a confirmation nobody typed.
    pub fn guarding(guarded: &[(&str, Protected)], reserved: &[&str]) -> (r: Self)
        ensures
            r.guarded() == guarded@.map_values(|g: (&str, Protected)| (g.0@, g.1)),
            r.taken() == guarded@.map_values(|g: (&str, Protected)| g.0@) + reserved@.map_values(
                |w: &str| w@,
            ),
            guards_spent(r),
    {
        let mut taken: Vec<String> = Vec::new();
        let mut kept: Vec<(String, Protected)> = Vec::new();
        let mut i: usize = 0;
        while i < guarded.len()
            invariant
                i <= guarded.len(),
                taken@.len() == i,
                kept@.len() == i,
                forall|k: int| 0 <= k < i ==> (#[trigger] taken@[k])@ == guarded@[k].0@,
                forall|k: int|
                    0 <= k < i ==> (#[trigger] kept@[k]).0@ == guarded@[k].0@ && kept@[k].1
                        == guarded@[k].1,
            decreases guarded.len() - i,
        {
            let word: &str = guarded[i].0;
            let kind = guarded[i].1;
            taken.push(word.to_owned());
            kept.push((word.to_owned(), kind));
            i += 1;
        }
        let mut j: usize = 0;
        while j < reserved.len()
            invariant
                j <= reserved.len(),
                taken@.len() == guarded.len() + j,
                forall|k: int| 0 <= k < guarded.len() ==> (#[trigger] taken@[k])@ == guarded@[k].0@,
                forall|k: int|
                    0 <= k < j ==> (#[trigger] taken@[guarded.len() + k])@ == reserved@[k]@,
            decreases reserved.len() - j,
        {
            taken.push(reserved[j].to_owned());
            j += 1;
        }
        proof {
            let spent = taken@.map_values(|s: String| s@);
            let kept_words = kept@.map_values(|g: (String, Protected)| (g.0@, g.1));
            assert forall|i: int| 0 <= i < kept_words.len() implies spent.contains(
                #[trigger] kept_words[i].0,
            ) by {
                assert(spent[i] == kept_words[i].0);
            }
        }
        let r = Namespace { taken, guarded: kept };
        proof {
            let lhs = r.taken();
            let rhs = guarded@.map_values(|g: (&str, Protected)| g.0@) + reserved@.map_values(
                |w: &str| w@,
            );
            assert forall|k: int| 0 <= k < lhs.len() implies lhs[k] == rhs[k] by {
                if k >= guarded.len() {
                    assert(taken@[guarded.len() + (k - guarded.len())]@ == reserved@[k
                        - guarded.len()]@);
                }
            }
            assert(lhs =~= rhs);
            assert(r.guarded() =~= guarded@.map_values(|g: (&str, Protected)| (g.0@, g.1)));
        }
        r
    }

    /// The flag to use: `preferred` when it is free, otherwise prefixed —
    /// `prefix-preferred`, then `prefix-preferred-3`, and so on, whichever is
    /// free first.
    ///
    /// A `preferred` that is one of the guarded words is refused rather than
    /// prefixed, and nothing is spent.
    pub fn claim(&mut self, preferred: &str, prefix: &str) -> (r: Result<String, Clash>)
        ensures
            claims(*old(self), *final(self), preferred@, prefix@, r),
            guards_spent(*final(self)),
            r matches Ok(name) ==> forall|i: int|
                0 <= i < final(self).guarded().len() ==> (#[trigger] final(self).guarded()[i]).0
                    != name@,
    {
        proof {
            use_type_invariant(&*self);
        }
        let want = chars_of(preferred);
        let mut g: usize = 0;
        while g < self.guarded.len()
            invariant
                g <= self.guarded@.len(),
                want@ == preferred@,
                forall|j: int| 0 <= j < g ==> (#[trigger] self.guarded()[j]).0 != preferred@,
                self.guarded().len() == self.guarded@.len(),
                guards_spent(*self),
            decreases self.guarded.len() - g,
        {
            let word = chars_of(self.guarded[g].0.as_str());
            if crate::text::same_chars(word.as_slice(), want.as_slice()) {
                let clash = Clash { word: self.guarded[g].0.clone(), kind: self.guarded[g].1 };
                proof {
                    assert(self.guarded()[g as int].0 == preferred@);
                }
                return Err(clash);
            }
            proof {
                assert(self.guarded()[g as int].0 == word@);
            }
            g += 1;
        }
        let pre = chars_of(prefix);
        let ghost taken_set = self.taken().to_set();
        proof {
            vstd::seq_lib::seq_to_set_is_finite(self.taken());
            self.taken().lemma_cardinality_of_set();
        }
        let mut cand: Vec<char> = chars_of(preferred);
        let count = self.taken.len();
        let mut n: usize = 0;
        let ghost mut tried: Set<Seq<char>> = Set::empty();
        while self.is_taken(cand.as_slice())
            invariant
                want@ == preferred@,
                pre@ == prefix@,
                taken_set == self.taken().to_set(),
                taken_set.finite(),
                taken_set.len() <= self.taken@.len(),
                count == self.taken@.len(),
                self.taken().len() == self.taken@.len(),
                cand@ == candidate(preferred@, prefix@, n as nat),
                tried.finite(),
                tried.len() == n,
                tried.subset_of(taken_set),
                forall|k: nat| k < n ==> tried.contains(#[trigger] candidate(preferred@, prefix@, k)),
                forall|t: Seq<char>|
                    tried.contains(t) ==> exists|k: nat|
                        k < n && t == #[trigger] candidate(preferred@, prefix@, k),
            decreases taken_set.difference(tried).len(),
        {
            proof {
                let c = candidate(preferred@, prefix@, n as nat);
                assert(taken_set.contains(c));
                if tried.contains(c) {
                    let k = choose|k: nat| k < n && c == #[trigger] candidate(preferred@, prefix@, k);
                    lemma_candidates_differ(preferred@, prefix@, k, n as nat);
                }
                let rest = taken_set.difference(tried);
                vstd::set_lib::lemma_set_subset_finite(taken_set, rest);
                assert(taken_set.difference(tried.insert(c)) =~= rest.remove(c));
                vstd::set::axiom_set_remove_len(rest, c);
                vstd::set::axiom_set_insert_len(tried, c);
                vstd::set::axiom_set_insert_finite(tried, c);
                tried = tried.insert(c);
                vstd::set_lib::lemma_len_subset(tried, taken_set);
                assert(n + 1 <= self.taken@.len());
                assert forall|t: Seq<char>| tried.contains(t) implies exists|k: nat|
                    k < n + 1 && t == #[trigger] candidate(preferred@, prefix@, k) by {
                    if t != c {
                        let k = choose|k: nat| k < n && t == #[trigger] candidate(preferred@, prefix@, k);
                        assert(k < n + 1);
                    } else {
                        assert(candidate(preferred@, prefix@, n as nat) == t);
                    }
                }
            }
            n += 1;
            cand = build_candidate(&want, &pre, n);
        }
        proof {
            assert forall|k: nat| k < n implies self.taken().contains(
                #[trigger] candidate(preferred@, prefix@, k),
            ) by {
                assert(tried.contains(candidate(preferred@, prefix@, k)));
            }
        }
        let name = string_of(cand.as_slice());
        let kept = string_of(cand.as_slice());
        let mut held = Namespace { taken: Vec::new(), guarded: Vec::new() };
        std::mem::swap(self, &mut held);
        let Namespace { taken: mut spent, guarded } = held;
        spent.push(kept);
        proof {
            let grown = spent@.map_values(|s: String| s@);
            assert(grown =~= old(self).taken().push(name@));
            assert forall|i: int| 0 <= i < old(self).guarded().len() implies grown.contains(
                #[trigger] old(self).guarded()[i].0,
            ) by {
                let k = choose|k: int|
                    0 <= k < old(self).taken().len() && old(self).taken()[k]
                        == old(self).guarded()[i].0;
                assert(grown[k] == old(self).taken()[k]);
            }
        }
        *self = Namespace { taken: spent, guarded };
        proof {
            lemma_guarded_never_handed_out(*old(self), *self, preferred@, prefix@, Ok(name));
        }
        Ok(name)
    }

    /// Whether `name` is spent already.
    fn is_taken(&self, name: &[char]) -> (r: bool)
        ensures
            r == self.taken().contains(name@),
    {
        let mut i: usize = 0;
        while i < self.taken.len()
            invariant
                i <= self.taken@.len(),
                self.taken().len() == self.taken@.len(),
                forall|j: int| 0 <= j < i ==> (#[trigger] self.taken()[j]) != name@,
            decreases self.taken.len() - i,
        {
            let spent = chars_of(self.taken[i].as_str());
            if crate::text::same_chars(spent.as_slice(), name) {
                assert(self.taken()[i as int] == name@);
                return true;
            }
            assert(self.taken()[i as int] == spent@);
            i += 1;
        }
        false
    }
}

/// The `k`th candidate, spelled out.
fn build_candidate(preferred: &Vec<char>, prefix: &Vec<char>, k: usize) -> (out: Vec<char>)
    ensures
        out@ == candidate(preferred@, prefix@, k as nat),
{
    if k == 0 {
        let mut out: Vec<char> = Vec::new();
        crate::text::append_chars(&mut out, preferred.as_slice());
        assert(out@ =~= preferred@);
        return out;
    }
    let mut out: Vec<char> = Vec::new();
    crate::text::append_chars(&mut out, prefix.as_slice());
    out.push('-');
    crate::text::append_chars(&mut out, preferred.as_slice());
    if k > 1 {
        out.push('-');
        let digits = crate::text::decimal_of((k as u128) + 1);
        crate::text::append_chars(&mut out, digits.as_slice());
    }
    proof {
        if k > 1 {
            assert(out@ =~= prefix@ + seq!['-'] + preferred@ + seq!['-'] + crate::text::decimal(
                (k + 1) as nat,
            ));
        } else {
            assert(out@ =~= prefix@ + seq!['-'] + preferred@);
        }
    }
    out
}

/// No two candidates for one claim are spelled alike.
proof fn lemma_candidates_differ(p: Seq<char>, x: Seq<char>, j: nat, k: nat)
    requires
        j != k,
    ensures
        candidate(p, x, j) != candidate(p, x, k),
{
    crate::text::lemma_decimal_digits(j + 1);
    crate::text::lemma_decimal_digits(k + 1);
    if j >= 2 && k >= 2 {
        let base = x + seq!['-'] + p + seq!['-'];
        let cj = candidate(p, x, j);
        let ck = candidate(p, x, k);
        if cj == ck {
            assert(cj.skip(base.len() as int) =~= crate::text::decimal(j + 1));
            assert(ck.skip(base.len() as int) =~= crate::text::decimal(k + 1));
            crate::text::lemma_decimal_injective(j + 1, k + 1);
        }
    } else {
        assert(candidate(p, x, j).len() != candidate(p, x, k).len());
    }
}

} // verus!
