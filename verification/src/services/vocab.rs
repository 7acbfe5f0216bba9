//! Vocabulary hints: rare, name-like terms taken from the screen, plus a
//! per-user store of terms seen in earlier sessions.
use vstd::prelude::*;

use crate::domain::{take_at_most, ScreenContext};
use crate::services::vocab_laws::{lemma_count_terms_totals, lemma_store_keys_distinct};
use crate::text::{
    ascii_lower_seq, char_alphabetic, char_alphanumeric, char_lowercase, char_uppercase,
    chars_eq, chars_eq_str, chars_of, is_alphabetic, is_alphanumeric, is_ascii_char, is_ascii_digit, is_digit_char,
    is_lowercase, is_uppercase, is_whitespace, is_ws, lemma_split_by_nonempty,
    lemma_trim_end_stop, lemma_trim_end_take, lemma_trim_start_skip, lemma_trim_start_stop,
    slice_chars, split_by, char_pred, string_from_chars, decimal, decimal_chars, push_chars, push_str, parse_usize, parse_usize_spec, trim_whitespace, trim_ws, to_lowercase, lowercase, to_ascii_lower_chars, trim_by,
};

verus! {

/// Maximum number of vocabulary terms that one screen contributes.
pub const MAX_TERMS: usize = 32;

/// Maximum number of entries written to the vocabulary store.
pub const MAX_STORED_TERMS: usize = 2000;

// ───────────────────────── tokens ─────────────────────────

/// Characters that separate candidate terms on screen.
pub open spec fn is_term_separator(c: char) -> bool {
    is_ws(c) || c == ',' || c == '.' || c == '!' || c == '?' || c == ';' || c == ':' || c == '('
        || c == ')' || c == '[' || c == ']' || c == '"'
}

pub open spec fn separator_pred() -> spec_fn(char) -> bool {
    |c: char| is_term_separator(c)
}

/// Characters stripped from both ends of a token.
pub open spec fn is_token_edge(c: char) -> bool {
    !char_alphanumeric(c) && c != '@' && c != '_'
}

pub open spec fn token_edge_pred() -> spec_fn(char) -> bool {
    |c: char| is_token_edge(c)
}

pub open spec fn trim_token(t: Seq<char>) -> Seq<char> {
    trim_by(t, token_edge_pred())
}

/// The character sequences of a sequence of character vectors.
pub open spec fn views(v: Seq<Vec<char>>) -> Seq<Seq<char>> {
    v.map_values(|x: Vec<char>| x@)
}

/// The strings' character sequences.
pub open spec fn string_views(v: Seq<String>) -> Seq<Seq<char>> {
    v.map_values(|x: String| x@)
}

fn is_separator_char(c: char) -> (b: bool)
    ensures
        b == is_term_separator(c),
{
    is_whitespace(c) || c == ',' || c == '.' || c == '!' || c == '?' || c == ';' || c == ':' || c
        == '(' || c == ')' || c == '[' || c == ']' || c == '"'
}

fn is_edge_char(c: char) -> (b: bool)
    ensures
        b == is_token_edge(c),
{
    !is_alphanumeric(c) && c != '@' && c != '_'
}

/// Splits `v` at separator characters, keeping empty pieces, and appends the
/// pieces to `out`.
fn split_terms_into(v: &Vec<char>, out: &mut Vec<Vec<char>>)
    ensures
        views(final(out)@) == views(old(out)@) + split_by(v@, separator_pred()),
{
    let ghost start = views(out@);
    let mut cur: Vec<char> = Vec::new();
    let mut i: usize = 0;
    while i < v.len()
        invariant
            i <= v.len(),
            split_by(v@.take(i as int), separator_pred()).len() >= 1,
            split_by(v@.take(i as int), separator_pred()).last() == cur@,
            views(out@) == start + split_by(v@.take(i as int), separator_pred()).drop_last(),
        decreases v.len() - i,
    {
        let ghost prev = split_by(v@.take(i as int), separator_pred());
        let c = v[i];
        assert(v@.take(i + 1).drop_last() =~= v@.take(i as int));
        assert(v@.take(i + 1).last() == c);
        if is_separator_char(c) {
            assert(split_by(v@.take(i + 1), separator_pred()) == prev.push(Seq::empty()));
            let ghost old_out = out@;
            let piece = cur;
            out.push(piece);
            cur = Vec::new();
            assert(views(out@) =~= views(old_out).push(prev.last()));
            assert(prev.push(Seq::empty()).drop_last() =~= prev);
            assert(prev =~= prev.drop_last().push(prev.last()));
            assert(views(out@) =~= start + prev.push(Seq::empty()).drop_last());
        } else {
            let ghost next = prev.update(prev.len() - 1, prev.last().push(c));
            assert(split_by(v@.take(i + 1), separator_pred()) == next);
            assert(next.drop_last() =~= prev.drop_last());
            cur.push(c);
        }
        i += 1;
        proof {
            lemma_split_by_nonempty(v@.take(i as int), separator_pred());
        }
    }
    assert(v@.take(v.len() as int) =~= v@);
    let ghost all = split_by(v@, separator_pred());
    let ghost old_out = out@;
    out.push(cur);
    assert(views(out@) =~= views(old_out).push(all.last()));
    assert(views(out@) =~= start + all.drop_last().push(all.last()));
    assert(all.drop_last().push(all.last()) =~= all);
}

fn trim_token_chars(v: &Vec<char>) -> (r: Vec<char>)
    ensures
        r@ == trim_token(v@),
{
    let ghost p = token_edge_pred();
    let mut start: usize = 0;
    while start < v.len() && is_edge_char(v[start])
        invariant
            start <= v.len(),
            forall|j: int| 0 <= j < start ==> is_token_edge(#[trigger] v@[j]),
        decreases v.len() - start,
    {
        start += 1;
    }
    proof {
        lemma_trim_start_skip(v@, p, start as int);
        lemma_trim_start_stop(v@.skip(start as int), p);
    }
    let mut end: usize = v.len();
    while end > start && is_edge_char(v[end - 1])
        invariant
            start <= end <= v.len(),
            forall|j: int| end <= j < v.len() ==> is_token_edge(#[trigger] v@[j]),
        decreases end,
    {
        end -= 1;
    }
    let ghost mid = v@.skip(start as int);
    proof {
        assert forall|j: int| (end - start) <= j < mid.len() implies p(#[trigger] mid[j]) by {
            assert(mid[j] == v@[j + start]);
        }
        lemma_trim_end_take(mid, p, end - start);
        lemma_trim_end_stop(mid.take(end - start), p);
    }
    let r = slice_chars(v, start, end);
    assert(r@ =~= mid.take(end - start));
    r
}

// ───────────────────────── interesting tokens ─────────────────────────

pub open spec fn count_where(s: Seq<char>, p: spec_fn(char) -> bool) -> nat {
    s.filter(p).len()
}

pub open spec fn any_where(s: Seq<char>, p: spec_fn(char) -> bool) -> bool {
    exists|i: int| 0 <= i < s.len() && p(#[trigger] s[i])
}

pub open spec fn non_ascii_pred() -> spec_fn(char) -> bool {
    |c: char| !is_ascii_char(c)
}

pub open spec fn alphabetic_pred() -> spec_fn(char) -> bool {
    |c: char| char_alphabetic(c)
}

pub open spec fn digit_pred() -> spec_fn(char) -> bool {
    |c: char| is_digit_char(c)
}

/// Whether some character after the first one is an uppercase letter.
pub open spec fn upper_after_first(t: Seq<char>) -> bool {
    exists|i: int| 1 <= i < t.len() && char_uppercase(#[trigger] t[i])
}

pub open spec fn lower_pred() -> spec_fn(char) -> bool {
    |c: char| char_lowercase(c)
}

/// Frequent English words that are never worth a vocabulary slot, compared
/// ASCII-case-insensitively.
pub open spec fn is_common_word_spec(t: Seq<char>) -> bool {
    let w = ascii_lower_seq(t);
    ||| w == "the"@
    ||| w == "this"@
    ||| w == "that"@
    ||| w == "these"@
    ||| w == "those"@
    ||| w == "with"@
    ||| w == "from"@
    ||| w == "your"@
    ||| w == "there"@
    ||| w == "their"@
    ||| w == "they"@
    ||| w == "them"@
    ||| w == "what"@
    ||| w == "when"@
    ||| w == "where"@
    ||| w == "which"@
    ||| w == "while"@
    ||| w == "would"@
    ||| w == "could"@
    ||| w == "should"@
    ||| w == "have"@
    ||| w == "here"@
    ||| w == "about"@
    ||| w == "into"@
    ||| w == "over"@
    ||| w == "under"@
    ||| w == "after"@
    ||| w == "before"@
    ||| w == "again"@
}

/// A token worth biasing the speech model towards: non-ASCII words, handles,
/// letter-digit mixes, mixed case, and capitalized uncommon words.
pub open spec fn is_interesting_spec(t: Seq<char>) -> bool {
    if t.len() < 2 {
        false
    } else if any_where(t, non_ascii_pred()) && any_where(t, alphabetic_pred()) {
        true
    } else if t[0] == '@' && t.len() >= 3 {
        true
    } else if any_where(t, alphabetic_pred()) && any_where(t, digit_pred()) {
        true
    } else if upper_after_first(t) && count_where(t, lower_pred()) >= 1 {
        true
    } else {
        char_uppercase(t[0]) && count_where(t, lower_pred()) >= 3 && !is_common_word_spec(t)
    }
}

pub open spec fn interesting_pred() -> spec_fn(Seq<char>) -> bool {
    |t: Seq<char>| is_interesting_spec(t)
}

/// Whether `t` is one of the common English words, ignoring ASCII case.
pub fn is_common_word(t: &Vec<char>) -> (b: bool)
    ensures
        b == is_common_word_spec(t@),
{
    let w = to_ascii_lower_chars(t);
    chars_eq_str(&w, "the") || chars_eq_str(&w, "this") || chars_eq_str(&w, "that")
        || chars_eq_str(&w, "these") || chars_eq_str(&w, "those") || chars_eq_str(&w, "with")
        || chars_eq_str(&w, "from") || chars_eq_str(&w, "your") || chars_eq_str(&w, "there")
        || chars_eq_str(&w, "their") || chars_eq_str(&w, "they") || chars_eq_str(&w, "them")
        || chars_eq_str(&w, "what") || chars_eq_str(&w, "when") || chars_eq_str(&w, "where")
        || chars_eq_str(&w, "which") || chars_eq_str(&w, "while") || chars_eq_str(&w, "would")
        || chars_eq_str(&w, "could") || chars_eq_str(&w, "should") || chars_eq_str(&w, "have")
        || chars_eq_str(&w, "here") || chars_eq_str(&w, "about") || chars_eq_str(&w, "into")
        || chars_eq_str(&w, "over") || chars_eq_str(&w, "under") || chars_eq_str(&w, "after")
        || chars_eq_str(&w, "before") || chars_eq_str(&w, "again")
}

/// Counts of the properties that `is_interesting` looks at.
struct TokenStats {
    has_non_ascii: bool,
    has_alphabetic: bool,
    has_digit: bool,
    upper_after_first: bool,
    lower: usize,
}

fn token_stats(t: &Vec<char>) -> (s: TokenStats)
    ensures
        s.has_non_ascii == any_where(t@, non_ascii_pred()),
        s.has_alphabetic == any_where(t@, alphabetic_pred()),
        s.has_digit == any_where(t@, digit_pred()),
        s.upper_after_first == upper_after_first(t@),
        s.lower == count_where(t@, lower_pred()),
{
    let mut st = TokenStats {
        has_non_ascii: false,
        has_alphabetic: false,
        has_digit: false,
        upper_after_first: false,
        lower: 0,
    };
    let mut i: usize = 0;
    while i < t.len()
        invariant
            i <= t.len(),
            st.has_non_ascii == any_where(t@.take(i as int), non_ascii_pred()),
            st.has_alphabetic == any_where(t@.take(i as int), alphabetic_pred()),
            st.has_digit == any_where(t@.take(i as int), digit_pred()),
            st.upper_after_first == exists|k: int| 1 <= k < i && char_uppercase(#[trigger] t@[k]),
            st.lower == count_where(t@.take(i as int), lower_pred()),
            st.lower <= i,
        decreases t.len() - i,
    {
        let c = t[i];
        let ghost pre = t@.take(i as int);
        let ghost post = t@.take(i + 1);
        assert(post =~= pre.push(c));
        proof {
            pre.lemma_filter_push(c, lower_pred());
            assert(post[i as int] == c);
            assert forall|p: spec_fn(char) -> bool| any_where(post, p) == (any_where(pre, p) || p(c)) by {
                if any_where(pre, p) {
                    let k = choose|k: int| 0 <= k < pre.len() && p(#[trigger] pre[k]);
                    assert(post[k] == pre[k]);
                }
                if any_where(post, p) && !p(c) {
                    let k = choose|k: int| 0 <= k < post.len() && p(#[trigger] post[k]);
                    assert(k < i);
                    assert(pre[k] == post[k]);
                }
            }
        }
        if !(c as u32 <= 0x7f) {
            st.has_non_ascii = true;
        }
        if is_alphabetic(c) {
            st.has_alphabetic = true;
        }
        if is_ascii_digit(c) {
            st.has_digit = true;
        }
        if i >= 1 && is_uppercase(c) {
            st.upper_after_first = true;
        }
        if is_lowercase(c) {
            st.lower = st.lower + 1;
        }
        i += 1;
    }
    assert(t@.take(t.len() as int) =~= t@);
    st
}

/// Whether a trimmed token is worth a vocabulary slot.
pub fn is_interesting(t: &Vec<char>) -> (b: bool)
    ensures
        b == is_interesting_spec(t@),
{
    if t.len() < 2 {
        return false;
    }
    let st = token_stats(t);
    if st.has_non_ascii && st.has_alphabetic {
        return true;
    }
    if t[0] == '@' && t.len() >= 3 {
        return true;
    }
    if st.has_alphabetic && st.has_digit {
        return true;
    }
    if st.upper_after_first && st.lower >= 1 {
        return true;
    }
    is_uppercase(t[0]) && st.lower >= 3 && !is_common_word(t)
}


// ───────────────────────── counting terms ─────────────────────────

/// A counted term: how often it was seen, its lowercase key, and its
/// spelling when first seen.
pub type TermEntry = (nat, Seq<char>, Seq<char>);

/// The index of the first entry with key `k`, or -1.
pub open spec fn first_key_index(t: Seq<TermEntry>, k: Seq<char>) -> int
    decreases t.len(),
{
    if t.len() == 0 {
        -1
    } else {
        let r = first_key_index(t.drop_last(), k);
        if r >= 0 {
            r
        } else if t.last().1 == k {
            t.len() - 1
        } else {
            -1
        }
    }
}

/// Counts one more sighting of `term`: its entry's count goes up by one, or a
/// new entry with count 1 is appended.
pub open spec fn count_term(t: Seq<TermEntry>, term: Seq<char>) -> Seq<TermEntry> {
    let k = lowercase(term);
    let j = first_key_index(t, k);
    if j >= 0 {
        t.update(j, (t[j].0 + 1, t[j].1, t[j].2))
    } else {
        t.push((1nat, k, term))
    }
}

/// `count_term` for each of `terms`, in order, starting from `t`.
pub open spec fn count_terms(t: Seq<TermEntry>, terms: Seq<Seq<char>>) -> Seq<TermEntry>
    decreases terms.len(),
{
    if terms.len() == 0 {
        t
    } else {
        count_term(count_terms(t, terms.drop_last()), terms.last())
    }
}

/// The first index whose count is below `c`, or the length.
pub open spec fn first_smaller(s: Seq<TermEntry>, c: nat) -> int
    decreases s.len(),
{
    if s.len() == 0 {
        0
    } else {
        let r = first_smaller(s.drop_last(), c);
        if r < s.len() - 1 {
            r
        } else if s.last().0 < c {
            s.len() - 1
        } else {
            s.len() as int
        }
    }
}

/// Stable sort by descending count: each entry, in order, goes after every
/// entry placed so far whose count is at least its own.
pub open spec fn sort_by_count(t: Seq<TermEntry>) -> Seq<TermEntry>
    decreases t.len(),
{
    if t.len() == 0 {
        t
    } else {
        let s = sort_by_count(t.drop_last());
        s.insert(first_smaller(s, t.last().0), t.last())
    }
}

/// The terms of `t`, most frequent first, ties in order of first sighting.
pub open spec fn ranked_terms(t: Seq<TermEntry>) -> Seq<Seq<char>> {
    sort_by_count(t).map_values(|e: TermEntry| e.2)
}

pub proof fn lemma_first_key_index(t: Seq<TermEntry>, k: Seq<char>)
    ensures
        -1 <= first_key_index(t, k) < t.len(),
        first_key_index(t, k) >= 0 ==> t[first_key_index(t, k)].1 == k,
        forall|i: int|
            0 <= i < t.len() && (first_key_index(t, k) < 0 || i < first_key_index(t, k))
                ==> #[trigger] t[i].1 != k,
    decreases t.len(),
{
    if t.len() > 0 {
        lemma_first_key_index(t.drop_last(), k);
        assert forall|i: int| 0 <= i < t.len() - 1 implies #[trigger] t[i] == t.drop_last()[i] by {}
    }
}

pub proof fn lemma_first_smaller(s: Seq<TermEntry>, c: nat)
    ensures
        0 <= first_smaller(s, c) <= s.len(),
        forall|i: int| 0 <= i < first_smaller(s, c) ==> (#[trigger] s[i]).0 >= c,
        first_smaller(s, c) < s.len() ==> s[first_smaller(s, c)].0 < c,
    decreases s.len(),
{
    if s.len() > 0 {
        lemma_first_smaller(s.drop_last(), c);
        assert forall|i: int| 0 <= i < s.len() - 1 implies #[trigger] s[i] == s.drop_last()[i] by {}
    }
}

pub proof fn lemma_sort_by_count_len(t: Seq<TermEntry>)
    ensures
        sort_by_count(t).len() == t.len(),
    decreases t.len(),
{
    if t.len() > 0 {
        lemma_sort_by_count_len(t.drop_last());
        lemma_first_smaller(sort_by_count(t.drop_last()), t.last().0);
    }
}

/// A counted term as the program holds it.
pub struct TermCount {
    pub count: usize,
    pub key: Vec<char>,
    pub term: Vec<char>,
}

pub open spec fn entry_view(e: TermCount) -> TermEntry {
    (e.count as nat, e.key@, e.term@)
}

pub open spec fn entries_view(v: Seq<TermCount>) -> Seq<TermEntry> {
    v.map_values(|e: TermCount| entry_view(e))
}

pub open spec fn counts_below(v: Seq<TermCount>, bound: nat) -> bool {
    forall|i: int| 0 <= i < v.len() ==> (#[trigger] v[i]).count < bound
}

fn find_key(entries: &Vec<TermCount>, key: &Vec<char>) -> (r: Option<usize>)
    ensures
        match r {
            Some(j) => first_key_index(entries_view(entries@), key@) == j as int,
            None => first_key_index(entries_view(entries@), key@) == -1,
        },
{
    let ghost t = entries_view(entries@);
    proof {
        lemma_first_key_index(t, key@);
    }
    let mut i: usize = 0;
    while i < entries.len()
        invariant
            i <= entries.len(),
            t == entries_view(entries@),
            forall|j: int| 0 <= j < i ==> (#[trigger] t[j]).1 != key@,
            -1 <= first_key_index(t, key@) < t.len(),
            first_key_index(t, key@) >= 0 ==> t[first_key_index(t, key@)].1 == key@,
            forall|j: int|
                0 <= j < t.len() && (first_key_index(t, key@) < 0 || j < first_key_index(
                    t,
                    key@,
                )) ==> #[trigger] t[j].1 != key@,
        decreases entries.len() - i,
    {
        if chars_eq(&entries[i].key, key) {
            assert(t[i as int].1 == key@);
            return Some(i);
        }
        assert(t[i as int].1 != key@);
        i += 1;
    }
    None
}

/// Adds one sighting of `term` to `entries`.
fn count_term_exec(entries: &mut Vec<TermCount>, term: &Vec<char>)
    requires
        counts_below(old(entries)@, usize::MAX as nat),
    ensures
        entries_view(final(entries)@) == count_term(entries_view(old(entries)@), term@),
        forall|i: int|
            0 <= i < final(entries)@.len() ==> (#[trigger] final(entries)@[i]).count <= (if i
                < old(entries)@.len() {
                old(entries)@[i].count + 1
            } else {
                1
            }),
        final(entries)@.len() <= old(entries)@.len() + 1,
{
    let ghost t = entries_view(entries@);
    let key = to_lowercase(term);
    proof {
        lemma_first_key_index(t, key@);
    }
    match find_key(entries, &key) {
        Some(j) => {
            let ghost before = entries@;
            assert(entry_view(before[j as int]) == t[j as int]);
            let e = entries.remove(j);
            assert(e == before[j as int]);
            let updated = TermCount { count: e.count + 1, key: e.key, term: e.term };
            entries.insert(j, updated);
            assert(entries_view(entries@) =~= t.update(j as int, (t[j as int].0 + 1, t[j as int].1, t[j as int].2)));
        },
        None => {
            let fresh = TermCount { count: 1, key: key, term: clone_chars(term) };
            entries.push(fresh);
            assert(entries_view(entries@) =~= t.push((1nat, lowercase(term@), term@)));
        },
    }
}

fn clone_chars(v: &Vec<char>) -> (r: Vec<char>)
    ensures
        r@ == v@,
{
    let r = v.clone();
    assert(r@ =~= v@);
    r
}

/// Stable sort of `entries` by descending count.
fn sort_entries(entries: Vec<TermCount>) -> (r: Vec<TermCount>)
    ensures
        entries_view(r@) == sort_by_count(entries_view(entries@)),
{
    let ghost orig = entries_view(entries@);
    let mut rest = entries;
    let mut sorted: Vec<TermCount> = Vec::new();
    let mut k: usize = 0;
    let n = rest.len();
    while rest.len() > 0
        invariant
            k + rest@.len() == n,
            n == orig.len(),
            entries_view(rest@) == orig.skip(k as int),
            entries_view(sorted@) == sort_by_count(orig.take(k as int)),
        decreases rest@.len(),
    {
        let ghost s = entries_view(sorted@);
        let ghost old_rest = rest@;
        let e = rest.remove(0);
        assert(rest@ == old_rest.drop_first());
        assert(e == old_rest[0]);
        assert(entries_view(old_rest)[0] == entry_view(old_rest[0]));
        assert(orig.skip(k as int)[0] == orig[k as int]);
        assert(entries_view(rest@) =~= entries_view(old_rest).drop_first());
        assert(orig.skip(k as int).drop_first() =~= orig.skip(k + 1));
        assert(entries_view(rest@) =~= orig.skip(k + 1));
        assert(entry_view(e) == orig[k as int]);
        let c = e.count;
        proof {
            lemma_first_smaller(s, c as nat);
        }
        let mut pos: usize = 0;
        while pos < sorted.len() && sorted[pos].count >= c
            invariant
                pos <= sorted.len(),
                s == entries_view(sorted@),
                forall|i: int| 0 <= i < pos ==> (#[trigger] s[i]).0 >= c,
                0 <= first_smaller(s, c as nat) <= s.len(),
                forall|i: int| 0 <= i < first_smaller(s, c as nat) ==> (#[trigger] s[i]).0 >= c,
                first_smaller(s, c as nat) < s.len() ==> s[first_smaller(s, c as nat)].0 < c,
            decreases sorted.len() - pos,
        {
            pos += 1;
        }
        proof {
            let fs = first_smaller(s, c as nat);
            if pos < sorted.len() {
                assert(s[pos as int] == entry_view(sorted@[pos as int]));
                assert(s[pos as int].0 < c);
            }
            if fs < pos {
                assert(s[fs].0 >= c);
            }
            if pos < fs {
                assert(s[pos as int].0 >= c);
            }
        }
        assert(pos == first_smaller(s, c as nat));
        sorted.insert(pos, e);
        assert(orig.take(k + 1).drop_last() =~= orig.take(k as int));
        assert(orig.take(k + 1).last() == orig[k as int]);
        assert(entries_view(sorted@) =~= s.insert(pos as int, entry_view(e)));
        k += 1;
    }
    assert(orig.take(n as int) =~= orig);
    sorted
}

// ───────────────────────── terms on screen ─────────────────────────

/// The pieces of one screen text; an empty text gives none.
pub open spec fn tokens_of(s: Seq<char>) -> Seq<Seq<char>> {
    if s.len() == 0 {
        seq![]
    } else {
        split_by(s, separator_pred())
    }
}

/// Raw tokens of the window title, the focused field and the visible text.
pub open spec fn screen_tokens(c: ScreenContext) -> Seq<Seq<char>> {
    tokens_of(c.window_title@) + tokens_of(c.focused_value_preview@) + tokens_of(
        c.visible_text@,
    )
}

/// Trimmed tokens that pass `is_interesting`.
pub open spec fn candidate_terms(toks: Seq<Seq<char>>) -> Seq<Seq<char>> {
    toks.map_values(|t: Seq<char>| trim_token(t)).filter(interesting_pred())
}

/// Up to `MAX_TERMS` interesting terms from the screen, most frequent first
/// (ties in order of first appearance), each spelled as first seen and
/// counted case-insensitively.
pub open spec fn extract_terms_spec(c: ScreenContext) -> Seq<Seq<char>> {
    take_at_most(
        ranked_terms(count_terms(seq![], candidate_terms(screen_tokens(c)))),
        MAX_TERMS as nat,
    )
}

fn push_source_tokens(out: &mut Vec<Vec<char>>, source: &String)
    ensures
        views(final(out)@) == views(old(out)@) + tokens_of(source@),
{
    if !source.as_str().is_empty() {
        let v = chars_of(source.as_str());
        split_terms_into(&v, out);
    } else {
        assert(views(out@) + tokens_of(source@) =~= views(out@));
    }
}

/// Candidate vocabulary terms from the text on screen: rare, name-like
/// tokens, counted case-insensitively, most frequent first.
pub fn extract_terms(context: &ScreenContext) -> (r: Vec<String>)
    ensures
        string_views(r@) == extract_terms_spec(*context),
{
    let mut toks: Vec<Vec<char>> = Vec::new();
    push_source_tokens(&mut toks, &context.window_title);
    push_source_tokens(&mut toks, &context.focused_value_preview);
    push_source_tokens(&mut toks, &context.visible_text);
    let ghost all = views(toks@);
    assert(all =~= screen_tokens(*context));
    let mut entries: Vec<TermCount> = Vec::new();
    let mut i: usize = 0;
    while i < toks.len()
        invariant
            i <= toks.len(),
            all == views(toks@),
            entries_view(entries@) == count_terms(seq![], candidate_terms(all.take(i as int))),
            counts_below(entries@, i as nat + 1),
            i < usize::MAX || i == toks.len(),
        decreases toks.len() - i,
    {
        let trimmed = trim_token_chars(&toks[i]);
        let ghost pre = all.take(i as int);
        let ghost mapped = pre.map_values(|t: Seq<char>| trim_token(t));
        assert(all.take(i + 1) =~= pre.push(all[i as int]));
        assert(all.take(i + 1).map_values(|t: Seq<char>| trim_token(t)) =~= mapped.push(trimmed@));
        proof {
            mapped.lemma_filter_push(trimmed@, interesting_pred());
        }
        if is_interesting(&trimmed) {
            let ghost before = entries@;
            count_term_exec(&mut entries, &trimmed);
            assert(candidate_terms(all.take(i + 1)) == candidate_terms(pre).push(trimmed@));
            assert(candidate_terms(all.take(i + 1)).drop_last() =~= candidate_terms(pre));
        } else {
            assert(candidate_terms(all.take(i + 1)) == candidate_terms(pre));
        }
        i += 1;
    }
    assert(all.take(toks.len() as int) =~= all);
    let sorted = sort_entries(entries);
    let ghost ranked = ranked_terms(count_terms(seq![], candidate_terms(all)));
    proof {
        lemma_sort_by_count_len(count_terms(seq![], candidate_terms(all)));
    }
    let mut out: Vec<String> = Vec::new();
    let mut j: usize = 0;
    while j < sorted.len() && j < MAX_TERMS
        invariant
            j <= sorted.len(),
            entries_view(sorted@) == sort_by_count(count_terms(seq![], candidate_terms(all))),
            ranked == ranked_terms(count_terms(seq![], candidate_terms(all))),
            ranked.len() == sorted@.len(),
            j <= MAX_TERMS,
            string_views(out@) == ranked.take(j as int),
        decreases sorted.len() - j,
    {
        assert(ranked[j as int] == entries_view(sorted@)[j as int].2);
        assert(entries_view(sorted@)[j as int] == entry_view(sorted@[j as int]));
        let s = string_from_chars(&sorted[j].term);
        let ghost old_out = out@;
        out.push(s);
        assert(string_views(out@) =~= string_views(old_out).push(s@));
        assert(ranked.take(j + 1) =~= ranked.take(j as int).push(ranked[j as int]));
        j += 1;
        assert(string_views(out@) =~= ranked.take(j as int));
    }
    assert(ranked.len() == sorted.len());
    assert(j == ranked.len() || j == MAX_TERMS);
    proof {
        if j == ranked.len() {
            assert(ranked.take(j as int) =~= ranked);
        }
    }
    assert(string_views(out@) =~= take_at_most(ranked, MAX_TERMS as nat));
    out
}


// ───────────────────────── the personal store ─────────────────────────

/// Distinct keys, each the lowercase form of its term.
pub open spec fn well_keyed(t: Seq<TermEntry>) -> bool {
    &&& forall|i: int, j: int| 0 <= i < j < t.len() ==> (#[trigger] t[i]).1 != (#[trigger] t[j]).1
    &&& forall|i: int| 0 <= i < t.len() ==> (#[trigger] t[i]).1 == lowercase(t[i].2)
}

/// Per-user vocabulary: how often each term was seen, across sessions.
pub struct PersonalVocab {
    entries: Vec<TermCount>,
}

impl View for PersonalVocab {
    type V = Seq<TermEntry>;

    closed spec fn view(&self) -> Seq<TermEntry> {
        entries_view(self.entries@)
    }
}

fn copy_entries(v: &Vec<TermCount>) -> (r: Vec<TermCount>)
    ensures
        entries_view(r@) == entries_view(v@),
{
    let mut out: Vec<TermCount> = Vec::new();
    let mut i: usize = 0;
    while i < v.len()
        invariant
            i <= v.len(),
            entries_view(out@) == entries_view(v@).take(i as int),
        decreases v.len() - i,
    {
        let e = TermCount { count: v[i].count, key: clone_chars(&v[i].key), term: clone_chars(&v[i].term) };
        let ghost old_out = out@;
        out.push(e);
        assert(entries_view(out@) =~= entries_view(old_out).push(entry_view(e)));
        assert(entries_view(v@)[i as int] == entry_view(v@[i as int]));
        assert(entries_view(v@).take(i + 1) =~= entries_view(v@).take(i as int).push(entries_view(v@)[i as int]));
        i += 1;
    }
    assert(entries_view(v@).take(v.len() as int) =~= entries_view(v@));
    out
}

/// The first `limit` terms of a sorted entry list.
fn first_terms(sorted: &Vec<TermCount>, limit: usize) -> (r: Vec<String>)
    ensures
        string_views(r@) == take_at_most(entries_view(sorted@).map_values(|e: TermEntry| e.2), limit as nat),
{
    let ghost terms = entries_view(sorted@).map_values(|e: TermEntry| e.2);
    let mut out: Vec<String> = Vec::new();
    let mut j: usize = 0;
    while j < sorted.len() && j < limit
        invariant
            j <= sorted.len(),
            j <= limit,
            terms == entries_view(sorted@).map_values(|e: TermEntry| e.2),
            string_views(out@) == terms.take(j as int),
        decreases sorted.len() - j,
    {
        assert(terms[j as int] == entries_view(sorted@)[j as int].2);
        assert(entries_view(sorted@)[j as int] == entry_view(sorted@[j as int]));
        let s = string_from_chars(&sorted[j].term);
        let ghost old_out = out@;
        out.push(s);
        assert(string_views(out@) =~= string_views(old_out).push(s@));
        assert(terms.take(j + 1) =~= terms.take(j as int).push(terms[j as int]));
        j += 1;
    }
    proof {
        if j == terms.len() {
            assert(terms.take(j as int) =~= terms);
        }
    }
    out
}

impl PersonalVocab {
    /// Each term is stored once, under its lowercase form.
    #[verifier::type_invariant]
    spec fn keys_distinct(self) -> bool {
        well_keyed(entries_view(self.entries@))
    }

    /// An empty store.
    pub fn new() -> (v: PersonalVocab)
        ensures
            v@ == Seq::<TermEntry>::empty(),
            well_keyed(v@),
    {
        let v = PersonalVocab { entries: Vec::new() };
        assert(v@ =~= Seq::<TermEntry>::empty());
        v
    }

    /// The largest count in the store (0 when empty).
    pub fn max_count(&self) -> (m: usize)
        ensures
            forall|i: int| 0 <= i < self@.len() ==> (#[trigger] self@[i]).0 <= m,
            self@.len() == 0 ==> m == 0,
            self@.len() > 0 ==> exists|i: int| 0 <= i < self@.len() && (#[trigger] self@[i]).0 == m,
    {
        let mut m: usize = 0;
        let mut i: usize = 0;
        while i < self.entries.len()
            invariant
                i <= self.entries.len(),
                forall|j: int| 0 <= j < i ==> (#[trigger] self@[j]).0 <= m,
                i == 0 ==> m == 0,
                i > 0 ==> exists|j: int| 0 <= j < i && (#[trigger] self@[j]).0 == m,
            decreases self.entries.len() - i,
        {
            assert(self@[i as int] == entry_view(self.entries@[i as int]));
            if self.entries[i].count > m || i == 0 {
                m = self.entries[i].count;
                assert(self@[i as int].0 == m);
            }
            i += 1;
        }
        m
    }

    /// Counts one more sighting of each term, in order: an existing entry
    /// (matched case-insensitively) goes up by one, a new term starts at one.
    pub fn record(&mut self, terms: &[String])
        requires
            terms@.len() < usize::MAX,
            forall|i: int| 0 <= i < old(self)@.len() ==> (#[trigger] old(self)@[i]).0 + terms@.len() < usize::MAX,
        ensures
            final(self)@ == count_terms(old(self)@, string_views(terms@)),
            well_keyed(final(self)@),
    {
        proof {
            use_type_invariant(&*self);
        }
        let ghost start = self@;
        let ghost all = string_views(terms@);
        let ghost n = terms@.len();
        let mut entries: Vec<TermCount> = Vec::new();
        std::mem::swap(&mut self.entries, &mut entries);
        assert(entries_view(entries@) == start);
        assert forall|j: int| 0 <= j < entries@.len() implies (#[trigger] entries@[j]).count + (n - 0) < usize::MAX by {
            assert(start[j] == entry_view(entries@[j]));
        }
        assert(all.take(0) =~= Seq::<Seq<char>>::empty());
        let mut i: usize = 0;
        while i < terms.len()
            invariant
                i <= terms@.len(),
                n == terms@.len(),
                n < usize::MAX,
                all == string_views(terms@),
                entries_view(entries@) == count_terms(start, all.take(i as int)),
                well_keyed(start),
                well_keyed(entries_view(entries@)),
                forall|j: int| 0 <= j < entries@.len() ==> (#[trigger] entries@[j]).count + (n - i) < usize::MAX,
            decreases terms@.len() - i,
        {
            let term = chars_of(terms[i].as_str());
            assert(all[i as int] == terms@[i as int]@);
            assert(all.take(i + 1).drop_last() =~= all.take(i as int));
            assert(all.take(i + 1).last() == term@);
            let ghost before = entries@;
            assert forall|j: int| 0 <= j < before.len() implies (#[trigger] before[j]).count < usize::MAX by {}
            count_term_exec(&mut entries, &term);
            proof {
                lemma_count_terms_totals(start, all.take(i + 1));
            }
            i += 1;
        }
        assert(all.take(n as int) =~= all);
        self.entries = entries;
    }

    /// Up to `limit` terms, most frequent first (ties in store order). The
    /// store holds each term once, so `lemma_top_terms` applies to it.
    pub fn top(&self, limit: usize) -> (r: Vec<String>)
        ensures
            string_views(r@) == take_at_most(ranked_terms(self@), limit as nat),
            well_keyed(self@),
    {
        proof {
            use_type_invariant(self);
        }
        let copy = copy_entries(&self.entries);
        let sorted = sort_entries(copy);
        first_terms(&sorted, limit)
    }

    /// The store file's text: one `count<TAB>term` line per entry, most
    /// frequent first, at most `MAX_STORED_TERMS` lines.
    pub fn store_text(&self) -> (r: String)
        ensures
            r@ == store_text_spec(self@),
    {
        let copy = copy_entries(&self.entries);
        let sorted = sort_entries(copy);
        let ghost kept = take_at_most(entries_view(sorted@), MAX_STORED_TERMS as nat);
        let mut out: Vec<char> = Vec::new();
        let mut i: usize = 0;
        while i < sorted.len() && i < MAX_STORED_TERMS
            invariant
                i <= sorted.len(),
                i <= MAX_STORED_TERMS,
                kept == take_at_most(entries_view(sorted@), MAX_STORED_TERMS as nat),
                out@ == store_lines_text(entries_view(sorted@).take(i as int)),
            decreases sorted.len() - i,
        {
            let e = &sorted[i];
            assert(entries_view(sorted@)[i as int] == entry_view(sorted@[i as int]));
            let ghost pre = entries_view(sorted@).take(i as int);
            assert(entries_view(sorted@).take(i + 1).drop_last() =~= pre);
            push_chars(&mut out, &decimal_chars(e.count as u64));
            push_str(&mut out, "\t");
            push_chars(&mut out, &e.term);
            push_str(&mut out, "\n");
            assert(out@ =~= store_lines_text(pre) + store_line(entry_view(*e)));
            i += 1;
        }
        proof {
            if i == sorted.len() {
                assert(entries_view(sorted@).take(i as int) =~= entries_view(sorted@));
            }
        }
        string_from_chars(&out)
    }
}

/// One store line, newline included.
pub open spec fn store_line(e: TermEntry) -> Seq<char> {
    decimal(e.0) + "\t"@ + e.2 + "\n"@
}

pub open spec fn store_lines_text(s: Seq<TermEntry>) -> Seq<char>
    decreases s.len(),
{
    if s.len() == 0 {
        seq![]
    } else {
        store_lines_text(s.drop_last()) + store_line(s.last())
    }
}

pub open spec fn store_text_spec(t: Seq<TermEntry>) -> Seq<char> {
    store_lines_text(take_at_most(sort_by_count(t), MAX_STORED_TERMS as nat))
}


// ───────────────────────── reading the store back ─────────────────────────

/// A line without one trailing carriage return.
pub open spec fn strip_cr(l: Seq<char>) -> Seq<char> {
    if l.len() > 0 && l.last() == '\r' {
        l.drop_last()
    } else {
        l
    }
}

/// What `str::lines` yields: the pieces between newlines, a terminated line
/// losing one trailing `\r`, and no final empty piece.
pub open spec fn lines_of(s: Seq<char>) -> Seq<Seq<char>> {
    let pieces = split_by(s, char_pred('\n'));
    let terminated = pieces.drop_last().map_values(|l: Seq<char>| strip_cr(l));
    if pieces.last().len() == 0 {
        terminated
    } else {
        terminated.push(pieces.last())
    }
}

/// The index of the first tab in `l`, or -1.
pub open spec fn first_tab(l: Seq<char>) -> int
    decreases l.len(),
{
    if l.len() == 0 {
        -1
    } else {
        let r = first_tab(l.drop_last());
        if r >= 0 {
            r
        } else if l.last() == '\t' {
            l.len() - 1
        } else {
            -1
        }
    }
}

/// One store line: a count, a tab, and a term (trimmed, non-empty).
pub open spec fn parse_line(l: Seq<char>) -> Option<TermEntry> {
    let t = first_tab(l);
    if t < 0 {
        None
    } else {
        match parse_usize_spec(l.take(t)) {
            None => None,
            Some(c) => {
                let term = trim_ws(l.skip(t + 1));
                if term.len() == 0 {
                    None
                } else {
                    Some((c, lowercase(term), term))
                }
            },
        }
    }
}

/// Sets the entry for `e`'s key: replaces an existing one in place, or
/// appends.
pub open spec fn upsert(t: Seq<TermEntry>, e: TermEntry) -> Seq<TermEntry> {
    let j = first_key_index(t, e.1);
    if j >= 0 {
        t.update(j, e)
    } else {
        t.push(e)
    }
}

pub open spec fn parse_lines(ls: Seq<Seq<char>>) -> Seq<TermEntry>
    decreases ls.len(),
{
    if ls.len() == 0 {
        seq![]
    } else {
        let t = parse_lines(ls.drop_last());
        match parse_line(ls.last()) {
            Some(e) => upsert(t, e),
            None => t,
        }
    }
}

/// The store read from `text`: malformed lines are skipped, a later line for
/// the same key replaces an earlier one.
pub open spec fn parse_store_spec(text: Seq<char>) -> Seq<TermEntry> {
    parse_lines(lines_of(text))
}

pub proof fn lemma_first_tab(l: Seq<char>)
    ensures
        -1 <= first_tab(l) < l.len(),
        first_tab(l) >= 0 ==> l[first_tab(l)] == '\t',
        forall|i: int| 0 <= i < l.len() && (first_tab(l) < 0 || i < first_tab(l)) ==> #[trigger] l[i] != '\t',
    decreases l.len(),
{
    if l.len() > 0 {
        lemma_first_tab(l.drop_last());
        assert forall|i: int| 0 <= i < l.len() - 1 implies #[trigger] l[i] == l.drop_last()[i] by {}
    }
}

fn split_char_into(v: &Vec<char>, ch: char, out: &mut Vec<Vec<char>>)
    ensures
        views(final(out)@) == views(old(out)@) + split_by(v@, char_pred(ch)),
{
    let ghost start = views(out@);
    let mut cur: Vec<char> = Vec::new();
    let mut i: usize = 0;
    while i < v.len()
        invariant
            i <= v.len(),
            split_by(v@.take(i as int), char_pred(ch)).len() >= 1,
            split_by(v@.take(i as int), char_pred(ch)).last() == cur@,
            views(out@) == start + split_by(v@.take(i as int), char_pred(ch)).drop_last(),
        decreases v.len() - i,
    {
        let ghost prev = split_by(v@.take(i as int), char_pred(ch));
        let c = v[i];
        assert(v@.take(i + 1).drop_last() =~= v@.take(i as int));
        assert(v@.take(i + 1).last() == c);
        if c == ch {
            assert(split_by(v@.take(i + 1), char_pred(ch)) == prev.push(Seq::empty()));
            let ghost old_out = out@;
            let piece = cur;
            out.push(piece);
            cur = Vec::new();
            assert(views(out@) =~= views(old_out).push(prev.last()));
            assert(prev.push(Seq::empty()).drop_last() =~= prev);
            assert(prev =~= prev.drop_last().push(prev.last()));
            assert(views(out@) =~= start + prev.push(Seq::empty()).drop_last());
        } else {
            let ghost next = prev.update(prev.len() - 1, prev.last().push(c));
            assert(split_by(v@.take(i + 1), char_pred(ch)) == next);
            assert(next.drop_last() =~= prev.drop_last());
            cur.push(c);
        }
        i += 1;
        proof {
            lemma_split_by_nonempty(v@.take(i as int), char_pred(ch));
        }
    }
    assert(v@.take(v.len() as int) =~= v@);
    let ghost all = split_by(v@, char_pred(ch));
    let ghost old_out = out@;
    out.push(cur);
    assert(views(out@) =~= views(old_out).push(all.last()));
    assert(all.drop_last().push(all.last()) =~= all);
}

fn strip_cr_chars(l: Vec<char>) -> (r: Vec<char>)
    ensures
        r@ == strip_cr(l@),
{
    let mut l = l;
    if l.len() > 0 && l[l.len() - 1] == '\r' {
        l.pop();
    }
    l
}

/// `str::lines` on a character vector.
fn lines_exec(v: &Vec<char>) -> (r: Vec<Vec<char>>)
    ensures
        views(r@) == lines_of(v@),
{
    let mut pieces: Vec<Vec<char>> = Vec::new();
    split_char_into(v, '\n', &mut pieces);
    let ghost ps = split_by(v@, char_pred('\n'));
    assert(views(pieces@) =~= ps);
    proof {
        lemma_split_by_nonempty(v@, char_pred('\n'));
    }
    let mut last = pieces.pop().unwrap();
    assert(last@ == ps.last());
    assert(views(pieces@) =~= ps.drop_last());
    let mut out: Vec<Vec<char>> = Vec::new();
    let ghost term = ps.drop_last().map_values(|l: Seq<char>| strip_cr(l));
    let mut rest = pieces;
    let n_len: usize = rest.len();
    let ghost n = n_len as nat;
    let mut k: usize = 0;
    while rest.len() > 0
        invariant
            k + rest@.len() == n,
            n <= usize::MAX,
            n == ps.drop_last().len(),
            term == ps.drop_last().map_values(|l: Seq<char>| strip_cr(l)),
            views(rest@) == ps.drop_last().skip(k as int),
            views(out@) == term.take(k as int),
        decreases rest@.len(),
    {
        let ghost old_rest = rest@;
        let l = rest.remove(0);
        assert(views(old_rest)[0] == l@);
        assert(ps.drop_last().skip(k as int)[0] == ps.drop_last()[k as int]);
        assert(views(rest@) =~= views(old_rest).drop_first());
        assert(ps.drop_last().skip(k as int).drop_first() =~= ps.drop_last().skip(k + 1));
        let stripped = strip_cr_chars(l);
        let ghost old_out = out@;
        out.push(stripped);
        assert(views(out@) =~= views(old_out).push(stripped@));
        assert(term.take(k + 1) =~= term.take(k as int).push(term[k as int]));
        k += 1;
    }
    assert(term.take(n as int) =~= term);
    if last.len() > 0 {
        let ghost old_out = out@;
        out.push(last);
        assert(views(out@) =~= views(old_out).push(ps.last()));
    }
    out
}

fn find_tab(l: &Vec<char>) -> (r: Option<usize>)
    ensures
        match r {
            Some(t) => first_tab(l@) == t as int,
            None => first_tab(l@) == -1,
        },
{
    proof {
        lemma_first_tab(l@);
    }
    let mut i: usize = 0;
    while i < l.len()
        invariant
            i <= l.len(),
            forall|j: int| 0 <= j < i ==> #[trigger] l@[j] != '\t',
            -1 <= first_tab(l@) < l@.len(),
            first_tab(l@) >= 0 ==> l@[first_tab(l@)] == '\t',
            forall|j: int| 0 <= j < l@.len() && (first_tab(l@) < 0 || j < first_tab(l@)) ==> #[trigger] l@[j] != '\t',
        decreases l.len() - i,
    {
        if l[i] == '\t' {
            return Some(i);
        }
        i += 1;
    }
    None
}

fn parse_line_exec(l: &Vec<char>) -> (r: Option<TermCount>)
    ensures
        match r {
            Some(e) => parse_line(l@) == Some(entry_view(e)),
            None => parse_line(l@).is_none(),
        },
{
    proof {
        lemma_first_tab(l@);
    }
    match find_tab(l) {
        None => None,
        Some(t) => {
            let count_str = slice_chars(l, 0, t);
            assert(count_str@ =~= l@.take(t as int));
            match parse_usize(&count_str) {
                None => None,
                Some(c) => {
                    let len = l.len();
                    assert(t < len);
                    let rest = slice_chars(l, t + 1, len);
                    assert(rest@ =~= l@.skip(t + 1));
                    let term = trim_whitespace(&rest);
                    if term.len() == 0 {
                        None
                    } else {
                        let key = to_lowercase(&term);
                        Some(TermCount { count: c, key, term })
                    }
                },
            }
        },
    }
}

fn upsert_exec(entries: &mut Vec<TermCount>, e: TermCount)
    ensures
        entries_view(final(entries)@) == upsert(entries_view(old(entries)@), entry_view(e)),
{
    let ghost t = entries_view(entries@);
    proof {
        lemma_first_key_index(t, e.key@);
    }
    match find_key(entries, &e.key) {
        Some(j) => {
            let _ = entries.remove(j);
            let ghost ev = entry_view(e);
            entries.insert(j, e);
            assert(entries_view(entries@) =~= t.update(j as int, ev));
        },
        None => {
            let ghost ev = entry_view(e);
            entries.push(e);
            assert(entries_view(entries@) =~= t.push(ev));
        },
    }
}

/// Reads a vocabulary store from the text of its file.
pub fn parse_store(text: &str) -> (v: PersonalVocab)
    ensures
        v@ == parse_store_spec(text@),
        well_keyed(v@),
{
    let chars = chars_of(text);
    let lines = lines_exec(&chars);
    let ghost ls = views(lines@);
    let mut entries: Vec<TermCount> = Vec::new();
    let mut i: usize = 0;
    while i < lines.len()
        invariant
            i <= lines.len(),
            ls == views(lines@),
            ls == lines_of(text@),
            entries_view(entries@) == parse_lines(ls.take(i as int)),
        decreases lines.len() - i,
    {
        assert(ls.take(i + 1).drop_last() =~= ls.take(i as int));
        assert(ls.take(i + 1).last() == lines@[i as int]@);
        match parse_line_exec(&lines[i]) {
            Some(e) => {
                upsert_exec(&mut entries, e);
            },
            None => {},
        }
        i += 1;
    }
    assert(ls.take(lines.len() as int) =~= ls);
    proof {
        lemma_store_keys_distinct(text@, seq![]);
    }
    PersonalVocab { entries }
}

// ───────────────────────── merging screen and personal terms ─────────────────────────

/// Terms kept so far, their lowercase keys, and whether the limit was hit.
pub type MergeState = (Seq<Seq<char>>, Seq<Seq<char>>, bool);

/// One candidate: kept when its lowercase form is new; merging stops once
/// `limit` terms are kept (checked after each candidate).
pub open spec fn merge_step(st: MergeState, term: Seq<char>, limit: nat) -> MergeState {
    if st.2 {
        st
    } else {
        let k = lowercase(term);
        let out = if st.1.contains(k) {
            st.0
        } else {
            st.0.push(term)
        };
        let seen = if st.1.contains(k) {
            st.1
        } else {
            st.1.push(k)
        };
        (out, seen, out.len() >= limit)
    }
}

pub open spec fn merge_all(st: MergeState, terms: Seq<Seq<char>>, limit: nat) -> MergeState
    decreases terms.len(),
{
    if terms.len() == 0 {
        st
    } else {
        merge_step(merge_all(st, terms.drop_last(), limit), terms.last(), limit)
    }
}

/// Screen terms first, then the user's most frequent terms, without
/// case-insensitive repeats, stopping once `limit` terms are kept (at once
/// when `limit` is zero).
pub open spec fn merged_terms_spec(c: ScreenContext, personal: Seq<TermEntry>, limit: nat) -> Seq<
    Seq<char>,
> {
    merge_all(
        (seq![], seq![], limit == 0),
        extract_terms_spec(c) + take_at_most(ranked_terms(personal), limit),
        limit,
    ).0
}

pub proof fn lemma_merge_stopped(st: MergeState, terms: Seq<Seq<char>>, limit: nat)
    requires
        st.2,
    ensures
        merge_all(st, terms, limit) == st,
    decreases terms.len(),
{
    if terms.len() > 0 {
        lemma_merge_stopped(st, terms.drop_last(), limit);
    }
}

pub proof fn lemma_merge_concat(st: MergeState, a: Seq<Seq<char>>, b: Seq<Seq<char>>, limit: nat)
    ensures
        merge_all(st, a + b, limit) == merge_all(merge_all(st, a, limit), b, limit),
    decreases b.len(),
{
    if b.len() == 0 {
        assert(a + b =~= a);
    } else {
        lemma_merge_concat(st, a, b.drop_last(), limit);
        assert((a + b).drop_last() =~= a + b.drop_last());
        assert((a + b).last() == b.last());
    }
}

fn contains_key(seen: &Vec<Vec<char>>, key: &Vec<char>) -> (b: bool)
    ensures
        b == views(seen@).contains(key@),
{
    let mut i: usize = 0;
    while i < seen.len()
        invariant
            i <= seen.len(),
            forall|j: int| 0 <= j < i ==> #[trigger] views(seen@)[j] != key@,
        decreases seen.len() - i,
    {
        if chars_eq(&seen[i], key) {
            assert(views(seen@)[i as int] == key@);
            return true;
        }
        i += 1;
    }
    false
}

/// Applies `merge_step` for `term`; returns whether merging stopped.
fn merge_one(out: &mut Vec<String>, seen: &mut Vec<Vec<char>>, term: String, limit: usize) -> (stop: bool)
    ensures
        (string_views(final(out)@), views(final(seen)@), stop) == merge_step(
            (string_views(old(out)@), views(old(seen)@), false),
            term@,
            limit as nat,
        ),
{
    let chars = chars_of(term.as_str());
    let key = to_lowercase(&chars);
    if !contains_key(seen, &key) {
        let ghost old_out = out@;
        let ghost old_seen = seen@;
        let ghost kv = key@;
        out.push(term);
        seen.push(key);
        assert(string_views(out@) =~= string_views(old_out).push(chars@));
        assert(views(seen@) =~= views(old_seen).push(kv));
    }
    out.len() >= limit
}

/// Vocabulary for one dictation: the screen's terms first (most relevant),
/// then the user's most frequent terms, skipping case-insensitive repeats,
/// never more than `limit` terms.
pub fn merged_terms(context: &ScreenContext, personal: &PersonalVocab, limit: usize) -> (r: Vec<
    String,
>)
    ensures
        string_views(r@) == merged_terms_spec(*context, personal@, limit as nat),
{
    let mut out: Vec<String> = Vec::new();
    let mut seen: Vec<Vec<char>> = Vec::new();
    if limit == 0 {
        proof {
            lemma_merge_stopped(
                (Seq::<Seq<char>>::empty(), Seq::<Seq<char>>::empty(), true),
                extract_terms_spec(*context) + take_at_most(ranked_terms(personal@), 0),
                0,
            );
        }
        assert(string_views(out@) =~= Seq::<Seq<char>>::empty());
        return out;
    }
    let screen = extract_terms(context);
    let ghost a = string_views(screen@);
    let ghost st0: MergeState = (Seq::<Seq<char>>::empty(), Seq::<Seq<char>>::empty(), false);
    assert(string_views(out@) =~= Seq::<Seq<char>>::empty());
    assert(views(seen@) =~= Seq::<Seq<char>>::empty());
    let mut rest = screen;
    let n_len: usize = rest.len();
    let ghost n = n_len as nat;
    let mut k: usize = 0;
    while rest.len() > 0
        invariant
            k + rest@.len() == n,
            limit > 0,
            n == a.len(),
            n <= usize::MAX,
            a == extract_terms_spec(*context),
            st0 == (Seq::<Seq<char>>::empty(), Seq::<Seq<char>>::empty(), false),
            string_views(rest@) == a.skip(k as int),
            merge_all(st0, a.take(k as int), limit as nat) == (string_views(out@), views(seen@), false),
        decreases rest@.len(),
    {
        let ghost old_rest = rest@;
        let term = rest.remove(0);
        assert(string_views(old_rest)[0] == term@);
        assert(a.skip(k as int)[0] == a[k as int]);
        assert(string_views(rest@) =~= string_views(old_rest).drop_first());
        assert(a.skip(k as int).drop_first() =~= a.skip(k + 1));
        assert(a.take(k + 1).drop_last() =~= a.take(k as int));
        assert(a.take(k + 1).last() == term@);
        let ghost tv = term@;
        let stop = merge_one(&mut out, &mut seen, term, limit);
        assert(merge_all(st0, a.take(k + 1), limit as nat) == merge_step(merge_all(st0, a.take(k as int), limit as nat), tv, limit as nat));
        assert(merge_all(st0, a.take(k + 1), limit as nat) == (string_views(out@), views(seen@), stop));
        k += 1;
        if stop {
            proof {
                let st = merge_all(st0, a.take(k as int), limit as nat);
                assert(st.2);
                lemma_merge_stopped(st, a.skip(k as int) + take_at_most(ranked_terms(personal@), limit as nat), limit as nat);
                lemma_merge_concat(st0, a.take(k as int), a.skip(k as int) + take_at_most(ranked_terms(personal@), limit as nat), limit as nat);
                let tail = take_at_most(ranked_terms(personal@), limit as nat);
                assert(a.take(k as int) + (a.skip(k as int) + tail) =~= a + tail);
                assert(merge_all(st0, a + tail, limit as nat) == st);
                assert(st.0 == string_views(out@));
                assert(merged_terms_spec(*context, personal@, limit as nat) == merge_all(st0, a + tail, limit as nat).0);
            }
            return out;
        }
    }
    assert(a.take(n as int) =~= a);
    let more = personal.top(limit);
    let ghost b = string_views(more@);
    let mut rest2 = more;
    let m_len: usize = rest2.len();
    let ghost m = m_len as nat;
    let mut k2: usize = 0;
    let ghost st1 = merge_all(st0, a, limit as nat);
    while rest2.len() > 0
        invariant
            k2 + rest2@.len() == m,
            limit > 0,
            m == b.len(),
            m <= usize::MAX,
            a == extract_terms_spec(*context),
            b == take_at_most(ranked_terms(personal@), limit as nat),
            st0 == (Seq::<Seq<char>>::empty(), Seq::<Seq<char>>::empty(), false),
            string_views(rest2@) == b.skip(k2 as int),
            st1 == merge_all(st0, a, limit as nat),
            merge_all(st1, b.take(k2 as int), limit as nat) == (string_views(out@), views(seen@), false),
        decreases rest2@.len(),
    {
        let ghost old_rest = rest2@;
        let term = rest2.remove(0);
        assert(string_views(old_rest)[0] == term@);
        assert(b.skip(k2 as int)[0] == b[k2 as int]);
        assert(string_views(rest2@) =~= string_views(old_rest).drop_first());
        assert(b.skip(k2 as int).drop_first() =~= b.skip(k2 + 1));
        assert(b.take(k2 + 1).drop_last() =~= b.take(k2 as int));
        assert(b.take(k2 + 1).last() == term@);
        let ghost tv = term@;
        let stop = merge_one(&mut out, &mut seen, term, limit);
        assert(merge_all(st1, b.take(k2 + 1), limit as nat) == merge_step(merge_all(st1, b.take(k2 as int), limit as nat), tv, limit as nat));
        assert(merge_all(st1, b.take(k2 + 1), limit as nat) == (string_views(out@), views(seen@), stop));
        k2 += 1;
        if stop {
            proof {
                let st = merge_all(st1, b.take(k2 as int), limit as nat);
                lemma_merge_stopped(st, b.skip(k2 as int), limit as nat);
                lemma_merge_concat(st1, b.take(k2 as int), b.skip(k2 as int), limit as nat);
                assert(b.take(k2 as int) + b.skip(k2 as int) =~= b);
                lemma_merge_concat(st0, a, b, limit as nat);
            }
            return out;
        }
    }
    proof {
        assert(b.take(m as int) =~= b);
        lemma_merge_concat(st0, a, b, limit as nat);
    }
    out
}

} // verus!
