//! Properties of the vocabulary store and term ranking that hold for every
//! input.
use vstd::prelude::*;

use vstd::seq_lib::lemma_seq_concat_contains_all_elements;
use crate::text::{
    ascii_lower, ascii_lower_seq, char_pred, decimal, is_ws, lemma_decimal_digits, lemma_parse_decimal, lowercase, split_by, trim_ws,
    ws_pred,
};
use crate::domain::{take_at_most, ScreenContext};
use crate::services::vocab::{
    any_where, candidate_terms, count_where, digit_pred, extract_terms_spec, interesting_pred, is_common_word_spec,
    is_interesting_spec, lower_pred, non_ascii_pred, trim_token, upper_after_first, merge_all, merge_step, merged_terms_spec, ranked_terms,
    screen_tokens, lemma_merge_concat, lemma_merge_stopped, MergeState, MAX_TERMS, count_term, count_terms, first_key_index, first_smaller, first_tab,
    lemma_first_key_index, lemma_first_smaller, lemma_first_tab, lemma_sort_by_count_len,
    lines_of, parse_line, parse_lines, parse_store_spec, sort_by_count, store_line,
    store_lines_text, store_text_spec, strip_cr, upsert, well_keyed, TermEntry,
    MAX_STORED_TERMS,
};

verus! {

// ───────────────────────── sorting ─────────────────────────

proof fn lemma_first_key_index_absent(t: Seq<TermEntry>, k: Seq<char>)
    requires
        forall|j: int| 0 <= j < t.len() ==> (#[trigger] t[j]).1 != k,
    ensures
        first_key_index(t, k) == -1,
{
    lemma_first_key_index(t, k);
    let r = first_key_index(t, k);
    if r >= 0 {
        assert(t[r].1 == k);
    }
}

/// Sorting by count moves entries but neither adds nor drops any.
pub proof fn lemma_sort_by_count_same_entries(t: Seq<TermEntry>)
    ensures
        sort_by_count(t).len() == t.len(),
        forall|x: TermEntry| sort_by_count(t).contains(x) <==> t.contains(x),
    decreases t.len(),
{
    lemma_sort_by_count_len(t);
    if t.len() > 0 {
        let s = sort_by_count(t.drop_last());
        lemma_sort_by_count_same_entries(t.drop_last());
        lemma_first_smaller(s, t.last().0);
        let p = first_smaller(s, t.last().0);
        let r = s.insert(p, t.last());
        assert forall|x: TermEntry| r.contains(x) <==> t.contains(x) by {
            if r.contains(x) {
                let i = choose|i: int| 0 <= i < r.len() && r[i] == x;
                if i < p {
                    assert(s[i] == x);
                    assert(s.contains(x));
                    assert(t.drop_last().contains(x));
                    let j = choose|j: int| 0 <= j < t.drop_last().len() && t.drop_last()[j] == x;
                    assert(t.drop_last()[j] == t[j]);
                    assert(t[j] == x);
                } else if i == p {
                    assert(t[t.len() - 1] == x);
                } else {
                    assert(s[i - 1] == x);
                    assert(s.contains(x));
                    assert(t.drop_last().contains(x));
                    let j = choose|j: int| 0 <= j < t.drop_last().len() && t.drop_last()[j] == x;
                    assert(t.drop_last()[j] == t[j]);
                    assert(t[j] == x);
                }
            }
            if t.contains(x) {
                let j = choose|j: int| 0 <= j < t.len() && t[j] == x;
                if j == t.len() - 1 {
                    assert(r[p] == x);
                } else {
                    assert(t.drop_last()[j] == x);
                    assert(t.drop_last().contains(x));
                    let i = choose|i: int| 0 <= i < s.len() && s[i] == x;
                    if i < p {
                        assert(r[i] == x);
                    } else {
                        assert(r[i + 1] == x);
                    }
                }
            }
        }
    }
}

/// Sorting by count keeps keys distinct and lowercase.
pub proof fn lemma_sort_by_count_well_keyed(t: Seq<TermEntry>)
    requires
        well_keyed(t),
    ensures
        well_keyed(sort_by_count(t)),
    decreases t.len(),
{
    if t.len() > 0 {
        let s = sort_by_count(t.drop_last());
        assert(well_keyed(t.drop_last())) by {
            assert forall|i: int| 0 <= i < t.drop_last().len() implies #[trigger] t.drop_last()[i] == t[i] by {}
        }
        lemma_sort_by_count_well_keyed(t.drop_last());
        lemma_sort_by_count_same_entries(t.drop_last());
        lemma_first_smaller(s, t.last().0);
        let p = first_smaller(s, t.last().0);
        let x = t.last();
        let r = s.insert(p, x);
        assert forall|i: int| 0 <= i < s.len() implies (#[trigger] s[i]).1 != x.1 by {
            assert(s.contains(s[i]));
            assert(t.drop_last().contains(s[i]));
            let j = choose|j: int| 0 <= j < t.drop_last().len() && t.drop_last()[j] == s[i];
            assert(t[j] == s[i]);
            assert(t[j].1 != t[t.len() - 1].1);
        }
        assert forall|i: int, j: int| 0 <= i < j < r.len() implies (#[trigger] r[i]).1 != (#[trigger] r[j]).1 by {
            if i < p && j < p {
                assert(r[i] == s[i] && r[j] == s[j]);
            } else if i < p && j == p {
                assert(r[i] == s[i]);
            } else if i < p {
                assert(r[i] == s[i] && r[j] == s[j - 1]);
            } else if i == p {
                assert(r[j] == s[j - 1]);
            } else {
                assert(r[i] == s[i - 1] && r[j] == s[j - 1]);
            }
        }
        assert forall|i: int| 0 <= i < r.len() implies (#[trigger] r[i]).1 == lowercase(r[i].2) by {
            if i < p {
                assert(r[i] == s[i]);
            } else if i > p {
                assert(r[i] == s[i - 1]);
            } else {
                assert(t[t.len() - 1] == x);
            }
        }
    }
}

/// Sorting by count puts higher counts first.
pub proof fn lemma_sort_by_count_descending(t: Seq<TermEntry>)
    ensures
        forall|i: int, j: int|
            0 <= i < j < sort_by_count(t).len() ==> (#[trigger] sort_by_count(t)[i]).0 >= (
            #[trigger] sort_by_count(t)[j]).0,
    decreases t.len(),
{
    if t.len() > 0 {
        let s = sort_by_count(t.drop_last());
        lemma_sort_by_count_descending(t.drop_last());
        lemma_first_smaller(s, t.last().0);
        let p = first_smaller(s, t.last().0);
        let x = t.last();
        let r = s.insert(p, x);
        assert(r == sort_by_count(t));
        assert forall|i: int, j: int| 0 <= i < j < r.len() implies (#[trigger] r[i]).0 >= (#[trigger] r[j]).0 by {
            if i < p && j < p {
                assert(r[i] == s[i] && r[j] == s[j]);
            } else if i < p && j == p {
                assert(r[i] == s[i]);
            } else if i < p {
                assert(r[i] == s[i] && r[j] == s[j - 1]);
            } else if i == p {
                assert(r[j] == s[j - 1]);
                assert(s[p].0 < x.0);
                if j - 1 > p {
                    assert(s[p].0 >= s[j - 1].0);
                }
            } else {
                assert(r[i] == s[i - 1] && r[j] == s[j - 1]);
            }
        }
    }
}

// ───────────────────────── counting ─────────────────────────

pub open spec fn total_count(t: Seq<TermEntry>) -> nat
    decreases t.len(),
{
    if t.len() == 0 {
        0
    } else {
        total_count(t.drop_last()) + t.last().0
    }
}

proof fn lemma_total_count_update(t: Seq<TermEntry>, j: int, e: TermEntry)
    requires
        0 <= j < t.len(),
    ensures
        total_count(t.update(j, e)) == total_count(t) - t[j].0 + e.0,
    decreases t.len(),
{
    if j == t.len() - 1 {
        assert(t.update(j, e).drop_last() =~= t.drop_last());
    } else {
        lemma_total_count_update(t.drop_last(), j, e);
        assert(t.update(j, e).drop_last() =~= t.drop_last().update(j, e));
    }
}

/// Each sighting counted once: after counting `terms`, the counts add up to
/// the old total plus the number of terms; keys stay distinct and lowercase.
pub proof fn lemma_count_terms_totals(t: Seq<TermEntry>, terms: Seq<Seq<char>>)
    requires
        well_keyed(t),
    ensures
        well_keyed(count_terms(t, terms)),
        total_count(count_terms(t, terms)) == total_count(t) + terms.len(),
    decreases terms.len(),
{
    if terms.len() > 0 {
        lemma_count_terms_totals(t, terms.drop_last());
        let u = count_terms(t, terms.drop_last());
        let term = terms.last();
        let k = lowercase(term);
        lemma_first_key_index(u, k);
        let j = first_key_index(u, k);
        let r = count_term(u, term);
        if j >= 0 {
            lemma_total_count_update(u, j, (u[j].0 + 1, u[j].1, u[j].2));
            assert forall|a: int, b: int| 0 <= a < b < r.len() implies (#[trigger] r[a]).1 != (#[trigger] r[b]).1 by {
                assert(r[a].1 == u[a].1 && r[b].1 == u[b].1);
            }
            assert forall|a: int| 0 <= a < r.len() implies (#[trigger] r[a]).1 == lowercase(r[a].2) by {
                assert(r[a].1 == u[a].1 && r[a].2 == u[a].2);
            }
        } else {
            assert(r.drop_last() =~= u);
            assert forall|a: int, b: int| 0 <= a < b < r.len() implies (#[trigger] r[a]).1 != (#[trigger] r[b]).1 by {
                if b == r.len() - 1 {
                    assert(u[a].1 != k);
                } else {
                    assert(r[a] == u[a] && r[b] == u[b]);
                }
            }
            assert forall|a: int| 0 <= a < r.len() implies (#[trigger] r[a]).1 == lowercase(r[a].2) by {
                if a < u.len() {
                    assert(r[a] == u[a]);
                }
            }
        }
    }
}

/// How often the store has counted the term whose lowercase form is `k`.
pub open spec fn count_of(t: Seq<TermEntry>, k: Seq<char>) -> nat {
    let j = first_key_index(t, k);
    if j >= 0 {
        t[j].0
    } else {
        0
    }
}

/// How many of `terms` have the lowercase form `k`.
pub open spec fn occurrences(terms: Seq<Seq<char>>, k: Seq<char>) -> nat
    decreases terms.len(),
{
    if terms.len() == 0 {
        0
    } else {
        occurrences(terms.drop_last(), k) + if lowercase(terms.last()) == k {
            1nat
        } else {
            0nat
        }
    }
}

proof fn lemma_first_key_index_same_keys(t: Seq<TermEntry>, u: Seq<TermEntry>, k: Seq<char>)
    requires
        t.len() == u.len(),
        forall|i: int| 0 <= i < t.len() ==> (#[trigger] t[i]).1 == u[i].1,
    ensures
        first_key_index(t, k) == first_key_index(u, k),
{
    lemma_first_key_index(t, k);
    lemma_first_key_index(u, k);
    let a = first_key_index(t, k);
    let b = first_key_index(u, k);
    if a >= 0 && b >= 0 {
        if a < b {
            assert(u[a].1 == t[a].1);
        } else if b < a {
            assert(t[b].1 == u[b].1);
        }
    } else if a >= 0 {
        assert(u[a].1 == t[a].1);
    } else if b >= 0 {
        assert(t[b].1 == u[b].1);
    }
}

/// Recording counts each sighting under its lowercase form: a term's count
/// grows by the number of times it (in any case) was recorded, and every
/// other count stays as it was.
pub proof fn lemma_record_counts(t: Seq<TermEntry>, terms: Seq<Seq<char>>, k: Seq<char>)
    ensures
        count_of(count_terms(t, terms), k) == count_of(t, k) + occurrences(terms, k),
    decreases terms.len(),
{
    if terms.len() > 0 {
        lemma_record_counts(t, terms.drop_last(), k);
        let u = count_terms(t, terms.drop_last());
        let term = terms.last();
        let kt = lowercase(term);
        lemma_first_key_index(u, kt);
        let j = first_key_index(u, kt);
        let r = count_term(u, term);
        if j >= 0 {
            let e = (u[j].0 + 1, u[j].1, u[j].2);
            assert forall|i: int| 0 <= i < u.len() implies (#[trigger] u[i]).1 == r[i].1 by {}
            lemma_first_key_index_same_keys(u, r, k);
            if kt == k {
                assert(r[j] == e);
            } else {
                lemma_first_key_index(u, k);
                let jk = first_key_index(u, k);
                if jk >= 0 {
                    assert(jk != j);
                    assert(r[jk] == u[jk]);
                }
            }
        } else {
            assert(r == u.push((1nat, kt, term)));
            assert(r.drop_last() =~= u);
            lemma_first_key_index(u, k);
            if kt == k {
                assert(first_key_index(u, k) < 0);
            }
        }
    }
}

proof fn lemma_count_of_entry(t: Seq<TermEntry>, a: int)
    requires
        well_keyed(t),
        0 <= a < t.len(),
    ensures
        count_of(t, t[a].1) == t[a].0,
{
    lemma_first_key_index(t, t[a].1);
    let j = first_key_index(t, t[a].1);
    if j != a {
        if j >= 0 && j < a {
            assert(t[j].1 == t[a].1);
        }
    }
}

/// The screen's terms come most frequent first: a term listed earlier
/// occurs on screen (in any case) at least as often as one listed later.
pub proof fn lemma_screen_terms_by_frequency(c: ScreenContext)
    ensures
        ({
            let cands = candidate_terms(screen_tokens(c));
            let r = extract_terms_spec(c);
            forall|i: int, j: int|
                0 <= i < j < r.len() ==> occurrences(cands, lowercase(#[trigger] r[i])) >= occurrences(
                    cands,
                    lowercase(#[trigger] r[j]),
                )
        }),
{
    let cands = candidate_terms(screen_tokens(c));
    let t = count_terms(seq![], cands);
    lemma_count_terms_totals(seq![], cands);
    let s = sort_by_count(t);
    lemma_sort_by_count_descending(t);
    lemma_sort_by_count_same_entries(t);
    lemma_sort_by_count_well_keyed(t);
    let r = extract_terms_spec(c);
    assert forall|i: int, j: int|
        0 <= i < j < r.len() implies occurrences(cands, lowercase(#[trigger] r[i])) >= occurrences(
        cands,
        lowercase(#[trigger] r[j]),
    ) by {
        assert(r[i] == s[i].2 && r[j] == s[j].2);
        assert(t.contains(s[i]));
        assert(t.contains(s[j]));
        let a = choose|a: int| 0 <= a < t.len() && t[a] == s[i];
        let b = choose|b: int| 0 <= b < t.len() && t[b] == s[j];
        lemma_count_of_entry(t, a);
        lemma_count_of_entry(t, b);
        lemma_record_counts(seq![], cands, t[a].1);
        lemma_record_counts(seq![], cands, t[b].1);
        assert(s[i].0 >= s[j].0);
    }
}

proof fn lemma_upsert_well_keyed(t: Seq<TermEntry>, e: TermEntry)
    requires
        well_keyed(t),
        e.1 == lowercase(e.2),
    ensures
        well_keyed(upsert(t, e)),
{
    lemma_first_key_index(t, e.1);
    let j = first_key_index(t, e.1);
    let r = upsert(t, e);
    if j >= 0 {
        assert forall|a: int, b: int| 0 <= a < b < r.len() implies (#[trigger] r[a]).1 != (#[trigger] r[b]).1 by {
            assert(r[a].1 == t[a].1 && r[b].1 == t[b].1);
        }
    } else {
        assert forall|a: int, b: int| 0 <= a < b < r.len() implies (#[trigger] r[a]).1 != (#[trigger] r[b]).1 by {
            if b == t.len() {
                assert(t[a].1 != e.1);
            } else {
                assert(r[a] == t[a] && r[b] == t[b]);
            }
        }
    }
}

proof fn lemma_parse_lines_well_keyed(ls: Seq<Seq<char>>)
    ensures
        well_keyed(parse_lines(ls)),
    decreases ls.len(),
{
    if ls.len() > 0 {
        lemma_parse_lines_well_keyed(ls.drop_last());
        match parse_line(ls.last()) {
            Some(e) => lemma_upsert_well_keyed(parse_lines(ls.drop_last()), e),
            None => {},
        }
    }
}

/// The store holds each term once, whatever the case it was written in: a
/// store read from any file does, and it still does after recording any
/// terms.
pub proof fn lemma_store_keys_distinct(text: Seq<char>, terms: Seq<Seq<char>>)
    ensures
        well_keyed(parse_store_spec(text)),
        well_keyed(count_terms(parse_store_spec(text), terms)),
{
    lemma_parse_lines_well_keyed(lines_of(text));
    lemma_count_terms_totals(parse_store_spec(text), terms);
}

// ───────────────────────── the store file ─────────────────────────

/// Entries that the store file can hold: their counts fit in `usize`, their
/// terms are non-empty, trimmed and single-line.
pub open spec fn storable_entry(e: TermEntry) -> bool {
    &&& e.0 <= usize::MAX
    &&& e.2.len() > 0
    &&& trim_ws(e.2) == e.2
    &&& forall|i: int| 0 <= i < e.2.len() ==> #[trigger] e.2[i] != '\n'
    &&& e.1 == lowercase(e.2)
}

pub open spec fn store_body(e: TermEntry) -> Seq<char> {
    decimal(e.0) + "\t"@ + e.2
}

proof fn lemma_split_by_plain(a: Seq<char>, x: Seq<char>, p: spec_fn(char) -> bool)
    requires
        forall|i: int| 0 <= i < x.len() ==> !p(#[trigger] x[i]),
    ensures
        split_by(a + x, p) == split_by(a, p).update(
            split_by(a, p).len() - 1,
            split_by(a, p).last() + x,
        ),
    decreases x.len(),
{
    crate::text::lemma_split_by_nonempty(a, p);
    if x.len() == 0 {
        assert(a + x =~= a);
        assert(split_by(a, p).last() + x =~= split_by(a, p).last());
        assert(split_by(a, p).update(split_by(a, p).len() - 1, split_by(a, p).last())
            =~= split_by(a, p));
    } else {
        let x0 = x.drop_last();
        assert forall|i: int| 0 <= i < x0.len() implies !p(#[trigger] x0[i]) by {
            assert(x0[i] == x[i]);
        }
        lemma_split_by_plain(a, x0, p);
        assert((a + x).drop_last() =~= a + x0);
        assert((a + x).last() == x.last());
        assert(!p(x[x.len() - 1]));
        let sa = split_by(a, p);
        let init = split_by(a + x0, p);
        assert(init == sa.update(sa.len() - 1, sa.last() + x0));
        assert(init.len() == sa.len());
        assert(init.last() == sa.last() + x0);
        assert((sa.last() + x0).push(x.last()) =~= sa.last() + x);
        assert(split_by(a + x, p) == init.update(init.len() - 1, init.last().push(x.last())));
        assert(init.update(init.len() - 1, init.last().push(x.last())) =~= sa.update(sa.len() - 1, sa.last() + x));
    }
}

/// A trimmed, non-empty term does not end with whitespace.
proof fn lemma_trimmed_last(s: Seq<char>)
    requires
        s.len() > 0,
        trim_ws(s) == s,
    ensures
        !is_ws(s.last()),
{
    let p = ws_pred();
    let a = crate::text::trim_start_by(s, p);
    lemma_trim_start_len(s, p);
    if is_ws(s.last()) {
        lemma_trim_end_shrinks(a, p, s.last());
    }
}

proof fn lemma_trim_start_len(s: Seq<char>, p: spec_fn(char) -> bool)
    ensures
        crate::text::trim_start_by(s, p).len() <= s.len(),
        crate::text::trim_start_by(s, p).len() == s.len() ==> crate::text::trim_start_by(s, p) == s,
        crate::text::trim_start_by(s, p).len() > 0 ==> crate::text::trim_start_by(s, p).last() == s.last(),
    decreases s.len(),
{
    if s.len() > 0 && p(s[0]) {
        lemma_trim_start_len(s.drop_first(), p);
    }
}

proof fn lemma_trim_end_shrinks(a: Seq<char>, p: spec_fn(char) -> bool, c: char)
    requires
        a.len() > 0 ==> a.last() == c,
        p(c),
    ensures
        crate::text::trim_end_by(a, p).len() < a.len() || a.len() == 0,
    decreases a.len(),
{
    if a.len() > 0 {
        lemma_trim_end_len(a.drop_last(), p);
    }
}

proof fn lemma_trim_end_len(a: Seq<char>, p: spec_fn(char) -> bool)
    ensures
        crate::text::trim_end_by(a, p).len() <= a.len(),
    decreases a.len(),
{
    if a.len() > 0 && p(a.last()) {
        lemma_trim_end_len(a.drop_last(), p);
    }
}

proof fn lemma_body_facts(e: TermEntry)
    requires
        storable_entry(e),
    ensures
        forall|i: int| 0 <= i < store_body(e).len() ==> #[trigger] store_body(e)[i] != '\n',
        store_body(e).len() > 0,
        store_body(e).last() != '\r',
        store_line(e) == store_body(e).push('\n'),
{
    reveal_strlit("\t");
    reveal_strlit("\n");
    lemma_decimal_digits(e.0);
    let b = store_body(e);
    let d = decimal(e.0);
    assert forall|i: int| 0 <= i < b.len() implies #[trigger] b[i] != '\n' by {
        if i < d.len() {
            assert(b[i] == d[i]);
            assert(crate::text::is_digit_char(d[i]));
        } else if i == d.len() {
            assert(b[i] == '\t');
        } else {
            assert(b[i] == e.2[i - d.len() - 1]);
        }
    }
    if e.2.last() == '\r' {
        lemma_trimmed_last(e.2);
    }
    assert(b.last() == e.2.last());
    assert(store_line(e) =~= b.push('\n'));
}

proof fn lemma_store_pieces(s: Seq<TermEntry>)
    requires
        forall|i: int| 0 <= i < s.len() ==> storable_entry(#[trigger] s[i]),
    ensures
        split_by(store_lines_text(s), char_pred('\n')) == s.map_values(
            |e: TermEntry| store_body(e),
        ).push(Seq::empty()),
    decreases s.len(),
{
    let p = char_pred('\n');
    if s.len() == 0 {
        assert(store_lines_text(s) =~= Seq::<char>::empty());
        assert(s.map_values(|e: TermEntry| store_body(e)).push(Seq::empty()) =~= seq![
            Seq::<char>::empty(),
        ]);
    } else {
        let s0 = s.drop_last();
        let e = s.last();
        assert forall|i: int| 0 <= i < s0.len() implies storable_entry(#[trigger] s0[i]) by {
            assert(s0[i] == s[i]);
        }
        lemma_store_pieces(s0);
        lemma_body_facts(e);
        let text0 = store_lines_text(s0);
        let b = store_body(e);
        assert forall|i: int| 0 <= i < b.len() implies !p(#[trigger] b[i]) by {}
        lemma_split_by_plain(text0, b, p);
        let text = store_lines_text(s);
        assert(text =~= (text0 + b).push('\n'));
        assert(text.drop_last() =~= text0 + b);
        assert(text.last() == '\n');
        let bodies0 = s0.map_values(|e: TermEntry| store_body(e));
        assert(split_by(text0, p).last() =~= Seq::<char>::empty());
        assert(split_by(text0 + b, p) =~= bodies0.push(b));
        assert(s.map_values(|e: TermEntry| store_body(e)) =~= bodies0.push(b));
    }
}

proof fn lemma_parse_body(e: TermEntry)
    requires
        storable_entry(e),
    ensures
        parse_line(store_body(e)) == Some(e),
{
    reveal_strlit("\t");
    let b = store_body(e);
    let d = decimal(e.0);
    lemma_decimal_digits(e.0);
    lemma_first_tab(b);
    assert(b[d.len() as int] == '\t');
    assert forall|i: int| 0 <= i < d.len() implies #[trigger] b[i] != '\t' by {
        assert(b[i] == d[i]);
        assert(crate::text::is_digit_char(d[i]));
    }
    let r = first_tab(b);
    if r < 0 {
        assert(b[d.len() as int] != '\t');
    } else if r < d.len() {
        assert(b[r] != '\t');
    } else if r > d.len() {
        assert(b[d.len() as int] != '\t');
    }
    assert(r == d.len());
    assert(b.take(r) =~= d);
    assert(b.skip(r + 1) =~= e.2);
    lemma_parse_decimal(e.0);
}

proof fn lemma_parse_bodies(s: Seq<TermEntry>)
    requires
        forall|i: int| 0 <= i < s.len() ==> storable_entry(#[trigger] s[i]),
        well_keyed(s),
    ensures
        parse_lines(s.map_values(|e: TermEntry| store_body(e))) == s,
    decreases s.len(),
{
    if s.len() > 0 {
        let s0 = s.drop_last();
        let e = s.last();
        assert forall|i: int| 0 <= i < s0.len() implies storable_entry(#[trigger] s0[i]) && s0[i] == s[i] by {}
        assert(well_keyed(s0));
        lemma_parse_bodies(s0);
        let bodies = s.map_values(|e: TermEntry| store_body(e));
        assert(bodies.drop_last() =~= s0.map_values(|e: TermEntry| store_body(e)));
        assert(bodies.last() == store_body(e));
        lemma_parse_body(e);
        assert forall|j: int| 0 <= j < s0.len() implies (#[trigger] s0[j]).1 != e.1 by {
            assert(s[j].1 != s[s.len() - 1].1);
        }
        lemma_first_key_index_absent(s0, e.1);
        assert(upsert(s0, e) =~= s);
    }
}

/// What the store reads back is what was written: for a store whose
/// entries fit the file format, parsing the written text gives back every
/// entry, most frequent first.
pub proof fn lemma_store_round_trip(t: Seq<TermEntry>)
    requires
        well_keyed(t),
        t.len() <= MAX_STORED_TERMS,
        forall|i: int| 0 <= i < t.len() ==> storable_entry(#[trigger] t[i]),
    ensures
        parse_store_spec(store_text_spec(t)) == sort_by_count(t),
        forall|x: TermEntry| parse_store_spec(store_text_spec(t)).contains(x) <==> t.contains(x),
        parse_store_spec(store_text_spec(t)).len() == t.len(),
{
    let s = sort_by_count(t);
    lemma_sort_by_count_same_entries(t);
    lemma_sort_by_count_well_keyed(t);
    assert(crate::domain::take_at_most(s, MAX_STORED_TERMS as nat) == s);
    assert forall|i: int| 0 <= i < s.len() implies storable_entry(#[trigger] s[i]) by {
        assert(s.contains(s[i]));
        assert(t.contains(s[i]));
        let j = choose|j: int| 0 <= j < t.len() && t[j] == s[i];
        assert(storable_entry(t[j]));
    }
    lemma_store_pieces(s);
    let bodies = s.map_values(|e: TermEntry| store_body(e));
    let pieces = split_by(store_lines_text(s), char_pred('\n'));
    assert(pieces.drop_last() =~= bodies);
    assert(pieces.last() =~= Seq::<char>::empty());
    assert forall|i: int| 0 <= i < bodies.len() implies strip_cr(#[trigger] bodies[i]) == bodies[i] by {
        lemma_body_facts(s[i]);
    }
    assert(bodies.map_values(|l: Seq<char>| strip_cr(l)) =~= bodies);
    assert(lines_of(store_lines_text(s)) == bodies);
    lemma_parse_bodies(s);
}


// ───────────────────────── term lists ─────────────────────────

/// No two terms share a lowercase form.
pub open spec fn case_distinct(s: Seq<Seq<char>>) -> bool {
    forall|i: int, j: int| 0 <= i < j < s.len() ==> lowercase(#[trigger] s[i]) != lowercase(#[trigger] s[j])
}

/// The screen's terms never repeat a term in another case, and there are at
/// most `MAX_TERMS` of them.
pub proof fn lemma_extract_terms_distinct(c: ScreenContext)
    ensures
        case_distinct(extract_terms_spec(c)),
        extract_terms_spec(c).len() <= MAX_TERMS,
{
    let t = count_terms(seq![], candidate_terms(screen_tokens(c)));
    lemma_count_terms_totals(seq![], candidate_terms(screen_tokens(c)));
    lemma_sort_by_count_well_keyed(t);
    let s = sort_by_count(t);
    let r = ranked_terms(t);
    let out = extract_terms_spec(c);
    assert forall|i: int, j: int| 0 <= i < j < out.len() implies lowercase(#[trigger] out[i]) != lowercase(#[trigger] out[j]) by {
        assert(out[i] == r[i] && out[j] == r[j]);
        assert(r[i] == s[i].2 && r[j] == s[j].2);
        assert(s[i].1 != s[j].1);
    }
}

/// Frequent English words, in lowercase, that never earn a vocabulary slot
/// on their own.
pub open spec fn common_english_word(w: Seq<char>) -> bool {
    ||| w == "the"@
    ||| w == "this"@
    ||| w == "that"@
    ||| w == "these"@
    ||| w == "those"@
    ||| w == "with"@
    ||| w == "from"@
    ||| w == "your"@
    ||| w == "there"@
    ||| w == "their"@
    ||| w == "they"@
    ||| w == "them"@
    ||| w == "what"@
    ||| w == "when"@
    ||| w == "where"@
    ||| w == "which"@
    ||| w == "while"@
    ||| w == "would"@
    ||| w == "could"@
    ||| w == "should"@
    ||| w == "have"@
    ||| w == "here"@
    ||| w == "about"@
    ||| w == "into"@
    ||| w == "over"@
    ||| w == "under"@
    ||| w == "after"@
    ||| w == "before"@
    ||| w == "again"@
}

proof fn lemma_common_word_letters(t: Seq<char>)
    requires
        common_english_word(ascii_lower_seq(t)),
    ensures
        t.len() >= 3,
        forall|k: int| 0 <= k < t.len() ==> 'a' <= #[trigger] ascii_lower(t[k]) <= 'z',
{
    let w = ascii_lower_seq(t);
    if w == "the"@ {
        reveal_strlit("the");
        assert("the"@ =~= seq!['t', 'h', 'e']);
    }
    if w == "this"@ {
        reveal_strlit("this");
        assert("this"@ =~= seq!['t', 'h', 'i', 's']);
    }
    if w == "that"@ {
        reveal_strlit("that");
        assert("that"@ =~= seq!['t', 'h', 'a', 't']);
    }
    if w == "these"@ {
        reveal_strlit("these");
        assert("these"@ =~= seq!['t', 'h', 'e', 's', 'e']);
    }
    if w == "those"@ {
        reveal_strlit("those");
        assert("those"@ =~= seq!['t', 'h', 'o', 's', 'e']);
    }
    if w == "with"@ {
        reveal_strlit("with");
        assert("with"@ =~= seq!['w', 'i', 't', 'h']);
    }
    if w == "from"@ {
        reveal_strlit("from");
        assert("from"@ =~= seq!['f', 'r', 'o', 'm']);
    }
    if w == "your"@ {
        reveal_strlit("your");
        assert("your"@ =~= seq!['y', 'o', 'u', 'r']);
    }
    if w == "there"@ {
        reveal_strlit("there");
        assert("there"@ =~= seq!['t', 'h', 'e', 'r', 'e']);
    }
    if w == "their"@ {
        reveal_strlit("their");
        assert("their"@ =~= seq!['t', 'h', 'e', 'i', 'r']);
    }
    if w == "they"@ {
        reveal_strlit("they");
        assert("they"@ =~= seq!['t', 'h', 'e', 'y']);
    }
    if w == "them"@ {
        reveal_strlit("them");
        assert("them"@ =~= seq!['t', 'h', 'e', 'm']);
    }
    if w == "what"@ {
        reveal_strlit("what");
        assert("what"@ =~= seq!['w', 'h', 'a', 't']);
    }
    if w == "when"@ {
        reveal_strlit("when");
        assert("when"@ =~= seq!['w', 'h', 'e', 'n']);
    }
    if w == "where"@ {
        reveal_strlit("where");
        assert("where"@ =~= seq!['w', 'h', 'e', 'r', 'e']);
    }
    if w == "which"@ {
        reveal_strlit("which");
        assert("which"@ =~= seq!['w', 'h', 'i', 'c', 'h']);
    }
    if w == "while"@ {
        reveal_strlit("while");
        assert("while"@ =~= seq!['w', 'h', 'i', 'l', 'e']);
    }
    if w == "would"@ {
        reveal_strlit("would");
        assert("would"@ =~= seq!['w', 'o', 'u', 'l', 'd']);
    }
    if w == "could"@ {
        reveal_strlit("could");
        assert("could"@ =~= seq!['c', 'o', 'u', 'l', 'd']);
    }
    if w == "should"@ {
        reveal_strlit("should");
        assert("should"@ =~= seq!['s', 'h', 'o', 'u', 'l', 'd']);
    }
    if w == "have"@ {
        reveal_strlit("have");
        assert("have"@ =~= seq!['h', 'a', 'v', 'e']);
    }
    if w == "here"@ {
        reveal_strlit("here");
        assert("here"@ =~= seq!['h', 'e', 'r', 'e']);
    }
    if w == "about"@ {
        reveal_strlit("about");
        assert("about"@ =~= seq!['a', 'b', 'o', 'u', 't']);
    }
    if w == "into"@ {
        reveal_strlit("into");
        assert("into"@ =~= seq!['i', 'n', 't', 'o']);
    }
    if w == "over"@ {
        reveal_strlit("over");
        assert("over"@ =~= seq!['o', 'v', 'e', 'r']);
    }
    if w == "under"@ {
        reveal_strlit("under");
        assert("under"@ =~= seq!['u', 'n', 'd', 'e', 'r']);
    }
    if w == "after"@ {
        reveal_strlit("after");
        assert("after"@ =~= seq!['a', 'f', 't', 'e', 'r']);
    }
    if w == "before"@ {
        reveal_strlit("before");
        assert("before"@ =~= seq!['b', 'e', 'f', 'o', 'r', 'e']);
    }
    if w == "again"@ {
        reveal_strlit("again");
        assert("again"@ =~= seq!['a', 'g', 'a', 'i', 'n']);
    }
    assert(forall|k: int| 0 <= k < w.len() ==> 'a' <= #[trigger] w[k] <= 'z');
    assert forall|k: int| 0 <= k < t.len() implies 'a' <= #[trigger] ascii_lower(t[k]) <= 'z' by {
        assert(w[k] == ascii_lower(t[k]));
    }
}

/// A common English word is never a screen term unless it is written in
/// mixed case: a term whose ASCII-lowercase form is one of those words has
/// an uppercase letter after its first character and a lowercase letter
/// (so "This" or "THERE" never appear, whatever the screen shows).
pub proof fn lemma_common_words_are_not_terms(c: ScreenContext)
    ensures
        forall|i: int|
            0 <= i < extract_terms_spec(c).len() && common_english_word(
                ascii_lower_seq(#[trigger] extract_terms_spec(c)[i]),
            ) ==> upper_after_first(extract_terms_spec(c)[i]) && count_where(
                extract_terms_spec(c)[i],
                lower_pred(),
            ) >= 1,
{
    let r = extract_terms_spec(c);
    lemma_screen_terms_are_interesting_tokens(c);
    assert forall|i: int|
        0 <= i < r.len() && common_english_word(ascii_lower_seq(#[trigger] r[i])) implies upper_after_first(
        r[i],
    ) && count_where(r[i], lower_pred()) >= 1 by {
        let t = r[i];
        lemma_common_word_letters(t);
        assert(is_interesting_spec(t));
        assert(!any_where(t, non_ascii_pred())) by {
            if any_where(t, non_ascii_pred()) {
                let k = choose|k: int| 0 <= k < t.len() && non_ascii_pred()(#[trigger] t[k]);
                assert('a' <= ascii_lower(t[k]) <= 'z');
            }
        }
        assert(!any_where(t, digit_pred())) by {
            if any_where(t, digit_pred()) {
                let k = choose|k: int| 0 <= k < t.len() && digit_pred()(#[trigger] t[k]);
                assert('a' <= ascii_lower(t[k]) <= 'z');
            }
        }
        assert('a' <= ascii_lower(t[0]) <= 'z');
        assert(t[0] != '@');
        assert(is_common_word_spec(t));
    }
}

/// Entry `x` ranks before entry `y` among the entries `t`: a higher count,
/// or the same count and a key that `t` holds earlier.
pub open spec fn ranks_before(t: Seq<TermEntry>, x: TermEntry, y: TermEntry) -> bool {
    x.0 > y.0 || (x.0 == y.0 && first_key_index(t, x.1) < first_key_index(t, y.1))
}

proof fn lemma_sort_by_count_stable(t: Seq<TermEntry>)
    requires
        well_keyed(t),
    ensures
        forall|i: int, j: int|
            0 <= i < j < sort_by_count(t).len() ==> ranks_before(
                t,
                #[trigger] sort_by_count(t)[i],
                #[trigger] sort_by_count(t)[j],
            ),
    decreases t.len(),
{
    if t.len() > 0 {
        let d = t.drop_last();
        assert(well_keyed(d)) by {
            assert forall|i: int| 0 <= i < d.len() implies #[trigger] d[i] == t[i] by {}
        }
        lemma_sort_by_count_stable(d);
        lemma_sort_by_count_same_entries(d);
        lemma_sort_by_count_descending(d);
        let s = sort_by_count(d);
        let x = t.last();
        lemma_first_smaller(s, x.0);
        let p = first_smaller(s, x.0);
        let r = s.insert(p, x);
        assert(r == sort_by_count(t));
        lemma_first_key_index(d, x.1);
        assert(first_key_index(d, x.1) == -1) by {
            let f = first_key_index(d, x.1);
            if f >= 0 {
                assert(d[f] == t[f]);
                assert(t[f].1 != t[t.len() - 1].1);
            }
        }
        assert(first_key_index(t, x.1) == t.len() - 1);
        assert forall|i: int| 0 <= i < s.len() implies 0 <= first_key_index(t, (#[trigger] s[i]).1)
            < t.len() - 1 && first_key_index(t, s[i].1) == first_key_index(d, s[i].1) by {
            assert(s.contains(s[i]));
            assert(d.contains(s[i]));
            let a = choose|a: int| 0 <= a < d.len() && d[a] == s[i];
            lemma_first_key_index(d, s[i].1);
        }
        assert forall|i: int, j: int| 0 <= i < j < r.len() implies ranks_before(t, #[trigger] r[i], #[trigger] r[j]) by {
            if i < p && j < p {
                assert(r[i] == s[i] && r[j] == s[j]);
                assert(ranks_before(d, s[i], s[j]));
            } else if i < p && j == p {
                assert(r[i] == s[i] && r[j] == x);
            } else if i < p {
                assert(r[i] == s[i] && r[j] == s[j - 1]);
                assert(ranks_before(d, s[i], s[j - 1]));
            } else if i == p {
                assert(r[i] == x && r[j] == s[j - 1]);
                assert(s[p].0 < x.0);
                if j - 1 > p {
                    assert(s[p].0 >= s[j - 1].0);
                }
            } else {
                assert(r[i] == s[i - 1] && r[j] == s[j - 1]);
                assert(ranks_before(d, s[i - 1], s[j - 1]));
            }
        }
    }
}

/// The index of the first of `terms` whose lowercase form is `k`, or -1.
pub open spec fn first_sighting(terms: Seq<Seq<char>>, k: Seq<char>) -> int
    decreases terms.len(),
{
    if terms.len() == 0 {
        -1
    } else {
        let r = first_sighting(terms.drop_last(), k);
        if r >= 0 {
            r
        } else if lowercase(terms.last()) == k {
            terms.len() - 1
        } else {
            -1
        }
    }
}

proof fn lemma_first_sighting(terms: Seq<Seq<char>>, k: Seq<char>)
    ensures
        -1 <= first_sighting(terms, k) < terms.len(),
        first_sighting(terms, k) >= 0 ==> lowercase(terms[first_sighting(terms, k)]) == k,
        forall|i: int|
            0 <= i < terms.len() && (first_sighting(terms, k) < 0 || i < first_sighting(terms, k))
                ==> lowercase(#[trigger] terms[i]) != k,
    decreases terms.len(),
{
    if terms.len() > 0 {
        lemma_first_sighting(terms.drop_last(), k);
        assert forall|i: int| 0 <= i < terms.len() - 1 implies #[trigger] terms[i] == terms.drop_last()[i] by {}
    }
}

proof fn lemma_key_present(t: Seq<TermEntry>, a: int)
    requires
        0 <= a < t.len(),
    ensures
        first_key_index(t, t[a].1) >= 0,
{
    lemma_first_key_index(t, t[a].1);
}

/// Counting from nothing lists each key once, in the order of its first
/// sighting, spelled as first seen; every sighted key is listed.
proof fn lemma_counted_in_sighting_order(terms: Seq<Seq<char>>)
    ensures
        ({
            let t = count_terms(seq![], terms);
            &&& forall|a: int|
                0 <= a < t.len() ==> 0 <= first_sighting(terms, (#[trigger] t[a]).1) && t[a].2
                    == terms[first_sighting(terms, t[a].1)]
            &&& forall|a: int, b: int|
                0 <= a < b < t.len() ==> first_sighting(terms, (#[trigger] t[a]).1) < first_sighting(
                    terms,
                    (#[trigger] t[b]).1,
                )
            &&& forall|q: int| 0 <= q < terms.len() ==> first_key_index(t, lowercase(#[trigger] terms[q])) >= 0
        }),
    decreases terms.len(),
{
    if terms.len() > 0 {
        let dl = terms.drop_last();
        lemma_counted_in_sighting_order(dl);
        lemma_count_terms_totals(seq![], dl);
        let u = count_terms(seq![], dl);
        let term = terms.last();
        let kt = lowercase(term);
        lemma_first_key_index(u, kt);
        let j = first_key_index(u, kt);
        let r = count_terms(seq![], terms);
        assert(r == count_term(u, term));
        assert forall|a: int| 0 <= a < u.len() implies first_sighting(terms, (#[trigger] u[a]).1)
            == first_sighting(dl, u[a].1) by {}
        assert forall|q: int| 0 <= q < dl.len() implies #[trigger] dl[q] == terms[q] by {}
        if j >= 0 {
            assert forall|a: int| 0 <= a < r.len() implies #[trigger] r[a].1 == u[a].1 && r[a].2 == u[a].2 by {}
            assert forall|a: int| 0 <= a < r.len() implies 0 <= first_sighting(terms, (#[trigger] r[a]).1)
                && r[a].2 == terms[first_sighting(terms, r[a].1)] by {
                assert(r[a].1 == u[a].1 && r[a].2 == u[a].2);
                assert(a < u.len());
                lemma_first_sighting(dl, u[a].1);
                let f = first_sighting(dl, u[a].1);
                assert(dl[f] == terms[f]);
            }
            assert forall|a: int, b: int| 0 <= a < b < r.len() implies first_sighting(terms, (#[trigger] r[a]).1)
                < first_sighting(terms, (#[trigger] r[b]).1) by {
                assert(r[a].1 == u[a].1 && r[b].1 == u[b].1);
            }
            assert forall|q: int| 0 <= q < terms.len() implies first_key_index(r, lowercase(#[trigger] terms[q])) >= 0 by {
                let k = lowercase(terms[q]);
                if q < dl.len() {
                    assert(dl[q] == terms[q]);
                    lemma_first_key_index(u, k);
                    let f = first_key_index(u, k);
                    assert(r[f].1 == k);
                    lemma_key_present(r, f);
                } else {
                    assert(r[j].1 == kt);
                    lemma_key_present(r, j);
                }
            }
        } else {
            lemma_first_sighting(dl, kt);
            assert(first_sighting(dl, kt) < 0) by {
                let f = first_sighting(dl, kt);
                if f >= 0 {
                    assert(lowercase(dl[f]) == kt);
                }
            }
            assert(first_sighting(terms, kt) == terms.len() - 1);
            assert(r.drop_last() =~= u);
            assert(r[u.len() as int] == (1nat, kt, term));
            assert forall|q: int| 0 <= q < terms.len() implies first_key_index(r, lowercase(#[trigger] terms[q])) >= 0 by {
                let k = lowercase(terms[q]);
                if q < dl.len() {
                    assert(dl[q] == terms[q]);
                    lemma_first_key_index(u, k);
                } else {
                    lemma_key_present(r, u.len() as int);
                }
            }
            assert forall|a: int| 0 <= a < u.len() implies first_sighting(dl, (#[trigger] u[a]).1) < terms.len() - 1 by {
                lemma_first_sighting(dl, u[a].1);
            }
            assert forall|a: int, b: int| 0 <= a < b < r.len() implies first_sighting(terms, (#[trigger] r[a]).1)
                < first_sighting(terms, (#[trigger] r[b]).1) by {
                assert(r[a] == u[a]);
                if b < u.len() {
                    assert(r[b] == u[b]);
                }
            }
            assert forall|a: int| 0 <= a < r.len() implies 0 <= first_sighting(terms, (#[trigger] r[a]).1)
                && r[a].2 == terms[first_sighting(terms, r[a].1)] by {
                if a < u.len() {
                    assert(r[a] == u[a]);
                    lemma_first_sighting(dl, u[a].1);
                    let f = first_sighting(dl, u[a].1);
                    assert(dl[f] == terms[f]);
                }
            }
        }
    }
}

proof fn lemma_key_index_of_entry(t: Seq<TermEntry>, a: int)
    requires
        well_keyed(t),
        0 <= a < t.len(),
    ensures
        first_key_index(t, t[a].1) == a,
{
    lemma_first_key_index(t, t[a].1);
    let f = first_key_index(t, t[a].1);
    if f != a {
        assert(t[f].1 == t[a].1);
    }
}

/// The ranked screen entries: each is keyed by its term's lowercase form,
/// counts its sightings, and is spelled as first sighted; they come most
/// frequent first, ties in order of first sighting; every sighted key is
/// among them.
proof fn lemma_ranked_entries(cands: Seq<Seq<char>>)
    ensures
        ({
            let s = sort_by_count(count_terms(seq![], cands));
            &&& forall|i: int|
                0 <= i < s.len() ==> {
                    &&& (#[trigger] s[i]).1 == lowercase(s[i].2)
                    &&& s[i].0 == occurrences(cands, s[i].1)
                    &&& 0 <= first_sighting(cands, s[i].1) < cands.len()
                    &&& s[i].2 == cands[first_sighting(cands, s[i].1)]
                }
            &&& forall|i: int, j: int|
                0 <= i < j < s.len() ==> occurrences(cands, (#[trigger] s[i]).1) > occurrences(
                    cands,
                    (#[trigger] s[j]).1,
                ) || (occurrences(cands, s[i].1) == occurrences(cands, s[j].1) && first_sighting(
                    cands,
                    s[i].1,
                ) < first_sighting(cands, s[j].1))
            &&& forall|q: int|
                0 <= q < cands.len() ==> exists|p: int|
                    0 <= p < s.len() && (#[trigger] s[p]).1 == lowercase(#[trigger] cands[q])
        }),
{
    let t = count_terms(seq![], cands);
    let s = sort_by_count(t);
    lemma_count_terms_totals(seq![], cands);
    lemma_counted_in_sighting_order(cands);
    lemma_sort_by_count_same_entries(t);
    lemma_sort_by_count_well_keyed(t);
    lemma_sort_by_count_stable(t);
    assert forall|i: int| 0 <= i < s.len() implies t.contains(#[trigger] s[i]) by {
        assert(s.contains(s[i]));
    }
    assert forall|i: int| 0 <= i < s.len() implies {
        &&& (#[trigger] s[i]).1 == lowercase(s[i].2)
        &&& s[i].0 == occurrences(cands, s[i].1)
        &&& 0 <= first_sighting(cands, s[i].1) < cands.len()
        &&& s[i].2 == cands[first_sighting(cands, s[i].1)]
    } by {
        let a = choose|a: int| 0 <= a < t.len() && t[a] == s[i];
        lemma_count_of_entry(t, a);
        lemma_record_counts(seq![], cands, t[a].1);
        assert(first_key_index(Seq::<TermEntry>::empty(), t[a].1) == -1);
        lemma_first_sighting(cands, t[a].1);
    }
    assert forall|i: int, j: int| 0 <= i < j < s.len() implies occurrences(cands, (#[trigger] s[i]).1)
        > occurrences(cands, (#[trigger] s[j]).1) || (occurrences(cands, s[i].1) == occurrences(
        cands,
        s[j].1,
    ) && first_sighting(cands, s[i].1) < first_sighting(cands, s[j].1)) by {
        let a = choose|a: int| 0 <= a < t.len() && t[a] == s[i];
        let b = choose|b: int| 0 <= b < t.len() && t[b] == s[j];
        assert(ranks_before(t, s[i], s[j]));
        lemma_key_index_of_entry(t, a);
        lemma_key_index_of_entry(t, b);
        assert(s[i].1 != s[j].1);
        if a > b {
            assert(first_sighting(cands, t[b].1) < first_sighting(cands, t[a].1));
        }
    }
    assert forall|q: int| 0 <= q < cands.len() implies exists|p: int|
        0 <= p < s.len() && (#[trigger] s[p]).1 == lowercase(#[trigger] cands[q]) by {
        let k = lowercase(cands[q]);
        lemma_first_key_index(t, k);
        let a = first_key_index(t, k);
        assert(t.contains(t[a]));
        assert(s.contains(t[a]));
        let p = choose|p: int| 0 <= p < s.len() && s[p] == t[a];
        assert(s[p].1 == k);
    }
}

/// Every screen term is a trimmed token of the window title, the focused
/// field or the visible text, and passes `is_interesting`.
pub proof fn lemma_screen_terms_are_interesting_tokens(c: ScreenContext)
    ensures
        ({
            let r = extract_terms_spec(c);
            let toks = screen_tokens(c);
            forall|i: int|
                0 <= i < r.len() ==> is_interesting_spec(#[trigger] r[i]) && exists|q: int|
                    0 <= q < toks.len() && r[i] == trim_token(#[trigger] toks[q])
        }),
{
    let toks = screen_tokens(c);
    let trimmed = toks.map_values(|t: Seq<char>| trim_token(t));
    let cands = candidate_terms(toks);
    let s = sort_by_count(count_terms(seq![], cands));
    let r = extract_terms_spec(c);
    lemma_ranked_entries(cands);
    assert forall|i: int| 0 <= i < r.len() implies is_interesting_spec(#[trigger] r[i]) && exists|q: int|
        0 <= q < toks.len() && r[i] == trim_token(#[trigger] toks[q]) by {
        assert(r[i] == s[i].2);
        let f = first_sighting(cands, s[i].1);
        assert(cands[f] == r[i]);
        trimmed.lemma_filter_pred(interesting_pred(), f);
        assert(cands.contains(r[i]));
        trimmed.lemma_filter_contains_rev(interesting_pred(), r[i]);
        let q = choose|q: int| 0 <= q < trimmed.len() && trimmed[q] == r[i];
        assert(trimmed[q] == trim_token(toks[q]));
    }
}

/// The screen terms are ranked: a term listed earlier was sighted more
/// often (in any case), or as often and first sighted earlier; each is
/// spelled as it was first sighted.
pub proof fn lemma_screen_terms_ranked(c: ScreenContext)
    ensures
        ({
            let cands = candidate_terms(screen_tokens(c));
            let r = extract_terms_spec(c);
            &&& forall|i: int, j: int|
                0 <= i < j < r.len() ==> occurrences(cands, lowercase(#[trigger] r[i])) > occurrences(
                    cands,
                    lowercase(#[trigger] r[j]),
                ) || (occurrences(cands, lowercase(r[i])) == occurrences(cands, lowercase(r[j]))
                    && first_sighting(cands, lowercase(r[i])) < first_sighting(cands, lowercase(r[j])))
            &&& forall|i: int|
                0 <= i < r.len() ==> 0 <= first_sighting(cands, lowercase(#[trigger] r[i]))
                    && r[i] == cands[first_sighting(cands, lowercase(r[i]))]
        }),
{
    let cands = candidate_terms(screen_tokens(c));
    let s = sort_by_count(count_terms(seq![], cands));
    let r = extract_terms_spec(c);
    lemma_ranked_entries(cands);
    assert forall|i: int| 0 <= i < r.len() implies #[trigger] r[i] == s[i].2 by {}
}

/// The screen terms are exactly the best-ranked keys: a sighted term whose
/// lowercase form is not among them leaves no room (`MAX_TERMS` terms are
/// kept) and ranks after the last one kept.
pub proof fn lemma_screen_terms_top_ranked(c: ScreenContext)
    ensures
        ({
            let cands = candidate_terms(screen_tokens(c));
            let r = extract_terms_spec(c);
            forall|q: int|
                0 <= q < cands.len() && (forall|i: int| 0 <= i < r.len() ==> lowercase(#[trigger] r[i])
                    != lowercase(cands[q])) ==> {
                    let k = lowercase(#[trigger] cands[q]);
                    let last = lowercase(r[r.len() - 1]);
                    &&& r.len() == MAX_TERMS
                    &&& occurrences(cands, k) < occurrences(cands, last) || (occurrences(cands, k)
                        == occurrences(cands, last) && first_sighting(cands, k) > first_sighting(
                        cands,
                        last,
                    ))
                }
        }),
{
    let cands = candidate_terms(screen_tokens(c));
    let s = sort_by_count(count_terms(seq![], cands));
    let r = extract_terms_spec(c);
    lemma_ranked_entries(cands);
    assert forall|i: int| 0 <= i < r.len() implies #[trigger] r[i] == s[i].2 by {}
    assert forall|q: int|
        0 <= q < cands.len() && (forall|i: int| 0 <= i < r.len() ==> lowercase(#[trigger] r[i])
            != lowercase(cands[q])) implies {
            let k = lowercase(#[trigger] cands[q]);
            let last = lowercase(r[r.len() - 1]);
            &&& r.len() == MAX_TERMS
            &&& occurrences(cands, k) < occurrences(cands, last) || (occurrences(cands, k)
                == occurrences(cands, last) && first_sighting(cands, k) > first_sighting(cands, last))
        } by {
        let k = lowercase(cands[q]);
        let p = choose|p: int| 0 <= p < s.len() && (#[trigger] s[p]).1 == k;
        if p < r.len() {
            assert(lowercase(r[p]) == s[p].1);
        }
        assert(r.len() == MAX_TERMS);
        let m = r.len() - 1;
        assert(lowercase(r[m]) == s[m].1);
        assert(m < p);
    }
}

/// The spelling that `t` holds for the key `k`, if any.
pub open spec fn spelling_of(t: Seq<TermEntry>, k: Seq<char>) -> Option<Seq<char>> {
    let j = first_key_index(t, k);
    if j >= 0 {
        Some(t[j].2)
    } else {
        None
    }
}

/// Recording keeps the spelling a term already had; a term new to the
/// store takes the spelling of its first sighting among the recorded terms.
pub proof fn lemma_record_spellings(t: Seq<TermEntry>, terms: Seq<Seq<char>>, k: Seq<char>)
    ensures
        spelling_of(count_terms(t, terms), k) == if spelling_of(t, k).is_some() {
            spelling_of(t, k)
        } else if first_sighting(terms, k) >= 0 {
            Some(terms[first_sighting(terms, k)])
        } else {
            None
        },
    decreases terms.len(),
{
    if terms.len() > 0 {
        let dl = terms.drop_last();
        lemma_record_spellings(t, dl, k);
        lemma_first_sighting(dl, k);
        let u = count_terms(t, dl);
        let term = terms.last();
        let kt = lowercase(term);
        lemma_first_key_index(u, kt);
        let j = first_key_index(u, kt);
        let r = count_term(u, term);
        assert(r == count_terms(t, terms));
        let f = first_sighting(dl, k);
        if f >= 0 {
            assert(dl[f] == terms[f]);
        }
        if j >= 0 {
            assert forall|i: int| 0 <= i < u.len() implies (#[trigger] u[i]).1 == r[i].1 && u[i].2 == r[i].2 by {}
            lemma_first_key_index_same_keys(u, r, k);
            lemma_first_key_index(u, k);
        } else {
            assert(r.drop_last() =~= u);
            assert(r[u.len() as int] == (1nat, kt, term));
            lemma_first_key_index(u, k);
        }
    }
}

/// The store's top terms: as many as the limit and the store allow, each
/// the stored spelling of a distinct key, most frequent first; a key left
/// out leaves no room and was counted no more often than the last one kept.
/// Every `PersonalVocab` holds each key once (its type invariant, which
/// `PersonalVocab::top` reports), so this holds of every store.
pub proof fn lemma_top_terms(t: Seq<TermEntry>, limit: nat)
    requires
        well_keyed(t),
    ensures
        ({
            let r = take_at_most(ranked_terms(t), limit);
            &&& r.len() == if t.len() < limit { t.len() } else { limit }
            &&& case_distinct(r)
            &&& forall|i: int| 0 <= i < r.len() ==> spelling_of(t, lowercase(#[trigger] r[i])) == Some(r[i])
            &&& forall|i: int, j: int|
                0 <= i < j < r.len() ==> count_of(t, lowercase(#[trigger] r[i])) >= count_of(
                    t,
                    lowercase(#[trigger] r[j]),
                )
            &&& forall|a: int|
                0 <= a < t.len() && (forall|i: int| 0 <= i < r.len() ==> lowercase(#[trigger] r[i]) != t[a].1)
                    ==> r.len() == limit && (r.len() > 0 ==> (#[trigger] t[a]).0 <= count_of(t, lowercase(r[r.len() - 1])))
        }),
{
    let s = sort_by_count(t);
    let r = take_at_most(ranked_terms(t), limit);
    lemma_sort_by_count_same_entries(t);
    lemma_sort_by_count_well_keyed(t);
    lemma_sort_by_count_descending(t);
    assert forall|i: int| 0 <= i < r.len() implies #[trigger] r[i] == s[i].2 by {}
    assert forall|i: int| 0 <= i < s.len() implies t.contains(#[trigger] s[i]) by {
        assert(s.contains(s[i]));
    }
    assert forall|i: int| 0 <= i < s.len() implies spelling_of(t, (#[trigger] s[i]).1) == Some(s[i].2)
        && count_of(t, s[i].1) == s[i].0 by {
        let a = choose|a: int| 0 <= a < t.len() && t[a] == s[i];
        lemma_key_index_of_entry(t, a);
    }
    assert forall|i: int| 0 <= i < r.len() implies spelling_of(t, lowercase(#[trigger] r[i])) == Some(r[i]) by {
        assert(lowercase(r[i]) == s[i].1);
    }
    assert forall|i: int, j: int| 0 <= i < j < r.len() implies count_of(t, lowercase(#[trigger] r[i]))
        >= count_of(t, lowercase(#[trigger] r[j])) by {
        assert(lowercase(r[i]) == s[i].1 && lowercase(r[j]) == s[j].1);
    }
    assert forall|i: int, j: int| 0 <= i < j < r.len() implies lowercase(#[trigger] r[i]) != lowercase(#[trigger] r[j]) by {
        assert(lowercase(r[i]) == s[i].1 && lowercase(r[j]) == s[j].1);
    }
    assert forall|a: int|
        0 <= a < t.len() && (forall|i: int| 0 <= i < r.len() ==> lowercase(#[trigger] r[i]) != t[a].1)
        implies r.len() == limit && (r.len() > 0 ==> (#[trigger] t[a]).0 <= count_of(t, lowercase(r[r.len() - 1]))) by {
        assert(t.contains(t[a]));
        assert(s.contains(t[a]));
        let p = choose|p: int| 0 <= p < s.len() && s[p] == t[a];
        if p < r.len() {
            assert(lowercase(r[p]) == s[p].1);
        }
        if r.len() > 0 {
            let m = r.len() - 1;
            assert(lowercase(r[m]) == s[m].1);
        }
    }
}

proof fn lemma_merge_inv(st0: MergeState, terms: Seq<Seq<char>>, limit: nat)
    requires
        st0 == (Seq::<Seq<char>>::empty(), Seq::<Seq<char>>::empty(), false),
    ensures
        !merge_all(st0, terms, limit).2 ==> merge_all(st0, terms, limit).0.len() < limit
            || merge_all(st0, terms, limit).0.len() == 0,
        merge_all(st0, terms, limit).1 == merge_all(st0, terms, limit).0.map_values(|t: Seq<char>| lowercase(t)),
        case_distinct(merge_all(st0, terms, limit).0),
        merge_all(st0, terms, limit).0.len() <= if limit == 0 { 1 } else { limit },
    decreases terms.len(),
{
    if terms.len() == 0 {
        assert(st0.0.map_values(|t: Seq<char>| lowercase(t)) =~= st0.1);
    } else {
        lemma_merge_inv(st0, terms.drop_last(), limit);
        let st = merge_all(st0, terms.drop_last(), limit);
        let term = terms.last();
        let k = lowercase(term);
        let r = merge_step(st, term, limit);
        if !st.2 {
            if !st.1.contains(k) {
                assert(r.0 == st.0.push(term));
                assert(r.1 =~= r.0.map_values(|t: Seq<char>| lowercase(t)));
                assert forall|i: int, j: int| 0 <= i < j < r.0.len() implies lowercase(#[trigger] r.0[i]) != lowercase(#[trigger] r.0[j]) by {
                    if j == r.0.len() - 1 {
                        assert(st.1[i] == lowercase(st.0[i]));
                        assert(r.0[j] == term);
                        assert(r.0[i] == st.0[i]);
                    } else {
                        assert(r.0[i] == st.0[i] && r.0[j] == st.0[j]);
                    }
                }
            }
        }
    }
}

/// The merged vocabulary never repeats a term in another case, and holds
/// at most `limit` terms.
pub proof fn lemma_merged_terms_distinct(c: ScreenContext, personal: Seq<TermEntry>, limit: nat)
    ensures
        case_distinct(merged_terms_spec(c, personal, limit)),
        merged_terms_spec(c, personal, limit).len() <= limit,
{
    if limit == 0 {
        lemma_merge_stopped(
            (seq![], seq![], true),
            extract_terms_spec(c) + take_at_most(ranked_terms(personal), limit),
            limit,
        );
    } else {
        lemma_merge_inv(
            (Seq::<Seq<char>>::empty(), Seq::<Seq<char>>::empty(), false),
            extract_terms_spec(c) + take_at_most(ranked_terms(personal), limit),
            limit,
        );
    }
}

proof fn lemma_merge_distinct_prefix(terms: Seq<Seq<char>>, n: nat, limit: nat)
    requires
        case_distinct(terms),
        n <= terms.len(),
    ensures
        ({
            let cap: nat = if limit == 0 { 1 } else { limit };
            let k: nat = if n < cap { n } else { cap };
            let st = merge_all((seq![], seq![], false), terms.take(n as int), limit);
            &&& st.0 == terms.take(k as int)
            &&& st.1 == terms.take(k as int).map_values(|t: Seq<char>| lowercase(t))
            &&& st.2 == (n >= cap)
        }),
    decreases n,
{
    let st0: MergeState = (seq![], seq![], false);
    let cap: nat = if limit == 0 { 1 } else { limit };
    if n == 0 {
        assert(terms.take(0) =~= Seq::<Seq<char>>::empty());
        assert(Seq::<Seq<char>>::empty().map_values(|t: Seq<char>| lowercase(t)) =~= Seq::<Seq<char>>::empty());
    } else {
        lemma_merge_distinct_prefix(terms, (n - 1) as nat, limit);
        assert(terms.take(n as int).drop_last() =~= terms.take(n - 1));
        assert(terms.take(n as int).last() == terms[n - 1]);
        let st = merge_all(st0, terms.take(n - 1), limit);
        let term = terms[n - 1];
        if n - 1 < cap {
            let key = lowercase(term);
            assert(!st.1.contains(key)) by {
                if st.1.contains(key) {
                    let i = choose|i: int| 0 <= i < st.1.len() && st.1[i] == key;
                    assert(st.1[i] == lowercase(terms.take(n - 1)[i]));
                    assert(terms.take(n - 1)[i] == terms[i]);
                    assert(lowercase(terms[i]) != lowercase(terms[n - 1]));
                }
            }
            assert(st.0.push(term) =~= terms.take(n as int));
            assert(st.1.push(key) =~= terms.take(n as int).map_values(|t: Seq<char>| lowercase(t)));
        }
    }
}

proof fn lemma_merge_extends(st: MergeState, terms: Seq<Seq<char>>, limit: nat)
    ensures
        merge_all(st, terms, limit).0.len() >= st.0.len(),
        merge_all(st, terms, limit).0.take(st.0.len() as int) == st.0,
    decreases terms.len(),
{
    if terms.len() == 0 {
        assert(st.0.take(st.0.len() as int) =~= st.0);
    } else {
        lemma_merge_extends(st, terms.drop_last(), limit);
        let m = merge_all(st, terms.drop_last(), limit);
        let r = merge_step(m, terms.last(), limit);
        assert(r.0.take(st.0.len() as int) =~= m.0.take(st.0.len() as int));
    }
}

/// The lowercase forms of `s`.
pub open spec fn lowercase_all(s: Seq<Seq<char>>) -> Seq<Seq<char>> {
    s.map_values(|t: Seq<char>| lowercase(t))
}

/// The terms of `p`, in order, whose lowercase form is neither in `seen` nor
/// that of an earlier term kept.
pub open spec fn fresh_terms(seen: Seq<Seq<char>>, p: Seq<Seq<char>>) -> Seq<Seq<char>>
    decreases p.len(),
{
    if p.len() == 0 {
        seq![]
    } else {
        let f = fresh_terms(seen, p.drop_last());
        let k = lowercase(p.last());
        if seen.contains(k) || lowercase_all(f).contains(k) {
            f
        } else {
            f.push(p.last())
        }
    }
}

proof fn lemma_merge_fresh(out: Seq<Seq<char>>, p: Seq<Seq<char>>, limit: nat)
    requires
        out.len() < limit,
    ensures
        ({
            let f = fresh_terms(lowercase_all(out), p);
            let l = (limit - out.len()) as nat;
            let kept = out + take_at_most(f, l);
            merge_all((out, lowercase_all(out), false), p, limit) == (kept, lowercase_all(kept), f.len() >= l)
        }),
    decreases p.len(),
{
    let seen = lowercase_all(out);
    let l = (limit - out.len()) as nat;
    let st0: MergeState = (out, seen, false);
    if p.len() == 0 {
        assert(out + Seq::<Seq<char>>::empty() =~= out);
    } else {
        let dl = p.drop_last();
        let x = p.last();
        let k = lowercase(x);
        lemma_merge_fresh(out, dl, limit);
        let f0 = fresh_terms(seen, dl);
        let f = fresh_terms(seen, p);
        let st = merge_all(st0, dl, limit);
        assert(merge_all(st0, p, limit) == merge_step(st, x, limit));
        if f0.len() >= l {
            assert(f.take(l as int) =~= f0.take(l as int));
        } else {
            let kept0 = out + f0;
            assert(take_at_most(f0, l) == f0);
            assert(lowercase_all(kept0) =~= seen + lowercase_all(f0));
            lemma_seq_concat_contains_all_elements(seen, lowercase_all(f0), k);
            if seen.contains(k) || lowercase_all(f0).contains(k) {
                assert(f == f0);
            } else {
                assert(f == f0.push(x));
                assert(kept0.push(x) =~= out + f);
                assert(lowercase_all(kept0).push(k) =~= lowercase_all(out + f));
            }
        }
    }
}

/// After the screen's terms, when they leave room, the merged vocabulary
/// holds the user's top terms in order, skipping any whose lowercase form
/// is already there, up to the limit.
pub proof fn lemma_merged_terms_tail(c: ScreenContext, personal: Seq<TermEntry>, limit: nat)
    requires
        extract_terms_spec(c).len() < limit,
    ensures
        ({
            let e = extract_terms_spec(c);
            let p = take_at_most(ranked_terms(personal), limit);
            merged_terms_spec(c, personal, limit) == e + take_at_most(
                fresh_terms(lowercase_all(e), p),
                (limit - e.len()) as nat,
            )
        }),
{
    let e = extract_terms_spec(c);
    let p = take_at_most(ranked_terms(personal), limit);
    let st0: MergeState = (seq![], seq![], false);
    lemma_extract_terms_distinct(c);
    lemma_merge_distinct_prefix(e, e.len(), limit);
    assert(e.take(e.len() as int) =~= e);
    lemma_merge_concat(st0, e, p, limit);
    lemma_merge_fresh(e, p, limit);
}

/// Terms from the screen come first: the merged vocabulary begins with the
/// screen's terms, as many of them as the limit lets in, and holds nothing
/// else when they fill it.
pub proof fn lemma_screen_terms_first(c: ScreenContext, personal: Seq<TermEntry>, limit: nat)
    ensures
        ({
            let screen = extract_terms_spec(c);
            let k: int = if screen.len() < limit { screen.len() as int } else { limit as int };
            let m = merged_terms_spec(c, personal, limit);
            &&& m.len() >= k
            &&& m.take(k) == screen.take(k)
            &&& screen.len() >= limit ==> m == screen.take(k)
        }),
{
    if limit == 0 {
        lemma_merged_terms_distinct(c, personal, limit);
        assert(extract_terms_spec(c).take(0) =~= Seq::<Seq<char>>::empty());
        assert(merged_terms_spec(c, personal, limit).take(0) =~= Seq::<Seq<char>>::empty());
    } else {
        let screen = extract_terms_spec(c);
        let rest = take_at_most(ranked_terms(personal), limit);
        let st0: MergeState = (seq![], seq![], false);
        lemma_extract_terms_distinct(c);
        lemma_merge_distinct_prefix(screen, screen.len(), limit);
        assert(screen.take(screen.len() as int) =~= screen);
        lemma_merge_concat(st0, screen, rest, limit);
        let mid = merge_all(st0, screen, limit);
        lemma_merge_extends(mid, rest, limit);
        if screen.len() >= limit {
            lemma_merge_stopped(mid, rest, limit);
        }
    }
}

} // verus!
