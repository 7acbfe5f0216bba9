//! Character and string helpers shared by the whole library.
//!
//! Text is handled as sequences of `char` (`Vec<char>` in executable code,
//! `Seq<char>` in specifications); `String` appears at the public edges.
use vstd::prelude::*;

verus! {

// ───────────────────────── character classes ─────────────────────────

/// The Unicode `White_Space` property, which is what `char::is_whitespace`
/// tests for.
pub open spec fn is_ws(c: char) -> bool {
    let u = c as u32;
    ||| 0x09 <= u <= 0x0d
    ||| u == 0x20
    ||| u == 0x85
    ||| u == 0xa0
    ||| u == 0x1680
    ||| 0x2000 <= u <= 0x200a
    ||| u == 0x2028
    ||| u == 0x2029
    ||| u == 0x202f
    ||| u == 0x205f
    ||| u == 0x3000
}

pub open spec fn is_ascii_char(c: char) -> bool {
    (c as u32) < 0x80
}

pub open spec fn is_digit_char(c: char) -> bool {
    '0' <= c <= '9'
}

/// `char::to_ascii_lowercase`: `'A'..='Z'` map to `'a'..='z'`, everything
/// else is unchanged.
pub open spec fn ascii_lower(c: char) -> char {
    if 'A' <= c <= 'Z' {
        ((c as u32) + 32) as char
    } else {
        c
    }
}

pub open spec fn ascii_lower_seq(s: Seq<char>) -> Seq<char> {
    s.map_values(|c: char| ascii_lower(c))
}

/// What `char::is_alphabetic` returns (the Unicode `Alphabetic` property).
pub uninterp spec fn char_alphabetic(c: char) -> bool;

/// What `char::is_alphanumeric` returns (`Alphabetic` or `Numeric`).
pub uninterp spec fn char_alphanumeric(c: char) -> bool;

/// What `char::is_uppercase` returns (the Unicode `Uppercase` property).
pub uninterp spec fn char_uppercase(c: char) -> bool;

/// What `char::is_lowercase` returns (the Unicode `Lowercase` property).
pub uninterp spec fn char_lowercase(c: char) -> bool;

/// What `str::to_lowercase` returns for a string with the given characters.
pub uninterp spec fn lowercase(s: Seq<char>) -> Seq<char>;

pub fn is_whitespace(c: char) -> (b: bool)
    ensures
        b == is_ws(c),
{
    let u = c as u32;
    (0x09 <= u && u <= 0x0d) || u == 0x20 || u == 0x85 || u == 0xa0 || u == 0x1680 || (0x2000
        <= u && u <= 0x200a) || u == 0x2028 || u == 0x2029 || u == 0x202f || u == 0x205f || u
        == 0x3000
}

pub fn is_ascii_digit(c: char) -> (b: bool)
    ensures
        b == is_digit_char(c),
{
    '0' <= c && c <= '9'
}

pub fn to_ascii_lower(c: char) -> (r: char)
    ensures
        r == ascii_lower(c),
{
    if 'A' <= c && c <= 'Z' {
        let b = (c as u8) + 32;
        b as char
    } else {
        c
    }
}

/// Calls `char::is_alphabetic`. The contract claims only that the answer is
/// `char_alphabetic(c)`, the same for the same character; which characters
/// are alphabetic is not stated.
#[verifier::external_body]
pub(crate) fn is_alphabetic(c: char) -> (b: bool)
    ensures
        b == char_alphabetic(c),
{
    c.is_alphabetic()
}

/// Calls `char::is_alphanumeric`. The contract claims only that the answer
/// is `char_alphanumeric(c)`; which characters qualify is not stated.
#[verifier::external_body]
pub(crate) fn is_alphanumeric(c: char) -> (b: bool)
    ensures
        b == char_alphanumeric(c),
{
    c.is_alphanumeric()
}

/// Calls `char::is_uppercase`. The contract claims only that the answer is
/// `char_uppercase(c)`; which characters qualify is not stated.
#[verifier::external_body]
pub(crate) fn is_uppercase(c: char) -> (b: bool)
    ensures
        b == char_uppercase(c),
{
    c.is_uppercase()
}

/// Calls `char::is_lowercase`. The contract claims only that the answer is
/// `char_lowercase(c)`; which characters qualify is not stated.
#[verifier::external_body]
pub(crate) fn is_lowercase(c: char) -> (b: bool)
    ensures
        b == char_lowercase(c),
{
    c.is_lowercase()
}

/// Calls `str::to_lowercase` on the string made of `chars`. The contract
/// claims only that the result is `lowercase(chars)`, which depends on the
/// characters alone; the Unicode case mapping itself is not stated.
#[verifier::external_body]
pub(crate) fn to_lowercase(chars: &Vec<char>) -> (r: Vec<char>)
    ensures
        r@ == lowercase(chars@),
{
    let s: String = chars.iter().collect();
    s.to_lowercase().chars().collect()
}

/// `String::push` appends one character at the end of the string, as its
/// documentation states.
pub assume_specification[ String::push ](s: &mut String, ch: char)
    ensures
        final(s)@ == old(s)@.push(ch),
;

// ───────────────────────── conversions ─────────────────────────

/// The characters of `s`, in order.
pub fn chars_of(s: &str) -> (v: Vec<char>)
    ensures
        v@ == s@,
{
    let mut out: Vec<char> = Vec::new();
    for c in it: s.chars()
        invariant
            out@ == it.seq().take(it.index() as int),
            it.seq() == s@,
    {
        out.push(c);
    }
    out
}

/// A string holding exactly the characters of `chars`.
pub fn string_from_chars(chars: &Vec<char>) -> (s: String)
    ensures
        s@ == chars@,
{
    let mut out = String::new();
    let mut i: usize = 0;
    while i < chars.len()
        invariant
            i <= chars.len(),
            out@ == chars@.take(i as int),
        decreases chars.len() - i,
    {
        out.push(chars[i]);
        i += 1;
        assert(out@ == chars@.take(i as int));
    }
    assert(chars@.take(chars.len() as int) == chars@);
    out
}

/// Appends the characters of `s` to `out`.
pub fn push_str(out: &mut Vec<char>, s: &str)
    ensures
        final(out)@ == old(out)@ + s@,
{
    let v = chars_of(s);
    push_chars(out, &v);
}

/// Appends `v` to `out`.
pub fn push_chars(out: &mut Vec<char>, v: &Vec<char>)
    ensures
        final(out)@ == old(out)@ + v@,
{
    let ghost start = out@;
    let mut i: usize = 0;
    while i < v.len()
        invariant
            i <= v.len(),
            out@ == start + v@.take(i as int),
        decreases v.len() - i,
    {
        out.push(v[i]);
        i += 1;
        assert(out@ == start + v@.take(i as int));
    }
    assert(v@.take(v.len() as int) == v@);
}

/// Whether `v` holds exactly the characters of `s`.
pub fn chars_eq_str(v: &Vec<char>, s: &str) -> (b: bool)
    ensures
        b == (v@ == s@),
{
    let w = chars_of(s);
    chars_eq(v, &w)
}

pub fn chars_eq(a: &Vec<char>, b: &Vec<char>) -> (r: bool)
    ensures
        r == (a@ == b@),
{
    if a.len() != b.len() {
        return false;
    }
    let mut i: usize = 0;
    while i < a.len()
        invariant
            i <= a.len(),
            a.len() == b.len(),
            forall|j: int| 0 <= j < i ==> a@[j] == b@[j],
        decreases a.len() - i,
    {
        if a[i] != b[i] {
            return false;
        }
        i += 1;
    }
    assert(a@ =~= b@);
    true
}

pub fn to_ascii_lower_chars(v: &Vec<char>) -> (r: Vec<char>)
    ensures
        r@ == ascii_lower_seq(v@),
{
    let mut out: Vec<char> = Vec::new();
    let mut i: usize = 0;
    while i < v.len()
        invariant
            i <= v.len(),
            out@ == ascii_lower_seq(v@.take(i as int)),
        decreases v.len() - i,
    {
        out.push(to_ascii_lower(v[i]));
        i += 1;
        assert(out@ =~= ascii_lower_seq(v@.take(i as int)));
    }
    assert(v@.take(v.len() as int) == v@);
    out
}

// ───────────────────────── trimming ─────────────────────────

/// `s` without its leading characters that satisfy `p`.
pub open spec fn trim_start_by(s: Seq<char>, p: spec_fn(char) -> bool) -> Seq<char>
    decreases s.len(),
{
    if s.len() > 0 && p(s[0]) {
        trim_start_by(s.drop_first(), p)
    } else {
        s
    }
}

/// `s` without its trailing characters that satisfy `p`.
pub open spec fn trim_end_by(s: Seq<char>, p: spec_fn(char) -> bool) -> Seq<char>
    decreases s.len(),
{
    if s.len() > 0 && p(s.last()) {
        trim_end_by(s.drop_last(), p)
    } else {
        s
    }
}

/// `str::trim_matches` with the predicate `p`.
pub open spec fn trim_by(s: Seq<char>, p: spec_fn(char) -> bool) -> Seq<char> {
    trim_end_by(trim_start_by(s, p), p)
}

/// Equality with `ch`, as a predicate value.
pub open spec fn char_pred(ch: char) -> spec_fn(char) -> bool {
    |c: char| c == ch
}

/// `is_ws` as a predicate value.
pub open spec fn ws_pred() -> spec_fn(char) -> bool {
    |c: char| is_ws(c)
}

/// `str::trim`: both ends lose their whitespace.
pub open spec fn trim_ws(s: Seq<char>) -> Seq<char> {
    trim_by(s, ws_pred())
}

pub proof fn lemma_trim_start_skip(s: Seq<char>, p: spec_fn(char) -> bool, i: int)
    requires
        0 <= i <= s.len(),
        forall|j: int| 0 <= j < i ==> p(#[trigger] s[j]),
    ensures
        trim_start_by(s, p) == trim_start_by(s.skip(i), p),
    decreases i,
{
    if i > 0 {
        assert(p(s[0]));
        lemma_trim_start_skip(s.drop_first(), p, i - 1);
        assert(s.drop_first().skip(i - 1) =~= s.skip(i));
    } else {
        assert(s.skip(0) =~= s);
    }
}

pub proof fn lemma_trim_end_take(s: Seq<char>, p: spec_fn(char) -> bool, e: int)
    requires
        0 <= e <= s.len(),
        forall|j: int| e <= j < s.len() ==> p(#[trigger] s[j]),
    ensures
        trim_end_by(s, p) == trim_end_by(s.take(e), p),
    decreases s.len() - e,
{
    if e < s.len() {
        assert(p(s.last()));
        lemma_trim_end_take(s.drop_last(), p, e);
        assert(s.drop_last().take(e) =~= s.take(e));
    } else {
        assert(s.take(e) =~= s);
    }
}

pub proof fn lemma_trim_start_stop(s: Seq<char>, p: spec_fn(char) -> bool)
    requires
        s.len() == 0 || !p(s[0]),
    ensures
        trim_start_by(s, p) == s,
{
}

pub proof fn lemma_trim_end_stop(s: Seq<char>, p: spec_fn(char) -> bool)
    requires
        s.len() == 0 || !p(s.last()),
    ensures
        trim_end_by(s, p) == s,
{
}

/// `str::trim` on a character vector.
pub fn trim_whitespace(v: &Vec<char>) -> (r: Vec<char>)
    ensures
        r@ == trim_ws(v@),
{
    let ghost p = ws_pred();
    let mut start: usize = 0;
    while start < v.len() && is_whitespace(v[start])
        invariant
            start <= v.len(),
            forall|j: int| 0 <= j < start ==> is_ws(#[trigger] v@[j]),
        decreases v.len() - start,
    {
        start += 1;
    }
    proof {
        lemma_trim_start_skip(v@, p, start as int);
        lemma_trim_start_stop(v@.skip(start as int), p);
    }
    let mut end: usize = v.len();
    while end > start && is_whitespace(v[end - 1])
        invariant
            start <= end <= v.len(),
            forall|j: int| end <= j < v.len() ==> is_ws(#[trigger] v@[j]),
        decreases end,
    {
        end -= 1;
    }
    let ghost mid = v@.skip(start as int);
    proof {
        assert forall|j: int| (end - start) <= j < mid.len() implies p(#[trigger] mid[j]) by {
            assert(mid[j] == v@[j + start]);
        }
        lemma_trim_end_take(mid, p, end - start);
        lemma_trim_end_stop(mid.take(end - start), p);
    }
    let r = slice_chars(v, start, end);
    assert(r@ =~= mid.take(end - start));
    r
}

/// `v[start..end]`.
pub fn slice_chars(v: &Vec<char>, start: usize, end: usize) -> (r: Vec<char>)
    requires
        start <= end <= v.len(),
    ensures
        r@ == v@.subrange(start as int, end as int),
{
    let mut out: Vec<char> = Vec::new();
    let mut i = start;
    while i < end
        invariant
            start <= i <= end <= v.len(),
            out@ == v@.subrange(start as int, i as int),
        decreases end - i,
    {
        out.push(v[i]);
        i += 1;
        assert(out@ =~= v@.subrange(start as int, i as int));
    }
    out
}

// ───────────────────────── splitting ─────────────────────────

/// The pieces of `s` between the characters that satisfy `p`, as
/// `str::split` with a predicate yields them: `n` separators give `n + 1`
/// pieces, empty ones included.
pub open spec fn split_by(s: Seq<char>, p: spec_fn(char) -> bool) -> Seq<Seq<char>>
    decreases s.len(),
{
    if s.len() == 0 {
        seq![Seq::empty()]
    } else {
        let init = split_by(s.drop_last(), p);
        if p(s.last()) {
            init.push(Seq::empty())
        } else {
            init.update(init.len() - 1, init.last().push(s.last()))
        }
    }
}

pub proof fn lemma_split_by_nonempty(s: Seq<char>, p: spec_fn(char) -> bool)
    ensures
        split_by(s, p).len() >= 1,
    decreases s.len(),
{
    if s.len() > 0 {
        lemma_split_by_nonempty(s.drop_last(), p);
    }
}

/// `str::split_whitespace`: the non-empty runs of non-whitespace characters.
pub open spec fn words(s: Seq<char>) -> Seq<Seq<char>> {
    split_by(s, ws_pred()).filter(nonempty_pred())
}

pub open spec fn nonempty_pred() -> spec_fn(Seq<char>) -> bool {
    |w: Seq<char>| w.len() > 0
}

/// `str::split_whitespace` on a character vector.
pub fn split_whitespace(v: &Vec<char>) -> (r: Vec<Vec<char>>)
    ensures
        r@.len() == words(v@).len(),
        forall|i: int| 0 <= i < r@.len() ==> (#[trigger] r@[i])@ == words(v@)[i],
{
    let mut done: Vec<Vec<char>> = Vec::new();
    let mut cur: Vec<char> = Vec::new();
    let mut i: usize = 0;
    while i < v.len()
        invariant
            i <= v.len(),
            split_by(v@.take(i as int), ws_pred()).len() >= 1,
            split_by(v@.take(i as int), ws_pred()).last() == cur@,
            done@.len() == split_by(v@.take(i as int), ws_pred()).drop_last().filter(nonempty_pred()).len(),
            forall|k: int|
                0 <= k < done@.len() ==> (#[trigger] done@[k])@ == split_by(v@.take(i as int), ws_pred()).drop_last().filter(nonempty_pred())[k],
        decreases v.len() - i,
    {
        let ghost prev = split_by(v@.take(i as int), ws_pred());
        let c = v[i];
        assert(v@.take(i + 1).drop_last() =~= v@.take(i as int));
        assert(v@.take(i + 1).last() == c);
        if is_whitespace(c) {
            let ghost next = prev.push(Seq::empty());
            assert(split_by(v@.take(i + 1), ws_pred()) == next);
            assert(next.drop_last() =~= prev);
            assert(prev =~= prev.drop_last().push(prev.last()));
            proof {
                prev.drop_last().lemma_filter_push(prev.last(), nonempty_pred());
            }
            if cur.len() > 0 {
                let piece = cur;
                done.push(piece);
                cur = Vec::new();
            } else {
                cur = Vec::new();
            }
            assert(cur@ =~= Seq::<char>::empty());
        } else {
            let ghost next = prev.update(prev.len() - 1, prev.last().push(c));
            assert(split_by(v@.take(i + 1), ws_pred()) == next);
            assert(next.drop_last() =~= prev.drop_last());
            cur.push(c);
        }
        i += 1;
    }
    let ghost all = split_by(v@, ws_pred());
    assert(v@.take(v.len() as int) =~= v@);
    assert(all =~= all.drop_last().push(all.last()));
    proof {
        all.drop_last().lemma_filter_push(all.last(), nonempty_pred());
    }
    if cur.len() > 0 {
        done.push(cur);
    }
    done
}

// ───────────────────────── UTF-8 sizes ─────────────────────────

/// The number of bytes that UTF-8 uses for `c`.
pub open spec fn char_utf8_len(c: char) -> nat {
    let u = c as u32;
    if u < 0x80 {
        1
    } else if u < 0x800 {
        2
    } else if u < 0x10000 {
        3
    } else {
        4
    }
}

/// The number of bytes of the UTF-8 encoding of `s` (what `str::len` returns).
pub open spec fn utf8_len(s: Seq<char>) -> nat
    decreases s.len(),
{
    if s.len() == 0 {
        0
    } else {
        utf8_len(s.drop_last()) + char_utf8_len(s.last())
    }
}

pub proof fn lemma_utf8_len_concat(a: Seq<char>, b: Seq<char>)
    ensures
        utf8_len(a + b) == utf8_len(a) + utf8_len(b),
    decreases b.len(),
{
    if b.len() == 0 {
        assert(a + b =~= a);
    } else {
        lemma_utf8_len_concat(a, b.drop_last());
        assert((a + b).drop_last() =~= a + b.drop_last());
    }
}

pub proof fn lemma_utf8_len_ge(s: Seq<char>)
    ensures
        utf8_len(s) >= s.len(),
        utf8_len(s) <= 4 * s.len(),
    decreases s.len(),
{
    if s.len() > 0 {
        lemma_utf8_len_ge(s.drop_last());
    }
}

pub proof fn lemma_utf8_len_take_mono(s: Seq<char>, i: int, j: int)
    requires
        0 <= i <= j <= s.len(),
    ensures
        utf8_len(s.take(i)) <= utf8_len(s.take(j)),
    decreases j - i,
{
    if i < j {
        lemma_utf8_len_take_mono(s, i, j - 1);
        assert(s.take(j).drop_last() =~= s.take(j - 1));
    }
}

pub fn char_len_utf8(c: char) -> (n: usize)
    ensures
        n == char_utf8_len(c),
{
    let u = c as u32;
    if u < 0x80 {
        1
    } else if u < 0x800 {
        2
    } else if u < 0x10000 {
        3
    } else {
        4
    }
}

// ───────────────────────── decimal numbers ─────────────────────────

pub open spec fn digit_char(d: nat) -> char {
    (48 + d) as char
}

pub open spec fn digit_value(c: char) -> nat {
    ((c as u32) - 48) as nat
}

/// The decimal digits of `n`, most significant first, without leading zeros.
pub open spec fn decimal(n: nat) -> Seq<char>
    decreases n,
{
    if n < 10 {
        seq![digit_char(n)]
    } else {
        decimal(n / 10).push(digit_char(n % 10))
    }
}

/// The value of a sequence of decimal digits.
pub open spec fn digits_value(s: Seq<char>) -> nat
    decreases s.len(),
{
    if s.len() == 0 {
        0
    } else {
        digits_value(s.drop_last()) * 10 + digit_value(s.last())
    }
}

pub open spec fn all_digits(s: Seq<char>) -> bool {
    forall|i: int| 0 <= i < s.len() ==> is_digit_char(#[trigger] s[i])
}

/// What `str::parse::<usize>` returns: an optional `+`, then one or more
/// decimal digits whose value fits in `usize`.
pub open spec fn parse_usize_spec(s: Seq<char>) -> Option<nat> {
    let body = if s.len() > 1 && s[0] == '+' {
        s.drop_first()
    } else {
        s
    };
    if body.len() > 0 && all_digits(body) && digits_value(body) <= usize::MAX {
        Some(digits_value(body))
    } else {
        None
    }
}

pub proof fn lemma_decimal_digits(n: nat)
    ensures
        decimal(n).len() >= 1,
        all_digits(decimal(n)),
        decimal(n)[0] != '+',
        digits_value(decimal(n)) == n,
    decreases n,
{
    if n >= 10 {
        lemma_decimal_digits(n / 10);
        let d = decimal(n);
        assert(d.drop_last() =~= decimal(n / 10));
        assert(n == (n / 10) * 10 + n % 10);
        assert(d.last() == digit_char(n % 10));
        assert(digit_value(digit_char(n % 10)) == n % 10);
        assert(digits_value(d) == digits_value(decimal(n / 10)) * 10 + n % 10);
        assert forall|i: int| 0 <= i < d.len() implies is_digit_char(#[trigger] d[i]) by {
            if i < d.len() - 1 {
                assert(d[i] == decimal(n / 10)[i]);
            }
        }
    } else {
        let d = decimal(n);
        assert(d.drop_last() =~= Seq::<char>::empty());
        assert(digit_value(digit_char(n)) == n);
        assert(digits_value(d) == digits_value(d.drop_last()) * 10 + digit_value(d.last()));
    }
}

/// `n` written in decimal.
pub fn decimal_chars(n: u64) -> (v: Vec<char>)
    ensures
        v@ == decimal(n as nat),
    decreases n,
{
    if n < 10 {
        let mut v = Vec::new();
        v.push(digit_to_char(n));
        assert(v@ =~= seq![digit_char(n as nat)]);
        v
    } else {
        let mut v = decimal_chars(n / 10);
        v.push(digit_to_char(n % 10));
        v
    }
}

fn digit_to_char(d: u64) -> (c: char)
    requires
        d < 10,
    ensures
        c == digit_char(d as nat),
{
    (48u8 + d as u8) as char
}

/// `str::parse::<usize>` on a character vector.
pub fn parse_usize(v: &Vec<char>) -> (r: Option<usize>)
    ensures
        match r {
            Some(n) => parse_usize_spec(v@) == Some(n as nat),
            None => parse_usize_spec(v@).is_none(),
        },
{
    let start: usize = if v.len() > 1 && v[0] == '+' {
        1
    } else {
        0
    };
    let ghost body = v@.skip(start as int);
    assert(start == 1 ==> body =~= v@.drop_first());
    assert(start == 0 ==> body =~= v@);
    if start == v.len() {
        return None;
    }
    let mut acc: usize = 0;
    let mut i = start;
    while i < v.len()
        invariant
            start <= i <= v.len(),
            body == v@.skip(start as int),
            (v@.len() > 1 && v@[0] == '+') ==> start == 1,
            !(v@.len() > 1 && v@[0] == '+') ==> start == 0,
            start == 1 ==> body == v@.drop_first(),
            start == 0 ==> body == v@,
            all_digits(body.take(i - start)),
            acc == digits_value(body.take(i - start)),
        decreases v.len() - i,
    {
        let c = v[i];
        assert(body.take(i - start + 1).drop_last() =~= body.take(i - start));
        assert(body[i - start] == c);
        if !is_ascii_digit(c) {
            assert(!is_digit_char(body[i - start]));
            return None;
        }
        let d = (c as u32 - 48) as usize;
        match acc.checked_mul(10) {
            None => {
                proof { if all_digits(body) { lemma_digits_value_prefix_grows(body, i - start + 1); } }
                return None;
            },
            Some(m) => match m.checked_add(d) {
                None => {
                    proof { if all_digits(body) { lemma_digits_value_prefix_grows(body, i - start + 1); } }
                    return None;
                },
                Some(next) => {
                    acc = next;
                },
            },
        }
        i += 1;
        assert(all_digits(body.take(i - start)));
    }
    assert(body.take(i - start) =~= body);
    Some(acc)
}

/// A longer prefix of a digit string has at least the value of a shorter one.
proof fn lemma_digits_value_prefix_grows(s: Seq<char>, k: int)
    requires
        0 <= k <= s.len(),
        all_digits(s),
    ensures
        digits_value(s.take(k)) <= digits_value(s),
    decreases s.len() - k,
{
    if k < s.len() {
        lemma_digits_value_prefix_grows(s.drop_last(), k);
        assert(s.drop_last().take(k) =~= s.take(k));
        assert(all_digits(s.drop_last()));
    } else {
        assert(s.take(k) =~= s);
    }
}

pub proof fn lemma_parse_decimal(n: nat)
    requires
        n <= usize::MAX,
    ensures
        parse_usize_spec(decimal(n)) == Some(n),
{
    lemma_decimal_digits(n);
}

} // verus!
