//! Gathering readable text from a subtree of the accessibility tree, for
//! use as a vocabulary hint. The tree is read by the program and handed
//! over as `AxNode` values.
use vstd::prelude::*;

use crate::domain::take_at_most;
use crate::platform::{opt_view, strip_format_marks, strip_marks};
use crate::text::{
    chars_eq, chars_eq_str, chars_of, lemma_trim_end_stop, lemma_trim_start_stop, slice_chars, string_from_chars,
    trim_by, trim_end_by, trim_start_by, trim_whitespace, trim_ws, ws_pred,
};

verus! {

/// Subtrees deeper than this are not read.
pub const MAX_DEPTH: usize = 25;

/// At most this many elements are visited.
pub const MAX_ELEMENTS: usize = 2500;

/// How many characters of nearby text are gathered.
pub const NEARBY_TEXT_CHARS: usize = 1200;

/// One accessibility element: its role, the three text attributes looked
/// at, and its children in order.
pub struct AxNode {
    pub role: Option<String>,
    pub value: Option<String>,
    pub title: Option<String>,
    pub description: Option<String>,
    pub children: Vec<AxNode>,
}

/// Roles of interface chrome (buttons, menus, toolbars, images...) whose
/// subtrees hold no content.
pub open spec fn is_chrome_role_spec(role: Option<Seq<char>>) -> bool {
    match role {
        None => false,
        Some(r) => {
            ||| r == "AXButton"@
            ||| r == "AXMenuBar"@
            ||| r == "AXMenuBarItem"@
            ||| r == "AXMenu"@
            ||| r == "AXMenuItem"@
            ||| r == "AXCheckBox"@
            ||| r == "AXRadioButton"@
            ||| r == "AXPopUpButton"@
            ||| r == "AXToolbar"@
            ||| r == "AXImage"@
            ||| r == "AXSlider"@
            ||| r == "AXIncrementor"@
            ||| r == "AXDisclosureTriangle"@
            ||| r == "AXScrollBar"@
            ||| r == "AXTabGroup"@
            ||| r == "AXColorWell"@
            ||| r == "AXProgressIndicator"@
        },
    }
}

pub fn is_chrome_role(role: &Option<String>) -> (b: bool)
    ensures
        b == is_chrome_role_spec(opt_view(*role)),
{
    match role {
        None => false,
        Some(s) => {
            let r = chars_of(s.as_str());
            chars_eq_str(&r, "AXButton") || chars_eq_str(&r, "AXMenuBar") || chars_eq_str(&r, "AXMenuBarItem")
                || chars_eq_str(&r, "AXMenu") || chars_eq_str(&r, "AXMenuItem") || chars_eq_str(&r, "AXCheckBox")
                || chars_eq_str(&r, "AXRadioButton") || chars_eq_str(&r, "AXPopUpButton")
                || chars_eq_str(&r, "AXToolbar") || chars_eq_str(&r, "AXImage") || chars_eq_str(&r, "AXSlider")
                || chars_eq_str(&r, "AXIncrementor") || chars_eq_str(&r, "AXDisclosureTriangle")
                || chars_eq_str(&r, "AXScrollBar") || chars_eq_str(&r, "AXTabGroup")
                || chars_eq_str(&r, "AXColorWell") || chars_eq_str(&r, "AXProgressIndicator")
        },
    }
}

/// An attribute's text without marks and surrounding whitespace, when that
/// leaves at least two characters.
pub open spec fn usable_text(o: Option<Seq<char>>) -> Option<Seq<char>> {
    match o {
        Some(t) if trim_ws(strip_marks(t)).len() >= 2 => Some(trim_ws(strip_marks(t))),
        _ => None,
    }
}

/// The element's text: its value, else its title, else its description.
pub open spec fn element_text_spec(n: AxNode) -> Option<Seq<char>> {
    match usable_text(opt_view(n.value)) {
        Some(t) => Some(t),
        None => match usable_text(opt_view(n.title)) {
            Some(t) => Some(t),
            None => usable_text(opt_view(n.description)),
        },
    }
}

fn usable(o: &Option<String>) -> (r: Option<Vec<char>>)
    ensures
        match r {
            Some(v) => usable_text(opt_view(*o)) == Some(v@),
            None => usable_text(opt_view(*o)).is_none(),
        },
{
    match o {
        None => None,
        Some(s) => {
            let t = trim_whitespace(&strip_format_marks(&chars_of(s.as_str())));
            if t.len() >= 2 {
                Some(t)
            } else {
                None
            }
        },
    }
}

fn element_text(n: &AxNode) -> (r: Option<Vec<char>>)
    ensures
        match r {
            Some(v) => element_text_spec(*n) == Some(v@),
            None => element_text_spec(*n).is_none(),
        },
{
    match usable(&n.value) {
        Some(t) => Some(t),
        None => match usable(&n.title) {
            Some(t) => Some(t),
            None => usable(&n.description),
        },
    }
}

pub open spec fn ends_with(s: Seq<char>, t: Seq<char>) -> bool {
    t.len() <= s.len() && s.skip(s.len() - t.len()) == t
}

/// Adds one snippet: skipped when shorter than two characters or when the
/// text already ends with it; else a newline (unless the text is empty) and
/// as much of the snippet as `max_chars` leaves room for.
pub open spec fn push_snippet_spec(buf: Seq<char>, text: Seq<char>, max_chars: nat) -> Seq<char> {
    let t = trim_ws(text);
    if t.len() < 2 || ends_with(buf, t) {
        buf
    } else {
        let b = if buf.len() > 0 {
            buf.push('\n')
        } else {
            buf
        };
        let remaining: nat = if b.len() <= max_chars {
            (max_chars - b.len()) as nat
        } else {
            0
        };
        b + take_at_most(t, remaining)
    }
}

/// Text gathered so far and elements visited so far.
pub type WalkState = (Seq<char>, nat);

pub open spec fn budget_spent(st: WalkState, max_chars: nat) -> bool {
    st.1 >= MAX_ELEMENTS || st.0.len() >= max_chars
}

/// Visits `n` at `depth`: stops when too deep or out of budget; counts the
/// element; skips chrome subtrees; adds the element's text; then visits its
/// children in order.
pub open spec fn walk(n: AxNode, st: WalkState, max_chars: nat, depth: nat) -> WalkState
    decreases n, 1nat, 0nat,
{
    if depth > MAX_DEPTH || budget_spent(st, max_chars) {
        st
    } else {
        let st1 = (st.0, st.1 + 1);
        if is_chrome_role_spec(opt_view(n.role)) {
            st1
        } else {
            let st2 = match element_text_spec(n) {
                Some(t) => (push_snippet_spec(st1.0, t, max_chars), st1.1),
                None => st1,
            };
            walk_children(n.children@, 0, st2, max_chars, depth + 1)
        }
    }
}

/// Visits `cs[i..]` in order while budget remains.
pub open spec fn walk_children(cs: Seq<AxNode>, i: nat, st: WalkState, max_chars: nat, depth: nat) -> WalkState
    decreases cs, 0nat, cs.len() - i,
{
    if i >= cs.len() || budget_spent(st, max_chars) {
        st
    } else {
        walk_children(cs, i + 1, walk(cs[i as int], st, max_chars, depth), max_chars, depth)
    }
}

fn ends_with_chars(s: &Vec<char>, t: &Vec<char>) -> (b: bool)
    ensures
        b == ends_with(s@, t@),
{
    if t.len() > s.len() {
        return false;
    }
    let tail = slice_chars(s, s.len() - t.len(), s.len());
    assert(tail@ =~= s@.skip(s@.len() - t@.len()));
    chars_eq(&tail, t)
}

fn push_snippet(buf: &mut Vec<char>, text: &Vec<char>, max_chars: usize)
    ensures
        final(buf)@ == push_snippet_spec(old(buf)@, text@, max_chars as nat),
{
    let t = trim_whitespace(text);
    if t.len() < 2 || ends_with_chars(buf, &t) {
        return;
    }
    if buf.len() > 0 {
        buf.push('\n');
    }
    let remaining = if buf.len() <= max_chars {
        max_chars - buf.len()
    } else {
        0
    };
    let ghost b = buf@;
    let mut i: usize = 0;
    while i < t.len() && i < remaining
        invariant
            i <= t@.len(),
            i <= remaining,
            buf@ == b + t@.take(i as int),
        decreases t@.len() - i,
    {
        buf.push(t[i]);
        i += 1;
        assert(buf@ =~= b + t@.take(i as int));
    }
    proof {
        if i == t@.len() {
            assert(t@.take(i as int) =~= t@);
        }
    }
}

fn walk_exec(n: &AxNode, buf: &mut Vec<char>, visited: &mut usize, max_chars: usize, depth: usize)
    requires
        *old(visited) <= MAX_ELEMENTS,
        depth <= MAX_DEPTH + 1,
    ensures
        (final(buf)@, *final(visited) as nat) == walk(*n, (old(buf)@, *old(visited) as nat), max_chars as nat, depth as nat),
        *final(visited) <= MAX_ELEMENTS,
    decreases n, 1nat, 0nat,
{
    if depth > MAX_DEPTH || *visited >= MAX_ELEMENTS || buf.len() >= max_chars {
        return;
    }
    *visited = *visited + 1;
    if is_chrome_role(&n.role) {
        return;
    }
    match element_text(n) {
        Some(t) => push_snippet(buf, &t, max_chars),
        None => {},
    }
    let ghost st2: WalkState = (buf@, *visited as nat);
    let ghost cs = n.children@;
    let mut i: usize = 0;
    while i < n.children.len()
        invariant
            i <= cs.len(),
            cs == n.children@,
            depth + 1 <= MAX_DEPTH + 1,
            walk(*n, (old(buf)@, *old(visited) as nat), max_chars as nat, depth as nat)
                == walk_children(cs, 0, st2, max_chars as nat, depth as nat + 1),
            *visited <= MAX_ELEMENTS,
            walk_children(cs, 0, st2, max_chars as nat, depth as nat + 1) == walk_children(
                cs,
                i as nat,
                (buf@, *visited as nat),
                max_chars as nat,
                depth as nat + 1,
            ),
        decreases cs.len() - i,
    {
        if *visited >= MAX_ELEMENTS || buf.len() >= max_chars {
            return;
        }
        proof {
            assert(decreases_to!(n => n.children));
            assert(decreases_to!(n.children => n.children@));
            assert(decreases_to!(n.children@ => n.children@[i as int]));
        }
        walk_exec(&n.children[i], buf, visited, max_chars, depth + 1);
        i += 1;
    }
}

/// Readable text under `root`: element texts on separate lines, chrome
/// subtrees skipped, at most `max_chars` characters, `MAX_DEPTH` levels and
/// `MAX_ELEMENTS` elements.
pub fn collect_static_text(root: &AxNode, max_chars: usize) -> (r: String)
    ensures
        r@ == walk(*root, (Seq::<char>::empty(), 0nat), max_chars as nat, 0nat).0,
{
    let mut buf: Vec<char> = Vec::new();
    let mut visited: usize = 0;
    walk_exec(root, &mut buf, &mut visited, max_chars, 0);
    string_from_chars(&buf)
}

// ───────────────────────── laws ─────────────────────────

proof fn lemma_push_snippet_bounded(buf: Seq<char>, text: Seq<char>, max_chars: nat)
    requires
        buf.len() < max_chars,
    ensures
        push_snippet_spec(buf, text, max_chars).len() <= max_chars,
{
}

proof fn lemma_walk_bounded(n: AxNode, st: WalkState, max_chars: nat, depth: nat)
    requires
        st.0.len() <= max_chars,
    ensures
        walk(n, st, max_chars, depth).0.len() <= max_chars,
    decreases n, 1nat, 0nat,
{
    if !(depth > MAX_DEPTH || budget_spent(st, max_chars)) {
        let st1 = (st.0, st.1 + 1);
        if !is_chrome_role_spec(opt_view(n.role)) {
            let st2 = match element_text_spec(n) {
                Some(t) => (push_snippet_spec(st1.0, t, max_chars), st1.1),
                None => st1,
            };
            match element_text_spec(n) {
                Some(t) => lemma_push_snippet_bounded(st1.0, t, max_chars),
                None => {},
            }
            lemma_walk_children_bounded(n.children@, 0, st2, max_chars, depth + 1);
        }
    }
}

proof fn lemma_walk_children_bounded(cs: Seq<AxNode>, i: nat, st: WalkState, max_chars: nat, depth: nat)
    requires
        st.0.len() <= max_chars,
    ensures
        walk_children(cs, i, st, max_chars, depth).0.len() <= max_chars,
    decreases cs, 0nat, cs.len() - i,
{
    if !(i >= cs.len() || budget_spent(st, max_chars)) {
        lemma_walk_bounded(cs[i as int], st, max_chars, depth);
        lemma_walk_children_bounded(cs, i + 1, walk(cs[i as int], st, max_chars, depth), max_chars, depth);
    }
}

/// The gathered text never exceeds `max_chars` characters.
pub proof fn lemma_collected_text_bounded(root: AxNode, max_chars: nat)
    ensures
        walk(root, (Seq::<char>::empty(), 0nat), max_chars, 0nat).0.len() <= max_chars,
{
    lemma_walk_bounded(root, (Seq::<char>::empty(), 0nat), max_chars, 0nat);
}

proof fn lemma_walk_extends(n: AxNode, st: WalkState, max_chars: nat, depth: nat)
    requires
        st.1 <= MAX_ELEMENTS,
    ensures
        walk(n, st, max_chars, depth).0.len() >= st.0.len(),
        walk(n, st, max_chars, depth).0.take(st.0.len() as int) == st.0,
        st.1 <= walk(n, st, max_chars, depth).1 <= MAX_ELEMENTS,
    decreases n, 1nat, 0nat,
{
    if !(depth > MAX_DEPTH || budget_spent(st, max_chars)) {
        let st1 = (st.0, st.1 + 1);
        if !is_chrome_role_spec(opt_view(n.role)) {
            let st2 = match element_text_spec(n) {
                Some(t) => (push_snippet_spec(st1.0, t, max_chars), st1.1),
                None => st1,
            };
            match element_text_spec(n) {
                Some(t) => {
                    let b = if st.0.len() > 0 { st.0.push('\n') } else { st.0 };
                    assert(b.take(st.0.len() as int) =~= st.0);
                    assert(st2.0.take(st.0.len() as int) =~= st.0);
                },
                None => {},
            }
            lemma_walk_children_extends(n.children@, 0, st2, max_chars, depth + 1);
            let r = walk(n, st, max_chars, depth);
            assert(r.0.take(st2.0.len() as int).take(st.0.len() as int) =~= r.0.take(st.0.len() as int));
        }
    } else {
        assert(st.0.take(st.0.len() as int) =~= st.0);
    }
}

proof fn lemma_walk_children_extends(cs: Seq<AxNode>, i: nat, st: WalkState, max_chars: nat, depth: nat)
    requires
        st.1 <= MAX_ELEMENTS,
    ensures
        walk_children(cs, i, st, max_chars, depth).0.len() >= st.0.len(),
        walk_children(cs, i, st, max_chars, depth).0.take(st.0.len() as int) == st.0,
        st.1 <= walk_children(cs, i, st, max_chars, depth).1 <= MAX_ELEMENTS,
    decreases cs, 0nat, cs.len() - i,
{
    if !(i >= cs.len() || budget_spent(st, max_chars)) {
        let mid = walk(cs[i as int], st, max_chars, depth);
        lemma_walk_extends(cs[i as int], st, max_chars, depth);
        lemma_walk_children_extends(cs, i + 1, mid, max_chars, depth);
        let r = walk_children(cs, i, st, max_chars, depth);
        assert(r.0.take(mid.0.len() as int).take(st.0.len() as int) =~= r.0.take(st.0.len() as int));
    } else {
        assert(st.0.take(st.0.len() as int) =~= st.0);
    }
}

/// Walking only adds: the text gathered before a subtree is kept as it was,
/// and the count of visited elements grows but never past `MAX_ELEMENTS`.
pub proof fn lemma_walk_keeps_caps(n: AxNode, st: WalkState, max_chars: nat, depth: nat)
    requires
        st.1 <= MAX_ELEMENTS,
    ensures
        walk(n, st, max_chars, depth).0.take(st.0.len() as int) == st.0,
        walk(n, st, max_chars, depth).0.len() >= st.0.len(),
        st.1 <= walk(n, st, max_chars, depth).1 <= MAX_ELEMENTS,
{
    lemma_walk_extends(n, st, max_chars, depth);
}

proof fn lemma_walk_too_deep(cs: Seq<AxNode>, i: nat, st: WalkState, max_chars: nat, depth: nat)
    requires
        depth > MAX_DEPTH,
    ensures
        walk_children(cs, i, st, max_chars, depth) == st,
    decreases cs.len() - i,
{
    if !(i >= cs.len() || budget_spent(st, max_chars)) {
        assert(walk(cs[i as int], st, max_chars, depth) == st);
        lemma_walk_too_deep(cs, i + 1, st, max_chars, depth);
    }
}

/// What lies under a chrome element, or under an element at the deepest
/// level read, is never read: two elements that differ only in their
/// children give the same walk there.
pub proof fn lemma_walk_ignores_hidden_subtrees(
    n: AxNode,
    m: AxNode,
    st: WalkState,
    max_chars: nat,
    depth: nat,
)
    requires
        n.role == m.role,
        n.value == m.value,
        n.title == m.title,
        n.description == m.description,
        is_chrome_role_spec(opt_view(n.role)) || depth >= MAX_DEPTH,
    ensures
        walk(n, st, max_chars, depth) == walk(m, st, max_chars, depth),
{
    if !(depth > MAX_DEPTH || budget_spent(st, max_chars)) && !is_chrome_role_spec(opt_view(n.role)) {
        let st1 = (st.0, st.1 + 1);
        let st2 = match element_text_spec(n) {
            Some(t) => (push_snippet_spec(st1.0, t, max_chars), st1.1),
            None => st1,
        };
        assert(element_text_spec(n) == element_text_spec(m));
        lemma_walk_too_deep(n.children@, 0, st2, max_chars, depth + 1);
        lemma_walk_too_deep(m.children@, 0, st2, max_chars, depth + 1);
    }
}

proof fn lemma_trim_start_head(s: Seq<char>, p: spec_fn(char) -> bool)
    ensures
        trim_start_by(s, p).len() <= s.len(),
        trim_start_by(s, p) == s.skip(s.len() - trim_start_by(s, p).len()),
        trim_start_by(s, p).len() == 0 || !p(trim_start_by(s, p)[0]),
    decreases s.len(),
{
    if s.len() > 0 && p(s[0]) {
        lemma_trim_start_head(s.drop_first(), p);
        let r = trim_start_by(s.drop_first(), p);
        assert(s.drop_first().skip(s.drop_first().len() - r.len()) =~= s.skip(s.len() - r.len()));
    } else {
        assert(s.skip(0) =~= s);
    }
}

proof fn lemma_trim_end_tail(s: Seq<char>, p: spec_fn(char) -> bool)
    ensures
        trim_end_by(s, p).len() <= s.len(),
        trim_end_by(s, p) == s.take(trim_end_by(s, p).len() as int),
        trim_end_by(s, p).len() == 0 || !p(trim_end_by(s, p).last()),
    decreases s.len(),
{
    if s.len() > 0 && p(s.last()) {
        lemma_trim_end_tail(s.drop_last(), p);
        let r = trim_end_by(s.drop_last(), p);
        assert(s.drop_last().take(r.len() as int) =~= s.take(r.len() as int));
    } else {
        assert(s.take(s.len() as int) =~= s);
    }
}

proof fn lemma_trim_twice(s: Seq<char>, p: spec_fn(char) -> bool)
    ensures
        trim_by(trim_by(s, p), p) == trim_by(s, p),
{
    let u = trim_start_by(s, p);
    let t = trim_end_by(u, p);
    lemma_trim_start_head(s, p);
    lemma_trim_end_tail(u, p);
    if t.len() > 0 {
        assert(t[0] == u[0]);
    }
    lemma_trim_start_stop(t, p);
    lemma_trim_end_stop(t, p);
}

/// An element's own text is its value whenever the value is usable, else
/// its title, else its description (each with marks removed and trimmed):
/// a lone element that is not chrome yields exactly the first usable one of
/// these, cut to `max_chars`, and nothing when none is usable.
pub proof fn lemma_lone_element_reads_value_first(n: AxNode, max_chars: nat)
    requires
        !is_chrome_role_spec(opt_view(n.role)),
        n.children@.len() == 0,
    ensures
        ({
            let got = walk(n, (Seq::<char>::empty(), 0nat), max_chars, 0nat).0;
            let value = usable_text(opt_view(n.value));
            let title = usable_text(opt_view(n.title));
            let description = usable_text(opt_view(n.description));
            &&& value is Some ==> got == take_at_most(trim_ws(strip_marks(opt_view(n.value)->0)), max_chars)
            &&& value is None && title is Some ==> got == take_at_most(
                trim_ws(strip_marks(opt_view(n.title)->0)),
                max_chars,
            )
            &&& value is None && title is None && description is Some ==> got == take_at_most(
                trim_ws(strip_marks(opt_view(n.description)->0)),
                max_chars,
            )
            &&& value is None && title is None && description is None ==> got == Seq::<char>::empty()
        }),
{
    let empty = Seq::<char>::empty();
    match element_text_spec(n) {
        Some(v) => {
            let raw = if usable_text(opt_view(n.value)) is Some {
                opt_view(n.value)->0
            } else if usable_text(opt_view(n.title)) is Some {
                opt_view(n.title)->0
            } else {
                opt_view(n.description)->0
            };
            assert(v == trim_ws(strip_marks(raw)));
            lemma_trim_twice(strip_marks(raw), ws_pred());
            assert(trim_ws(v) == v);
            if max_chars == 0 {
                assert(v.take(0) =~= empty);
            } else {
                assert(!ends_with(empty, v));
                assert(empty + take_at_most(v, max_chars) =~= take_at_most(v, max_chars));
            }
        },
        None => {},
    }
}

} // verus!
