//! Substring search and highlight segmentation of displayed names.
use vstd::prelude::*;
use vstd::string::StrSliceExecFns;
use crate::text::chars_of;

verus! {

/// A piece of a segmented text, marked when it is an occurrence of the
/// pattern.
#[derive(Debug, Clone, PartialEq, Eq)]
pub struct MatchSpan {
    pub text: String,
    pub is_match: bool,
}

/// `p` occurs in `t` starting at position `i`.
pub open spec fn occurs_at(t: Seq<char>, p: Seq<char>, i: int) -> bool {
    0 <= i && i + p.len() <= t.len() && t.subrange(i, i + p.len()) == p
}

/// `p` occurs somewhere in `t`; the empty pattern occurs in every text.
pub open spec fn occurs_in(t: Seq<char>, p: Seq<char>) -> bool {
    exists|i: int| occurs_at(t, p, i)
}

/// The spans as (text, is-match) pairs.
pub open spec fn span_views(s: Seq<MatchSpan>) -> Seq<(Seq<char>, bool)> {
    s.map_values(|m: MatchSpan| (m.text@, m.is_match))
}

/// Puts the unmatched characters `u` in front of `s`, joining them to a
/// leading unmatched span.
pub open spec fn prepend_unmatched(u: Seq<char>, s: Seq<(Seq<char>, bool)>) -> Seq<(Seq<char>, bool)> {
    if s.len() > 0 && !s[0].1 {
        seq![(u + s[0].0, false)] + s.drop_first()
    } else {
        seq![(u, false)] + s
    }
}

/// The segmentation of `t` by `p`: read left to right, an occurrence of a
/// non-empty `p` is a matched span; other characters gather into unmatched
/// spans.
pub open spec fn highlight(t: Seq<char>, p: Seq<char>) -> Seq<(Seq<char>, bool)>
    decreases t.len(),
{
    if t.len() == 0 {
        seq![]
    } else if 0 < p.len() <= t.len() && t.subrange(0, p.len() as int) == p {
        seq![(p, true)] + highlight(t.subrange(p.len() as int, t.len() as int), p)
    } else {
        prepend_unmatched(seq![t[0]], highlight(t.drop_first(), p))
    }
}

/// The texts of the spans, one after the other.
pub open spec fn joined(s: Seq<(Seq<char>, bool)>) -> Seq<char>
    decreases s.len(),
{
    if s.len() == 0 {
        seq![]
    } else {
        s[0].0 + joined(s.drop_first())
    }
}

/// No span is empty, each matched span is the pattern, and no two unmatched
/// spans stand next to each other.
pub open spec fn well_shaped(s: Seq<(Seq<char>, bool)>, p: Seq<char>) -> bool {
    &&& forall|i: int| 0 <= i < s.len() ==> #[trigger] s[i].0.len() > 0
    &&& forall|i: int| 0 <= i < s.len() && #[trigger] s[i].1 ==> s[i].0 == p
    &&& forall|i: int| 0 <= i < s.len() - 1 && !#[trigger] s[i].1 ==> s[i + 1].1
}

/// Unmatched characters put in front of a segmentation, if there are any.
pub open spec fn prepend_pending(u: Seq<char>, s: Seq<(Seq<char>, bool)>) -> Seq<(Seq<char>, bool)> {
    if u.len() == 0 {
        s
    } else {
        prepend_unmatched(u, s)
    }
}

proof fn lemma_joined_append(a: Seq<(Seq<char>, bool)>, b: Seq<(Seq<char>, bool)>)
    ensures
        joined(a + b) == joined(a) + joined(b),
    decreases a.len(),
{
    if a.len() == 0 {
        assert(a + b =~= b);
        assert(joined(a) + joined(b) =~= joined(b));
    } else {
        assert((a + b).drop_first() =~= a.drop_first() + b);
        lemma_joined_append(a.drop_first(), b);
        assert(joined(a + b) =~= joined(a) + joined(b));
    }
}

proof fn lemma_joined_prepend(u: Seq<char>, s: Seq<(Seq<char>, bool)>)
    ensures
        joined(prepend_unmatched(u, s)) == u + joined(s),
{
    if s.len() > 0 && !s[0].1 {
        let r = prepend_unmatched(u, s);
        assert(r.drop_first() =~= s.drop_first());
        assert(joined(r) =~= u + joined(s));
    } else {
        let r = prepend_unmatched(u, s);
        assert(r.drop_first() =~= s);
        assert(joined(r) =~= u + joined(s));
    }
}

proof fn lemma_joined_single(x: Seq<char>)
    ensures
        joined(seq![(x, false)]) == x,
{
    let s = seq![(x, false)];
    assert(s.drop_first() =~= Seq::<(Seq<char>, bool)>::empty());
    assert(joined(s.drop_first()) == Seq::<char>::empty());
    assert(x + Seq::<char>::empty() =~= x);
}

/// Joining the spans of a segmentation gives back the text.
pub proof fn lemma_highlight_joins(t: Seq<char>, p: Seq<char>)
    ensures
        joined(highlight(t, p)) == t,
    decreases t.len(),
{
    if t.len() == 0 {
    } else if 0 < p.len() <= t.len() && t.subrange(0, p.len() as int) == p {
        let rest = t.subrange(p.len() as int, t.len() as int);
        lemma_highlight_joins(rest, p);
        let h = highlight(t, p);
        assert(h.drop_first() =~= highlight(rest, p));
        assert(t =~= p + rest);
    } else {
        lemma_highlight_joins(t.drop_first(), p);
        lemma_joined_prepend(seq![t[0]], highlight(t.drop_first(), p));
        assert(t =~= seq![t[0]] + t.drop_first());
    }
}

proof fn lemma_prepend_shape(u: Seq<char>, s: Seq<(Seq<char>, bool)>, p: Seq<char>)
    requires
        u.len() > 0,
        well_shaped(s, p),
    ensures
        well_shaped(prepend_unmatched(u, s), p),
{
    let r = prepend_unmatched(u, s);
    if s.len() > 0 && !s[0].1 {
        assert forall|i: int| 0 <= i < r.len() - 1 && !#[trigger] r[i].1 implies r[i + 1].1 by {
            if i > 0 {
                assert(r[i] == s[i]);
                assert(r[i + 1] == s[i + 1]);
            } else if s.len() > 1 {
                assert(r[1] == s[1]);
            }
        }
        assert forall|i: int| 0 <= i < r.len() implies #[trigger] r[i].0.len() > 0 by {
            if i > 0 {
                assert(r[i] == s[i]);
                assert(s[i].0.len() > 0);
            } else {
                assert(r[0].0 == u + s[0].0);
            }
        }
    } else {
        assert forall|i: int| 0 <= i < r.len() - 1 && !#[trigger] r[i].1 implies r[i + 1].1 by {
            if i > 0 {
                assert(r[i] == s[i - 1]);
                assert(r[i + 1] == s[i]);
            }
        }
        assert forall|i: int| 0 <= i < r.len() implies #[trigger] r[i].0.len() > 0 by {
            if i > 0 {
                assert(r[i] == s[i - 1]);
                assert(s[i - 1].0.len() > 0);
            } else {
                assert(r[0].0 == u);
            }
        }
    }
}

/// Every segmentation is well shaped.
pub proof fn lemma_highlight_shape(t: Seq<char>, p: Seq<char>)
    ensures
        well_shaped(highlight(t, p), p),
    decreases t.len(),
{
    if t.len() == 0 {
    } else if 0 < p.len() <= t.len() && t.subrange(0, p.len() as int) == p {
        let rest = t.subrange(p.len() as int, t.len() as int);
        lemma_highlight_shape(rest, p);
        let h = highlight(t, p);
        let hr = highlight(rest, p);
        assert forall|i: int| 0 <= i < h.len() - 1 && !#[trigger] h[i].1 implies h[i + 1].1 by {
            assert(h[i] == hr[i - 1]);
            assert(h[i + 1] == hr[i]);
        }
        assert forall|i: int| 0 <= i < h.len() implies #[trigger] h[i].0.len() > 0 by {
            if i > 0 {
                assert(h[i] == hr[i - 1]);
                assert(hr[i - 1].0.len() > 0);
            } else {
                assert(h[0].0 == p);
            }
        }
        assert forall|i: int| 0 <= i < h.len() && #[trigger] h[i].1 implies h[i].0 == p by {
            if i > 0 {
                assert(h[i] == hr[i - 1]);
            }
        }
    } else {
        lemma_highlight_shape(t.drop_first(), p);
        lemma_prepend_shape(seq![t[0]], highlight(t.drop_first(), p), p);
    }
}

/// A text in which the pattern has no occurrence, or an empty pattern,
/// gives one unmatched span: the whole text.
pub proof fn lemma_highlight_without_match(t: Seq<char>, p: Seq<char>)
    requires
        t.len() > 0,
        p.len() == 0 || !occurs_in(t, p),
    ensures
        highlight(t, p) == seq![(t, false)],
    decreases t.len(),
{
    if p.len() > 0 {
        if p.len() <= t.len() && t.subrange(0, p.len() as int) == p {
            assert(occurs_at(t, p, 0));
        }
        if t.len() > 1 {
            assert(!occurs_in(t.drop_first(), p)) by {
                if occurs_in(t.drop_first(), p) {
                    let i = choose|i: int| occurs_at(t.drop_first(), p, i);
                    assert(t.subrange(i + 1, i + 1 + p.len()) =~= t.drop_first().subrange(i, i + p.len()));
                    assert(occurs_at(t, p, i + 1));
                }
            }
        }
    }
    let rest = highlight(t.drop_first(), p);
    assert(highlight(t, p) == prepend_unmatched(seq![t[0]], rest));
    if t.len() == 1 {
        assert(rest.len() == 0);
        assert(seq![t[0]] =~= t);
        assert(prepend_unmatched(seq![t[0]], rest) =~= seq![(t, false)]);
    } else {
        lemma_highlight_without_match(t.drop_first(), p);
        assert(seq![t[0]] + t.drop_first() =~= t);
        assert(prepend_unmatched(seq![t[0]], rest) =~= seq![(t, false)]);
    }
}

proof fn lemma_pending_extend(u: Seq<char>, c: char, s: Seq<(Seq<char>, bool)>)
    ensures
        prepend_pending(u, prepend_unmatched(seq![c], s)) == prepend_pending(u.push(c), s),
{
    if u.len() > 0 {
        let inner = prepend_unmatched(seq![c], s);
        assert(inner.len() > 0 && !inner[0].1);
        if s.len() > 0 && !s[0].1 {
            assert(u + (seq![c] + s[0].0) =~= u.push(c) + s[0].0);
            assert(inner.drop_first() =~= s.drop_first());
        } else {
            assert(u + seq![c] =~= u.push(c));
            assert(inner.drop_first() =~= s);
        }
    } else {
        assert(seq![c] =~= u.push(c));
    }
}

/// Whether `p` occurs in `t` at position `i`.
fn occurs_at_exec(t: &Vec<char>, p: &Vec<char>, i: usize) -> (r: bool)
    requires
        i <= t.len(),
    ensures
        r == occurs_at(t@, p@, i as int),
{
    if p.len() > t.len() - i {
        return false;
    }
    let mut k: usize = 0;
    while k < p.len()
        invariant
            k <= p.len(),
            i + p.len() <= t.len(),
            forall|j: int| 0 <= j < k ==> t@[i + j] == p@[j],
        decreases p.len() - k,
    {
        if t[i + k] != p[k] {
            assert(t@.subrange(i as int, i + p.len())[k as int] != p@[k as int]);
            return false;
        }
        k = k + 1;
    }
    assert(t@.subrange(i as int, i + p.len()) =~= p@);
    true
}

/// Whether `pattern` occurs in `text`. Every text holds the empty pattern.
pub fn contains(text: &str, pattern: &str) -> (r: bool)
    ensures
        r == occurs_in(text@, pattern@),
        pattern@.len() == 0 ==> r,
{
    let t = chars_of(text);
    let p = chars_of(pattern);
    proof {
        if pattern@.len() == 0 {
            assert(text@.subrange(0, 0) =~= pattern@);
            assert(occurs_at(text@, pattern@, 0));
        }
    }
    if p.len() > t.len() {
        assert(!occurs_in(text@, pattern@));
        return false;
    }
    let mut i: usize = 0;
    loop
        invariant
            p.len() <= t.len(),
            t@ == text@,
            p@ == pattern@,
            i <= t.len() - p.len(),
            p@.len() == 0 ==> occurs_at(t@, p@, 0),
            forall|j: int| 0 <= j < i ==> !occurs_at(t@, p@, j),
        decreases t.len() - i,
    {
        if occurs_at_exec(&t, &p, i) {
            return true;
        }
        if i == t.len() - p.len() {
            assert forall|j: int| !occurs_at(t@, p@, j) by {
                if 0 <= j <= i {
                }
            }
            return false;
        }
        i = i + 1;
    }
}

/// Splits `text` into matched and unmatched spans for `pattern`. Joining the
/// spans gives back `text`; an empty pattern, or a text in which it does not
/// occur, gives one unmatched span.
pub fn segment(text: &str, pattern: &str) -> (r: Vec<MatchSpan>)
    ensures
        text@.len() == 0 ==> span_views(r@) == seq![(text@, false)],
        text@.len() > 0 ==> span_views(r@) == highlight(text@, pattern@),
        pattern@.len() == 0 || !occurs_in(text@, pattern@) ==> span_views(r@) == seq![(text@, false)],
        joined(span_views(r@)) == text@,
        text@.len() > 0 ==> well_shaped(span_views(r@), pattern@),
{
    let t = chars_of(text);
    let p = chars_of(pattern);
    let n = t.len();
    if n == 0 {
        let r = vec![MatchSpan { text: text.to_owned(), is_match: false }];
        assert(span_views(r@) =~= seq![(text@, false)]);
        proof {
            lemma_joined_single(text@);
        }
        return r;
    }
    let mut out: Vec<MatchSpan> = Vec::new();
    let mut start: usize = 0;
    let mut i: usize = 0;
    assert(t@.subrange(0, n as int) =~= t@);
    while i < n
        invariant
            n == t.len(),
            t@ == text@,
            p@ == pattern@,
            start <= i <= n,
            span_views(out@) + prepend_pending(
                t@.subrange(start as int, i as int),
                highlight(t@.subrange(i as int, n as int), p@),
            ) == highlight(t@, p@),
        decreases n - i,
    {
        let ghost u = t@.subrange(start as int, i as int);
        let ghost rest = t@.subrange(i as int, n as int);
        let found = p.len() > 0 && occurs_at_exec(&t, &p, i);
        if found {
            assert(rest.subrange(0, p@.len() as int) =~= t@.subrange(i as int, i + p@.len()));
            let next = i + p.len();
            assert(rest.subrange(p@.len() as int, rest.len() as int) =~= t@.subrange(next as int, n as int));
            let ghost tail = highlight(t@.subrange(next as int, n as int), p@);
            let ghost before = span_views(out@);
            if start < i {
                let piece = text.substring_char(start, i).to_owned();
                out.push(MatchSpan { text: piece, is_match: false });
            }
            out.push(MatchSpan { text: pattern.to_owned(), is_match: true });
            proof {
                if u.len() > 0 {
                    assert(span_views(out@) =~= before + seq![(u, false), (p@, true)]);
                    assert(prepend_pending(u, seq![(p@, true)] + tail) =~= seq![(u, false), (p@, true)] + tail);
                } else {
                    assert(span_views(out@) =~= before + seq![(p@, true)]);
                }
                assert(t@.subrange(next as int, next as int) =~= Seq::<char>::empty());
                assert(span_views(out@) + prepend_pending(
                    t@.subrange(next as int, next as int), tail) =~= highlight(t@, p@));
            }
            i = next;
            start = next;
        } else {
            proof {
                if p@.len() > 0 && p@.len() <= rest.len() && rest.subrange(0, p@.len() as int) == p@ {
                    assert(rest.subrange(0, p@.len() as int) =~= t@.subrange(i as int, i + p@.len()));
                }
                assert(rest.drop_first() =~= t@.subrange(i + 1, n as int));
                lemma_pending_extend(u, t@[i as int], highlight(rest.drop_first(), p@));
                assert(u.push(t@[i as int]) =~= t@.subrange(start as int, i + 1));
            }
            i = i + 1;
        }
    }
    let ghost u = t@.subrange(start as int, n as int);
    assert(t@.subrange(n as int, n as int) =~= Seq::<char>::empty());
    if start < n {
        let ghost before = span_views(out@);
        let piece = text.substring_char(start, n).to_owned();
        out.push(MatchSpan { text: piece, is_match: false });
        assert(span_views(out@) =~= before + seq![(u, false)]);
    } else {
        assert(span_views(out@) =~= span_views(out@) + Seq::<(Seq<char>, bool)>::empty());
    }
    proof {
        lemma_highlight_joins(text@, pattern@);
        lemma_highlight_shape(text@, pattern@);
        if pattern@.len() == 0 || !occurs_in(text@, pattern@) {
            lemma_highlight_without_match(text@, pattern@);
        }
    }
    out
}

} // verus!
