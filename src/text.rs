//! Character-sequence helpers: last path segment and lexicographic order.

use vstd::prelude::*;

verus! {

/// The part of `s` after the last occurrence of `delim`; all of `s` when
/// `delim` does not occur in it.
pub open spec fn last_segment(s: Seq<char>, delim: char) -> Seq<char>
    decreases s.len(),
{
    if s.len() == 0 {
        s
    } else if s.last() == delim {
        Seq::<char>::empty()
    } else {
        last_segment(s.drop_last(), delim).push(s.last())
    }
}

/// Strict lexicographic order on character sequences, by code point.
pub open spec fn text_lt(a: Seq<char>, b: Seq<char>) -> bool
    decreases a.len(),
{
    if a.len() == 0 {
        b.len() > 0
    } else if b.len() == 0 {
        false
    } else if a[0] != b[0] {
        (a[0] as int) < (b[0] as int)
    } else {
        text_lt(a.drop_first(), b.drop_first())
    }
}

/// The last segment is a suffix of `s` free of `delim`; it is preceded by
/// `delim` when `delim` occurs in `s`, and it is `s` itself otherwise.
pub proof fn lemma_last_segment_shape(s: Seq<char>, delim: char)
    ensures
        last_segment(s, delim).len() <= s.len(),
        last_segment(s, delim) == s.subrange(s.len() - last_segment(s, delim).len(), s.len() as int),
        !last_segment(s, delim).contains(delim),
        s.contains(delim) ==> s[s.len() - last_segment(s, delim).len() - 1] == delim,
        !s.contains(delim) ==> last_segment(s, delim) == s,
    decreases s.len(),
{
    if s.len() == 0 {
    } else if s.last() == delim {
        assert(s.contains(delim)) by {
            assert(s[s.len() - 1] == delim);
        }
    } else {
        let t = s.drop_last();
        lemma_last_segment_shape(t, delim);
        let seg = last_segment(t, delim);
        assert(seg.push(s.last()) =~= s.subrange(s.len() - seg.len() - 1, s.len() as int));
        assert(!seg.push(s.last()).contains(delim)) by {
            if seg.push(s.last()).contains(delim) {
                let k = choose|k: int| 0 <= k < seg.len() + 1 && seg.push(s.last())[k] == delim;
                assert(seg.contains(seg[k]));
            }
        }
        if s.contains(delim) {
            let k = choose|k: int| 0 <= k < s.len() && s[k] == delim;
            assert(t[k] == delim);
            assert(t.contains(delim));
        } else {
            assert(!t.contains(delim)) by {
                if t.contains(delim) {
                    let k = choose|k: int| 0 <= k < t.len() && t[k] == delim;
                    assert(s[k] == delim);
                }
            }
            assert(s =~= t.push(s.last()));
        }
    }
}

/// No sequence precedes itself.
pub proof fn lemma_text_lt_irreflexive(a: Seq<char>)
    ensures
        !text_lt(a, a),
    decreases a.len(),
{
    if a.len() > 0 {
        lemma_text_lt_irreflexive(a.drop_first());
    }
}

/// `text_lt` is transitive.
pub proof fn lemma_text_lt_transitive(a: Seq<char>, b: Seq<char>, c: Seq<char>)
    requires
        text_lt(a, b),
        text_lt(b, c),
    ensures
        text_lt(a, c),
    decreases a.len(),
{
    if a.len() > 0 && b.len() > 0 && c.len() > 0 && a[0] == b[0] && b[0] == c[0] {
        lemma_text_lt_transitive(a.drop_first(), b.drop_first(), c.drop_first());
    }
}

/// Of two sequences, one precedes the other or they are equal.
pub proof fn lemma_text_lt_total(a: Seq<char>, b: Seq<char>)
    ensures
        text_lt(a, b) || a == b || text_lt(b, a),
    decreases a.len(),
{
    if a.len() == 0 || b.len() == 0 {
        if a.len() == 0 && b.len() == 0 {
            assert(a =~= b);
        }
    } else if a[0] != b[0] {
        assert((a[0] as int) != (b[0] as int));
    } else {
        lemma_text_lt_total(a.drop_first(), b.drop_first());
        if a.drop_first() == b.drop_first() {
            assert(a =~= seq![a[0]] + a.drop_first());
            assert(b =~= seq![b[0]] + b.drop_first());
        }
    }
}

/// `last_segment` computed: the characters after the last `delim` in `s`.
pub fn last_segment_of(s: &str, delim: char) -> (r: String)
    ensures
        r@ == last_segment(s@, delim),
{
    let n = s.unicode_len();
    let mut start: usize = n;
    assert(s@.subrange(0, n as int) =~= s@);
    assert(last_segment(s@, delim) =~= last_segment(s@.subrange(0, n as int), delim) + s@.subrange(n as int, n as int));
    while start > 0 && s.get_char(start - 1) != delim
        invariant
            start <= n,
            n == s@.len(),
            last_segment(s@, delim) == last_segment(s@.subrange(0, start as int), delim) + s@.subrange(
                start as int,
                n as int,
            ),
        decreases start,
    {
        let ghost pre = s@.subrange(0, start as int);
        assert(pre.drop_last() =~= s@.subrange(0, start - 1));
        assert(last_segment(pre, delim) == last_segment(pre.drop_last(), delim).push(pre.last()));
        assert(s@.subrange(start - 1, n as int) =~= seq![pre.last()] + s@.subrange(start as int, n as int));
        assert(last_segment(s@.subrange(0, start - 1), delim) + s@.subrange(start - 1, n as int)
            =~= last_segment(pre, delim) + s@.subrange(start as int, n as int));
        start = start - 1;
    }
    assert(last_segment(s@.subrange(0, start as int), delim) =~= Seq::<char>::empty());
    assert(s@.subrange(start as int, n as int) =~= last_segment(s@, delim));
    String::from_str(s.substring_char(start, n))
}

/// `text_lt` computed.
pub fn text_less(a: &str, b: &str) -> (r: bool)
    ensures
        r == text_lt(a@, b@),
{
    let na = a.unicode_len();
    let nb = b.unicode_len();
    let mut i: usize = 0;
    assert(a@.subrange(0, na as int) =~= a@);
    assert(b@.subrange(0, nb as int) =~= b@);
    while i < na && i < nb
        invariant
            na == a@.len(),
            nb == b@.len(),
            i <= na,
            i <= nb,
            text_lt(a@, b@) == text_lt(a@.subrange(i as int, na as int), b@.subrange(i as int, nb as int)),
        decreases na - i,
    {
        let ca = a.get_char(i);
        let cb = b.get_char(i);
        let ghost sa = a@.subrange(i as int, na as int);
        let ghost sb = b@.subrange(i as int, nb as int);
        assert(sa[0] == ca && sb[0] == cb);
        if ca != cb {
            return (ca as u32) < (cb as u32);
        }
        assert(sa.drop_first() =~= a@.subrange(i + 1, na as int));
        assert(sb.drop_first() =~= b@.subrange(i + 1, nb as int));
        i = i + 1;
    }
    i == na && i < nb
}

} // verus!
