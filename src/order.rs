//! Lexicographic order on strings, by code point, and sorted lists of names.
use crate::closest::views;
use vstd::prelude::*;

verus! {

/// `a` comes strictly before `b` in lexicographic order by code point (the order in
/// which std sorts `str`, since UTF-8 keeps the order of code points).
pub open spec fn lex_lt(a: Seq<char>, b: Seq<char>) -> bool
    decreases a.len(),
{
    if a.len() == 0 {
        b.len() > 0
    } else if b.len() == 0 {
        false
    } else if a[0] != b[0] {
        (a[0] as int) < (b[0] as int)
    } else {
        lex_lt(a.drop_first(), b.drop_first())
    }
}

/// Strictly increasing, hence without duplicates.
pub open spec fn sorted(s: Seq<Seq<char>>) -> bool {
    forall|i: int, j: int| 0 <= i < j < s.len() ==> lex_lt(#[trigger] s[i], #[trigger] s[j])
}

pub proof fn lemma_lex_total(a: Seq<char>, b: Seq<char>)
    ensures
        a == b || lex_lt(a, b) || lex_lt(b, a),
    decreases a.len(),
{
    if a.len() > 0 && b.len() > 0 && a[0] == b[0] {
        lemma_lex_total(a.drop_first(), b.drop_first());
        if a.drop_first() == b.drop_first() {
            assert(a =~= seq![a[0]] + a.drop_first());
            assert(b =~= seq![b[0]] + b.drop_first());
        }
    } else if a.len() > 0 && b.len() > 0 {
        assert((a[0] as int) != (b[0] as int));
    } else if a.len() == 0 && b.len() == 0 {
        assert(a =~= b);
    }
}

pub proof fn lemma_lex_transitive(a: Seq<char>, b: Seq<char>, c: Seq<char>)
    requires
        lex_lt(a, b),
        lex_lt(b, c),
    ensures
        lex_lt(a, c),
    decreases a.len(),
{
    if a.len() > 0 && b.len() > 0 && c.len() > 0 && a[0] == b[0] && b[0] == c[0] {
        lemma_lex_transitive(a.drop_first(), b.drop_first(), c.drop_first());
    }
}

/// Whether `a` comes strictly before `b`.
pub fn lex_less(a: &str, b: &str) -> (r: bool)
    ensures
        r == lex_lt(a@, b@),
{
    let n = a.unicode_len();
    let m = b.unicode_len();
    let mut i: usize = 0;
    assert(a@.skip(0) =~= a@);
    assert(b@.skip(0) =~= b@);
    while i < n && i < m
        invariant
            n == a@.len(),
            m == b@.len(),
            i <= n,
            i <= m,
            lex_lt(a@, b@) == lex_lt(a@.skip(i as int), b@.skip(i as int)),
        decreases n - i,
    {
        let x = a.get_char(i);
        let y = b.get_char(i);
        assert(a@.skip(i as int)[0] == x);
        assert(b@.skip(i as int)[0] == y);
        if x != y {
            return (x as u32) < (y as u32);
        }
        assert(a@.skip(i as int).drop_first() =~= a@.skip(i as int + 1));
        assert(b@.skip(i as int).drop_first() =~= b@.skip(i as int + 1));
        i = i + 1;
    }
    i < m
}

/// Insert `s` into a sorted list, unless it is there already; the list stays sorted.
pub fn insert_sorted(v: &mut Vec<String>, s: String)
    requires
        sorted(views(old(v)@)),
    ensures
        sorted(views(final(v)@)),
        forall|c: Seq<char>| views(final(v)@).contains(c) <==> (views(old(v)@).contains(c) || c == s@),
{
    let ghost w = views(v@);
    let mut p: usize = 0;
    while p < v.len() && lex_less(v[p].as_str(), s.as_str())
        invariant
            w == views(v@),
            p <= v@.len(),
            forall|k: int| 0 <= k < p ==> lex_lt(#[trigger] w[k], s@),
        decreases v.len() - p,
    {
        p = p + 1;
    }
    if p < v.len() && v[p] == s {
        assert(w[p as int] == s@);
        assert forall|c: Seq<char>| w.contains(c) || c == s@ implies w.contains(c) by {
            if c == s@ {
                assert(w[p as int] == c);
            }
        }
        return;
    }
    proof {
        if p < w.len() {
            lemma_lex_total(w[p as int], s@);
        }
    }
    v.insert(p, s);
    let ghost u = views(v@);
    assert(u =~= w.insert(p as int, s@));
    assert forall|i: int, j: int| 0 <= i < j < u.len() implies lex_lt(#[trigger] u[i], #[trigger] u[j]) by {
        if j < p {
            assert(u[i] == w[i] && u[j] == w[j]);
        } else if j == p {
            assert(u[i] == w[i]);
        } else if i == p {
            assert(u[j] == w[j - 1]);
            if j - 1 > p {
                lemma_lex_transitive(s@, w[p as int], w[j - 1]);
            }
        } else if i < p {
            assert(u[i] == w[i] && u[j] == w[j - 1]);
            lemma_lex_transitive(w[i], s@, w[p as int]);
            if j - 1 > p {
                lemma_lex_transitive(w[i], w[p as int], w[j - 1]);
            }
        } else {
            assert(u[i] == w[i - 1] && u[j] == w[j - 1]);
        }
    }
    assert forall|c: Seq<char>| u.contains(c) <==> (w.contains(c) || c == s@) by {
        if u.contains(c) {
            let k = choose|k: int| 0 <= k < u.len() && u[k] == c;
            if k < p {
                assert(w[k] == c);
            } else if k > p {
                assert(w[k - 1] == c);
            }
        }
        if w.contains(c) {
            let k = choose|k: int| 0 <= k < w.len() && w[k] == c;
            if k < p {
                assert(u[k] == c);
            } else {
                assert(u[k + 1] == c);
            }
        }
        if c == s@ {
            assert(u[p as int] == c);
        }
    }
}

} // verus!
