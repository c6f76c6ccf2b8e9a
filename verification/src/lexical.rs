//! Lexicographic order on character sequences, and a verified sort that
//! removes duplicates. Comparing code points one by one orders strings as
//! `String`'s own order does, since UTF-8 keeps code point order.

use vstd::prelude::*;
use crate::text::chars_of;

verus! {

/// `a` comes strictly before `b` in lexicographic order of code points.
pub open spec fn seq_less(a: Seq<char>, b: Seq<char>) -> bool
    decreases a.len(),
{
    if a.len() == 0 {
        b.len() > 0
    } else if b.len() == 0 {
        false
    } else if a[0] != b[0] {
        (a[0] as int) < (b[0] as int)
    } else {
        seq_less(a.drop_first(), b.drop_first())
    }
}

/// No sequence comes before itself.
pub proof fn lemma_less_irreflexive(a: Seq<char>)
    ensures
        !seq_less(a, a),
    decreases a.len(),
{
    if a.len() > 0 {
        lemma_less_irreflexive(a.drop_first());
    }
}

/// Of two different sequences, one comes before the other.
pub proof fn lemma_less_total(a: Seq<char>, b: Seq<char>)
    ensures
        a != b ==> seq_less(a, b) || seq_less(b, a),
    decreases a.len(),
{
    if a.len() > 0 && b.len() > 0 && a[0] == b[0] {
        lemma_less_total(a.drop_first(), b.drop_first());
        if a.drop_first() == b.drop_first() {
            assert(a =~= seq![a[0]] + a.drop_first());
            assert(b =~= seq![b[0]] + b.drop_first());
        }
    } else if a.len() == 0 && b.len() == 0 {
        assert(a =~= b);
    } else if a.len() > 0 && b.len() > 0 {
        assert((a[0] as int) != (b[0] as int));
    }
}

/// The order is transitive.
pub proof fn lemma_less_transitive(a: Seq<char>, b: Seq<char>, c: Seq<char>)
    requires
        seq_less(a, b),
        seq_less(b, c),
    ensures
        seq_less(a, c),
    decreases a.len(),
{
    if a.len() > 0 && b.len() > 0 && c.len() > 0 {
        if a[0] == b[0] && b[0] == c[0] {
            lemma_less_transitive(a.drop_first(), b.drop_first(), c.drop_first());
        }
    }
}

/// The order never holds both ways.
pub proof fn lemma_less_asymmetric(a: Seq<char>, b: Seq<char>)
    ensures
        !(seq_less(a, b) && seq_less(b, a)),
{
    if seq_less(a, b) && seq_less(b, a) {
        lemma_less_transitive(a, b, a);
        lemma_less_irreflexive(a);
    }
}

/// Whether `a` comes strictly before `b`.
pub fn str_less(a: &str, b: &str) -> (r: bool)
    ensures
        r == seq_less(a@, b@),
{
    let x = chars_of(a);
    let y = chars_of(b);
    let mut i: usize = 0;
    assert(a@.skip(0) =~= a@);
    assert(b@.skip(0) =~= b@);
    while i < x.len() && i < y.len()
        invariant
            x@ == a@,
            y@ == b@,
            i <= x.len(),
            i <= y.len(),
            x@.subrange(0, i as int) == y@.subrange(0, i as int),
            seq_less(a@, b@) == seq_less(a@.skip(i as int), b@.skip(i as int)),
        decreases x.len() - i,
    {
        let ghost sa = a@.skip(i as int);
        let ghost sb = b@.skip(i as int);
        assert(sa.drop_first() =~= a@.skip(i + 1));
        assert(sb.drop_first() =~= b@.skip(i + 1));
        if x[i] != y[i] {
            return x[i] < y[i];
        }
        assert(x@.subrange(0, i + 1) =~= x@.subrange(0, i as int).push(x@[i as int]));
        assert(y@.subrange(0, i + 1) =~= y@.subrange(0, i as int).push(y@[i as int]));
        i = i + 1;
    }
    i < y.len()
}

/// The elements of `s` are in strictly increasing order.
pub open spec fn strictly_sorted(s: Seq<Seq<char>>) -> bool {
    forall|i: int, j: int| 0 <= i < j < s.len() ==> seq_less(#[trigger] s[i], #[trigger] s[j])
}

/// The views of a sequence of strings.
pub open spec fn string_views(v: Seq<String>) -> Seq<Seq<char>> {
    v.map_values(|s: String| s@)
}

proof fn lemma_push_contains(s: Seq<Seq<char>>, y: Seq<char>, x: Seq<char>)
    ensures
        s.push(y).contains(x) <==> (s.contains(x) || x == y),
{
    if s.push(y).contains(x) {
        let w = choose|w: int| 0 <= w < s.push(y).len() && s.push(y)[w] == x;
        if w < s.len() {
            assert(s[w] == x);
        }
    }
    if s.contains(x) {
        let w = choose|w: int| 0 <= w < s.len() && s[w] == x;
        assert(s.push(y)[w] == x);
    }
    if x == y {
        assert(s.push(y)[s.len() as int] == x);
    }
}

/// The distinct strings of `names`, in increasing order (what collecting
/// into a set and sorting gives).
pub fn sorted_unique(names: &Vec<String>) -> (r: Vec<String>)
    ensures
        strictly_sorted(string_views(r@)),
        forall|x: Seq<char>| string_views(r@).contains(x) <==> string_views(names@).contains(x),
{
    let mut r: Vec<String> = Vec::new();
    let mut i: usize = 0;
    while i < names.len()
        invariant
            i <= names.len(),
            strictly_sorted(string_views(r@)),
            forall|x: Seq<char>| string_views(r@).contains(x) <==> string_views(names@.take(i as int)).contains(x),
        decreases names.len() - i,
    {
        let name = &names[i];
        // first position whose element is not before `name`
        let mut p: usize = 0;
        while p < r.len() && str_less(r[p].as_str(), name.as_str())
            invariant
                p <= r.len(),
                forall|k: int| 0 <= k < p ==> seq_less(#[trigger] string_views(r@)[k], name@),
            decreases r.len() - p,
        {
            p = p + 1;
        }
        let ghost old_r = string_views(r@);
        let present = p < r.len() && r[p] == *name;
        assert(names@.take(i + 1) =~= names@.take(i as int).push(names@[i as int]));
        assert(string_views(names@.take(i + 1)) =~= string_views(names@.take(i as int)).push(name@));
        if !present {
            proof {
                if p < r.len() {
                    lemma_less_total(old_r[p as int], name@);
                }
                assert forall|j: int| p <= j < old_r.len() implies seq_less(name@, #[trigger] old_r[j]) by {
                    if j > p {
                        lemma_less_transitive(name@, old_r[p as int], old_r[j]);
                    }
                }
            }
            r.insert(p, name.clone());
            proof {
                let nr = string_views(r@);
                assert(nr =~= old_r.insert(p as int, name@));
                assert forall|a: int, b: int| 0 <= a < b < nr.len() implies seq_less(#[trigger] nr[a], #[trigger] nr[b]) by {
                    if a < p && b > p {
                        lemma_less_transitive(nr[a], name@, nr[b]);
                    }
                }
                assert forall|x: Seq<char>| nr.contains(x) <==> string_views(names@.take(i + 1)).contains(x) by {
                    lemma_push_contains(string_views(names@.take(i as int)), name@, x);
                    if nr.contains(x) {
                        let w = choose|w: int| 0 <= w < nr.len() && nr[w] == x;
                        if w < p {
                            assert(old_r[w] == x);
                        } else if w > p {
                            assert(old_r[w - 1] == x);
                        }
                    }
                    if old_r.contains(x) {
                        let w = choose|w: int| 0 <= w < old_r.len() && old_r[w] == x;
                        if w < p {
                            assert(nr[w] == x);
                        } else {
                            assert(nr[w + 1] == x);
                        }
                    }
                    if x == name@ {
                        assert(nr[p as int] == x);
                    }
                }
            }
        } else {
            proof {
                assert(old_r[p as int] == name@);
                assert forall|x: Seq<char>| old_r.contains(x) <==> string_views(names@.take(i + 1)).contains(x) by {
                    lemma_push_contains(string_views(names@.take(i as int)), name@, x);
                    if x == name@ {
                        assert(old_r[p as int] == x);
                    }
                }
            }
        }
        i = i + 1;
    }
    assert(names@.take(names@.len() as int) =~= names@);
    r
}

} // verus!
