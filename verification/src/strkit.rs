//! Lexicographic order on character sequences, executable string comparison,
//! and sorted vectors of unique strings.  Generated output must be
//! deterministic, so every listing the library emits is ordered by this
//! relation.

use vstd::prelude::*;

verus! {

/// Order on single characters: by unicode scalar value.
pub open spec fn char_lt(a: char, b: char) -> bool {
    a < b
}

/// Strict lexicographic order on character sequences.
pub open spec fn seq_lt(a: Seq<char>, b: Seq<char>) -> bool
    decreases a.len(),
{
    if b.len() == 0 {
        false
    } else if a.len() == 0 {
        true
    } else if a[0] != b[0] {
        char_lt(a[0], b[0])
    } else {
        seq_lt(a.drop_first(), b.drop_first())
    }
}

/// Of two distinct sequences, exactly one is smaller; a sequence is never
/// smaller than itself.
pub proof fn lemma_seq_lt_trichotomy(a: Seq<char>, b: Seq<char>)
    ensures
        seq_lt(a, b) || seq_lt(b, a) || a == b,
        seq_lt(a, b) ==> !seq_lt(b, a) && a != b,
        seq_lt(b, a) ==> !seq_lt(a, b) && a != b,
    decreases a.len(),
{
    if a.len() == 0 && b.len() == 0 {
        assert(a =~= b);
    } else if a.len() != 0 && b.len() != 0 {
        if a[0] == b[0] {
            lemma_seq_lt_trichotomy(a.drop_first(), b.drop_first());
            if a.drop_first() == b.drop_first() {
                assert forall|i: int| 0 <= i < a.len() implies a[i] == b[i] by {
                    if i > 0 {
                        assert(a.drop_first()[i - 1] == b.drop_first()[i - 1]);
                    }
                }
                assert(a =~= b);
            }
            if a == b {
                assert(a.drop_first() =~= b.drop_first());
            }
        } else {
            if a == b {
                assert(a[0] == b[0]);
            }
        }
    }
}

/// The order is transitive.
pub proof fn lemma_seq_lt_transitive(a: Seq<char>, b: Seq<char>, c: Seq<char>)
    requires
        seq_lt(a, b),
        seq_lt(b, c),
    ensures
        seq_lt(a, c),
    decreases a.len() + b.len() + c.len(),
{
    if b.len() == 0 {
        // contradicts seq_lt(a, b)
    } else if c.len() == 0 {
        // contradicts seq_lt(b, c)
    } else if a.len() == 0 {
        // a is empty and c is not
    } else {
        if a[0] == b[0] && b[0] == c[0] {
            lemma_seq_lt_transitive(a.drop_first(), b.drop_first(), c.drop_first());
        }
    }
}

/// Prepending a common prefix preserves the order.
pub proof fn lemma_seq_lt_common_prefix(p: Seq<char>, x: Seq<char>, y: Seq<char>)
    ensures
        seq_lt(p + x, p + y) == seq_lt(x, y),
    decreases p.len(),
{
    if p.len() == 0 {
        assert(p + x =~= x);
        assert(p + y =~= y);
    } else {
        assert((p + x)[0] == p[0]);
        assert((p + y)[0] == p[0]);
        assert((p + x).drop_first() =~= p.drop_first() + x);
        assert((p + y).drop_first() =~= p.drop_first() + y);
        lemma_seq_lt_common_prefix(p.drop_first(), x, y);
    }
}

/// Executable comparison: `r` holds exactly when `a` is lexicographically
/// smaller than `b`.
pub fn str_lt(a: &str, b: &str) -> (r: bool)
    ensures
        r == seq_lt(a@, b@),
{
    let alen = a.unicode_len();
    let blen = b.unicode_len();
    proof {
        assert(a@.skip(0) =~= a@);
        assert(b@.skip(0) =~= b@);
    }
    let mut i: usize = 0;
    loop
        invariant
            i <= alen,
            i <= blen,
            alen == a@.len(),
            blen == b@.len(),
            seq_lt(a@, b@) == seq_lt(a@.skip(i as int), b@.skip(i as int)),
        decreases alen - i,
    {
        if i >= blen {
            return false;
        }
        if i >= alen {
            return true;
        }
        let ca = a.get_char(i);
        let cb = b.get_char(i);
        proof {
            assert(a@.skip(i as int)[0] == a@[i as int]);
            assert(b@.skip(i as int)[0] == b@[i as int]);
        }
        if ca != cb {
            return ca < cb;
        }
        proof {
            assert(a@.skip(i as int).drop_first() =~= a@.skip(i as int + 1));
            assert(b@.skip(i as int).drop_first() =~= b@.skip(i as int + 1));
        }
        i += 1;
    }
}

/// Executable equality on string slices, via two ordered comparisons.
pub fn str_eq(a: &str, b: &str) -> (r: bool)
    ensures
        r == (a@ == b@),
{
    let lt1 = str_lt(a, b);
    let lt2 = str_lt(b, a);
    proof {
        lemma_seq_lt_trichotomy(a@, b@);
    }
    !lt1 && !lt2
}

/// The views of a sequence of strings.
pub open spec fn views_of(v: Seq<String>) -> Seq<Seq<char>> {
    v.map_values(|s: String| s@)
}

/// Strictly increasing under `seq_lt`; in particular, free of duplicates.
pub open spec fn strictly_sorted(s: Seq<Seq<char>>) -> bool {
    forall|i: int, j: int| 0 <= i < j < s.len() ==> seq_lt(s[i], s[j])
}

/// A strictly sorted sequence is determined by the set of its elements: the
/// ground of every determinism claim about emitted listings.
pub proof fn lemma_sorted_same_set(a: Seq<Seq<char>>, b: Seq<Seq<char>>)
    requires
        strictly_sorted(a),
        strictly_sorted(b),
        a.to_set() == b.to_set(),
    ensures
        a == b,
    decreases a.len(),
{
    if a.len() == 0 {
        if b.len() > 0 {
            assert(b.to_set().contains(b[0]));
            assert(a.contains(b[0]));
        }
        assert(a =~= b);
    } else if b.len() == 0 {
        assert(a.to_set().contains(a[0]));
        assert(b.contains(a[0]));
    } else {
        // The last elements are the maxima of equal element sets, hence equal.
        let la = a.last();
        let lb = b.last();
        assert(a.to_set().contains(la));
        assert(b.to_set().contains(lb));
        assert(a.contains(lb));
        assert(b.contains(la));
        let ia = choose|i: int| 0 <= i < a.len() && a[i] == lb;
        let ib = choose|i: int| 0 <= i < b.len() && b[i] == la;
        lemma_seq_lt_trichotomy(la, lb);
        if seq_lt(la, lb) {
            if ia < a.len() - 1 {
                assert(seq_lt(a[ia], a[a.len() - 1]));
            }
        }
        if seq_lt(lb, la) {
            if ib < b.len() - 1 {
                assert(seq_lt(b[ib], b[b.len() - 1]));
            }
        }
        assert(la == lb);
        lemma_sorted_drop_last_set(a);
        lemma_sorted_drop_last_set(b);
        lemma_sorted_same_set(a.drop_last(), b.drop_last());
        assert(a =~= a.drop_last().push(a.last()));
        assert(b =~= b.drop_last().push(b.last()));
    }
}

/// Dropping the last element of a strictly sorted sequence removes exactly
/// that element from the element set.
pub proof fn lemma_sorted_drop_last_set(a: Seq<Seq<char>>)
    requires
        strictly_sorted(a),
        a.len() > 0,
    ensures
        strictly_sorted(a.drop_last()),
        a.drop_last().to_set() == a.to_set().remove(a.last()),
{
    let d = a.drop_last();
    assert forall|x: Seq<char>| d.to_set().contains(x) implies a.to_set().remove(
        a.last(),
    ).contains(x) by {
        let i = choose|i: int| 0 <= i < d.len() && d[i] == x;
        assert(a[i] == x);
        assert(seq_lt(a[i], a[a.len() - 1]));
        lemma_seq_lt_trichotomy(a[i], a.last());
    }
    assert forall|x: Seq<char>| a.to_set().remove(a.last()).contains(x) implies d.to_set().contains(
        x,
    ) by {
        let i = choose|i: int| 0 <= i < a.len() && a[i] == x;
        if i == a.len() - 1 {
            assert(a[i] == a.last());
        } else {
            assert(d[i] == x);
        }
    }
    assert(d.to_set() =~= a.to_set().remove(a.last()));
}

/// Inserting a fresh element at the right place of a strictly sorted sequence
/// keeps it sorted and adds exactly that element to the element set.
proof fn lemma_insert_keeps_sorted(vs: Seq<Seq<char>>, i: int, x: Seq<char>)
    requires
        strictly_sorted(vs),
        0 <= i <= vs.len(),
        forall|j: int| 0 <= j < i ==> seq_lt(vs[j], x),
        i < vs.len() ==> seq_lt(x, vs[i]),
    ensures
        strictly_sorted(vs.insert(i, x)),
        vs.insert(i, x).to_set() == vs.to_set().insert(x),
{
    let vs1 = vs.insert(i, x);
    vs.insert_ensures(i, x);
    assert forall|p: int, q: int| 0 <= p < q < vs1.len() implies seq_lt(vs1[p], vs1[q]) by {
        if p < i && q == i {
        } else if p == i && q > i {
            if q - 1 > i {
                lemma_seq_lt_transitive(x, vs[i], vs[q - 1]);
            }
        } else if p < i && q > i {
            if q - 1 > i {
                lemma_seq_lt_transitive(x, vs[i], vs[q - 1]);
            }
            lemma_seq_lt_transitive(vs[p], x, vs[q - 1]);
        }
    }
    assert(vs1.to_set() =~= vs.to_set().insert(x)) by {
        assert forall|y: Seq<char>| vs1.to_set().contains(y) implies vs.to_set().insert(
            x,
        ).contains(y) by {
            let k = choose|k: int| 0 <= k < vs1.len() && vs1[k] == y;
            if k < i {
                assert(vs[k] == y);
            } else if k > i {
                assert(vs[k - 1] == y);
            }
        }
        assert forall|y: Seq<char>| vs.to_set().insert(x).contains(y) implies vs1.to_set().contains(
            y,
        ) by {
            if y == x {
                assert(vs1[i] == y);
            } else {
                let k = choose|k: int| 0 <= k < vs.len() && vs[k] == y;
                if k < i {
                    assert(vs1[k] == y);
                } else {
                    assert(vs1[k + 1] == y);
                }
            }
        }
    }
}

/// Insert a string into a sorted vector of unique strings, keeping it sorted;
/// a string already present is not duplicated.
pub fn sorted_insert(v: &mut Vec<String>, s: String)
    requires
        strictly_sorted(views_of(old(v)@)),
    ensures
        strictly_sorted(views_of(final(v)@)),
        views_of(final(v)@).to_set() == views_of(old(v)@).to_set().insert(s@),
{
    let ghost vs0 = views_of(old(v)@);
    let mut i: usize = 0;
    loop
        invariant
            i <= v.len(),
            v@ == old(v)@,
            strictly_sorted(vs0),
            vs0 == views_of(v@),
            forall|j: int| 0 <= j < i ==> seq_lt(vs0[j], s@),
        ensures
            i <= v.len(),
            v@ == old(v)@,
            forall|j: int| 0 <= j < i ==> seq_lt(vs0[j], s@),
            i < v.len() ==> !seq_lt(vs0[i as int], s@),
        decreases v.len() - i,
    {
        if i >= v.len() {
            break ;
        }
        if !str_lt(v[i].as_str(), s.as_str()) {
            break ;
        }
        i += 1;
    }
    if i < v.len() && v[i] == s {
        // already present
        proof {
            assert(vs0[i as int] == s@);
            assert(vs0.to_set().contains(vs0[i as int]));
            assert(vs0.to_set() =~= vs0.to_set().insert(s@));
        }
        return ;
    }
    proof {
        if i < vs0.len() {
            assert(vs0[i as int] == v@[i as int]@);
            assert(!seq_lt(vs0[i as int], s@));
            assert(vs0[i as int] != s@);
            lemma_seq_lt_trichotomy(vs0[i as int], s@);
            assert(seq_lt(s@, vs0[i as int]));
        }
        lemma_insert_keeps_sorted(vs0, i as int, s@);
    }
    v.insert(i, s);
    proof {
        assert(views_of(v@) =~= vs0.insert(i as int, s@)) by {
            vs0.insert_ensures(i as int, s@);
            assert(forall|k: int| 0 <= k < v@.len() ==> views_of(v@)[k] == #[trigger] v@[k]@);
        }
    }
}

/// Fold a second sorted vector of unique strings into the first, keeping the
/// first sorted; the result holds the union of the two element sets.
pub fn sorted_merge(dst: &mut Vec<String>, src: Vec<String>)
    requires
        strictly_sorted(views_of(old(dst)@)),
        strictly_sorted(views_of(src@)),
    ensures
        strictly_sorted(views_of(final(dst)@)),
        views_of(final(dst)@).to_set() == views_of(old(dst)@).to_set().union(
            views_of(src@).to_set(),
        ),
{
    let ghost target = views_of(old(dst)@).to_set().union(views_of(src@).to_set());
    let mut rest = src;
    loop
        invariant
            strictly_sorted(views_of(dst@)),
            strictly_sorted(views_of(rest@)),
            views_of(dst@).to_set().union(views_of(rest@).to_set()) == target,
        ensures
            strictly_sorted(views_of(dst@)),
            rest@.len() == 0,
            views_of(dst@).to_set().union(views_of(rest@).to_set()) == target,
        decreases rest.len(),
    {
        let ghost before = views_of(rest@);
        match rest.pop() {
            None => {
                break ;
            },
            Some(x) => {
                proof {
                    assert(views_of(rest@) =~= before.drop_last());
                    lemma_sorted_drop_last_set(before);
                    assert(x@ == before.last());
                }
                let ghost dst_before = views_of(dst@);
                sorted_insert(dst, x);
                proof {
                    assert(views_of(dst@).to_set().union(views_of(rest@).to_set())
                        =~= dst_before.to_set().union(before.to_set()));
                }
            },
        }
    }
    proof {
        assert(views_of(rest@).to_set() =~= Set::empty());
        assert(views_of(dst@).to_set() =~= target);
    }
}

} // verus!
