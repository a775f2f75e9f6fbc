//! String-keyed entry lists: the library's stand-in for ordered maps.  An
//! entry list is a vector of `(String, T)` pairs; a well-formed one has its
//! keys strictly increasing in the lexicographic order of `strkit`, which
//! makes keys unique and iteration order deterministic.

use vstd::prelude::*;
use crate::strkit::strictly_sorted;

verus! {

/// The key views of an entry list, in order.
pub open spec fn entry_keys<T>(s: Seq<(String, T)>) -> Seq<Seq<char>> {
    s.map_values(|p: (String, T)| p.0@)
}

/// The view of an entry list: key views paired with value views, in order.
pub open spec fn entries_view<T: View>(s: Seq<(String, T)>) -> Seq<(Seq<char>, <T as View>::V)> {
    s.map_values(|p: (String, T)| (p.0@, p.1@))
}

/// Keys strictly increasing: the shape every emitted map keeps.
pub open spec fn sorted_entries<T>(s: Seq<(String, T)>) -> bool {
    strictly_sorted(entry_keys(s))
}

/// The value stored under a key; the first match, scanning left to right.
pub open spec fn spec_get<T>(s: Seq<(String, T)>, k: Seq<char>) -> Option<T>
    decreases s.len(),
{
    if s.len() == 0 {
        None
    } else if s[0].0@ == k {
        Some(s[0].1)
    } else {
        spec_get(s.drop_first(), k)
    }
}

/// Whether some entry carries the key.
pub open spec fn has_key<T>(s: Seq<(String, T)>, k: Seq<char>) -> bool {
    spec_get(s, k) is Some
}

/// An entry's key is found by `spec_get`, whatever the order of the list.
pub proof fn lemma_index_implies_has_key<T>(s: Seq<(String, T)>, i: int)
    requires
        0 <= i < s.len(),
    ensures
        has_key(s, s[i].0@),
    decreases i,
{
    if s[0].0@ == s[i].0@ {
    } else {
        lemma_index_implies_has_key(s.drop_first(), i - 1);
    }
}

/// A key found by `spec_get` sits in some entry.
pub proof fn lemma_has_key_implies_index<T>(s: Seq<(String, T)>, k: Seq<char>) -> (i: int)
    requires
        has_key(s, k),
    ensures
        0 <= i < s.len(),
        s[i].0@ == k,
        spec_get(s, k) == Some(s[i].1),
    decreases s.len(),
{
    if s[0].0@ == k {
        0
    } else {
        let j = lemma_has_key_implies_index(s.drop_first(), k);
        j + 1
    }
}

/// Appending an entry appends its view: stated over the list after the
/// append, so callers need not name moved values.
pub proof fn lemma_entries_view_push_v<T: View>(
    s: Seq<(String, T)>,
    k: Seq<char>,
    v: <T as View>::V,
    after: Seq<(String, T)>,
)
    requires
        after.len() == s.len() + 1,
        forall|i: int| 0 <= i < s.len() ==> after[i] == s[i],
        after.last().0@ == k,
        after.last().1@ == v,
    ensures
        entries_view(after) == entries_view(s).push((k, v)),
{
    assert(entries_view(after) =~= entries_view(s).push((k, v)));
}

/// Look a key up in an entry list by linear scan.
pub fn entries_get<'a, T>(s: &'a Vec<(String, T)>, k: &str) -> (r: Option<&'a T>)
    ensures
        match r {
            Some(v) => spec_get(s@, k@) == Some(*v),
            None => spec_get(s@, k@) is None,
        },
{
    proof {
        assert(s@.skip(0) =~= s@);
    }
    let mut i: usize = 0;
    loop
        invariant
            i <= s.len(),
            spec_get(s@, k@) == spec_get(s@.skip(i as int), k@),
        decreases s.len() - i,
    {
        if i >= s.len() {
            return None;
        }
        proof {
            assert(s@.skip(i as int)[0] == s@[i as int]);
        }
        if crate::strkit::str_eq(s[i].0.as_str(), k) {
            return Some(&s[i].1);
        }
        proof {
            assert(s@.skip(i as int).drop_first() =~= s@.skip(i as int + 1));
        }
        i += 1;
    }
}

} // verus!
