//! Name-keyed association lists. The configuration's namespaces and the
//! per-tick temperature table are small ordered lists of `(name, value)`
//! pairs; their abstract view is a map in which the earliest entry for a
//! name wins.

use vstd::prelude::*;

verus! {

/// The map an association list denotes: the earliest entry for a name
/// shadows any later one.
pub open spec fn alist_map<V>(s: Seq<(String, V)>) -> Map<Seq<char>, V>
    decreases s.len(),
{
    if s.len() == 0 {
        Map::empty()
    } else {
        alist_map(s.drop_first()).insert(s[0].0@, s[0].1)
    }
}

/// Entries whose key differs from `k` do not affect the binding of `k`:
/// skipping a prefix free of `k` leaves the binding unchanged.
pub proof fn lemma_alist_skip<V>(s: Seq<(String, V)>, k: Seq<char>, i: int)
    requires
        0 <= i <= s.len(),
        forall|j: int| 0 <= j < i ==> (#[trigger] s[j]).0@ != k,
    ensures
        alist_map(s).contains_key(k) == alist_map(s.skip(i)).contains_key(k),
        alist_map(s).contains_key(k) ==> alist_map(s)[k] == alist_map(s.skip(i))[k],
    decreases i,
{
    if i > 0 {
        assert(s[0].0@ != k);
        assert(s.skip(i) =~= s.drop_first().skip(i - 1));
        assert(forall|j: int| 0 <= j < i - 1 ==> (#[trigger] s.drop_first()[j]).0@ != k) by {
            assert(forall|j: int| 0 <= j < i - 1 ==> s.drop_first()[j] == s[j + 1]);
        }
        lemma_alist_skip(s.drop_first(), k, i - 1);
    } else {
        assert(s.skip(0) =~= s);
    }
}

/// Looks a name up in an association list, returning the earliest entry's
/// value, exactly when the list's map binds the name.
pub fn alist_get<'a, V>(list: &'a Vec<(String, V)>, key: &String) -> (r: Option<&'a V>)
    ensures
        match r {
            Some(v) => alist_map(list@).contains_key(key@) && *v == alist_map(list@)[key@]
                && exists|j: int| 0 <= j < list@.len() && (#[trigger] list@[j]).0@ == key@
                    && list@[j].1 == *v,
            None => !alist_map(list@).contains_key(key@),
        },
{
    let n = list.len();
    let mut i: usize = 0;
    while i < n
        invariant
            n == list@.len(),
            i <= n,
            forall|j: int| 0 <= j < i ==> (#[trigger] list@[j]).0@ != key@,
        decreases n - i,
    {
        if list[i].0 == *key {
            proof {
                lemma_alist_skip(list@, key@, i as int);
                assert(list@.skip(i as int)[0] == list@[i as int]);
                assert(alist_map(list@.skip(i as int))[key@] == list@[i as int].1);
            }
            return Some(&list[i].1);
        }
        i = i + 1;
    }
    proof {
        lemma_alist_skip(list@, key@, n as int);
        assert(list@.skip(n as int) =~= Seq::<(String, V)>::empty());
    }
    None
}

/// Binds `key` to `val`, shadowing any existing entry: the new front
/// entry wins over everything behind it.
pub fn alist_set(list: &mut Vec<(String, i32)>, key: String, val: i32)
    ensures
        alist_map(final(list)@) == alist_map(old(list)@).insert(key@, val),
        final(list)@.len() == old(list)@.len() + 1,
{
    list.insert(0, (key, val));
    proof {
        assert(list@.drop_first() =~= old(list)@);
    }
}

} // verus!
