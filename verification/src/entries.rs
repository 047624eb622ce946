//! Lists of named values that behave as maps: each name occurs once, and a
//! name set again keeps the last value.

use vstd::prelude::*;

verus! {

/// The map that a sequence of name/value pairs defines when they are set in
/// order: a name set several times keeps its last value.
pub open spec fn seq_map<V>(s: Seq<(Seq<char>, V)>) -> Map<Seq<char>, V>
    decreases s.len(),
{
    if s.len() == 0 {
        Map::empty()
    } else {
        seq_map(s.drop_last()).insert(s.last().0, s.last().1)
    }
}

/// No name occurs twice.
pub open spec fn keys_unique<V>(s: Seq<(Seq<char>, V)>) -> bool {
    forall|i: int, j: int| 0 <= i < j < s.len() ==> s[i].0 != s[j].0
}

/// The names and values of a list of entries.
pub open spec fn pair_views<T: View>(v: Seq<(String, T)>) -> Seq<(Seq<char>, T::V)> {
    v.map_values(|p: (String, T)| (p.0@, p.1@))
}

/// In a list without repeated names, the map holds exactly the listed names,
/// each with its listed value.
pub proof fn lemma_unique_map<V>(s: Seq<(Seq<char>, V)>)
    requires
        keys_unique(s),
    ensures
        forall|k: Seq<char>|
            seq_map(s).dom().contains(k) <==> exists|i: int| 0 <= i < s.len() && s[i].0 == k,
        forall|i: int| 0 <= i < s.len() ==> seq_map(s)[#[trigger] s[i].0] == s[i].1,
    decreases s.len(),
{
    if s.len() > 0 {
        let p = s.drop_last();
        assert(keys_unique(p));
        lemma_unique_map(p);
        assert forall|k: Seq<char>|
            seq_map(s).dom().contains(k) <==> exists|i: int| 0 <= i < s.len() && s[i].0 == k by {
            if seq_map(s).dom().contains(k) && k != s.last().0 {
                assert(seq_map(p).dom().contains(k));
                let i = choose|i: int| 0 <= i < p.len() && p[i].0 == k;
                assert(p[i] == s[i]);
            }
            if exists|i: int| 0 <= i < s.len() && s[i].0 == k {
                let i = choose|i: int| 0 <= i < s.len() && s[i].0 == k;
                if i < s.len() - 1 {
                    assert(p[i].0 == k);
                }
            }
        }
        assert forall|i: int| 0 <= i < s.len() implies seq_map(s)[#[trigger] s[i].0] == s[i].1 by {
            if i < s.len() - 1 {
                assert(p[i] == s[i]);
                assert(s[i].0 != s[s.len() - 1].0);
            }
        }
    }
}

/// Sets `name` to `val` in a list without repeated names: an entry of that
/// name gets the new value, else the entry is added at the end.
pub fn set_entry<T: View>(v: &mut Vec<(String, T)>, name: String, val: T)
    requires
        keys_unique(pair_views(old(v)@)),
    ensures
        keys_unique(pair_views(final(v)@)),
        seq_map(pair_views(final(v)@)) == seq_map(pair_views(old(v)@)).insert(name@, val@),
{
    let ghost w = pair_views(v@);
    let mut i: usize = 0;
    while i < v.len()
        invariant
            i <= v.len(),
            w == pair_views(v@),
            w == pair_views(old(v)@),
            keys_unique(w),
            w.len() == v@.len(),
            forall|j: int| 0 <= j < i ==> w[j].0 != name@,
        decreases v.len() - i,
    {
        if v[i].0 == name {
            let ghost k = name@;
            let ghost x = val@;
            v.set(i, (name, val));
            let ghost w2 = pair_views(v@);
            assert(w2 =~= w.update(i as int, (k, x)));
            assert(keys_unique(w2)) by {
                assert forall|a: int, b: int| 0 <= a < b < w2.len() implies w2[a].0 != w2[b].0 by {
                    assert(w2[a].0 == w[a].0);
                    assert(w2[b].0 == w[b].0);
                }
            }
            proof {
                lemma_unique_map(w);
                lemma_unique_map(w2);
                let m = seq_map(w).insert(k, x);
                assert forall|key: Seq<char>| seq_map(w2).dom().contains(key) <==> m.dom().contains(
                    key,
                ) by {
                    if seq_map(w2).dom().contains(key) {
                        let j = choose|j: int| 0 <= j < w2.len() && w2[j].0 == key;
                        assert(w[j].0 == key);
                    }
                    if m.dom().contains(key) && key != k {
                        let j = choose|j: int| 0 <= j < w.len() && w[j].0 == key;
                        assert(w2[j].0 == key);
                    }
                    if key == k {
                        assert(w2[i as int].0 == key);
                    }
                }
                assert forall|key: Seq<char>| #[trigger]
                    seq_map(w2).dom().contains(key) implies seq_map(w2)[key] == m[key] by {
                    let j = choose|j: int| 0 <= j < w2.len() && w2[j].0 == key;
                    assert(seq_map(w2)[w2[j].0] == w2[j].1);
                    assert(w[i as int].0 == k);
                    if j != i {
                        assert(w2[j] == w[j]);
                        assert(w[j].0 != w[i as int].0);
                        assert(seq_map(w)[w[j].0] == w[j].1);
                    }
                }
                assert(seq_map(w2) =~= m);
            }
            return;
        }
        i = i + 1;
    }
    let ghost k = name@;
    let ghost x = val@;
    v.push((name, val));
    let ghost w2 = pair_views(v@);
    assert(w2 =~= w.push((k, x)));
    assert(w2.drop_last() =~= w);
}

/// A name is in the map exactly when some pair sets it, and its value is
/// the one of the last pair that sets it.
pub proof fn lemma_seq_map_last<V>(s: Seq<(Seq<char>, V)>, k: Seq<char>)
    ensures
        seq_map(s).dom().contains(k) <==> exists|i: int| 0 <= i < s.len() && s[i].0 == k,
        seq_map(s).dom().contains(k) ==> exists|i: int|
            0 <= i < s.len() && s[i].0 == k && s[i].1 == seq_map(s)[k] && forall|j: int|
                i < j < s.len() ==> s[j].0 != k,
    decreases s.len(),
{
    if s.len() > 0 {
        let p = s.drop_last();
        lemma_seq_map_last(p, k);
        let n = s.len() - 1;
        if s[n].0 == k {
            assert(s[n].0 == k && s[n].1 == seq_map(s)[k]);
        } else {
            if seq_map(s).dom().contains(k) {
                let i = choose|i: int|
                    0 <= i < p.len() && p[i].0 == k && p[i].1 == seq_map(p)[k] && forall|j: int|
                        i < j < p.len() ==> p[j].0 != k;
                assert(s[i] == p[i]);
                assert forall|j: int| i < j < s.len() implies s[j].0 != k by {
                    if j < n {
                        assert(s[j] == p[j]);
                    }
                }
            }
            if exists|i: int| 0 <= i < s.len() && s[i].0 == k {
                let i = choose|i: int| 0 <= i < s.len() && s[i].0 == k;
                assert(p[i] == s[i]);
            }
        }
    }
}

} // verus!
