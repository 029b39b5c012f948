//! Association lists keyed by strings: the tables of the chat server
//! (user to status, user to channel, session to user, room to room state).
//! A table is a sequence of pairs whose keys are pairwise distinct.
use vstd::prelude::*;

verus! {

/// `k` is a key of the table `s`.
pub open spec fn has_key<V>(s: Seq<(Seq<char>, V)>, k: Seq<char>) -> bool {
    exists|i: int| 0 <= i < s.len() && (#[trigger] s[i]).0 == k
}

/// The position of the key `k` in `s` (meaningful when `has_key(s, k)`).
pub open spec fn key_pos<V>(s: Seq<(Seq<char>, V)>, k: Seq<char>) -> int {
    choose|i: int| 0 <= i < s.len() && (#[trigger] s[i]).0 == k
}

/// The value stored under `k` (meaningful when `has_key(s, k)`).
pub open spec fn lookup<V>(s: Seq<(Seq<char>, V)>, k: Seq<char>) -> V {
    s[key_pos(s, k)].1
}

/// No key occurs twice.
pub open spec fn distinct_keys<V>(s: Seq<(Seq<char>, V)>) -> bool {
    forall|i: int, j: int| 0 <= i < j < s.len() ==> (#[trigger] s[i]).0 != (#[trigger] s[j]).0
}

/// The table with `k` mapped to `v`: the entry of `k` is replaced in place,
/// or a new entry is appended.
pub open spec fn assoc_insert<V>(s: Seq<(Seq<char>, V)>, k: Seq<char>, v: V) -> Seq<(Seq<char>, V)> {
    if has_key(s, k) {
        s.update(key_pos(s, k), (k, v))
    } else {
        s.push((k, v))
    }
}

/// In a table with distinct keys, the entry at `i` is the one of its key.
pub proof fn lemma_key_at<V>(s: Seq<(Seq<char>, V)>, i: int)
    requires
        distinct_keys(s),
        0 <= i < s.len(),
    ensures
        has_key(s, s[i].0),
        key_pos(s, s[i].0) == i,
        lookup(s, s[i].0) == s[i].1,
{
    let k = s[i].0;
    assert(has_key(s, k));
    let p = key_pos(s, k);
    if p != i {
        if p < i {
            assert(s[p].0 != s[i].0);
        } else {
            assert(s[i].0 != s[p].0);
        }
    }
}

/// What `assoc_insert` does to keys and values, and that it keeps keys distinct.
pub proof fn lemma_insert<V>(s: Seq<(Seq<char>, V)>, k: Seq<char>, v: V)
    requires
        distinct_keys(s),
    ensures
        distinct_keys(assoc_insert(s, k, v)),
        has_key(assoc_insert(s, k, v), k),
        lookup(assoc_insert(s, k, v), k) == v,
        forall|k2: Seq<char>|
            k2 != k ==> (has_key(assoc_insert(s, k, v), k2) == has_key(s, k2) && (has_key(s, k2)
                ==> lookup(assoc_insert(s, k, v), k2) == lookup(s, k2))),
        has_key(s, k) ==> assoc_insert(s, k, v).len() == s.len(),
        !has_key(s, k) ==> assoc_insert(s, k, v).len() == s.len() + 1,
{
    let t = assoc_insert(s, k, v);
    if has_key(s, k) {
        let p = key_pos(s, k);
        assert forall|i: int, j: int| 0 <= i < j < t.len() implies (#[trigger] t[i]).0 != (
        #[trigger] t[j]).0 by {
            if i == p {
                assert(s[j].0 != s[p].0);
            } else if j == p {
                assert(s[i].0 != s[p].0);
            } else {
                assert(s[i].0 != s[j].0);
            }
        }
        assert(t[p].0 == k);
        assert(has_key(t, k));
    } else {
        assert forall|i: int, j: int| 0 <= i < j < t.len() implies (#[trigger] t[i]).0 != (
        #[trigger] t[j]).0 by {
            if j == s.len() {
                assert(s[i].0 != k);
            } else {
                assert(s[i].0 != s[j].0);
            }
        }
        assert(t[s.len() as int].0 == k);
        assert(has_key(t, k));
    }
    let q = key_pos(t, k);
    lemma_key_at(t, q);
    assert forall|k2: Seq<char>| k2 != k implies (has_key(t, k2) == has_key(s, k2) && (has_key(
        s,
        k2,
    ) ==> lookup(t, k2) == lookup(s, k2))) by {
        if has_key(s, k2) {
            let i = key_pos(s, k2);
            assert(t[i] == s[i]);
            lemma_key_at(s, i);
            lemma_key_at(t, i);
        }
        if has_key(t, k2) {
            let i = key_pos(t, k2);
            assert(t[i] == s[i]);
        }
    }
}

/// The position of the key `k` in the table `v`, if it is there.
pub fn find_key<V: DeepView>(v: &Vec<(String, V)>, k: &String) -> (r: Option<usize>)
    ensures
        r matches Some(i) ==> i < v@.len() && v.deep_view()[i as int].0 == k@,
        r is None <==> !has_key(v.deep_view(), k@),
{
    let mut i: usize = 0;
    while i < v.len()
        invariant
            i <= v@.len(),
            forall|j: int| 0 <= j < i ==> (#[trigger] v.deep_view()[j]).0 != k@,
        decreases v@.len() - i,
    {
        if v[i].0 == *k {
            assert(v.deep_view()[i as int].0 == k@);
            return Some(i);
        }
        assert(v.deep_view()[i as int].0 == v@[i as int].0@);
        i = i + 1;
    }
    None
}

/// Maps `k` to `val` in the table `v`.
pub fn assoc_set<V: DeepView>(v: &mut Vec<(String, V)>, k: String, val: V)
    requires
        distinct_keys(old(v).deep_view()),
    ensures
        final(v).deep_view() == assoc_insert(old(v).deep_view(), k@, val.deep_view()),
        distinct_keys(final(v).deep_view()),
{
    let ghost kv = k@;
    let ghost vv = val.deep_view();
    proof {
        lemma_insert(old(v).deep_view(), kv, vv);
    }
    match find_key(v, &k) {
        Some(i) => {
            proof {
                lemma_key_at(v.deep_view(), i as int);
            }
            v.set(i, (k, val));
            assert(v.deep_view() =~= assoc_insert(old(v).deep_view(), kv, vv));
        },
        None => {
            v.push((k, val));
            assert(v.deep_view() =~= assoc_insert(old(v).deep_view(), kv, vv));
        },
    }
}

} // verus!
