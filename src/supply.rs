//! Balance maps: the map that a list of (account, balance) entries stands
//! for, the sum of its balances, and how both change when one entry is
//! written.
use vstd::prelude::*;

verus! {

/// Sum of the values of a finite map from account identifiers to balances.
pub open spec fn total_of(m: Map<Seq<char>, u128>) -> int
    decreases m.dom().len(),
{
    if m.dom().finite() && m.dom().len() > 0 {
        let k = m.dom().choose();
        m[k] + total_of(m.remove(k))
    } else {
        0
    }
}

/// Taking any one entry out of a finite map takes exactly its value out of the sum.
pub proof fn lemma_total_remove(m: Map<Seq<char>, u128>, k: Seq<char>)
    requires
        m.dom().finite(),
        m.dom().contains(k),
    ensures
        total_of(m) == m[k] + total_of(m.remove(k)),
    decreases m.dom().len(),
{
    let c = m.dom().choose();
    assert(m.dom().contains(c));
    if c != k {
        lemma_total_remove(m.remove(c), k);
        lemma_total_remove(m.remove(k), c);
        assert(m.remove(c).remove(k) =~= m.remove(k).remove(c));
    } else {
        assert(m.remove(c) =~= m.remove(k));
    }
}

/// The sum of a balance map is never negative.
pub proof fn lemma_total_nonneg(m: Map<Seq<char>, u128>)
    ensures
        total_of(m) >= 0,
    decreases m.dom().len(),
{
    if m.dom().finite() && m.dom().len() > 0 {
        let k = m.dom().choose();
        lemma_total_nonneg(m.remove(k));
    }
}

/// No single balance exceeds the sum of the map.
pub proof fn lemma_entry_le_total(m: Map<Seq<char>, u128>, k: Seq<char>)
    requires
        m.dom().finite(),
        m.dom().contains(k),
    ensures
        m[k] <= total_of(m),
{
    lemma_total_remove(m, k);
    lemma_total_nonneg(m.remove(k));
}

/// Writing `v` under `k` replaces the old entry (zero when absent) by `v` in the sum.
pub proof fn lemma_total_insert(m: Map<Seq<char>, u128>, k: Seq<char>, v: u128)
    requires
        m.dom().finite(),
    ensures
        m.insert(k, v).dom().finite(),
        total_of(m.insert(k, v)) == total_of(m) - (if m.dom().contains(k) {
            m[k] as int
        } else {
            0int
        }) + v,
{
    let n = m.insert(k, v);
    lemma_total_remove(n, k);
    if m.dom().contains(k) {
        assert(n.remove(k) =~= m.remove(k));
        lemma_total_remove(m, k);
    } else {
        assert(n.remove(k) =~= m);
    }
}

/// No account appears in two entries.
pub open spec fn keys_unique(s: Seq<(String, u128)>) -> bool {
    forall|i: int, j: int| 0 <= i < j < s.len() ==> (#[trigger] s[i]).0@ != (#[trigger] s[j]).0@
}

/// The map that a list of entries stands for: each account to the balance
/// of its last entry.
pub open spec fn map_of(s: Seq<(String, u128)>) -> Map<Seq<char>, u128>
    decreases s.len(),
{
    if s.len() == 0 {
        Map::empty()
    } else {
        map_of(s.drop_last()).insert(s.last().0@, s.last().1)
    }
}

/// The accounts of the map are exactly those of the entries, and finitely many.
pub proof fn lemma_map_of_dom(s: Seq<(String, u128)>, k: Seq<char>)
    ensures
        map_of(s).dom().finite(),
        map_of(s).dom().contains(k) <==> exists|i: int| 0 <= i < s.len() && (#[trigger] s[i]).0@ == k,
    decreases s.len(),
{
    if s.len() > 0 {
        let t = s.drop_last();
        lemma_map_of_dom(t, k);
        if map_of(s).dom().contains(k) && s.last().0@ != k {
            let i = choose|i: int| 0 <= i < t.len() && (#[trigger] t[i]).0@ == k;
            assert(s[i] == t[i]);
        }
        if exists|i: int| 0 <= i < s.len() && (#[trigger] s[i]).0@ == k {
            let i = choose|i: int| 0 <= i < s.len() && (#[trigger] s[i]).0@ == k;
            if i < s.len() - 1 {
                assert(t[i] == s[i]);
            }
        }
    }
}

/// With unique accounts, the map gives each entry's balance to its account.
pub proof fn lemma_map_of_index(s: Seq<(String, u128)>, i: int)
    requires
        keys_unique(s),
        0 <= i < s.len(),
    ensures
        map_of(s).dom().contains(s[i].0@),
        map_of(s)[s[i].0@] == s[i].1,
    decreases s.len(),
{
    let t = s.drop_last();
    if i < s.len() - 1 {
        assert(t[i] == s[i]);
        lemma_map_of_index(t, i);
        assert(s[i].0@ != s[s.len() - 1].0@);
    }
}

/// With unique accounts, rewriting entry `i` under the same account writes
/// that account's balance in the map.
pub proof fn lemma_map_of_update(s: Seq<(String, u128)>, i: int, v: u128)
    requires
        keys_unique(s),
        0 <= i < s.len(),
    ensures
        keys_unique(s.update(i, (s[i].0, v))),
        map_of(s.update(i, (s[i].0, v))) == map_of(s).insert(s[i].0@, v),
    decreases s.len(),
{
    let u = s.update(i, (s[i].0, v));
    let t = s.drop_last();
    let k = s[i].0@;
    assert forall|a: int, b: int| 0 <= a < b < u.len() implies (#[trigger] u[a]).0@ != (
    #[trigger] u[b]).0@ by {
        assert(s[a].0@ != s[b].0@);
    }
    if i == s.len() - 1 {
        assert(u.drop_last() =~= t);
        assert(map_of(s) == map_of(t).insert(k, s[i].1));
        assert(map_of(u) =~= map_of(s).insert(k, v));
    } else {
        assert(u.drop_last() =~= t.update(i, (t[i].0, v)));
        assert(t[i] == s[i]);
        lemma_map_of_update(t, i, v);
        assert(s.last().0@ != k);
        assert(u.last() == s.last());
        assert(map_of(u) =~= map_of(s).insert(k, v));
    }
}

/// Appending an entry for an account not yet present keeps accounts unique.
pub proof fn lemma_push_keeps_unique(s: Seq<(String, u128)>, e: (String, u128))
    requires
        keys_unique(s),
        forall|j: int| 0 <= j < s.len() ==> (#[trigger] s[j]).0@ != e.0@,
    ensures
        keys_unique(s.push(e)),
        map_of(s.push(e)) == map_of(s).insert(e.0@, e.1),
{
    let u = s.push(e);
    assert(u.drop_last() =~= s);
    assert forall|a: int, b: int| 0 <= a < b < u.len() implies (#[trigger] u[a]).0@ != (
    #[trigger] u[b]).0@ by {
        assert(u[a] == s[a]);
        if b < s.len() {
            assert(u[b] == s[b]);
        }
    }
}

} // verus!
