//! Sequences of entities keyed by id, and the map from id to entity that a
//! sequence denotes when later entries win over earlier ones.
use vstd::prelude::*;
use crate::model::{Bid, Metadata};

verus! {

/// An entity that carries its own id.
pub trait Keyed {
    spec fn key(&self) -> u128;
}

impl Keyed for Metadata {
    open spec fn key(&self) -> u128 {
        self.token_id
    }
}

impl Keyed for Bid {
    open spec fn key(&self) -> u128 {
        self.bid_id
    }
}

/// No two entries share an id.
pub open spec fn keys_unique<T: Keyed>(s: Seq<T>) -> bool {
    forall|i: int, j: int| 0 <= i < j < s.len() ==> (#[trigger] s[i]).key() != (#[trigger] s[j]).key()
}

/// The map from id to entity, where a later entry replaces an earlier one
/// with the same id.
pub open spec fn by_id<T: Keyed>(s: Seq<T>) -> Map<u128, T>
    decreases s.len(),
{
    if s.len() == 0 {
        Map::empty()
    } else {
        by_id(s.drop_last()).insert(s.last().key(), s.last())
    }
}

/// A sequence with unique ids maps each of its ids to its entry, and
/// nothing else.
pub proof fn lemma_by_id_entries<T: Keyed>(s: Seq<T>)
    requires
        keys_unique(s),
    ensures
        forall|i: int|
            0 <= i < s.len() ==> by_id(s).contains_key(#[trigger] s[i].key()) && by_id(s)[s[i].key()]
                == s[i],
        forall|k: u128|
            by_id(s).contains_key(k) ==> exists|i: int| 0 <= i < s.len() && (#[trigger] s[i]).key() == k,
    decreases s.len(),
{
    if s.len() > 0 {
        let d = s.drop_last();
        assert(keys_unique(d)) by {
            assert forall|i: int, j: int| 0 <= i < j < d.len() implies (#[trigger] d[i]).key() != (
            #[trigger] d[j]).key() by {
                assert(d[i] == s[i] && d[j] == s[j]);
            }
        }
        lemma_by_id_entries(d);
        assert forall|i: int| 0 <= i < s.len() implies by_id(s).contains_key(#[trigger] s[i].key())
            && by_id(s)[s[i].key()] == s[i] by {
            if i < s.len() - 1 {
                assert(d[i] == s[i]);
                assert(s[i].key() != s[s.len() - 1].key());
            }
        }
        assert forall|k: u128| by_id(s).contains_key(k) implies exists|i: int|
            0 <= i < s.len() && (#[trigger] s[i]).key() == k by {
            if k != s.last().key() {
                assert(by_id(d).contains_key(k));
                let i = choose|i: int| 0 <= i < d.len() && (#[trigger] d[i]).key() == k;
                assert(0 <= i < d.len());
                assert(s[i] == d[i]);
                assert(s[i].key() == k);
            } else {
                assert(s[s.len() - 1].key() == k);
            }
        }
    }
}

/// Replacing an entry by one with the same id updates the denoted map at
/// that id and keeps the ids unique.
pub proof fn lemma_by_id_update<T: Keyed>(s: Seq<T>, j: int, x: T)
    requires
        keys_unique(s),
        0 <= j < s.len(),
        s[j].key() == x.key(),
    ensures
        keys_unique(s.update(j, x)),
        by_id(s.update(j, x)) == by_id(s).insert(x.key(), x),
    decreases s.len(),
{
    let u = s.update(j, x);
    assert forall|a: int, b: int| 0 <= a < b < u.len() implies (#[trigger] u[a]).key() != (
    #[trigger] u[b]).key() by {
        assert(s[a].key() != s[b].key());
    }
    let d = s.drop_last();
    if j == s.len() - 1 {
        assert(u.drop_last() =~= d);
        assert(by_id(u) =~= by_id(s).insert(x.key(), x));
    } else {
        assert(keys_unique(d)) by {
            assert forall|a: int, b: int| 0 <= a < b < d.len() implies (#[trigger] d[a]).key() != (
            #[trigger] d[b]).key() by {
                assert(d[a] == s[a] && d[b] == s[b]);
            }
        }
        lemma_by_id_update(d, j, x);
        assert(u.drop_last() =~= d.update(j, x));
        assert(s[j].key() != s[s.len() - 1].key());
        assert(by_id(u) =~= by_id(s).insert(x.key(), x));
    }
}

/// Appending an entry whose id is new keeps the ids unique.
pub proof fn lemma_push_unique<T: Keyed>(s: Seq<T>, x: T)
    requires
        keys_unique(s),
        forall|i: int| 0 <= i < s.len() ==> (#[trigger] s[i]).key() != x.key(),
    ensures
        keys_unique(s.push(x)),
        by_id(s.push(x)) == by_id(s).insert(x.key(), x),
{
    let p = s.push(x);
    assert(p.drop_last() =~= s);
    assert forall|a: int, b: int| 0 <= a < b < p.len() implies (#[trigger] p[a]).key() != (
    #[trigger] p[b]).key() by {
        if b < s.len() {
            assert(p[a] == s[a] && p[b] == s[b]);
        } else {
            assert(p[a] == s[a]);
        }
    }
}

/// The first `n + 1` entries denote the map of the first `n`, with the
/// entry at `n` put in.
pub proof fn lemma_by_id_take<T: Keyed>(s: Seq<T>, n: int)
    requires
        0 <= n < s.len(),
    ensures
        by_id(s.take(n + 1)) == by_id(s.take(n)).insert(s[n].key(), s[n]),
{
    assert(s.take(n + 1).drop_last() =~= s.take(n));
}

} // verus!
