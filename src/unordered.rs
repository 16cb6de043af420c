//! The content of an unordered map, given as its entries in any order.
use vstd::prelude::*;

use crate::types::ToBytes;

verus! {

/// The map that the entries build when inserted in order.
pub open spec fn entries_map<K: ToBytes, V: ToBytes>(es: Seq<(K::V, V::V)>) -> Map<K::V, V::V>
    decreases es.len(),
{
    if es.len() == 0 {
        Map::empty()
    } else {
        entries_map::<K, V>(es.drop_last()).insert(es.last().0, es.last().1)
    }
}

/// No two entries share a key.
pub open spec fn keys_distinct<K: ToBytes, V: ToBytes>(es: Seq<(K::V, V::V)>) -> bool {
    forall|i: int, j: int| 0 <= i < j < es.len() ==> #[trigger] es[i].0 != #[trigger] es[j].0
}

/// With distinct keys, the map holds exactly the entries.
pub proof fn lemma_entries_map_pairs<K: ToBytes, V: ToBytes>(es: Seq<(K::V, V::V)>)
    requires
        keys_distinct::<K, V>(es),
    ensures
        forall|k: K::V, v: V::V| #[trigger]
            entries_map::<K, V>(es).contains_pair(k, v) <==> es.contains((k, v)),
    decreases es.len(),
{
    if es.len() > 0 {
        let init = es.drop_last();
        assert(keys_distinct::<K, V>(init)) by {
            assert forall|i: int, j: int| 0 <= i < j < init.len() implies #[trigger] init[i].0
                != #[trigger] init[j].0 by {
                assert(init[i] == es[i]);
                assert(init[j] == es[j]);
            }
        }
        lemma_entries_map_pairs::<K, V>(init);
        let last = es.last();
        assert forall|k: K::V, v: V::V| #[trigger]
            entries_map::<K, V>(es).contains_pair(k, v) <==> es.contains((k, v)) by {
            if es.contains((k, v)) {
                let i = choose|i: int| 0 <= i < es.len() && es[i] == (k, v);
                if i < es.len() - 1 {
                    assert(init[i] == (k, v));
                    assert(init.contains((k, v)));
                    assert(entries_map::<K, V>(init).contains_pair(k, v));
                    assert(es[i].0 != es[es.len() - 1].0);
                } else {
                    assert(last == (k, v));
                }
            }
            if entries_map::<K, V>(es).contains_pair(k, v) {
                if k == last.0 {
                    assert(es[es.len() - 1] == (k, v));
                } else {
                    assert(entries_map::<K, V>(init).contains_pair(k, v));
                    assert(init.contains((k, v)));
                    let i = choose|i: int| 0 <= i < init.len() && init[i] == (k, v);
                    assert(es[i] == (k, v));
                }
            }
        }
    }
}

/// Entries with distinct keys that hold the same pairs, in whatever order,
/// build the same map.
pub proof fn lemma_same_entries_same_map<K: ToBytes, V: ToBytes>(
    a: Seq<(K::V, V::V)>,
    b: Seq<(K::V, V::V)>,
)
    requires
        keys_distinct::<K, V>(a),
        keys_distinct::<K, V>(b),
        a.to_set() == b.to_set(),
    ensures
        entries_map::<K, V>(a) == entries_map::<K, V>(b),
        forall|k: K::V, v: V::V| #[trigger]
            entries_map::<K, V>(b).contains_pair(k, v) <==> a.contains((k, v)),
{
    lemma_entries_map_pairs::<K, V>(a);
    lemma_entries_map_pairs::<K, V>(b);
    let ma = entries_map::<K, V>(a);
    let mb = entries_map::<K, V>(b);
    assert forall|e: (K::V, V::V)| a.contains(e) <==> b.contains(e) by {
        assert(a.to_set().contains(e) == a.contains(e));
        assert(b.to_set().contains(e) == b.contains(e));
    }
    assert forall|k: K::V| ma.contains_key(k) <==> mb.contains_key(k) by {
        if ma.contains_key(k) {
            assert(ma.contains_pair(k, ma[k]));
            assert(a.contains((k, ma[k])));
            assert(mb.contains_pair(k, ma[k]));
        }
        if mb.contains_key(k) {
            assert(mb.contains_pair(k, mb[k]));
            assert(b.contains((k, mb[k])));
            assert(ma.contains_pair(k, mb[k]));
        }
    }
    assert forall|k: K::V| ma.contains_key(k) implies ma[k] == mb[k] by {
        assert(ma.contains_pair(k, ma[k]));
        assert(a.contains((k, ma[k])));
        assert(mb.contains_pair(k, ma[k]));
    }
    assert(ma =~= mb);
}

} // verus!
