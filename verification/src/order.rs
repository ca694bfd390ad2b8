//! Ascending order: the keys of a map from least to greatest, and texts put
//! together piece by piece.

use std::collections::BTreeMap;
use vstd::prelude::*;
use vstd::std_specs::btree::{
    axiom_increasing_seq_meaning, axiom_spec_keys_iter, increasing_seq, spec_keys_iter,
};
use vstd::std_specs::cmp::OrdSpec;
use vstd::std_specs::iter::IteratorSpec;

verus! {

/// Whether each key is less than the ones after it.
pub open spec fn strictly_increasing(keys: Seq<u32>) -> bool {
    forall|i: int, j: int| 0 <= i < j < keys.len() ==> keys[i] < keys[j]
}

/// The keys of a finite set from least to greatest.
pub open spec fn ascending(keys: Set<u32>) -> Seq<u32> {
    choose|list: Seq<u32>| strictly_increasing(list) && list.to_set() == keys
}

/// The pieces of a list put together, in order.
pub open spec fn concat<A>(parts: Seq<Seq<A>>) -> Seq<A>
    decreases parts.len(),
{
    if parts.len() == 0 {
        Seq::empty()
    } else {
        concat(parts.drop_last()) + parts.last()
    }
}

/// One more piece at the end of the list comes at the end of the whole.
pub proof fn lemma_concat_push<A>(parts: Seq<Seq<A>>, piece: Seq<A>)
    ensures
        concat(parts.push(piece)) == concat(parts) + piece,
{
    assert(parts.push(piece).drop_last() =~= parts);
}

/// There is one way only to list a set in ascending order.
pub proof fn lemma_increasing_unique(a: Seq<u32>, b: Seq<u32>)
    requires
        strictly_increasing(a),
        strictly_increasing(b),
        a.to_set() == b.to_set(),
    ensures
        a == b,
    decreases a.len(),
{
    if a.len() == 0 {
        if b.len() > 0 {
            assert(b.to_set().contains(b[0]));
            assert(a.to_set().contains(b[0]));
        }
        assert(a =~= b);
    } else {
        let top = a.last();
        assert(a.to_set().contains(top));
        assert(b.to_set().contains(top));
        assert(b.len() > 0);
        let other = b.last();
        assert(b.to_set().contains(other));
        assert(a.to_set().contains(other));
        // each greatest key occurs in the other list, so neither exceeds the other
        let at = choose|i: int| 0 <= i < b.len() && b[i] == top;
        let back = choose|i: int| 0 <= i < a.len() && a[i] == other;
        assert(top <= other);
        assert(other <= top);
        let a0 = a.drop_last();
        let b0 = b.drop_last();
        assert forall|x: u32| a0.to_set().contains(x) <==> b0.to_set().contains(x) by {
            if a0.to_set().contains(x) {
                let i = choose|i: int| 0 <= i < a0.len() && a0[i] == x;
                assert(a[i] == x && x < top);
                assert(a.to_set().contains(x));
                assert(b.to_set().contains(x));
                let j = choose|j: int| 0 <= j < b.len() && b[j] == x;
                assert(j < b.len() - 1);
                assert(b0[j] == x);
            }
            if b0.to_set().contains(x) {
                let j = choose|j: int| 0 <= j < b0.len() && b0[j] == x;
                assert(b[j] == x && x < other);
                assert(b.to_set().contains(x));
                assert(a.to_set().contains(x));
                let i = choose|i: int| 0 <= i < a.len() && a[i] == x;
                assert(i < a.len() - 1);
                assert(a0[i] == x);
            }
        }
        assert(a0.to_set() =~= b0.to_set());
        lemma_increasing_unique(a0, b0);
        assert(a =~= a0.push(top));
        assert(b =~= b0.push(other));
    }
}

/// The keys that a map yields in order are strictly increasing.
proof fn lemma_yielded_keys_increase(all: Seq<&u32>)
    requires
        increasing_seq(all),
    ensures
        forall|i: int, j: int| 0 <= i < j < all.len() ==> *all[i] < *all[j],
{
    axiom_increasing_seq_meaning(all);
    assert forall|i: int, j: int| 0 <= i < j < all.len() implies *all[i] < *all[j] by {
        assert(OrdSpec::cmp_spec(&all[i], &all[j]) is Less);
    }
}

/// The keys of a map from least to greatest.
pub fn sorted_keys<V>(map: &BTreeMap<u32, V>) -> (keys: Vec<u32>)
    ensures
        keys@ == ascending(map@.dom()),
        strictly_increasing(keys@),
        keys@.to_set() == map@.dom(),
{
    let mut out: Vec<u32> = Vec::new();
    let ghost all = spec_keys_iter(map).remaining();
    proof {
        axiom_spec_keys_iter(map);
        lemma_yielded_keys_increase(all);
    }
    for k in it: map.keys()
        invariant
            it.seq() == all,
            out@.len() == it.index(),
            forall|j: int| 0 <= j < out@.len() ==> out@[j] == *all[j],
    {
        out.push(*k);
    }
    assert(out@ =~= all.unref());
    proof {
        lemma_increasing_unique(out@, ascending(map@.dom()));
    }
    out
}

} // verus!
