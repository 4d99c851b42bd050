//! Walking maps in the order of their keys.

use std::collections::{BTreeMap, BTreeSet};

use vstd::prelude::*;
use vstd::std_specs::cmp::OrdSpec;
use vstd::std_specs::iter::IteratorSpec;

verus! {

/// Whether `keys` lists the members of `dom` from the smallest to the largest.
pub open spec fn lists(keys: Seq<u32>, dom: Set<u32>) -> bool {
    &&& forall|i: int, j: int|
        #![trigger keys[i], keys[j]]
        0 <= i < j < keys.len() ==> keys[i] < keys[j]
    &&& forall|k: u32| #[trigger] dom.contains(k) <==> keys.contains(k)
}

/// The members of `dom` from the smallest to the largest.
pub open spec fn ascending(dom: Set<u32>) -> Seq<u32> {
    choose|keys: Seq<u32>| lists(keys, dom)
}

/// There is one way only to list a set in order.
pub proof fn lemma_lists_unique(a: Seq<u32>, b: Seq<u32>, dom: Set<u32>)
    requires
        lists(a, dom),
        lists(b, dom),
    ensures
        a == b,
    decreases a.len(),
{
    if a.len() == 0 {
        if b.len() > 0 {
            assert(b.contains(b[0]));
            assert(dom.contains(b[0]));
        }
        assert(a =~= b);
    } else {
        assert(a.contains(a.last()));
        assert(dom.contains(a.last()));
        assert(b.contains(a.last()));
        assert(b.contains(b.last()));
        assert(dom.contains(b.last()));
        assert(a.contains(b.last()));
        let i = choose|i: int| 0 <= i < b.len() && b[i] == a.last();
        let j = choose|j: int| 0 <= j < a.len() && a[j] == b.last();
        assert(a.last() == b.last()) by {
            if i < b.len() - 1 && j < a.len() - 1 {
                assert(b[i] < b[b.len() - 1]);
                assert(a[j] < a[a.len() - 1]);
            }
        }
        let rest = dom.remove(a.last());
        assert(lists(a.drop_last(), rest)) by {
            lemma_lists_drop_last(a, dom);
        }
        assert(lists(b.drop_last(), rest)) by {
            lemma_lists_drop_last(b, dom);
        }
        lemma_lists_unique(a.drop_last(), b.drop_last(), rest);
        assert(a =~= a.drop_last().push(a.last()));
        assert(b =~= b.drop_last().push(b.last()));
    }
}

/// Every finite set can be listed in order.
pub proof fn lemma_ascending_lists(dom: Set<u32>)
    requires
        dom.finite(),
    ensures
        lists(ascending(dom), dom),
    decreases dom.len(),
{
    if dom.len() == 0 {
        assert(dom =~= Set::<u32>::empty());
        assert(lists(Seq::<u32>::empty(), dom));
    } else {
        let x = dom.choose();
        let rest = dom.remove(x);
        lemma_ascending_lists(rest);
        let keys = lemma_list_one_more(ascending(rest), rest, x);
        assert(rest.insert(x) =~= dom);
        assert(lists(keys, dom));
    }
}

proof fn lemma_list_one_more(keys: Seq<u32>, dom: Set<u32>, x: u32) -> (more: Seq<u32>)
    requires
        lists(keys, dom),
        !dom.contains(x),
    ensures
        lists(more, dom.insert(x)),
    decreases keys.len(),
{
    if keys.len() == 0 || keys.last() < x {
        let more = keys.push(x);
        assert forall|i: int, j: int|
            #![trigger more[i], more[j]]
            0 <= i < j < more.len() implies more[i] < more[j] by {
            if j == keys.len() && i < keys.len() - 1 {
                assert(keys[i] < keys[keys.len() - 1]);
            }
        }
        assert forall|k: u32| #[trigger] dom.insert(x).contains(k) <==> more.contains(k) by {
            if dom.contains(k) {
                let i = choose|i: int| 0 <= i < keys.len() && keys[i] == k;
                assert(more[i] == k);
            }
            if k == x {
                assert(more[keys.len() as int] == k);
            }
            if more.contains(k) && k != x {
                let i = choose|i: int| 0 <= i < more.len() && more[i] == k;
                assert(keys[i] == k);
                assert(keys.contains(k));
                assert(dom.contains(k));
            }
        }
        more
    } else {
        let last = keys.last();
        assert(keys.contains(last));
        assert(dom.contains(last));
        lemma_lists_drop_last(keys, dom);
        let rest = dom.remove(last);
        let short = lemma_list_one_more(keys.drop_last(), rest, x);
        let more = short.push(last);
        assert forall|i: int| 0 <= i < short.len() implies #[trigger] short[i] < last by {
            assert(short.contains(short[i]));
            assert(rest.insert(x).contains(short[i]));
            if short[i] != x {
                assert(dom.contains(short[i]));
                let k = choose|k: int| 0 <= k < keys.len() && keys[k] == short[i];
                if k < keys.len() - 1 {
                    assert(keys[k] < keys[keys.len() - 1]);
                }
            }
        }
        assert forall|k: u32| #[trigger] dom.insert(x).contains(k) <==> more.contains(k) by {
            if dom.insert(x).contains(k) && k != last {
                assert(rest.insert(x).contains(k));
                let i = choose|i: int| 0 <= i < short.len() && short[i] == k;
                assert(more[i] == k);
            }
            if k == last {
                assert(more[short.len() as int] == k);
            }
            if more.contains(k) && k != last {
                let i = choose|i: int| 0 <= i < more.len() && more[i] == k;
                assert(short[i] == k);
                assert(short.contains(k));
                assert(rest.insert(x).contains(k));
            }
        }
        more
    }
}

proof fn lemma_lists_drop_last(a: Seq<u32>, dom: Set<u32>)
    requires
        lists(a, dom),
        a.len() > 0,
    ensures
        lists(a.drop_last(), dom.remove(a.last())),
{
    let rest = dom.remove(a.last());
    let short = a.drop_last();
    assert forall|k: u32| #[trigger] rest.contains(k) <==> short.contains(k) by {
        if rest.contains(k) {
            assert(dom.contains(k));
            let i = choose|i: int| 0 <= i < a.len() && a[i] == k;
            assert(short[i] == k);
        }
        if short.contains(k) {
            let i = choose|i: int| 0 <= i < short.len() && short[i] == k;
            assert(a[i] == k);
            assert(a.contains(k));
            assert(dom.contains(k));
        }
    }
}

proof fn lemma_increasing(keys: Seq<u32>)
    requires
        vstd::std_specs::btree::increasing_seq(keys),
    ensures
        forall|i: int, j: int|
            #![trigger keys[i], keys[j]]
            0 <= i < j < keys.len() ==> keys[i] < keys[j],
{
    broadcast use vstd::std_specs::btree::group_btree_axioms;

    assert forall|i: int, j: int|
        #![trigger keys[i], keys[j]]
        0 <= i < j < keys.len() implies keys[i] < keys[j] by {
        assert(keys[i].cmp_spec(&keys[j]) is Less);
    }
}

/// The keys of a map from the smallest to the largest.
pub fn sorted_keys<V>(map: &BTreeMap<u32, V>) -> (keys: Vec<u32>)
    ensures
        keys@ == ascending(map@.dom()),
        lists(keys@, map@.dom()),
{
    broadcast use vstd::std_specs::btree::group_btree_axioms;

    let mut keys: Vec<u32> = Vec::new();
    let iter = map.iter();
    let ghost all = iter.remaining().map_values(|kv: (&u32, &V)| *kv.0);
    for entry in it: iter
        invariant
            all == it.seq().map_values(|kv: (&u32, &V)| *kv.0),
            keys@ == all.take(it.index() as int),
    {
        keys.push(*entry.0);
        assert(keys@ =~= all.take(it.index() + 1));
    }
    proof {
        assert(keys@ =~= all);
        lemma_increasing(all);
        let pairs = iter.remaining();
        assert forall|k: u32| #[trigger] map@.dom().contains(k) <==> keys@.contains(k) by {
            if map@.contains_key(k) {
                assert(pairs.contains((&k, &map@[k])));
                let i = choose|i: int| 0 <= i < pairs.len() && pairs[i] == (&k, &map@[k]);
                assert(keys@[i] == k);
            }
            if keys@.contains(k) {
                let i = choose|i: int| 0 <= i < keys@.len() && keys@[i] == k;
                assert(map@.contains_key(*pairs[i].0));
            }
        }
        lemma_lists_unique(keys@, ascending(map@.dom()), map@.dom());
    }
    keys
}

/// Whether `keys` lists the members of `dom` from the smallest to the largest.
pub open spec fn lists_ids(keys: Seq<usize>, dom: Set<usize>) -> bool {
    &&& forall|i: int, j: int|
        #![trigger keys[i], keys[j]]
        0 <= i < j < keys.len() ==> keys[i] < keys[j]
    &&& forall|k: usize| #[trigger] dom.contains(k) <==> keys.contains(k)
}

proof fn lemma_increasing_ids(keys: Seq<usize>)
    requires
        vstd::std_specs::btree::increasing_seq(keys),
    ensures
        forall|i: int, j: int|
            #![trigger keys[i], keys[j]]
            0 <= i < j < keys.len() ==> keys[i] < keys[j],
{
    broadcast use vstd::std_specs::btree::group_btree_axioms;

    assert forall|i: int, j: int|
        #![trigger keys[i], keys[j]]
        0 <= i < j < keys.len() implies keys[i] < keys[j] by {
        assert(keys[i].cmp_spec(&keys[j]) is Less);
    }
}

/// The keys of a map from the smallest to the largest.
pub fn sorted_ids<V>(map: &BTreeMap<usize, V>) -> (keys: Vec<usize>)
    ensures
        lists_ids(keys@, map@.dom()),
{
    broadcast use vstd::std_specs::btree::group_btree_axioms;

    let mut keys: Vec<usize> = Vec::new();
    let iter = map.iter();
    let ghost all = iter.remaining().map_values(|kv: (&usize, &V)| *kv.0);
    for entry in it: iter
        invariant
            all == it.seq().map_values(|kv: (&usize, &V)| *kv.0),
            keys@ == all.take(it.index() as int),
    {
        keys.push(*entry.0);
        assert(keys@ =~= all.take(it.index() + 1));
    }
    proof {
        assert(keys@ =~= all);
        lemma_increasing_ids(all);
        let pairs = iter.remaining();
        assert forall|k: usize| #[trigger] map@.dom().contains(k) <==> keys@.contains(k) by {
            if map@.contains_key(k) {
                assert(pairs.contains((&k, &map@[k])));
                let i = choose|i: int| 0 <= i < pairs.len() && pairs[i] == (&k, &map@[k]);
                assert(keys@[i] == k);
            }
            if keys@.contains(k) {
                let i = choose|i: int| 0 <= i < keys@.len() && keys@[i] == k;
                assert(map@.contains_key(*pairs[i].0));
            }
        }
    }
    keys
}

/// Whether `keys` lists the members of `dom` from the smallest to the largest.
pub open spec fn lists_ports(keys: Seq<u16>, dom: Set<u16>) -> bool {
    &&& forall|i: int, j: int|
        #![trigger keys[i], keys[j]]
        0 <= i < j < keys.len() ==> keys[i] < keys[j]
    &&& forall|k: u16| #[trigger] dom.contains(k) <==> keys.contains(k)
}

proof fn lemma_increasing_ports(keys: Seq<&u16>)
    requires
        vstd::std_specs::btree::increasing_seq(keys),
    ensures
        forall|i: int, j: int|
            #![trigger keys[i], keys[j]]
            0 <= i < j < keys.len() ==> *keys[i] < *keys[j],
{
    broadcast use vstd::std_specs::btree::group_btree_axioms;
    broadcast use vstd::laws_cmp::group_laws_cmp;


    assert forall|i: int, j: int|
        #![trigger keys[i], keys[j]]
        0 <= i < j < keys.len() implies *keys[i] < *keys[j] by {
        assert(OrdSpec::cmp_spec(&keys[i], &keys[j]) is Less);
    }
}

/// The members of a set from the smallest to the largest.
pub fn sorted_ports(ports: &BTreeSet<u16>) -> (keys: Vec<u16>)
    ensures
        lists_ports(keys@, ports@),
        keys@.len() == ports@.len(),
{
    broadcast use vstd::std_specs::btree::group_btree_axioms;

    let mut keys: Vec<u16> = Vec::new();
    let iter = ports.iter();
    let ghost all = iter.remaining();
    for port in it: iter
        invariant
            all == it.seq(),
            keys@ == all.unref().take(it.index() as int),
    {
        keys.push(*port);
        assert(keys@ =~= all.unref().take(it.index() + 1));
    }
    proof {
        assert(keys@ =~= all.unref());
        lemma_increasing_ports(all);
        assert forall|k: u16| #[trigger] ports@.contains(k) <==> keys@.contains(k) by {
            assert(all.unref().to_set().contains(k) <==> all.unref().contains(k));
        }
    }
    keys
}

} // verus!
