//! String-keyed association lists and the mapping they denote.
//! Shared by the storage documents and the autostart key model.

use vstd::prelude::*;

verus! {

/// The mapping an entry sequence denotes; a later entry under the same
/// key overrides an earlier one.
pub open spec fn map_of<V>(entries: Seq<(String, V)>) -> Map<Seq<char>, V>
    decreases entries.len(),
{
    if entries.len() == 0 {
        Map::empty()
    } else {
        map_of(entries.drop_last()).insert(entries.last().0@, entries.last().1)
    }
}

/// Pairwise-distinct keys.
pub open spec fn unique_keys<V>(entries: Seq<(String, V)>) -> bool {
    forall|i: int, j: int|
        0 <= i < j < entries.len() ==> (#[trigger] entries[i]).0@ != (#[trigger] entries[j]).0@
}

pub proof fn lemma_map_of_contains<V>(entries: Seq<(String, V)>, k: Seq<char>)
    ensures
        map_of(entries).contains_key(k) <==> exists|i: int|
            0 <= i < entries.len() && (#[trigger] entries[i]).0@ == k,
    decreases entries.len(),
{
    if entries.len() > 0 {
        lemma_map_of_contains(entries.drop_last(), k);
        if entries.last().0@ == k {
            assert(entries[entries.len() - 1].0@ == k);
        } else {
            assert forall|i: int|
                0 <= i < entries.len() && (#[trigger] entries[i]).0@ == k implies map_of(
                entries,
            ).contains_key(k) by {
                assert(entries.drop_last()[i] == entries[i]);
            }
            if map_of(entries).contains_key(k) {
                let i = choose|i: int|
                    0 <= i < entries.drop_last().len() && (#[trigger] entries.drop_last()[i]).0@
                        == k;
                assert(entries[i].0@ == k);
            }
        }
    }
}

pub proof fn lemma_map_of_index<V>(entries: Seq<(String, V)>, i: int)
    requires
        0 <= i < entries.len(),
        forall|j: int| i < j < entries.len() ==> (#[trigger] entries[j]).0@ != entries[i].0@,
    ensures
        map_of(entries).contains_key(entries[i].0@),
        map_of(entries)[entries[i].0@] == entries[i].1,
    decreases entries.len(),
{
    if i == entries.len() - 1 {
    } else {
        assert forall|j: int|
            i < j < entries.drop_last().len() implies (#[trigger] entries.drop_last()[j]).0@
            != entries.drop_last()[i].0@ by {
            assert(entries.drop_last()[j] == entries[j]);
        }
        lemma_map_of_index(entries.drop_last(), i);
        assert(entries.last().0@ != entries[i].0@);
    }
}

pub proof fn lemma_map_of_push<V>(entries: Seq<(String, V)>, e: (String, V))
    ensures
        map_of(entries.push(e)) == map_of(entries).insert(e.0@, e.1),
{
    assert(entries.push(e).drop_last() =~= entries);
    assert(entries.push(e).last() == e);
}

pub proof fn lemma_map_of_update<V>(entries: Seq<(String, V)>, i: int, e: (String, V))
    requires
        0 <= i < entries.len(),
        entries[i].0@ == e.0@,
        forall|j: int| i < j < entries.len() ==> (#[trigger] entries[j]).0@ != entries[i].0@,
    ensures
        map_of(entries.update(i, e)) == map_of(entries).insert(e.0@, e.1),
    decreases entries.len(),
{
    let upd = entries.update(i, e);
    if i == entries.len() - 1 {
        assert(upd.drop_last() =~= entries.drop_last());
        assert(upd.last() == e);
    } else {
        assert(upd.last() == entries.last());
        assert(upd.drop_last() =~= entries.drop_last().update(i, e));
        assert forall|j: int|
            i < j < entries.drop_last().len() implies (#[trigger] entries.drop_last()[j]).0@
            != entries.drop_last()[i].0@ by {
            assert(entries.drop_last()[j] == entries[j]);
        }
        lemma_map_of_update(entries.drop_last(), i, e);
        assert(entries.last().0@ != e.0@);
        assert(map_of(upd) =~= map_of(entries).insert(e.0@, e.1)) by {
            assert(map_of(upd) == map_of(entries.drop_last()).insert(e.0@, e.1).insert(
                entries.last().0@,
                entries.last().1,
            ));
            assert(map_of(entries) == map_of(entries.drop_last()).insert(
                entries.last().0@,
                entries.last().1,
            ));
        }
    }
}

pub proof fn lemma_map_of_remove<V>(entries: Seq<(String, V)>, i: int)
    requires
        0 <= i < entries.len(),
        unique_keys(entries),
    ensures
        map_of(entries.remove(i)) == map_of(entries).remove(entries[i].0@),
    decreases entries.len(),
{
    let rem = entries.remove(i);
    if i == entries.len() - 1 {
        assert(rem =~= entries.drop_last());
        assert(map_of(rem) =~= map_of(entries).remove(entries[i].0@)) by {
            lemma_map_of_contains(entries.drop_last(), entries[i].0@);
            assert(!map_of(entries.drop_last()).contains_key(entries[i].0@)) by {
                if exists|j: int|
                    0 <= j < entries.drop_last().len() && (#[trigger] entries.drop_last()[j]).0@
                        == entries[i].0@ {
                    let j = choose|j: int|
                        0 <= j < entries.drop_last().len() && (#[trigger] entries.drop_last()[j]).0@
                            == entries[i].0@;
                    assert(entries[j].0@ == entries[i].0@);
                }
            }
        }
    } else {
        assert(rem.last() == entries.last());
        assert(rem.drop_last() =~= entries.drop_last().remove(i));
        assert(unique_keys(entries.drop_last())) by {
            assert forall|a: int, b: int|
                0 <= a < b < entries.drop_last().len() implies (#[trigger] entries.drop_last()[
                a]).0@ != (#[trigger] entries.drop_last()[b]).0@ by {
                assert(entries.drop_last()[a] == entries[a]);
                assert(entries.drop_last()[b] == entries[b]);
            }
        }
        lemma_map_of_remove(entries.drop_last(), i);
        assert(entries.drop_last()[i] == entries[i]);
        assert(entries.last().0@ != entries[i].0@);
        assert(map_of(rem) =~= map_of(entries).remove(entries[i].0@)) by {
            assert(map_of(rem) == map_of(entries.drop_last()).remove(entries[i].0@).insert(
                entries.last().0@,
                entries.last().1,
            ));
            assert(map_of(entries) == map_of(entries.drop_last()).insert(
                entries.last().0@,
                entries.last().1,
            ));
        }
    }
}

} // verus!
