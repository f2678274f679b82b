//! The mathematics of a batch of renames: a list of pairs of path texts, no
//! source twice, read as a map from source to destination.

use vstd::prelude::*;

verus! {

/// No two pairs of the list rename the same source.
pub(crate) open spec fn distinct_sources(pairs: Seq<(Seq<char>, Seq<char>)>) -> bool {
    forall|i: int, j: int|
        0 <= i < j < pairs.len() ==> (#[trigger] pairs[i]).0 != (#[trigger] pairs[j]).0
}

/// Some pair of the list renames `from`.
pub(crate) open spec fn has_source(pairs: Seq<(Seq<char>, Seq<char>)>, from: Seq<char>) -> bool {
    exists|i: int| 0 <= i < pairs.len() && (#[trigger] pairs[i]).0 == from
}

/// The map that a list of pairs stands for: each source with its
/// destination, a later pair replacing an earlier one of the same source.
pub(crate) open spec fn renames_of(pairs: Seq<(Seq<char>, Seq<char>)>) -> Map<Seq<char>, Seq<char>>
    decreases pairs.len(),
{
    if pairs.len() == 0 {
        Map::empty()
    } else {
        renames_of(pairs.drop_last()).insert(pairs.last().0, pairs.last().1)
    }
}

/// The sources of the map are those of the list, and the map is finite.
pub(crate) proof fn lemma_renames_sources(pairs: Seq<(Seq<char>, Seq<char>)>)
    ensures
        renames_of(pairs).dom().finite(),
        forall|from: Seq<char>| #[trigger]
            renames_of(pairs).contains_key(from) <==> has_source(pairs, from),
    decreases pairs.len(),
{
    if pairs.len() > 0 {
        let front = pairs.drop_last();
        lemma_renames_sources(front);
        assert forall|from: Seq<char>| #[trigger]
            renames_of(pairs).contains_key(from) <==> has_source(pairs, from) by {
            if has_source(pairs, from) {
                let i = choose|i: int| 0 <= i < pairs.len() && (#[trigger] pairs[i]).0 == from;
                if i < front.len() {
                    assert(front[i].0 == from);
                }
            }
            if has_source(front, from) {
                let i = choose|i: int| 0 <= i < front.len() && (#[trigger] front[i]).0 == from;
                assert(pairs[i].0 == from);
            }
        }
    }
}

/// Where no source occurs twice, the map has one entry for each pair of the
/// list, and gives each source the destination that its pair gives it.
pub(crate) proof fn lemma_renames_pairs(pairs: Seq<(Seq<char>, Seq<char>)>)
    requires
        distinct_sources(pairs),
    ensures
        renames_of(pairs).dom().finite(),
        renames_of(pairs).len() == pairs.len(),
        forall|i: int|
            0 <= i < pairs.len() ==> renames_of(pairs).contains_pair(
                (#[trigger] pairs[i]).0,
                pairs[i].1,
            ),
    decreases pairs.len(),
{
    if pairs.len() > 0 {
        let front = pairs.drop_last();
        lemma_renames_pairs(front);
        lemma_renames_sources(front);
        assert forall|i: int| 0 <= i < pairs.len() implies renames_of(pairs).contains_pair(
            (#[trigger] pairs[i]).0,
            pairs[i].1,
        ) by {
            if i < front.len() {
                assert(renames_of(front).contains_pair(front[i].0, front[i].1));
                assert(has_source(front, front[i].0));
            }
        }
    }
}

/// Without its last pair, a list with no source twice stands for the same
/// map without that pair's source.
pub(crate) proof fn lemma_renames_drop_last(pairs: Seq<(Seq<char>, Seq<char>)>)
    requires
        distinct_sources(pairs),
        pairs.len() > 0,
    ensures
        distinct_sources(pairs.drop_last()),
        renames_of(pairs.drop_last()) == renames_of(pairs).remove(pairs.last().0),
{
    lemma_renames_sources(pairs.drop_last());
    assert(renames_of(pairs.drop_last()) =~= renames_of(pairs).remove(pairs.last().0));
}

/// With one more pair, of a source that the list does not rename yet, the
/// list stands for the same map with that rename added.
pub(crate) proof fn lemma_renames_push(
    pairs: Seq<(Seq<char>, Seq<char>)>,
    pair: (Seq<char>, Seq<char>),
)
    requires
        distinct_sources(pairs),
        !has_source(pairs, pair.0),
    ensures
        distinct_sources(pairs.push(pair)),
        renames_of(pairs.push(pair)) == renames_of(pairs).insert(pair.0, pair.1),
{
    let more = pairs.push(pair);
    assert forall|i: int, j: int| 0 <= i < j < more.len() implies (#[trigger] more[i]).0 != (
    #[trigger] more[j]).0 by {
        if j < pairs.len() {
            assert(pairs[i].0 != pairs[j].0);
        } else {
            assert(pairs[i].0 != pair.0);
        }
    }
    assert(more.drop_last() =~= pairs);
}

/// With a new destination in the pair at `at`, a list with no source twice
/// stands for the same map with that source renamed to the new destination.
pub(crate) proof fn lemma_renames_update(
    pairs: Seq<(Seq<char>, Seq<char>)>,
    at: int,
    to: Seq<char>,
)
    requires
        distinct_sources(pairs),
        0 <= at < pairs.len(),
    ensures
        distinct_sources(pairs.update(at, (pairs[at].0, to))),
        renames_of(pairs.update(at, (pairs[at].0, to))) == renames_of(pairs).insert(
            pairs[at].0,
            to,
        ),
{
    let from = pairs[at].0;
    let changed = pairs.update(at, (from, to));
    let expected = renames_of(pairs).insert(from, to);
    assert forall|i: int, j: int| 0 <= i < j < changed.len() implies (#[trigger] changed[i]).0 != (
    #[trigger] changed[j]).0 by {
        assert(pairs[i].0 != pairs[j].0);
    }
    lemma_renames_sources(pairs);
    lemma_renames_sources(changed);
    lemma_renames_pairs(pairs);
    lemma_renames_pairs(changed);
    assert forall|key: Seq<char>| #[trigger]
        renames_of(changed).contains_key(key) <==> expected.contains_key(key) by {
        if has_source(changed, key) {
            let i = choose|i: int| 0 <= i < changed.len() && (#[trigger] changed[i]).0 == key;
            assert(pairs[i].0 == key);
        }
        if has_source(pairs, key) {
            let i = choose|i: int| 0 <= i < pairs.len() && (#[trigger] pairs[i]).0 == key;
            assert(changed[i].0 == key);
        }
    }
    assert forall|key: Seq<char>| #[trigger]
        renames_of(changed).contains_key(key) implies renames_of(changed)[key] == expected[key] by {
        let i = choose|i: int| 0 <= i < changed.len() && (#[trigger] changed[i]).0 == key;
        assert(renames_of(changed).contains_pair(changed[i].0, changed[i].1));
        if i != at {
            assert(renames_of(pairs).contains_pair(pairs[i].0, pairs[i].1));
        }
    }
    assert(renames_of(changed) =~= expected);
}

} // verus!
