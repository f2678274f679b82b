//! The steps by which a change set is handed out, rename by rename, and
//! what holds of every run of such steps.

use vstd::prelude::*;

verus! {

/// What a step may do: hand out one of the renames that are left and remove
/// it, or, where none is left, signal completion and change nothing.
pub open spec fn stepped(
    before: Map<Seq<char>, Seq<char>>,
    handed: Option<(Seq<char>, Seq<char>)>,
    after: Map<Seq<char>, Seq<char>>,
) -> bool {
    match handed {
        Some((from, to)) => before.contains_pair(from, to) && after == before.remove(from),
        None => before == Map::<Seq<char>, Seq<char>>::empty() && after == before,
    }
}

/// A run of a cursor: `states[k]` is what is left before step `k`,
/// `handed[k]` what step `k` hands out, and the last of `states` what is left
/// after the last step.
pub open spec fn is_run(
    states: Seq<Map<Seq<char>, Seq<char>>>,
    handed: Seq<Option<(Seq<char>, Seq<char>)>>,
) -> bool {
    &&& states.len() == handed.len() + 1
    &&& states[0].dom().finite()
    &&& forall|k: int|
        0 <= k < handed.len() ==> stepped(states[k], #[trigger] handed[k], states[k + 1])
}

/// The number of renames left after `steps` steps of a cursor that started
/// with `count` of them.
pub open spec fn left_after(count: nat, steps: int) -> int {
    if steps <= count {
        count - steps
    } else {
        0
    }
}

proof fn lemma_left_after_steps(
    states: Seq<Map<Seq<char>, Seq<char>>>,
    handed: Seq<Option<(Seq<char>, Seq<char>)>>,
    steps: int,
)
    requires
        is_run(states, handed),
        0 <= steps <= handed.len(),
    ensures
        states[steps].dom().finite(),
        states[steps].len() == left_after(states[0].len(), steps),
    decreases steps,
{
    if steps > 0 {
        lemma_left_after_steps(states, handed, steps - 1);
        assert(stepped(states[steps - 1], handed[steps - 1], states[steps]));
    }
}

/// A cursor over `n` renames hands out a rename at each of its first `n`
/// steps and signals completion at every step after them; and after `k`
/// steps it has `n - k` renames left, none once `k` has passed `n`.
pub proof fn lemma_steps_until_exhausted(
    states: Seq<Map<Seq<char>, Seq<char>>>,
    handed: Seq<Option<(Seq<char>, Seq<char>)>>,
)
    requires
        is_run(states, handed),
    ensures
        forall|k: int|
            0 <= k < states.len() ==> (#[trigger] states[k]).dom().finite() && states[k].len()
                == left_after(states[0].len(), k),
        forall|k: int|
            0 <= k < handed.len() ==> (#[trigger] handed[k] is Some <==> k < states[0].len()),
{
    assert forall|k: int| 0 <= k < states.len() implies (#[trigger] states[k]).dom().finite()
        && states[k].len() == left_after(states[0].len(), k) by {
        lemma_left_after_steps(states, handed, k);
    }
    assert forall|k: int| 0 <= k < handed.len() implies (#[trigger] handed[k] is Some <==> k
        < states[0].len()) by {
        assert(stepped(states[k], handed[k], states[k + 1]));
    }
}

/// Once a step of a cursor has signalled completion, every later step
/// signals it too, and none of them changes what the cursor holds.
pub proof fn lemma_exhausted_stays(
    states: Seq<Map<Seq<char>, Seq<char>>>,
    handed: Seq<Option<(Seq<char>, Seq<char>)>>,
    first: int,
)
    requires
        is_run(states, handed),
        0 <= first < handed.len(),
        handed[first] is None,
    ensures
        forall|k: int|
            first <= k < handed.len() ==> #[trigger] handed[k] is None && states[k + 1]
                == states[first],
{
    lemma_steps_until_exhausted(states, handed);
    assert(stepped(states[first], handed[first], states[first + 1]));
}

/// The source of the rename that a step handed out.
pub open spec fn source_of(handed: Option<(Seq<char>, Seq<char>)>) -> Seq<char> {
    match handed {
        Some((from, _)) => from,
        None => Seq::empty(),
    }
}

proof fn lemma_left_is_part(
    states: Seq<Map<Seq<char>, Seq<char>>>,
    handed: Seq<Option<(Seq<char>, Seq<char>)>>,
    early: int,
    late: int,
)
    requires
        is_run(states, handed),
        0 <= early <= late <= handed.len(),
    ensures
        states[late].submap_of(states[early]),
        forall|from: Seq<char>| #[trigger]
            states[early].contains_key(from) && !states[late].contains_key(from) ==> exists|k: int|
                early <= k < late && #[trigger] handed[k] == Some((from, states[early][from])),
    decreases late - early,
{
    if early < late {
        lemma_left_is_part(states, handed, early, late - 1);
        assert(stepped(states[late - 1], handed[late - 1], states[late]));
        assert forall|from: Seq<char>| #[trigger]
            states[early].contains_key(from) && !states[late].contains_key(
                from,
            ) implies exists|k: int|
            early <= k < late && #[trigger] handed[k] == Some((from, states[early][from])) by {
            if states[late - 1].contains_key(from) {
                assert(handed[late - 1] == Some((from, states[early][from])));
            }
        }
    }
}

/// Over its steps a cursor hands out renames that it started with, none of
/// them twice; and once a step has signalled completion, every rename that
/// it started with has been handed out.
pub proof fn lemma_hands_out_each_once(
    states: Seq<Map<Seq<char>, Seq<char>>>,
    handed: Seq<Option<(Seq<char>, Seq<char>)>>,
)
    requires
        is_run(states, handed),
    ensures
        forall|k: int|
            0 <= k < handed.len() ==> (#[trigger] handed[k] matches Some((from, to))
                ==> states[0].contains_pair(from, to)),
        forall|i: int, j: int|
            0 <= i < j < handed.len() && handed[i] is Some && handed[j] is Some ==> source_of(
                #[trigger] handed[i],
            ) != source_of(#[trigger] handed[j]),
        forall|last: int, from: Seq<char>|
            0 <= last < handed.len() && (#[trigger] handed[last]) is None
                && #[trigger] states[0].contains_key(from) ==> exists|k: int|
                0 <= k < last && #[trigger] handed[k] == Some((from, states[0][from])),
{
    assert forall|k: int| 0 <= k < handed.len() implies (#[trigger] handed[k] matches Some(
        (from, to),
    ) ==> states[0].contains_pair(from, to)) by {
        lemma_left_is_part(states, handed, 0, k);
        assert(stepped(states[k], handed[k], states[k + 1]));
    }
    assert forall|i: int, j: int|
        0 <= i < j < handed.len() && handed[i] is Some && handed[j] is Some implies source_of(
        #[trigger] handed[i],
    ) != source_of(#[trigger] handed[j]) by {
        lemma_left_is_part(states, handed, i + 1, j);
        assert(stepped(states[i], handed[i], states[i + 1]));
        assert(stepped(states[j], handed[j], states[j + 1]));
        assert(states[j].dom().subset_of(states[i + 1].dom()));
    }
    assert forall|last: int, from: Seq<char>|
        0 <= last < handed.len() && (#[trigger] handed[last]) is None
            && #[trigger] states[0].contains_key(from) implies exists|k: int|
        0 <= k < last && #[trigger] handed[k] == Some((from, states[0][from])) by {
        lemma_left_is_part(states, handed, 0, last);
        assert(stepped(states[last], handed[last], states[last + 1]));
    }
}

/// The mapping that takes up, one by one and in their order, the renames
/// that the steps handed out, starting from none.
pub open spec fn collected(handed: Seq<Option<(Seq<char>, Seq<char>)>>) -> Map<
    Seq<char>,
    Seq<char>,
>
    decreases handed.len(),
{
    if handed.len() == 0 {
        Map::empty()
    } else {
        match handed.last() {
            Some((from, to)) => collected(handed.drop_last()).insert(from, to),
            None => collected(handed.drop_last()),
        }
    }
}

proof fn lemma_collected_and_left(
    states: Seq<Map<Seq<char>, Seq<char>>>,
    handed: Seq<Option<(Seq<char>, Seq<char>)>>,
    steps: int,
)
    requires
        is_run(states, handed),
        0 <= steps <= handed.len(),
    ensures
        states[steps].dom().disjoint(collected(handed.take(steps)).dom()),
        states[steps].union_prefer_right(collected(handed.take(steps))) == states[0],
    decreases steps,
{
    if steps == 0 {
        assert(states[0].union_prefer_right(collected(handed.take(0))) =~= states[0]);
    } else {
        lemma_collected_and_left(states, handed, steps - 1);
        let before = states[steps - 1];
        let gathered = collected(handed.take(steps - 1));
        assert(stepped(before, handed[steps - 1], states[steps]));
        assert(handed.take(steps).drop_last() =~= handed.take(steps - 1));
        assert(states[steps].union_prefer_right(collected(handed.take(steps)))
            =~= before.union_prefer_right(gathered));
    }
}

/// The renames that a cursor hands out until it signals completion, taken up
/// one by one by a mapping that starts empty, make up the change set that the
/// cursor started with, in whichever order they were handed out.
pub proof fn lemma_collected_restores(
    states: Seq<Map<Seq<char>, Seq<char>>>,
    handed: Seq<Option<(Seq<char>, Seq<char>)>>,
)
    requires
        is_run(states, handed),
        handed.len() > 0,
        handed.last() is None,
    ensures
        collected(handed) == states[0],
{
    let steps = handed.len() as int;
    lemma_collected_and_left(states, handed, steps);
    assert(stepped(states[steps - 1], handed[steps - 1], states[steps]));
    assert(handed.take(steps) =~= handed);
    assert(states[steps].union_prefer_right(collected(handed)) =~= collected(handed));
}

} // verus!
