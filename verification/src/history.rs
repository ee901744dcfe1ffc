//! The rounds of a game, kept in the order of their keys with no key twice.

use crate::number::Number;
use crate::points::Points;
use crate::round::{key_before, Round, RoundView};
use crate::rules::{ordered, total};
use vstd::prelude::*;

verus! {

/// The rounds as the rules see them.
pub open spec fn views(rounds: Seq<Round>) -> Seq<RoundView> {
    rounds.map_values(|round: Round| round@)
}

/// Whether one of the rounds stands at `key`.
pub open spec fn has_key(rounds: Seq<RoundView>, key: (nat, nat)) -> bool {
    exists|i: int| 0 <= i < rounds.len() && #[trigger] rounds[i].key() == key
}

/// How many of the rounds stand before `key`.
pub open spec fn rank(rounds: Seq<RoundView>, key: (nat, nat)) -> nat
    decreases rounds.len(),
{
    if rounds.len() == 0 {
        0
    } else {
        rank(rounds.drop_last(), key) + if key_before(rounds.last().key(), key) {
            1nat
        } else {
            0nat
        }
    }
}

/// Where the first `n` rounds stand before `key` and the others do not,
/// the rank of `key` is `n`.
pub proof fn lemma_rank_splits(rounds: Seq<RoundView>, key: (nat, nat), n: int)
    requires
        0 <= n <= rounds.len(),
        forall|i: int| 0 <= i < n ==> key_before(#[trigger] rounds[i].key(), key),
        forall|i: int| n <= i < rounds.len() ==> !key_before(#[trigger] rounds[i].key(), key),
    ensures
        rank(rounds, key) == n,
    decreases rounds.len(),
{
    if rounds.len() > 0 {
        let before = rounds.drop_last();
        assert forall|i: int| 0 <= i < before.len() implies before[i] == rounds[i] by {}
        if n == rounds.len() {
            lemma_rank_splits(before, key, n - 1);
            assert(key_before(rounds[n - 1].key(), key));
        } else {
            lemma_rank_splits(before, key, n);
            assert(!key_before(rounds[rounds.len() - 1].key(), key));
        }
    }
}

/// A key that comes after every round has all of them before it and is the
/// key of none.
pub proof fn lemma_rank_of_last(rounds: Seq<RoundView>, key: (nat, nat))
    requires
        forall|i: int| 0 <= i < rounds.len() ==> key_before(#[trigger] rounds[i].key(), key),
    ensures
        rank(rounds, key) == rounds.len(),
        !has_key(rounds, key),
{
    lemma_rank_splits(rounds, key, rounds.len() as int);
}

/// The rounds in the order of their keys, or nothing where two of them
/// stand at the same key.
pub open spec fn collected(rounds: Seq<RoundView>) -> Option<Seq<RoundView>>
    decreases rounds.len(),
{
    if rounds.len() == 0 {
        Some(Seq::empty())
    } else {
        match collected(rounds.drop_last()) {
            None => None,
            Some(before) => if has_key(before, rounds.last().key()) {
                None
            } else {
                Some(before.insert(rank(before, rounds.last().key()) as int, rounds.last()))
            },
        }
    }
}

/// No more rounds stand before a key than there are rounds.
pub proof fn lemma_rank_bounded(rounds: Seq<RoundView>, key: (nat, nat))
    ensures
        rank(rounds, key) <= rounds.len(),
    decreases rounds.len(),
{
    if rounds.len() > 0 {
        lemma_rank_bounded(rounds.drop_last(), key);
    }
}

/// Collecting rounds neither adds nor drops one.
pub proof fn lemma_collected_len(rounds: Seq<RoundView>)
    ensures
        collected(rounds) matches Some(sorted) ==> sorted.len() == rounds.len(),
    decreases rounds.len(),
{
    if rounds.len() > 0 {
        lemma_collected_len(rounds.drop_last());
        if let Some(before) = collected(rounds.drop_last()) {
            lemma_rank_bounded(before, rounds.last().key());
        }
    }
}

/// Once two rounds stand at the same key, more rounds do not mend it.
pub proof fn lemma_collected_prefix(rounds: Seq<RoundView>, n: int)
    requires
        0 <= n <= rounds.len(),
        collected(rounds.take(n)).is_none(),
    ensures
        collected(rounds).is_none(),
    decreases rounds.len(),
{
    if n == rounds.len() {
        assert(rounds.take(n) =~= rounds);
    } else {
        assert(rounds.drop_last().take(n) =~= rounds.take(n));
        lemma_collected_prefix(rounds.drop_last(), n);
    }
}

/// Whether no two of the rounds stand at the same key.
pub open spec fn distinct_keys(rounds: Seq<RoundView>) -> bool {
    forall|i: int, j: int|
        0 <= i < j < rounds.len() ==> (#[trigger] rounds[i]).key() != (#[trigger] rounds[j]).key()
}

/// Among rounds in the order of their keys, those before the rank of a key
/// stand before the key, and the others do not.
pub proof fn lemma_rank_of_ordered(rounds: Seq<RoundView>, key: (nat, nat))
    requires
        ordered(rounds),
    ensures
        0 <= rank(rounds, key) <= rounds.len(),
        forall|i: int| 0 <= i < rank(rounds, key) ==> key_before(#[trigger] rounds[i].key(), key),
        forall|i: int|
            rank(rounds, key) <= i < rounds.len() ==> !key_before(#[trigger] rounds[i].key(), key),
    decreases rounds.len(),
{
    if rounds.len() > 0 {
        let before = rounds.drop_last();
        assert forall|i: int, j: int| 0 <= i < j < before.len() implies key_before(
            #[trigger] before[i].key(),
            #[trigger] before[j].key(),
        ) by {
            assert(before[i] == rounds[i] && before[j] == rounds[j]);
        }
        lemma_rank_of_ordered(before, key);
        assert forall|i: int| 0 <= i < before.len() implies before[i] == rounds[i] by {}
        if key_before(rounds.last().key(), key) {
            assert forall|i: int| 0 <= i < before.len() implies key_before(
                #[trigger] before[i].key(),
                key,
            ) by {
                assert(key_before(rounds[i].key(), rounds[rounds.len() - 1].key()));
            }
            lemma_rank_splits(before, key, before.len() as int);
        }
    }
}

/// A round put at the rank of its key, among rounds in the order of their
/// keys of which none stands at that key, leaves them in that order.
pub proof fn lemma_insert_keeps_order(rounds: Seq<RoundView>, round: RoundView)
    requires
        ordered(rounds),
        !has_key(rounds, round.key()),
    ensures
        0 <= rank(rounds, round.key()) <= rounds.len(),
        ordered(rounds.insert(rank(rounds, round.key()) as int, round)),
{
    let at = rank(rounds, round.key()) as int;
    lemma_rank_of_ordered(rounds, round.key());
    let after = rounds.insert(at, round);
    assert forall|i: int, j: int| 0 <= i < j < after.len() implies key_before(
        #[trigger] after[i].key(),
        #[trigger] after[j].key(),
    ) by {
        if j < at {
            assert(key_before(rounds[i].key(), rounds[j].key()));
        } else if j == at {
            assert(key_before(rounds[i].key(), round.key()));
        } else if i < at {
            assert(key_before(rounds[i].key(), rounds[j - 1].key()));
        } else if i == at {
            assert(!key_before(rounds[j - 1].key(), round.key()));
            assert(rounds[j - 1].key() != round.key());
        } else {
            assert(key_before(rounds[i - 1].key(), rounds[j - 1].key()));
        }
    }
}

/// What collecting comes to. Rounds of which no two stand at the same key
/// come back in the order of their keys, none of them lost and none added.
/// Others do not come back.
pub proof fn law_collected(rounds: Seq<RoundView>)
    ensures
        match collected(rounds) {
            Some(sorted) => {
                &&& distinct_keys(rounds)
                &&& ordered(sorted)
                &&& sorted.to_multiset() == rounds.to_multiset()
            },
            None => !distinct_keys(rounds),
        },
    decreases rounds.len(),
{
    broadcast use vstd::seq_lib::group_to_multiset_ensures;

    if rounds.len() == 0 {
        assert(rounds =~= Seq::empty());
    } else {
        let given = rounds.drop_last();
        let last = rounds.last();
        law_collected(given);
        assert(rounds =~= given.push(last));
        assert forall|i: int| 0 <= i < given.len() implies given[i] == rounds[i] by {}
        match collected(given) {
            None => {
                let (i, j) = choose|i: int, j: int|
                    0 <= i < j < given.len() && (#[trigger] given[i]).key() == (
                    #[trigger] given[j]).key();
                assert(rounds[i].key() == rounds[j].key());
            },
            Some(sorted) => {
                if has_key(sorted, last.key()) {
                    let at = choose|at: int|
                        0 <= at < sorted.len() && #[trigger] sorted[at].key() == last.key();
                    assert(sorted.contains(sorted[at]));
                    assert(given.to_multiset().count(sorted[at]) > 0);
                    assert(given.contains(sorted[at]));
                    let i = choose|i: int| 0 <= i < given.len() && given[i] == sorted[at];
                    assert(rounds[i].key() == rounds[rounds.len() - 1].key());
                } else {
                    lemma_insert_keeps_order(sorted, last);
                    vstd::seq_lib::to_multiset_insert(
                        sorted,
                        rank(sorted, last.key()) as int,
                        last,
                    );
                    assert forall|i: int, j: int| 0 <= i < j < rounds.len() implies (
                    #[trigger] rounds[i]).key() != (#[trigger] rounds[j]).key() by {
                        if j < rounds.len() - 1 {
                            assert(given[i].key() != given[j].key());
                        } else if rounds[i].key() == last.key() {
                            assert(given.contains(given[i]));
                            assert(sorted.to_multiset().count(given[i]) > 0);
                            assert(sorted.contains(given[i]));
                            let at = choose|at: int|
                                0 <= at < sorted.len() && sorted[at] == given[i];
                            assert(sorted[at].key() == last.key());
                        }
                    }
                }
            },
        }
    }
}

/// Rounds can stand in the order of their keys in one way only.
pub proof fn law_order_is_unique(a: Seq<RoundView>, b: Seq<RoundView>)
    requires
        ordered(a),
        ordered(b),
        a.to_multiset() == b.to_multiset(),
    ensures
        a == b,
    decreases a.len(),
{
    broadcast use vstd::seq_lib::group_to_multiset_ensures;
    broadcast use vstd::multiset::group_multiset_axioms;

    vstd::seq_lib::to_multiset_len(a);
    vstd::seq_lib::to_multiset_len(b);
    if a.len() == 0 {
        assert(a =~= b);
    } else {
        let n = a.len() - 1;
        assert(a.contains(a[n]));
        assert(b.to_multiset().count(a[n]) > 0);
        assert(b.contains(a[n]));
        let j = choose|j: int| 0 <= j < b.len() && b[j] == a[n];
        assert(b.contains(b[n]));
        assert(a.to_multiset().count(b[n]) > 0);
        assert(a.contains(b[n]));
        let i = choose|i: int| 0 <= i < a.len() && a[i] == b[n];
        if j < n {
            assert(key_before(b[j].key(), b[n].key()));
            if i < n {
                assert(key_before(a[i].key(), a[n].key()));
            }
        }
        assert(a[n] == b[n]);
        let a0 = a.drop_last();
        let b0 = b.drop_last();
        assert(a =~= a0.push(a[n]));
        assert(b =~= b0.push(b[n]));
        assert(a0.to_multiset() =~= a.to_multiset().remove(a[n]));
        assert(b0.to_multiset() =~= b.to_multiset().remove(b[n]));
        assert forall|i: int, j: int| 0 <= i < j < a0.len() implies key_before(
            #[trigger] a0[i].key(),
            #[trigger] a0[j].key(),
        ) by {
            assert(a0[i] == a[i] && a0[j] == a[j]);
        }
        assert forall|i: int, j: int| 0 <= i < j < b0.len() implies key_before(
            #[trigger] b0[i].key(),
            #[trigger] b0[j].key(),
        ) by {
            assert(b0[i] == b[i] && b0[j] == b[j]);
        }
        law_order_is_unique(a0, b0);
        assert(a =~= b);
    }
}

/// Rounds that can stand in the order of their keys are collected into
/// that order, in whatever order they are given.
pub proof fn law_collected_in_any_order(given: Seq<RoundView>, rounds: Seq<RoundView>)
    requires
        ordered(rounds),
        given.to_multiset() == rounds.to_multiset(),
    ensures
        collected(given) == Some(rounds),
{
    broadcast use vstd::seq_lib::group_to_multiset_ensures;

    law_collected(given);
    if collected(given).is_none() {
        let (i, j) = choose|i: int, j: int|
            0 <= i < j < given.len() && (#[trigger] given[i]).key() == (#[trigger] given[j]).key();
        if given[i] == given[j] {
            let head = given.subrange(0, j);
            let tail = given.subrange(j, given.len() as int);
            assert(given =~= head + tail);
            assert(head[i] == given[i] && head.contains(given[i]));
            assert(tail[0] == given[j] && tail.contains(given[i]));
            vstd::seq_lib::lemma_multiset_commutative(head, tail);
            assert(head.to_multiset().count(given[i]) > 0);
            assert(tail.to_multiset().count(given[i]) > 0);
            assert(given.to_multiset().count(given[i]) >= 2);
            lemma_ordered_has_no_duplicates(rounds);
            rounds.lemma_multiset_has_no_duplicates();
            assert(rounds.to_multiset().contains(given[i]));
        } else {
            assert(given.contains(given[i]) && given.contains(given[j]));
            assert(rounds.to_multiset().count(given[i]) > 0);
            assert(rounds.to_multiset().count(given[j]) > 0);
            assert(rounds.contains(given[i]) && rounds.contains(given[j]));
            let k = choose|k: int| 0 <= k < rounds.len() && rounds[k] == given[i];
            let l = choose|l: int| 0 <= l < rounds.len() && rounds[l] == given[j];
            if k < l {
                assert(key_before(rounds[k].key(), rounds[l].key()));
            } else if l < k {
                assert(key_before(rounds[l].key(), rounds[k].key()));
            }
        }
    } else {
        law_order_is_unique(collected(given).unwrap(), rounds);
    }
}

/// Among rounds in the order of their keys none stands twice.
pub proof fn lemma_ordered_has_no_duplicates(rounds: Seq<RoundView>)
    requires
        ordered(rounds),
    ensures
        rounds.no_duplicates(),
{
    assert forall|i: int, j: int| 0 <= i < rounds.len() && 0 <= j < rounds.len() && i != j implies rounds[i]
        != rounds[j] by {
        if i < j {
            assert(key_before(rounds[i].key(), rounds[j].key()));
        } else {
            assert(key_before(rounds[j].key(), rounds[i].key()));
        }
    }
}

/// Brings the rounds into the order of their keys. Where two of them stand
/// at the same key there is no such order, and nothing comes back.
pub fn collect(rounds: Vec<Round>) -> (result: Option<Vec<Round>>)
    ensures
        match result {
            Some(sorted) => {
                &&& collected(views(rounds@)) == Some(views(sorted@))
                &&& ordered(views(sorted@))
                &&& sorted@.len() == rounds@.len()
            },
            None => collected(views(rounds@)).is_none(),
        },
{
    let ghost all = views(rounds@);
    let mut sorted: Vec<Round> = Vec::new();
    let mut i: usize = 0;
    assert(all.take(0) =~= Seq::empty());
    assert(views(sorted@) =~= Seq::empty());
    while i < rounds.len()
        invariant
            i <= rounds.len(),
            all == views(rounds@),
            collected(all.take(i as int)) == Some(views(sorted@)),
            ordered(views(sorted@)),
        decreases rounds.len() - i,
    {
        proof {
            assert(all.take(i + 1).drop_last() =~= all.take(i as int));
            assert(all.take(i + 1).last() == rounds[i as int]@);
        }
        if !insert_round(&mut sorted, rounds[i]) {
            proof {
                lemma_collected_prefix(all, i + 1);
            }
            return None;
        }
        i = i + 1;
    }
    proof {
        assert(all.take(i as int) =~= all);
        lemma_collected_len(all);
    }
    Some(sorted)
}

/// Puts `round` where its key belongs, unless a round already stands at
/// that key: then nothing changes. Says whether the round went in.
pub fn insert_round(rounds: &mut Vec<Round>, round: Round) -> (inserted: bool)
    requires
        ordered(views(old(rounds)@)),
    ensures
        inserted == !has_key(views(old(rounds)@), round@.key()),
        inserted ==> views(final(rounds)@) == views(old(rounds)@).insert(
            rank(views(old(rounds)@), round@.key()) as int,
            round@,
        ),
        !inserted ==> final(rounds)@ == old(rounds)@,
        ordered(views(final(rounds)@)),
{
    let ghost before = views(rounds@);
    let mut at: usize = rounds.len();
    while at > 0 && round.is_before(&rounds[at - 1])
        invariant
            at <= rounds.len(),
            rounds@ == old(rounds)@,
            before == views(rounds@),
            forall|i: int| at <= i < before.len() ==> key_before(round@.key(), #[trigger] before[i].key()),
        decreases at,
    {
        at = at - 1;
    }
    if at > 0 && !rounds[at - 1].is_before(&round) {
        proof {
            assert(before[at - 1].key() == round@.key());
        }
        return false;
    }
    proof {
        assert forall|i: int| 0 <= i < at implies key_before(#[trigger] before[i].key(), round@.key()) by {
            if i < at - 1 {
                assert(key_before(before[i].key(), before[at - 1].key()));
            }
        }
        lemma_rank_splits(before, round@.key(), at as int);
        assert(!has_key(before, round@.key())) by {
            if has_key(before, round@.key()) {
                let i = choose|i: int| 0 <= i < before.len() && #[trigger] before[i].key() == round@.key();
                if i < at {
                    assert(key_before(before[i].key(), round@.key()));
                } else {
                    assert(key_before(round@.key(), before[i].key()));
                }
            }
        }
    }
    rounds.insert(at, round);
    proof {
        let after = views(rounds@);
        assert(after =~= before.insert(at as int, round@));
        assert forall|i: int, j: int| 0 <= i < j < after.len() implies key_before(
            #[trigger] after[i].key(),
            #[trigger] after[j].key(),
        ) by {
            if j < at {
                assert(key_before(before[i].key(), before[j].key()));
            } else if j == at {
                assert(key_before(before[i].key(), round@.key()));
            } else if i < at {
                assert(key_before(before[i].key(), before[j - 1].key()));
            } else if i == at {
                assert(key_before(round@.key(), before[j - 1].key()));
            } else {
                assert(key_before(before[i - 1].key(), before[j - 1].key()));
            }
        }
    }
    true
}

/// The points counted for the player `player_number` over `rounds`.
pub fn points_of(rounds: &Vec<Round>, player_number: Number) -> (points: Points)
    requires
        total(views(rounds@), player_number@) <= u16::MAX,
    ensures
        points@ == total(views(rounds@), player_number@),
{
    let ghost all = views(rounds@);
    let mut points = Points::zero();
    let mut i: usize = 0;
    while i < rounds.len()
        invariant
            i <= rounds.len(),
            all == views(rounds@),
            points@ == total(all.take(i as int), player_number@),
            total(all, player_number@) <= u16::MAX,
        decreases rounds.len() - i,
    {
        proof {
            crate::rules::lemma_total_of_prefix(all, i + 1, player_number@);
            assert(all.take(i + 1).drop_last() =~= all.take(i as int));
            assert(all.take(i + 1).last() == rounds[i as int]@);
        }
        if rounds[i].player_number().value() == player_number.value() {
            points = points.add(rounds[i].player_score().game_points());
        }
        i = i + 1;
    }
    assert(all.take(i as int) =~= all);
    points
}

} // verus!
