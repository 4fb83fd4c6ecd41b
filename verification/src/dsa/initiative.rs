//! Initiative: every participant's comparison key, the breaking of ties, and
//! the order that results.

use crate::dice::Dice;
use crate::dsa::ordering::{
    distinct_indices, key_views, lemma_ranks_before_asymmetric, lemma_same_prefix_rank, ranked,
    ranks_before, same_entries, same_prefix, sort_by_rank,
};
use itertools::Itertools;
use vstd::prelude::*;

verus! {

/// Number of faces of the initiative die.
pub const INI_DIE: i64 = 6;

/// The most entries a comparison key can get. Participants that are still
/// tied after that many entries keep the order they were given in.
pub const MAX_KEY_LENGTH: usize = 16;

/// Somebody who takes part in an initiative roll.
#[derive(Debug)]
pub struct IniParticipant {
    pub name: String,
    pub base_level: i64,
}

/// The place of one participant in the initiative order.
///
/// The key starts with the base level plus the first die. Every further
/// entry broke, or tried to break, a tie.
#[derive(Debug)]
pub struct IniOutcome {
    pub participant_index: usize,
    pub comparison_key: Vec<i64>,
}

/// The first `g` groups, one after the other.
pub open spec fn joined(groups: Seq<Vec<(usize, i64)>>, g: int) -> Seq<(usize, i64)>
    decreases g,
{
    if g <= 0 {
        Seq::empty()
    } else {
        joined(groups, g - 1) + groups[g - 1]@
    }
}

/// Splits `pairs` into its runs of equal second components.
///
/// Calls `itertools::Itertools::group_by` with the second component as the
/// key and collects every group it yields. As documented there, consecutive
/// elements with the same key form one group: the groups, put one after the
/// other, give the input back; none is empty; within a group the keys are
/// equal; and a group ends where the key changes.
#[verifier::external_body]
fn group_runs(pairs: Vec<(usize, i64)>) -> (groups: Vec<Vec<(usize, i64)>>)
    ensures
        joined(groups@, groups@.len() as int) == pairs@,
        forall|g: int| 0 <= g < groups@.len() ==> (#[trigger] groups@[g])@.len() > 0,
        forall|g: int, a: int, b: int|
            0 <= g < groups@.len() && 0 <= a < groups@[g]@.len() && 0 <= b < groups@[g]@.len()
                ==> (#[trigger] groups@[g]@[a]).1 == (#[trigger] groups@[g]@[b]).1,
        forall|g: int|
            0 < g < groups@.len() ==> groups@[g - 1]@.last().1 != (#[trigger] groups@[g])@[0].1,
{
    let runs = pairs.into_iter().group_by(|pair| pair.1);
    let mut groups = Vec::new();
    for (_, run) in &runs {
        groups.push(run.collect());
    }
    groups
}

/// The groups keep their places when more groups follow.
proof fn lemma_joined_grows(groups: Seq<Vec<(usize, i64)>>, g: int, h: int)
    requires
        0 <= g <= h,
    ensures
        joined(groups, g).len() <= joined(groups, h).len(),
        forall|p: int| 0 <= p < joined(groups, g).len() ==> joined(groups, h)[p] == joined(groups, g)[p],
    decreases h,
{
    if g < h {
        lemma_joined_grows(groups, g, h - 1);
    }
}

/// Where an element of a group stands in the whole.
proof fn lemma_joined_position(groups: Seq<Vec<(usize, i64)>>, g: int, a: int)
    requires
        0 <= g < groups.len(),
        0 <= a < groups[g]@.len(),
    ensures
        joined(groups, g).len() + a < joined(groups, groups.len() as int).len(),
        joined(groups, groups.len() as int)[joined(groups, g).len() + a] == groups[g]@[a],
        joined(groups, g + 1).len() == joined(groups, g).len() + groups[g]@.len(),
{
    lemma_joined_grows(groups, g + 1, groups.len() as int);
}

/// What a key may hold at `position` for a participant of the given base
/// level: the base level plus the first die, then the base level itself, then
/// dice.
pub open spec fn valid_entry(base_level: i64, position: int, entry: i64) -> bool {
    if position == 0 {
        1 <= entry - base_level <= INI_DIE
    } else if position == 1 {
        entry == base_level
    } else {
        1 <= entry <= INI_DIE
    }
}

/// Some other participant listed in `among` has the same first `k` key
/// entries as participant `i`.
pub open spec fn tied_among(keys: Seq<Seq<i64>>, among: Seq<usize>, i: int, k: int) -> bool {
    exists|b: int|
        0 <= b < among.len() && among[b] != i && #[trigger] same_prefix(
            keys[i],
            keys[among[b] as int],
            k,
        )
}

/// `new_key` continues `old_key` from `depth` on with valid entries.
pub open spec fn grown(old_key: Seq<i64>, new_key: Seq<i64>, base_level: i64, depth: int) -> bool {
    &&& depth <= new_key.len() <= MAX_KEY_LENGTH
    &&& same_prefix(old_key, new_key, depth)
    &&& forall|p: int| depth <= p < new_key.len() ==> valid_entry(base_level, p, #[trigger] new_key[p])
}

/// The listed participants all have keys of `depth` entries that agree on
/// all but the last.
pub open spec fn group_at_depth(members: Seq<usize>, keys: Seq<Seq<i64>>, depth: int) -> bool {
    &&& distinct_indices(members, keys.len() as int)
    &&& forall|a: int| 0 <= a < members.len() ==> (#[trigger] keys[members[a] as int]).len() == depth
    &&& forall|a: int, b: int|
        0 <= a < members.len() && 0 <= b < members.len() ==> same_prefix(
            #[trigger] keys[members[a] as int],
            #[trigger] keys[members[b] as int],
            depth - 1,
        )
}

/// The state of the keys while the ties among `members` are broken from
/// `depth` on, when the first `done` of them have been dealt with.
///
/// Keys of others are untouched, keys of members have only grown, a member
/// that has been dealt with and shares `k` entries with another member has
/// more than `k`, and every entry beyond `depth` is there because of a tie.
pub open spec fn ties_broken_upto(
    members: Seq<usize>,
    before: Seq<Seq<i64>>,
    after: Seq<Seq<i64>>,
    participants: Seq<IniParticipant>,
    depth: int,
    done: int,
) -> bool {
    &&& after.len() == before.len()
    &&& forall|i: int|
        0 <= i < before.len() && !members.contains(i as usize) ==> #[trigger] after[i] == before[i]
    &&& forall|p: int|
        done <= p < members.len() ==> #[trigger] after[members[p] as int] == before[members[p] as int]
    &&& forall|p: int|
        0 <= p < members.len() ==> grown(
            before[members[p] as int],
            #[trigger] after[members[p] as int],
            participants[members[p] as int].base_level,
            depth,
        )
    &&& forall|p: int, q: int, k: int|
        0 <= p < done && 0 <= q < members.len() && p != q && depth <= k < MAX_KEY_LENGTH
            && #[trigger] same_prefix(after[members[p] as int], after[members[q] as int], k)
            ==> after[members[p] as int].len() > k
    &&& forall|p: int|
        0 <= p < members.len() && (#[trigger] after[members[p] as int]).len() > depth ==> tied_among(
            after,
            members,
            members[p] as int,
            after[members[p] as int].len() - 1,
        )
}

/// The ties among `members` are broken from `depth` on.
pub open spec fn ties_broken(
    members: Seq<usize>,
    before: Seq<Seq<i64>>,
    after: Seq<Seq<i64>>,
    participants: Seq<IniParticipant>,
    depth: int,
) -> bool {
    ties_broken_upto(members, before, after, participants, depth, members.len() as int)
}

/// The members at the places `done .. done + size` are exactly those whose
/// key ends in the entry that the member at `done` has.
pub open spec fn value_class(
    members: Seq<usize>,
    keys: Seq<Seq<i64>>,
    depth: int,
    done: int,
    size: int,
) -> bool {
    &&& 0 <= done
    &&& 0 < size
    &&& done + size <= members.len()
    &&& forall|p: int|
        done <= p < done + size ==> (#[trigger] keys[members[p] as int])[depth - 1]
            == keys[members[done] as int][depth - 1]
    &&& forall|q: int|
        0 <= q < members.len() && !(done <= q < done + size) ==> (#[trigger] keys[members[q] as int])[depth
            - 1] != keys[members[done] as int][depth - 1]
}

/// Appends `value` to the key of participant `index`.
fn append_entry(keys: &mut Vec<Vec<i64>>, index: usize, value: i64)
    requires
        index < old(keys)@.len(),
    ensures
        final(keys)@.len() == old(keys)@.len(),
        key_views(final(keys)@) == key_views(old(keys)@).update(
            index as int,
            key_views(old(keys)@)[index as int].push(value),
        ),
{
    keys[index].push(value);
    assert(key_views(keys@) =~= key_views(old(keys)@).update(
        index as int,
        key_views(old(keys)@)[index as int].push(value),
    ));
}

/// Pairs every listed participant with the last entry of its key.
fn last_entries(order: &Vec<usize>, keys: &Vec<Vec<i64>>, depth: usize) -> (pairs: Vec<(usize, i64)>)
    requires
        depth >= 1,
        group_at_depth(order@, key_views(keys@), depth as int),
    ensures
        pairs@.len() == order@.len(),
        forall|p: int|
            0 <= p < order@.len() ==> #[trigger] pairs@[p] == (
                order@[p],
                key_views(keys@)[order@[p] as int][depth - 1],
            ),
{
    let mut pairs: Vec<(usize, i64)> = Vec::new();
    let mut p: usize = 0;
    while p < order.len()
        invariant
            p <= order@.len(),
            depth >= 1,
            group_at_depth(order@, key_views(keys@), depth as int),
            pairs@.len() == p,
            forall|q: int|
                0 <= q < p ==> #[trigger] pairs@[q] == (
                    order@[q],
                    key_views(keys@)[order@[q] as int][depth - 1],
                ),
        decreases order@.len() - p,
    {
        let index = order[p];
        assert(key_views(keys@)[order@[p as int] as int].len() == depth);
        pairs.push((index, keys[index][depth - 1]));
        p = p + 1;
    }
    pairs
}

/// Each of the participants in `tied` got one more entry, a valid one for the
/// place `depth`; nobody else's key changed.
pub open spec fn entries_appended(
    tied: Seq<usize>,
    before: Seq<Seq<i64>>,
    after: Seq<Seq<i64>>,
    participants: Seq<IniParticipant>,
    depth: int,
) -> bool {
    &&& after.len() == before.len()
    &&& forall|i: int|
        0 <= i < before.len() && !tied.contains(i as usize) ==> #[trigger] after[i] == before[i]
    &&& forall|t: int|
        0 <= t < tied.len() ==> {
            &&& (#[trigger] after[tied[t] as int]).len() == depth + 1
            &&& same_prefix(before[tied[t] as int], after[tied[t] as int], depth)
            &&& valid_entry(
                participants[tied[t] as int].base_level,
                depth,
                after[tied[t] as int][depth],
            )
        }
}

/// The group `g` of the runs of the ranked members is a class of members
/// with one last entry, and stands at the places that follow the groups
/// before it.
proof fn lemma_group_is_value_class(
    members: Seq<usize>,
    keys: Seq<Seq<i64>>,
    depth: int,
    pairs: Seq<(usize, i64)>,
    groups: Seq<Vec<(usize, i64)>>,
    g: int,
)
    requires
        depth >= 1,
        group_at_depth(members, keys, depth),
        ranked(members, keys),
        pairs.len() == members.len(),
        forall|p: int|
            0 <= p < members.len() ==> #[trigger] pairs[p] == (
                members[p],
                keys[members[p] as int][depth - 1],
            ),
        joined(groups, groups.len() as int) == pairs,
        forall|h: int| 0 <= h < groups.len() ==> (#[trigger] groups[h])@.len() > 0,
        forall|h: int, a: int, b: int|
            0 <= h < groups.len() && 0 <= a < groups[h]@.len() && 0 <= b < groups[h]@.len() ==> (
            #[trigger] groups[h]@[a]).1 == (#[trigger] groups[h]@[b]).1,
        forall|h: int|
            0 < h < groups.len() ==> groups[h - 1]@.last().1 != (#[trigger] groups[h])@[0].1,
        0 <= g < groups.len(),
    ensures
        value_class(members, keys, depth, joined(groups, g).len() as int, groups[g]@.len() as int),
        joined(groups, g + 1).len() == joined(groups, g).len() + groups[g]@.len(),
        forall|a: int|
            0 <= a < groups[g]@.len() ==> (#[trigger] groups[g]@[a]).0 == members[joined(
                groups,
                g,
            ).len() + a],
{
    let done = joined(groups, g).len() as int;
    let size = groups[g]@.len() as int;
    assert forall|a: int| 0 <= a < size implies done + a < pairs.len() && pairs[done + a]
        == #[trigger] groups[g]@[a] by {
        lemma_joined_position(groups, g, a);
    }
    lemma_joined_position(groups, g, 0);
    assert forall|p: int, q: int| 0 <= p < q < members.len() implies keys[members[p] as int][depth
        - 1] >= keys[members[q] as int][depth - 1] by {
        lemma_same_prefix_rank(keys, members[p] as int, members[q] as int, depth);
    }
    assert forall|p: int| done <= p < done + size implies (#[trigger] keys[members[p] as int])[depth
        - 1] == keys[members[done] as int][depth - 1] by {
        assert(pairs[p] == groups[g]@[p - done]);
        assert(pairs[done] == groups[g]@[0]);
    }
    if g > 0 {
        let last = groups[g - 1]@.len() - 1;
        lemma_joined_position(groups, g - 1, last);
        assert(pairs[done - 1] == groups[g - 1]@.last());
        assert(pairs[done] == groups[g]@[0]);
    } else {
        assert(done == 0);
    }
    if g + 1 < groups.len() {
        lemma_joined_position(groups, g + 1, 0);
        assert(pairs[done + size] == groups[g + 1]@[0]);
        assert(pairs[done + size - 1] == groups[g]@.last());
    } else {
        assert(done + size == pairs.len());
    }
    assert forall|q: int| 0 <= q < members.len() && !(done <= q < done + size) implies (
    #[trigger] keys[members[q] as int])[depth - 1] != keys[members[done] as int][depth - 1] by {
        if q < done {
            assert(keys[members[q] as int][depth - 1] >= keys[members[done - 1] as int][depth - 1]);
            assert(pairs[done - 1].1 != pairs[done].1);
        } else {
            assert(keys[members[done + size] as int][depth - 1] >= keys[members[q] as int][depth
                - 1]);
            assert(pairs[done + size - 1].1 != pairs[done + size].1);
            assert(keys[members[done + size - 1] as int][depth - 1]
                == keys[members[done] as int][depth - 1]);
        }
    }
}

/// A member that is alone with its last entry needs nothing done.
proof fn lemma_skip_single(
    members: Seq<usize>,
    before: Seq<Seq<i64>>,
    now: Seq<Seq<i64>>,
    participants: Seq<IniParticipant>,
    depth: int,
    done: int,
)
    requires
        depth >= 1,
        group_at_depth(members, before, depth),
        ties_broken_upto(members, before, now, participants, depth, done),
        value_class(members, before, depth, done, 1),
    ensures
        ties_broken_upto(members, before, now, participants, depth, done + 1),
{
    assert forall|p: int, q: int, k: int|
        0 <= p < done + 1 && 0 <= q < members.len() && p != q && depth <= k < MAX_KEY_LENGTH
            && #[trigger] same_prefix(
            now[members[p] as int],
            now[members[q] as int],
            k,
        ) implies now[members[p] as int].len() > k by {
        if p == done {
            assert(now[members[p] as int] == before[members[p] as int]);
            assert(grown(
                before[members[q] as int],
                now[members[q] as int],
                participants[members[q] as int].base_level,
                depth,
            ));
            assert(now[members[q] as int][depth - 1] == before[members[q] as int][depth - 1]);
            assert(before[members[q] as int][depth - 1] != before[members[done] as int][depth - 1]);
        }
    }
}

/// What holds once every member of one class got a further entry and the
/// ties within the class were broken from the next place on.
proof fn lemma_after_group(
    members: Seq<usize>,
    before: Seq<Seq<i64>>,
    was: Seq<Seq<i64>>,
    mid: Seq<Seq<i64>>,
    now: Seq<Seq<i64>>,
    tied: Seq<usize>,
    participants: Seq<IniParticipant>,
    depth: int,
    done: int,
    size: int,
)
    requires
        1 <= depth < MAX_KEY_LENGTH,
        group_at_depth(members, before, depth),
        ties_broken_upto(members, before, was, participants, depth, done),
        value_class(members, before, depth, done, size),
        size >= 2,
        tied == members.subrange(done, done + size),
        entries_appended(tied, was, mid, participants, depth),
        ties_broken(tied, mid, now, participants, depth + 1),
    ensures
        ties_broken_upto(members, before, now, participants, depth, done + size),
{
    let n = before.len();
    assert forall|t: int| 0 <= t < size implies #[trigger] tied[t] == members[done + t] by {}
    assert forall|p: int| 0 <= p < members.len() implies (tied.contains(#[trigger] members[p]) <==> (
    done <= p < done + size)) by {
        if done <= p < done + size {
            assert(tied[p - done] == members[p]);
        }
        if tied.contains(members[p]) {
            let t = choose|t: int| 0 <= t < tied.len() && tied[t] == members[p];
            assert(members[done + t] == members[p]);
        }
    }
    assert forall|x: usize| !members.contains(x) implies !#[trigger] tied.contains(x) by {
        if tied.contains(x) {
            let t = choose|t: int| 0 <= t < tied.len() && tied[t] == x;
            assert(members[done + t] == x);
        }
    }
    // Keys outside the class are what they were.
    assert forall|i: int| 0 <= i < n && !tied.contains(i as usize) implies #[trigger] now[i]
        == was[i] by {
        assert(mid[i] == was[i]);
    }
    // Keys inside the class grew by one valid entry and then further.
    assert forall|p: int| done <= p < done + size implies {
        &&& was[members[p] as int] == before[members[p] as int]
        &&& mid[members[p] as int].len() == depth + 1
        &&& same_prefix(before[members[p] as int], mid[members[p] as int], depth)
        &&& grown(
            mid[members[p] as int],
            #[trigger] now[members[p] as int],
            participants[members[p] as int].base_level,
            depth + 1,
        )
        &&& now[members[p] as int][depth - 1] == before[members[done] as int][depth - 1]
    } by {
        let t = p - done;
        assert(tied[t] == members[p]);
        assert(mid[tied[t] as int].len() == depth + 1);
        assert(was[members[p] as int] == before[members[p] as int]);
        assert(grown(
            mid[tied[t] as int],
            now[tied[t] as int],
            participants[tied[t] as int].base_level,
            depth + 1,
        ));
        assert(before[members[p] as int].len() == depth);
        assert(before[members[p] as int][depth - 1] == before[members[done] as int][depth - 1]);
    }
    assert forall|p: int| 0 <= p < members.len() implies grown(
        before[members[p] as int],
        #[trigger] now[members[p] as int],
        participants[members[p] as int].base_level,
        depth,
    ) by {
        if done <= p < done + size {
            let m = members[p] as int;
            assert(grown(mid[m], now[m], participants[m].base_level, depth + 1));
            assert(tied[p - done] == members[p]);
            assert(valid_entry(participants[m].base_level, depth, mid[m][depth]));
            assert forall|x: int| depth <= x < now[m].len() implies valid_entry(
                participants[m].base_level,
                x,
                #[trigger] now[m][x],
            ) by {
                if x == depth {
                    assert(now[m][depth] == mid[m][depth]);
                }
            }
        } else {
            assert(!tied.contains(members[p]));
            assert(now[members[p] as int] == was[members[p] as int]);
        }
    }
    assert forall|p: int| 0 <= p < members.len() && !(done <= p < done + size) implies {
        &&& #[trigger] now[members[p] as int] == was[members[p] as int]
        &&& now[members[p] as int][depth - 1] != before[members[done] as int][depth - 1]
    } by {
        assert(!tied.contains(members[p]));
        assert(grown(
            before[members[p] as int],
            was[members[p] as int],
            participants[members[p] as int].base_level,
            depth,
        ));
        assert(before[members[p] as int][depth - 1] != before[members[done] as int][depth - 1]);
    }
    assert forall|p: int, q: int, k: int|
        0 <= p < done + size && 0 <= q < members.len() && p != q && depth <= k < MAX_KEY_LENGTH
            && #[trigger] same_prefix(
            now[members[p] as int],
            now[members[q] as int],
            k,
        ) implies now[members[p] as int].len() > k by {
        let mp = members[p] as int;
        let mq = members[q] as int;
        assert(now[mp][depth - 1] == now[mq][depth - 1]);
        if done <= p < done + size {
            assert(done <= q < done + size);
            if k > depth {
                let tp = p - done;
                let tq = q - done;
                assert(tied[tp] == members[p]);
                assert(tied[tq] == members[q]);
                assert(same_prefix(now[tied[tp] as int], now[tied[tq] as int], k));
            }
        } else {
            assert(!(done <= q < done + size));
            assert(same_prefix(was[mp], was[mq], k));
        }
    }
    assert forall|p: int|
        0 <= p < members.len() && (#[trigger] now[members[p] as int]).len() > depth implies tied_among(
        now,
        members,
        members[p] as int,
        now[members[p] as int].len() - 1,
    ) by {
        let mp = members[p] as int;
        let l = now[mp].len() - 1;
        if done <= p < done + size {
            let tp = p - done;
            assert(tied[tp] == members[p]);
            if l == depth {
                let q = if p == done {
                    done + 1
                } else {
                    done
                };
                let mq = members[q] as int;
                assert(same_prefix(before[mp], before[mq], depth - 1));
                assert(same_prefix(now[mp], now[mq], depth));
                assert(same_prefix(now[mp], now[members[q] as int], l));
            } else {
                assert(now[tied[tp] as int].len() > depth + 1);
                assert(tied_among(now, tied, tied[tp] as int, l));
                let b = choose|b: int|
                    0 <= b < tied.len() && tied[b] != tied[tp] as int && #[trigger] same_prefix(
                        now[tied[tp] as int],
                        now[tied[b] as int],
                        l,
                    );
                assert(tied[b] == members[done + b]);
                assert(same_prefix(now[mp], now[members[done + b] as int], l));
            }
        } else {
            assert(now[mp] == was[mp]);
            assert(tied_among(was, members, mp, l));
            let b = choose|b: int|
                0 <= b < members.len() && members[b] != mp && #[trigger] same_prefix(
                    was[mp],
                    was[members[b] as int],
                    l,
                );
            let mb = members[b] as int;
            assert(grown(before[mb], was[mb], participants[mb].base_level, depth));
            assert(grown(before[mp], was[mp], participants[mp].base_level, depth));
            assert(was[mb][depth - 1] == was[mp][depth - 1]);
            assert(!(done <= b < done + size));
            assert(now[mb] == was[mb]);
            assert(same_prefix(now[mp], now[members[b] as int], l));
        }
    }
}

/// A class of tied participants stays one when its members are listed in
/// another order.
proof fn lemma_group_reordered(
    members: Seq<usize>,
    order: Seq<usize>,
    keys: Seq<Seq<i64>>,
    depth: int,
)
    requires
        group_at_depth(members, keys, depth),
        distinct_indices(order, keys.len() as int),
        same_entries(members, order),
    ensures
        group_at_depth(order, keys, depth),
{
    assert forall|a: int| 0 <= a < order.len() implies (#[trigger] keys[order[a] as int]).len()
        == depth by {
        assert(order.contains(order[a]));
        let p = choose|p: int| 0 <= p < members.len() && members[p] == order[a];
        assert(keys[members[p] as int].len() == depth);
    }
    assert forall|a: int, b: int| 0 <= a < order.len() && 0 <= b < order.len() implies same_prefix(
        #[trigger] keys[order[a] as int],
        #[trigger] keys[order[b] as int],
        depth - 1,
    ) by {
        assert(order.contains(order[a]));
        assert(order.contains(order[b]));
        let p = choose|p: int| 0 <= p < members.len() && members[p] == order[a];
        let q = choose|q: int| 0 <= q < members.len() && members[q] == order[b];
        assert(same_prefix(keys[members[p] as int], keys[members[q] as int], depth - 1));
    }
}

/// Broken ties do not depend on the order in which the members are listed.
proof fn lemma_ties_broken_reordered(
    order: Seq<usize>,
    members: Seq<usize>,
    before: Seq<Seq<i64>>,
    after: Seq<Seq<i64>>,
    participants: Seq<IniParticipant>,
    depth: int,
)
    requires
        ties_broken(order, before, after, participants, depth),
        distinct_indices(members, before.len() as int),
        same_entries(members, order),
    ensures
        ties_broken(members, before, after, participants, depth),
{
    assert forall|a: int| 0 <= a < members.len() implies exists|p: int|
        0 <= p < order.len() && order[p] == #[trigger] members[a] by {
        assert(members.contains(members[a]));
        assert(order.contains(members[a]));
    }
    assert forall|p: int| 0 <= p < members.len() implies grown(
        before[members[p] as int],
        #[trigger] after[members[p] as int],
        participants[members[p] as int].base_level,
        depth,
    ) by {
        let x = choose|x: int| 0 <= x < order.len() && order[x] == members[p];
        assert(grown(
            before[order[x] as int],
            after[order[x] as int],
            participants[order[x] as int].base_level,
            depth,
        ));
    }
    assert forall|p: int, q: int, k: int|
        0 <= p < members.len() && 0 <= q < members.len() && p != q && depth <= k < MAX_KEY_LENGTH
            && #[trigger] same_prefix(
            after[members[p] as int],
            after[members[q] as int],
            k,
        ) implies after[members[p] as int].len() > k by {
        let x = choose|x: int| 0 <= x < order.len() && order[x] == members[p];
        let y = choose|y: int| 0 <= y < order.len() && order[y] == members[q];
        assert(same_prefix(after[order[x] as int], after[order[y] as int], k));
    }
    assert forall|p: int|
        0 <= p < members.len() && (#[trigger] after[members[p] as int]).len() > depth implies tied_among(
        after,
        members,
        members[p] as int,
        after[members[p] as int].len() - 1,
    ) by {
        let l = after[members[p] as int].len() - 1;
        let x = choose|x: int| 0 <= x < order.len() && order[x] == members[p];
        assert(after[order[x] as int].len() > depth);
        assert(tied_among(after, order, order[x] as int, l));
        let b = choose|b: int|
            0 <= b < order.len() && order[b] != order[x] as int && #[trigger] same_prefix(
                after[order[x] as int],
                after[order[b] as int],
                l,
            );
        assert(order.contains(order[b]));
        let q = choose|q: int| 0 <= q < members.len() && members[q] == order[b];
        assert(same_prefix(after[members[p] as int], after[members[q] as int], l));
    }
    assert forall|i: int|
        0 <= i < before.len() && !members.contains(i as usize) implies #[trigger] after[i]
        == before[i] by {
        assert(!order.contains(i as usize));
    }
}

/// Breaks the ties among `members`, whose keys have `depth` entries and agree
/// on all but the last.
///
/// Members with the same last entry each get one more: their base level as
/// the second entry of a key, a fresh die after that. The ties that remain
/// among them are broken in the same way, until no two members share a key or
/// the keys have reached their greatest length.
fn break_ties_among(
    members: &Vec<usize>,
    keys: &mut Vec<Vec<i64>>,
    participants: &Vec<IniParticipant>,
    dice: &mut Dice,
    depth: usize,
)
    requires
        1 <= depth <= MAX_KEY_LENGTH,
        old(keys)@.len() == participants@.len(),
        group_at_depth(members@, key_views(old(keys)@), depth as int),
    ensures
        ties_broken(
            members@,
            key_views(old(keys)@),
            key_views(final(keys)@),
            participants@,
            depth as int,
        ),
    decreases MAX_KEY_LENGTH - depth,
{
    let ghost before = key_views(keys@);
    if depth >= MAX_KEY_LENGTH || members.len() < 2 {
        return;
    }
    let order = sort_by_rank(members, keys);
    proof {
        lemma_group_reordered(members@, order@, before, depth as int);
    }
    let pairs = last_entries(&order, keys, depth);
    let ghost listed = pairs@;
    let groups = group_runs(pairs);
    let total = order.len();
    let mut g: usize = 0;
    let mut done: usize = 0;
    while g < groups.len()
        invariant
            1 <= depth < MAX_KEY_LENGTH,
            total == order@.len(),
            g <= groups@.len(),
            done == joined(groups@, g as int).len(),
            done <= order@.len(),
            keys@.len() == participants@.len(),
            before.len() == participants@.len(),
            group_at_depth(order@, before, depth as int),
            ranked(order@, before),
            listed.len() == order@.len(),
            forall|p: int|
                0 <= p < order@.len() ==> #[trigger] listed[p] == (
                    order@[p],
                    before[order@[p] as int][depth - 1],
                ),
            joined(groups@, groups@.len() as int) == listed,
            forall|h: int| 0 <= h < groups@.len() ==> (#[trigger] groups@[h])@.len() > 0,
            forall|h: int, a: int, b: int|
                0 <= h < groups@.len() && 0 <= a < groups@[h]@.len() && 0 <= b < groups@[h]@.len()
                    ==> (#[trigger] groups@[h]@[a]).1 == (#[trigger] groups@[h]@[b]).1,
            forall|h: int|
                0 < h < groups@.len() ==> groups@[h - 1]@.last().1 != (#[trigger] groups@[h])@[0].1,
            ties_broken_upto(
                order@,
                before,
                key_views(keys@),
                participants@,
                depth as int,
                done as int,
            ),
        decreases groups@.len() - g,
    {
        let size = groups[g].len();
        proof {
            lemma_group_is_value_class(order@, before, depth as int, listed, groups@, g as int);
            assert(value_class(order@, before, depth as int, done as int, size as int));
            assert(done + size <= total);
        }
        if size >= 2 {
            let ghost was = key_views(keys@);
            let mut tied: Vec<usize> = Vec::new();
            let mut a: usize = 0;
            while a < size
                invariant
                    1 <= depth < MAX_KEY_LENGTH,
                    g < groups@.len(),
                    size == groups@[g as int]@.len(),
                    a <= size,
                    done + size <= order@.len(),
                    keys@.len() == participants@.len(),
                    was.len() == participants@.len(),
                    before.len() == participants@.len(),
                    group_at_depth(order@, before, depth as int),
                    forall|p: int|
                        done <= p < order@.len() ==> #[trigger] was[order@[p] as int]
                            == before[order@[p] as int],
                    forall|t: int|
                        0 <= t < size ==> (#[trigger] groups@[g as int]@[t]).0 == order@[done + t],
                    tied@ == order@.subrange(done as int, done + a),
                    entries_appended(tied@, was, key_views(keys@), participants@, depth as int),
                decreases size - a,
            {
                let index = groups[g][a].0;
                assert(index == order@[done + a]);
                let value = if depth == 1 {
                    participants[index].base_level
                } else {
                    dice.roll(1, INI_DIE)
                };
                let ghost current = key_views(keys@);
                let ghost earlier = tied@;
                proof {
                    if earlier.contains(index) {
                        let t = choose|t: int| 0 <= t < earlier.len() && earlier[t] == index;
                        assert(order@[done + t] == order@[done + a]);
                    }
                    assert(current[index as int] == was[index as int]);
                    assert(was[order@[done + a] as int] == before[order@[done + a] as int]);
                    assert(before[order@[done + a] as int].len() == depth);
                }
                append_entry(keys, index, value);
                tied.push(index);
                proof {
                    let next = key_views(keys@);
                    assert(tied@ =~= order@.subrange(done as int, done + a + 1));
                    assert forall|i: int|
                        0 <= i < was.len() && !tied@.contains(i as usize) implies #[trigger] next[i]
                        == was[i] by {
                        if earlier.contains(i as usize) {
                            let t = choose|t: int|
                                0 <= t < earlier.len() && earlier[t] == i as usize;
                            assert(tied@[t] == i as usize);
                        }
                        assert(tied@[a as int] == index);
                    }
                    assert forall|t: int| 0 <= t < tied@.len() implies {
                        &&& (#[trigger] next[tied@[t] as int]).len() == depth + 1
                        &&& same_prefix(was[tied@[t] as int], next[tied@[t] as int], depth as int)
                        &&& valid_entry(
                            participants@[tied@[t] as int].base_level,
                            depth as int,
                            next[tied@[t] as int][depth as int],
                        )
                    } by {
                        if t < a {
                            assert(earlier[t] == tied@[t]);
                            assert(earlier.contains(earlier[t]));
                            assert(next[tied@[t] as int] == current[earlier[t] as int]);
                        }
                    }
                }
                a = a + 1;
            }
            let ghost mid = key_views(keys@);
            proof {
                assert forall|x: int| 0 <= x < tied@.len() implies (#[trigger] mid[tied@[x] as int]).len()
                    == depth + 1 by {}
                assert forall|x: int, y: int|
                    0 <= x < tied@.len() && 0 <= y < tied@.len() implies same_prefix(
                    #[trigger] mid[tied@[x] as int],
                    #[trigger] mid[tied@[y] as int],
                    depth as int,
                ) by {
                    let mx = tied@[x] as int;
                    let my = tied@[y] as int;
                    assert(order@[done + x] == tied@[x]);
                    assert(order@[done + y] == tied@[y]);
                    assert(same_prefix(was[mx], mid[mx], depth as int));
                    assert(same_prefix(was[my], mid[my], depth as int));
                    assert(same_prefix(before[mx], before[my], depth - 1));
                    assert(before[mx][depth - 1] == before[order@[done as int] as int][depth - 1]);
                    assert(before[my][depth - 1] == before[order@[done as int] as int][depth - 1]);
                }
                assert(distinct_indices(tied@, mid.len() as int));
            }
            break_ties_among(&tied, keys, participants, dice, depth + 1);
            proof {
                lemma_after_group(
                    order@,
                    before,
                    was,
                    mid,
                    key_views(keys@),
                    tied@,
                    participants@,
                    depth as int,
                    done as int,
                    size as int,
                );
            }
        } else {
            proof {
                lemma_skip_single(
                    order@,
                    before,
                    key_views(keys@),
                    participants@,
                    depth as int,
                    done as int,
                );
            }
        }
        done = done + size;
        g = g + 1;
    }
    proof {
        lemma_joined_grows(groups@, g as int, groups@.len() as int);
        assert(done == order@.len());
        lemma_ties_broken_reordered(
            order@,
            members@,
            before,
            key_views(keys@),
            participants@,
            depth as int,
        );
    }
}

/// Some other participant has the same first `k` key entries as participant
/// `i`.
pub open spec fn tied(keys: Seq<Seq<i64>>, i: int, k: int) -> bool {
    exists|j: int| 0 <= j < keys.len() && j != i && #[trigger] same_prefix(keys[i], keys[j], k)
}

/// The keys that an initiative roll can end with.
///
/// Every participant has a key of at least one and at most
/// [`MAX_KEY_LENGTH`] entries, each entry is one its place allows, and a key
/// goes on after its first `k` entries exactly when another participant's
/// key starts with the same `k` entries.
pub open spec fn valid_keys(participants: Seq<IniParticipant>, keys: Seq<Seq<i64>>) -> bool {
    &&& keys.len() == participants.len()
    &&& forall|i: int| 0 <= i < keys.len() ==> 1 <= (#[trigger] keys[i]).len() <= MAX_KEY_LENGTH
    &&& forall|i: int, p: int|
        0 <= i < keys.len() && 0 <= p < keys[i].len() ==> valid_entry(
            participants[i].base_level,
            p,
            #[trigger] keys[i][p],
        )
    &&& forall|i: int, k: int|
        0 <= i < keys.len() && 1 <= k < MAX_KEY_LENGTH ==> (keys[i].len() > k <==> #[trigger] tied(
            keys,
            i,
            k,
        ))
}

/// Every base level leaves room for the first die.
pub open spec fn initiative_fits(participants: Seq<IniParticipant>) -> bool {
    forall|i: int|
        0 <= i < participants.len() ==> (#[trigger] participants[i]).base_level + INI_DIE <= i64::MAX
}

/// Every entry is a face of the initiative die.
pub open spec fn all_d6(dice: Seq<i64>) -> bool {
    forall|i: int| 0 <= i < dice.len() ==> 1 <= #[trigger] dice[i] <= INI_DIE
}

/// The keys right after the first die of every participant was cast: one
/// entry each, the base level plus the die.
pub open spec fn first_keys(participants: Seq<IniParticipant>, first_dice: Seq<i64>) -> Seq<
    Seq<i64>,
> {
    Seq::new(
        participants.len(),
        |i: int| seq![(participants[i].base_level + first_dice[i]) as i64],
    )
}

/// Participant `i` occurs in `outcomes`.
pub open spec fn lists(outcomes: Seq<IniOutcome>, i: int) -> bool {
    exists|p: int| 0 <= p < outcomes.len() && (#[trigger] outcomes[p]).participant_index == i
}

/// `outcomes` lists every participant once, with its key, in ranking order:
/// highest key first, and in the order of the input where keys are equal.
pub open spec fn is_order_of(outcomes: Seq<IniOutcome>, keys: Seq<Seq<i64>>) -> bool {
    &&& outcomes.len() == keys.len()
    &&& forall|p: int|
        0 <= p < outcomes.len() ==> {
            &&& (#[trigger] outcomes[p]).participant_index < keys.len()
            &&& outcomes[p].comparison_key@ == keys[outcomes[p].participant_index as int]
        }
    &&& forall|i: int| 0 <= i < keys.len() ==> #[trigger] lists(outcomes, i)
    &&& forall|p: int, q: int|
        0 <= p < q < outcomes.len() ==> ranks_before(
            keys,
            (#[trigger] outcomes[p]).participant_index as int,
            (#[trigger] outcomes[q]).participant_index as int,
        )
}

/// Tells whether every base level leaves room for the first die.
pub fn fits_initiative(participants: &Vec<IniParticipant>) -> (ok: bool)
    ensures
        ok == initiative_fits(participants@),
{
    let mut i: usize = 0;
    while i < participants.len()
        invariant
            i <= participants@.len(),
            forall|j: int|
                0 <= j < i ==> (#[trigger] participants@[j]).base_level + INI_DIE <= i64::MAX,
        decreases participants@.len() - i,
    {
        if participants[i].base_level > i64::MAX - INI_DIE {
            return false;
        }
        i = i + 1;
    }
    true
}

/// The keys after the first die of every participant: the base level plus
/// that die.
pub fn initial_keys(participants: &Vec<IniParticipant>, first_dice: &Vec<i64>) -> (keys: Vec<
    Vec<i64>,
>)
    requires
        initiative_fits(participants@),
        first_dice@.len() == participants@.len(),
        all_d6(first_dice@),
    ensures
        keys@.len() == participants@.len(),
        forall|i: int|
            0 <= i < participants@.len() ==> (#[trigger] keys@[i])@ == seq![
                (participants@[i].base_level + first_dice@[i]) as i64,
            ],
        key_views(keys@) == first_keys(participants@, first_dice@),
{
    let mut keys: Vec<Vec<i64>> = Vec::new();
    let mut i: usize = 0;
    while i < participants.len()
        invariant
            i <= participants@.len(),
            initiative_fits(participants@),
            first_dice@.len() == participants@.len(),
            all_d6(first_dice@),
            keys@.len() == i,
            forall|j: int|
                0 <= j < i ==> (#[trigger] keys@[j])@ == seq![
                    (participants@[j].base_level + first_dice@[j]) as i64,
                ],
        decreases participants@.len() - i,
    {
        let mut key: Vec<i64> = Vec::new();
        key.push(participants[i].base_level + first_dice[i]);
        assert(key@ =~= seq![(participants@[i as int].base_level + first_dice@[i as int]) as i64]);
        keys.push(key);
        i = i + 1;
    }
    assert(key_views(keys@) =~= first_keys(participants@, first_dice@));
    keys
}

/// Breaks all ties among keys that hold their first entry only.
///
/// Tied participants first get their base level as second entry, then fresh
/// dice, until every key is unlike all others or has [`MAX_KEY_LENGTH`]
/// entries. First entries stay as they are.
pub fn break_ties(participants: &Vec<IniParticipant>, keys: &mut Vec<Vec<i64>>, dice: &mut Dice)
    requires
        old(keys)@.len() == participants@.len(),
        forall|i: int|
            0 <= i < participants@.len() ==> {
                &&& (#[trigger] old(keys)@[i])@.len() == 1
                &&& valid_entry(participants@[i].base_level, 0, old(keys)@[i]@[0])
            },
    ensures
        valid_keys(participants@, key_views(final(keys)@)),
        forall|i: int|
            0 <= i < participants@.len() ==> (#[trigger] final(keys)@[i])@[0] == old(keys)@[i]@[0],
{
    let ghost before = key_views(keys@);
    let n = keys.len();
    let mut everyone: Vec<usize> = Vec::new();
    let mut i: usize = 0;
    while i < n
        invariant
            i <= n,
            everyone@.len() == i,
            forall|j: int| 0 <= j < i ==> #[trigger] everyone@[j] == j,
        decreases n - i,
    {
        everyone.push(i);
        i = i + 1;
    }
    proof {
        assert forall|a: int| 0 <= a < everyone@.len() implies (#[trigger] before[everyone@[a] as int]).len()
            == 1 by {
            assert(before[a] == keys@[a]@);
        }
    }
    break_ties_among(&everyone, keys, participants, dice, 1);
    proof {
        let after = key_views(keys@);
        assert forall|i: int| 0 <= i < after.len() implies {
            &&& 1 <= (#[trigger] after[i]).len() <= MAX_KEY_LENGTH
            &&& after[i][0] == before[i][0]
            &&& forall|p: int|
                0 <= p < after[i].len() ==> valid_entry(
                    participants@[i].base_level,
                    p,
                    #[trigger] after[i][p],
                )
        } by {
            assert(everyone@[i] == i);
            assert(grown(
                before[everyone@[i] as int],
                after[everyone@[i] as int],
                participants@[everyone@[i] as int].base_level,
                1,
            ));
            assert(before[i] == old(keys)@[i]@);
        }
        assert forall|i: int, k: int|
            0 <= i < after.len() && 1 <= k < MAX_KEY_LENGTH implies (after[i].len() > k
            <==> #[trigger] tied(after, i, k)) by {
            assert(everyone@[i] == i);
            if after[i].len() > k {
                let l = after[i].len() - 1;
                assert(after[everyone@[i] as int].len() > 1);
                assert(tied_among(after, everyone@, everyone@[i] as int, l));
                let b = choose|b: int|
                    0 <= b < everyone@.len() && everyone@[b] != i && #[trigger] same_prefix(
                        after[i],
                        after[everyone@[b] as int],
                        l,
                    );
                assert(everyone@[b] == b);
                assert(same_prefix(after[i], after[b], k));
            }
            if tied(after, i, k) {
                let j = choose|j: int|
                    0 <= j < after.len() && j != i && #[trigger] same_prefix(after[i], after[j], k);
                assert(everyone@[j] == j);
                assert(same_prefix(after[everyone@[i] as int], after[everyone@[j] as int], k));
            }
        }
        assert forall|i: int| 0 <= i < participants@.len() implies (#[trigger] keys@[i])@[0] == old(
            keys,
        )@[i]@[0] by {
            assert(after[i] == keys@[i]@);
            assert(before[i] == old(keys)@[i]@);
        }
    }
}

/// Lists the participants with their keys in ranking order.
pub fn order_by_keys(keys: &Vec<Vec<i64>>) -> (outcomes: Vec<IniOutcome>)
    ensures
        is_order_of(outcomes@, key_views(keys@)),
{
    let n = keys.len();
    let mut everyone: Vec<usize> = Vec::new();
    let mut i: usize = 0;
    while i < n
        invariant
            i <= n,
            n == keys@.len(),
            everyone@.len() == i,
            forall|j: int| 0 <= j < i ==> #[trigger] everyone@[j] == j,
        decreases n - i,
    {
        everyone.push(i);
        i = i + 1;
    }
    let order = sort_by_rank(&everyone, keys);
    let mut outcomes: Vec<IniOutcome> = Vec::new();
    let mut p: usize = 0;
    while p < order.len()
        invariant
            p <= order@.len(),
            order@.len() == n,
            n == keys@.len(),
            distinct_indices(order@, n as int),
            outcomes@.len() == p,
            forall|q: int|
                0 <= q < p ==> {
                    &&& (#[trigger] outcomes@[q]).participant_index == order@[q]
                    &&& outcomes@[q].comparison_key@ == keys@[order@[q] as int]@
                },
        decreases order@.len() - p,
    {
        let index = order[p];
        outcomes.push(IniOutcome { participant_index: index, comparison_key: keys[index].clone() });
        p = p + 1;
    }
    proof {
        let views = key_views(keys@);
        assert forall|i: int| 0 <= i < views.len() implies #[trigger] lists(outcomes@, i) by {
            assert(everyone@[i] == i);
            assert(everyone@.contains(i as usize));
            assert(order@.contains(i as usize));
            let q = choose|q: int| 0 <= q < order@.len() && order@[q] == i as usize;
            assert(outcomes@[q].participant_index == i);
        }
        assert forall|p: int, q: int| 0 <= p < q < outcomes@.len() implies ranks_before(
            views,
            (#[trigger] outcomes@[p]).participant_index as int,
            (#[trigger] outcomes@[q]).participant_index as int,
        ) by {
            assert(ranks_before(views, order@[p] as int, order@[q] as int));
        }
    }
    outcomes
}

/// Rolls initiative: one die for every participant, ties broken as
/// [`break_ties`] does, and the participants listed in ranking order.
pub fn roll_ini(participants: &Vec<IniParticipant>, dice: &mut Dice) -> (outcomes: Vec<IniOutcome>)
    requires
        initiative_fits(participants@),
    ensures
        exists|keys: Seq<Seq<i64>>|
            valid_keys(participants@, keys) && #[trigger] is_order_of(outcomes@, keys),
{
    let n = participants.len();
    let mut first_dice: Vec<i64> = Vec::new();
    let mut i: usize = 0;
    while i < n
        invariant
            i <= n,
            first_dice@.len() == i,
            all_d6(first_dice@),
        decreases n - i,
    {
        let die = dice.roll(1, INI_DIE);
        first_dice.push(die);
        i = i + 1;
    }
    let mut keys = initial_keys(participants, &first_dice);
    proof {
        let views = key_views(keys@);
        assert forall|i: int| 0 <= i < participants@.len() implies {
            &&& (#[trigger] keys@[i])@.len() == 1
            &&& valid_entry(participants@[i].base_level, 0, keys@[i]@[0])
        } by {
            assert(1 <= first_dice@[i] <= INI_DIE);
            assert(participants@[i].base_level + INI_DIE <= i64::MAX);
        }
    }
    break_ties(participants, &mut keys, dice);
    let outcomes = order_by_keys(&keys);
    assert(is_order_of(outcomes@, key_views(keys@)));
    outcomes
}

/// Two participants whose keys start with the same entry both have their own
/// base level as second entry.
pub proof fn lemma_first_tie_adds_base_level(
    participants: Seq<IniParticipant>,
    keys: Seq<Seq<i64>>,
    i: int,
    j: int,
)
    requires
        valid_keys(participants, keys),
        0 <= i < keys.len(),
        0 <= j < keys.len(),
        i != j,
        keys[i][0] == keys[j][0],
    ensures
        keys[i].len() >= 2,
        keys[j].len() >= 2,
        keys[i][1] == participants[i].base_level,
        keys[j][1] == participants[j].base_level,
{
    assert(same_prefix(keys[i], keys[j], 1));
    assert(same_prefix(keys[j], keys[i], 1));
    assert(tied(keys, i, 1));
    assert(tied(keys, j, 1));
    assert(valid_entry(participants[i].base_level, 1, keys[i][1]));
    assert(valid_entry(participants[j].base_level, 1, keys[j][1]));
}

/// Two participants whose keys start with the same two entries both have a
/// die as third entry.
pub proof fn lemma_second_tie_adds_die(
    participants: Seq<IniParticipant>,
    keys: Seq<Seq<i64>>,
    i: int,
    j: int,
)
    requires
        valid_keys(participants, keys),
        0 <= i < keys.len(),
        0 <= j < keys.len(),
        i != j,
        keys[i][0] == keys[j][0],
        participants[i].base_level == participants[j].base_level,
    ensures
        keys[i].len() >= 3,
        keys[j].len() >= 3,
        1 <= keys[i][2] <= INI_DIE,
        1 <= keys[j][2] <= INI_DIE,
{
    lemma_first_tie_adds_base_level(participants, keys, i, j);
    assert(same_prefix(keys[i], keys[j], 2));
    assert(same_prefix(keys[j], keys[i], 2));
    assert(tied(keys, i, 2));
    assert(tied(keys, j, 2));
    assert(valid_entry(participants[i].base_level, 2, keys[i][2]));
    assert(valid_entry(participants[j].base_level, 2, keys[j][2]));
}

/// A participant whose first entry nobody else has keeps a key of that one
/// entry: no tie is broken where there is none.
pub proof fn lemma_no_tie_no_further_entry(
    participants: Seq<IniParticipant>,
    keys: Seq<Seq<i64>>,
    i: int,
)
    requires
        valid_keys(participants, keys),
        0 <= i < keys.len(),
        forall|j: int| 0 <= j < keys.len() && j != i ==> (#[trigger] keys[j])[0] != keys[i][0],
    ensures
        keys[i].len() == 1,
{
    if tied(keys, i, 1) {
        let j = choose|j: int|
            0 <= j < keys.len() && j != i && #[trigger] same_prefix(keys[i], keys[j], 1);
        assert(keys[j][0] == keys[i][0]);
    }
}

/// No key is the beginning of a longer key: where two keys differ in length
/// they differ in an entry that both have, so the ranking never has to
/// compare a key with its own continuation.
pub proof fn lemma_no_key_continues_another(
    participants: Seq<IniParticipant>,
    keys: Seq<Seq<i64>>,
    i: int,
    j: int,
)
    requires
        valid_keys(participants, keys),
        0 <= i < keys.len(),
        0 <= j < keys.len(),
        keys[i].len() < keys[j].len(),
    ensures
        !same_prefix(keys[i], keys[j], keys[i].len() as int),
{
    if same_prefix(keys[i], keys[j], keys[i].len() as int) {
        assert(tied(keys, i, keys[i].len() as int));
    }
}

/// The keys decide the order: two rankings of the same keys list the
/// participants in the same sequence.
pub proof fn lemma_order_is_unique(
    first: Seq<IniOutcome>,
    second: Seq<IniOutcome>,
    keys: Seq<Seq<i64>>,
    p: int,
)
    requires
        is_order_of(first, keys),
        is_order_of(second, keys),
        0 <= p < keys.len(),
    ensures
        forall|q: int|
            0 <= q <= p ==> (#[trigger] first[q]).participant_index == second[q].participant_index,
    decreases p,
{
    if p > 0 {
        lemma_order_is_unique(first, second, keys, p - 1);
    }
    let a = first[p].participant_index as int;
    let b = second[p].participant_index as int;
    if a != b {
        assert(lists(second, a));
        let x = choose|x: int| 0 <= x < second.len() && (#[trigger] second[x]).participant_index == a;
        assert(lists(first, b));
        let y = choose|y: int| 0 <= y < first.len() && (#[trigger] first[y]).participant_index == b;
        lemma_ranks_before_asymmetric(keys, a, b);
        lemma_ranks_before_asymmetric(keys, a, a);
        lemma_ranks_before_asymmetric(keys, b, b);
        if x < p {
            assert(first[x].participant_index == second[x].participant_index);
            assert(ranks_before(keys, first[x].participant_index as int, first[p].participant_index as int));
        } else {
            assert(ranks_before(keys, second[p].participant_index as int, second[x].participant_index as int));
        }
        if y < p {
            assert(first[y].participant_index == second[y].participant_index);
            assert(ranks_before(keys, second[y].participant_index as int, second[p].participant_index as int));
        } else {
            assert(ranks_before(keys, first[p].participant_index as int, first[y].participant_index as int));
        }
    }
}

} // verus!
