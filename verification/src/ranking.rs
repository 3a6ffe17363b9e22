//! Stable ordering of keypoints by ascending score.

use crate::keypoint::Keypoint;
use crate::score::{score_key, score_le};
use vstd::prelude::*;

verus! {

/// The key by which a keypoint is ranked.
pub open spec fn rank(keypoint: Keypoint) -> int {
    score_key(keypoint.score_bits)
}

/// `candidate` placed behind every element of `sorted` that ranks no higher.
pub open spec fn insert_by_score(sorted: Seq<Keypoint>, candidate: Keypoint) -> Seq<Keypoint>
    decreases sorted.len(),
{
    if sorted.len() == 0 || rank(sorted.last()) <= rank(candidate) {
        sorted.push(candidate)
    } else {
        insert_by_score(sorted.drop_last(), candidate).push(sorted.last())
    }
}

/// The keypoints in ascending order of score, equal scores in the order in
/// which they came.
pub open spec fn sorted_by_score(corners: Seq<Keypoint>) -> Seq<Keypoint>
    decreases corners.len(),
{
    if corners.len() == 0 {
        corners
    } else {
        insert_by_score(sorted_by_score(corners.drop_last()), corners.last())
    }
}

/// Scores never decrease along the sequence.
pub open spec fn ascending(corners: Seq<Keypoint>) -> bool {
    forall|i: int, j: int| 0 <= i <= j < corners.len() ==> rank(corners[i]) <= rank(corners[j])
}

/// The elements of `corners` whose rank is `key`, in order.
pub open spec fn with_rank(corners: Seq<Keypoint>, key: int) -> Seq<Keypoint> {
    corners.filter(|c: Keypoint| rank(c) == key)
}

/// `output` is `input` sorted by ascending score without reordering ties:
/// it ascends, and for every rank it holds the same keypoints in the same
/// order as `input`.
pub open spec fn is_stable_sort_of(output: Seq<Keypoint>, input: Seq<Keypoint>) -> bool {
    &&& output.len() == input.len()
    &&& ascending(output)
    &&& forall|key: int| with_rank(output, key) == with_rank(input, key)
}

proof fn lemma_filter_push(corners: Seq<Keypoint>, last: Keypoint, key: int)
    ensures
        with_rank(corners.push(last), key) == if rank(last) == key {
            with_rank(corners, key).push(last)
        } else {
            with_rank(corners, key)
        },
{
    reveal(Seq::filter);
    assert(corners.push(last).drop_last() == corners);
}

proof fn lemma_insert_len(sorted: Seq<Keypoint>, candidate: Keypoint)
    ensures
        insert_by_score(sorted, candidate).len() == sorted.len() + 1,
    decreases sorted.len(),
{
    if !(sorted.len() == 0 || rank(sorted.last()) <= rank(candidate)) {
        lemma_insert_len(sorted.drop_last(), candidate);
    }
}

proof fn lemma_insert_ascending(sorted: Seq<Keypoint>, candidate: Keypoint)
    requires
        ascending(sorted),
    ensures
        ascending(insert_by_score(sorted, candidate)),
        forall|i: int|
            0 <= i < insert_by_score(sorted, candidate).len() ==> #[trigger] insert_by_score(
                sorted,
                candidate,
            )[i] == candidate || sorted.contains(insert_by_score(sorted, candidate)[i]),
    decreases sorted.len(),
{
    if !(sorted.len() == 0 || rank(sorted.last()) <= rank(candidate)) {
        lemma_insert_ascending(sorted.drop_last(), candidate);
        lemma_insert_len(sorted.drop_last(), candidate);
    }
}

proof fn lemma_insert_keeps_ranks(sorted: Seq<Keypoint>, candidate: Keypoint, key: int)
    ensures
        with_rank(insert_by_score(sorted, candidate), key) == with_rank(
            sorted.push(candidate),
            key,
        ),
    decreases sorted.len(),
{
    if !(sorted.len() == 0 || rank(sorted.last()) <= rank(candidate)) {
        let front = sorted.drop_last();
        lemma_insert_keeps_ranks(front, candidate, key);
        lemma_filter_push(insert_by_score(front, candidate), sorted.last(), key);
        lemma_filter_push(front, candidate, key);
        lemma_filter_push(front, sorted.last(), key);
        lemma_filter_push(sorted, candidate, key);
        assert(front.push(sorted.last()) == sorted);
    }
}

/// Sorting yields the one stable ascending arrangement of its input.
pub proof fn lemma_sorted_by_score_is_stable_sort(corners: Seq<Keypoint>)
    ensures
        is_stable_sort_of(sorted_by_score(corners), corners),
    decreases corners.len(),
{
    if corners.len() > 0 {
        let front = corners.drop_last();
        let sorted_front = sorted_by_score(front);
        lemma_sorted_by_score_is_stable_sort(front);
        lemma_insert_len(sorted_front, corners.last());
        lemma_insert_ascending(sorted_front, corners.last());
        assert forall|key: int|
            with_rank(sorted_by_score(corners), key) == with_rank(corners, key) by {
            lemma_insert_keeps_ranks(sorted_front, corners.last(), key);
            lemma_filter_push(sorted_front, corners.last(), key);
            lemma_filter_push(front, corners.last(), key);
            assert(front.push(corners.last()) == corners);
        }
    }
}

/// The last element of a non-empty sequence closes its own rank class, and
/// dropping it shortens that class and no other.
proof fn lemma_last_closes_its_class(corners: Seq<Keypoint>, key: int)
    requires
        corners.len() > 0,
    ensures
        with_rank(corners, key) == if rank(corners.last()) == key {
            with_rank(corners.drop_last(), key).push(corners.last())
        } else {
            with_rank(corners.drop_last(), key)
        },
{
    lemma_filter_push(corners.drop_last(), corners.last(), key);
    assert(corners.drop_last().push(corners.last()) == corners);
}

/// Two ascending sequences with the same rank classes are the same sequence.
pub proof fn lemma_ascending_classes_fix_the_sequence(first: Seq<Keypoint>, second: Seq<Keypoint>)
    requires
        first.len() == second.len(),
        ascending(first),
        ascending(second),
        forall|key: int| with_rank(first, key) == with_rank(second, key),
    ensures
        first == second,
    decreases first.len(),
{
    if first.len() > 0 {
        let top = rank(first.last());
        let other = rank(second.last());
        lemma_last_closes_its_class(first, top);
        lemma_last_closes_its_class(second, other);
        // Each sequence holds an element of the other's top rank, so the
        // two top ranks bound each other.
        assert(top <= other) by {
            assert(with_rank(second, top).last() == first.last());
            second.lemma_filter_contains_rev(|c: Keypoint| rank(c) == top, first.last());
        }
        assert(other <= top) by {
            assert(with_rank(first, other).last() == second.last());
            first.lemma_filter_contains_rev(|c: Keypoint| rank(c) == other, second.last());
        }
        lemma_last_closes_its_class(second, top);
        assert forall|key: int|
            with_rank(first.drop_last(), key) == with_rank(second.drop_last(), key) by {
            lemma_last_closes_its_class(first, key);
            lemma_last_closes_its_class(second, key);
            if key == top {
                assert(with_rank(second, key).drop_last() == with_rank(second.drop_last(), key));
            }
        }
        lemma_ascending_classes_fix_the_sequence(first.drop_last(), second.drop_last());
        assert(second == second.drop_last().push(second.last()));
    }
}

/// A sequence has one stable sort: whatever is a stable sort of `input` is
/// `sorted_by_score(input)`.
pub proof fn lemma_stable_sort_is_unique(output: Seq<Keypoint>, input: Seq<Keypoint>)
    requires
        is_stable_sort_of(output, input),
    ensures
        output == sorted_by_score(input),
{
    lemma_sorted_by_score_is_stable_sort(input);
    lemma_ascending_classes_fix_the_sequence(output, sorted_by_score(input));
}

/// Sorting neither adds nor loses a keypoint: what holds of every input
/// element holds of every output element.
pub proof fn lemma_sorted_by_score_preserves(corners: Seq<Keypoint>, property: spec_fn(Keypoint) -> bool)
    requires
        forall|i: int| 0 <= i < corners.len() ==> property(#[trigger] corners[i]),
    ensures
        sorted_by_score(corners).len() == corners.len(),
        forall|i: int|
            0 <= i < corners.len() ==> property(#[trigger] sorted_by_score(corners)[i]),
{
    lemma_sorted_by_score_is_stable_sort(corners);
    let sorted = sorted_by_score(corners);
    assert forall|i: int| 0 <= i < corners.len() implies property(#[trigger] sorted[i]) by {
        let same_rank = |c: Keypoint| rank(c) == rank(sorted[i]);
        sorted.lemma_filter_contains(same_rank, i);
        assert(with_rank(corners, rank(sorted[i])).contains(sorted[i]));
        corners.lemma_filter_contains_rev(same_rank, sorted[i]);
    }
}

/// Where `candidate` goes: behind the last element that ranks no higher.
proof fn lemma_insert_position(sorted: Seq<Keypoint>, candidate: Keypoint, position: int)
    requires
        0 <= position <= sorted.len(),
        forall|i: int| position <= i < sorted.len() ==> rank(sorted[i]) > rank(candidate),
        position == 0 || rank(sorted[position - 1]) <= rank(candidate),
    ensures
        insert_by_score(sorted, candidate) == sorted.insert(position, candidate),
    decreases sorted.len(),
{
    if position < sorted.len() {
        lemma_insert_position(sorted.drop_last(), candidate, position);
        assert(sorted.drop_last().insert(position, candidate).push(sorted.last())
            == sorted.insert(position, candidate));
    } else {
    }
}

/// Sorts keypoints by ascending score, keeping equal scores in their
/// incoming order.
pub fn sort_by_score(corners: &Vec<Keypoint>) -> (sorted: Vec<Keypoint>)
    ensures
        sorted@ == sorted_by_score(corners@),
        is_stable_sort_of(sorted@, corners@),
{
    let mut sorted: Vec<Keypoint> = Vec::new();
    let mut taken: usize = 0;
    while taken < corners.len()
        invariant
            0 <= taken <= corners.len(),
            sorted@ == sorted_by_score(corners@.take(taken as int)),
        decreases corners.len() - taken,
    {
        let candidate: Keypoint = corners[taken];
        let mut position: usize = sorted.len();
        while position > 0 && !score_le(sorted[position - 1].score_bits, candidate.score_bits)
            invariant
                0 <= position <= sorted.len(),
                forall|i: int| position <= i < sorted.len() ==> rank(sorted[i]) > rank(candidate),
            decreases position,
        {
            position -= 1;
        }
        proof {
            lemma_insert_position(sorted@, candidate, position as int);
            assert(corners@.take(taken + 1).drop_last() == corners@.take(taken as int));
        }
        sorted.insert(position, candidate);
        taken += 1;
    }
    proof {
        assert(corners@.take(taken as int) == corners@);
        lemma_sorted_by_score_is_stable_sort(corners@);
    }
    sorted
}

} // verus!
