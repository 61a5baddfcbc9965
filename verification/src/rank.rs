//! Scores and the order of ranked results.
//!
//! Every score is an exact integer: the rational value the ranking calls
//! for, multiplied by a fixed number that depends on the ranking alone.

use vstd::prelude::*;
use crate::data::QualityFactor;
use crate::data::ServiceProviderView;

verus! {

/// The distance, in millimetres, up to which closeness carries its full
/// weight in the blended score: 80 km.
pub const BLEND_RANGE: u64 = 80_000_000;

/// What a score of the distance ranking counts per metre.
pub const DISTANCE_SCORE_UNITS: i128 = 1_000;

/// What a score of the profile ranking counts per whole point of quality.
pub const PROFILE_SCORE_UNITS: i128 = 10_000_000;

/// What a score of the blended ranking counts per whole point.
pub const BLENDED_SCORE_UNITS: i128 = 8_000_000_000;

/// Quality in units of 10^-7: four tenths of the description score plus six
/// tenths of the picture score, both given in parts per million.
pub open spec fn quality_spec(q: QualityFactor) -> int {
    4 * q.profile_description_score as int + 6 * q.profile_picture_score as int
}

/// The blended score in units of 1/8 000 000 000.
///
/// With weight `w`, closeness `1 - distance / range` and quality `q`, the
/// score is `w * closeness + (1 - w) * q`. The weight is 0.15 up to the blend
/// range and 0.01 beyond it. Multiplied by `100 * range`, which is
/// 8 000 000 000, the score is `15 * (range - distance) + 8 * 85 * q7` up to
/// the blend range and `(range - distance) + 8 * 99 * q7` beyond it, where
/// `q7` is the quality in units of 10^-7.
pub open spec fn blended_spec(q: QualityFactor, distance: u64) -> int {
    if distance > BLEND_RANGE {
        (BLEND_RANGE as int - distance as int) + 792 * quality_spec(q)
    } else {
        15 * (BLEND_RANGE as int - distance as int) + 680 * quality_spec(q)
    }
}

/// Computes the quality of a profile in units of 10^-7.
pub fn quality(q: &QualityFactor) -> (s: i128)
    ensures
        s == quality_spec(*q),
{
    let description: i128 = q.profile_description_score as i128;
    let picture: i128 = q.profile_picture_score as i128;
    4 * description + 6 * picture
}

/// Computes the blended score of a profile at a distance in millimetres.
pub fn blended(q: &QualityFactor, distance: u64) -> (s: i128)
    ensures
        s == blended_spec(*q, distance),
{
    let range: i128 = BLEND_RANGE as i128;
    let gap: i128 = range - distance as i128;
    let rated: i128 = quality(q);
    if distance > BLEND_RANGE {
        gap + 792 * rated
    } else {
        15 * gap + 680 * rated
    }
}

/// The order of a ranking: by score, rising or falling as the ranking asks,
/// and by rising id among equal scores.
pub open spec fn ranks_before(a: ServiceProviderView, b: ServiceProviderView, descending: bool)
    -> bool {
    if a.ranking_score == b.ranking_score {
        a.id <= b.id
    } else if descending {
        a.ranking_score > b.ranking_score
    } else {
        a.ranking_score < b.ranking_score
    }
}

/// Every line stands before every later line in the order of the ranking.
pub open spec fn is_ranked(lines: Seq<ServiceProviderView>, descending: bool) -> bool {
    forall|i: int, j: int|
        0 <= i < j < lines.len() ==> ranks_before(#[trigger] lines[i], #[trigger] lines[j], descending)
}

/// Tells whether line `a` may stand before line `b`.
pub fn stands_before(a: &ServiceProviderView, b: &ServiceProviderView, descending: bool) -> (r:
    bool)
    ensures
        r == ranks_before(*a, *b, descending),
{
    if a.ranking_score == b.ranking_score {
        a.id <= b.id
    } else if descending {
        a.ranking_score > b.ranking_score
    } else {
        a.ranking_score < b.ranking_score
    }
}

/// Merges two ranked lists into one.
fn merge(left: Vec<ServiceProviderView>, right: Vec<ServiceProviderView>, descending: bool) -> (out:
    Vec<ServiceProviderView>)
    requires
        is_ranked(left@, descending),
        is_ranked(right@, descending),
    ensures
        is_ranked(out@, descending),
        out@.to_multiset() == left@.to_multiset().add(right@.to_multiset()),
{
    broadcast use vstd::multiset::group_multiset_axioms;
    broadcast use vstd::seq_lib::group_to_multiset_ensures;

    let ghost l0 = left@;
    let ghost r0 = right@;
    let mut left = left;
    let mut right = right;
    // Largest first: the last lines of both lists are taken off in turn.
    let mut falling: Vec<ServiceProviderView> = Vec::new();
    while left.len() > 0 || right.len() > 0
        invariant
            left@ == l0.subrange(0, left@.len() as int),
            right@ == r0.subrange(0, right@.len() as int),
            left@.len() <= l0.len(),
            right@.len() <= r0.len(),
            is_ranked(l0, descending),
            is_ranked(r0, descending),
            forall|i: int, j: int|
                0 <= i < j < falling@.len() ==> ranks_before(
                    #[trigger] falling@[j],
                    #[trigger] falling@[i],
                    descending,
                ),
            forall|i: int, j: int|
                0 <= i < left@.len() && 0 <= j < falling@.len() ==> ranks_before(
                    #[trigger] l0[i],
                    #[trigger] falling@[j],
                    descending,
                ),
            forall|i: int, j: int|
                0 <= i < right@.len() && 0 <= j < falling@.len() ==> ranks_before(
                    #[trigger] r0[i],
                    #[trigger] falling@[j],
                    descending,
                ),
            left@.to_multiset().add(right@.to_multiset()).add(falling@.to_multiset())
                == l0.to_multiset().add(r0.to_multiset()),
        decreases left@.len() + right@.len(),
    {
        let ghost before_left = left@;
        let ghost before_right = right@;
        let ghost before_falling = falling@;
        let from_right: bool = if left.len() == 0 {
            true
        } else if right.len() == 0 {
            false
        } else {
            stands_before(&left[left.len() - 1], &right[right.len() - 1], descending)
        };
        if from_right {
            let line = right.pop().unwrap();
            falling.push(line);
            proof {
                assert(before_right =~= right@.push(line));
                vstd::seq_lib::to_multiset_build(right@, line);
                assert(falling@ =~= before_falling.push(line));
                vstd::seq_lib::to_multiset_build(before_falling, line);
                assert(left@.to_multiset().add(right@.to_multiset()).add(falling@.to_multiset())
                    =~= before_left.to_multiset().add(before_right.to_multiset()).add(
                    before_falling.to_multiset(),
                ));
                assert(right@ =~= r0.subrange(0, right@.len() as int));
                assert(line == r0[right@.len() as int]);
                if left@.len() > 0 {
                    assert(ranks_before(l0[left@.len() - 1], line, descending));
                }
            }
        } else {
            let line = left.pop().unwrap();
            falling.push(line);
            proof {
                assert(before_left =~= left@.push(line));
                vstd::seq_lib::to_multiset_build(left@, line);
                assert(falling@ =~= before_falling.push(line));
                vstd::seq_lib::to_multiset_build(before_falling, line);
                assert(left@.to_multiset().add(right@.to_multiset()).add(falling@.to_multiset())
                    =~= before_left.to_multiset().add(before_right.to_multiset()).add(
                    before_falling.to_multiset(),
                ));
                assert(left@ =~= l0.subrange(0, left@.len() as int));
                assert(line == l0[left@.len() as int]);
                if right@.len() > 0 {
                    assert(!ranks_before(line, r0[right@.len() - 1], descending));
                }
            }
        }
        proof {
            assert(falling@ =~= before_falling.push(falling@[before_falling.len() as int]));
            assert forall|i: int, j: int| 0 <= i < j < falling@.len() implies ranks_before(
                #[trigger] falling@[j],
                #[trigger] falling@[i],
                descending,
            ) by {
                if j < before_falling.len() {
                    assert(falling@[i] == before_falling[i]);
                    assert(falling@[j] == before_falling[j]);
                } else {
                    assert(falling@[i] == before_falling[i]);
                }
            }
            assert forall|i: int, j: int|
                0 <= i < left@.len() && 0 <= j < falling@.len() implies ranks_before(
                #[trigger] l0[i],
                #[trigger] falling@[j],
                descending,
            ) by {
                if j < before_falling.len() {
                    assert(falling@[j] == before_falling[j]);
                } else if from_right {
                    assert(ranks_before(l0[i], l0[before_left.len() - 1], descending) || i
                        == before_left.len() - 1);
                } else {
                    assert(ranks_before(l0[i], l0[left@.len() as int], descending));
                }
            }
            assert forall|i: int, j: int|
                0 <= i < right@.len() && 0 <= j < falling@.len() implies ranks_before(
                #[trigger] r0[i],
                #[trigger] falling@[j],
                descending,
            ) by {
                if j < before_falling.len() {
                    assert(falling@[j] == before_falling[j]);
                } else if from_right {
                    assert(ranks_before(r0[i], r0[right@.len() as int], descending));
                } else {
                    assert(ranks_before(r0[i], r0[before_right.len() - 1], descending) || i
                        == before_right.len() - 1);
                }
            }
        }
    }
    proof {
        assert(left@ =~= Seq::empty());
        assert(right@ =~= Seq::empty());
    }
    let ghost turned = falling@;
    let mut out: Vec<ServiceProviderView> = Vec::new();
    while falling.len() > 0
        invariant
            falling@ == turned.subrange(0, falling@.len() as int),
            falling@.len() <= turned.len(),
            out@.len() + falling@.len() == turned.len(),
            forall|k: int| 0 <= k < out@.len() ==> #[trigger] out@[k] == turned[turned.len() - 1 - k],
            out@.to_multiset().add(falling@.to_multiset()) == turned.to_multiset(),
        decreases falling@.len(),
    {
        let ghost before_falling = falling@;
        let ghost before_out = out@;
        let line = falling.pop().unwrap();
        out.push(line);
        proof {
            assert(before_falling =~= falling@.push(line));
            vstd::seq_lib::to_multiset_build(falling@, line);
            assert(falling@ =~= turned.subrange(0, falling@.len() as int));
            assert(out@ =~= before_out.push(line));
            vstd::seq_lib::to_multiset_build(before_out, line);
            assert(out@.to_multiset().add(falling@.to_multiset()) =~= before_out.to_multiset().add(
                before_falling.to_multiset(),
            ));
            assert forall|k: int| 0 <= k < out@.len() implies #[trigger] out@[k] == turned[turned.len()
                - 1 - k] by {
                if k < before_out.len() {
                    assert(out@[k] == before_out[k]);
                }
            }
        }
    }
    proof {
        assert(falling@ =~= Seq::empty());
        assert forall|i: int, j: int| 0 <= i < j < out@.len() implies ranks_before(
            #[trigger] out@[i],
            #[trigger] out@[j],
            descending,
        ) by {
            assert(out@[i] == turned[turned.len() - 1 - i]);
            assert(out@[j] == turned[turned.len() - 1 - j]);
        }
    }
    out
}

/// Sorts lines into the order of a ranking.
pub fn sort_ranked(lines: Vec<ServiceProviderView>, descending: bool) -> (sorted: Vec<
    ServiceProviderView,
>)
    ensures
        is_ranked(sorted@, descending),
        sorted@.to_multiset() == lines@.to_multiset(),
    decreases lines@.len(),
{
    broadcast use vstd::multiset::group_multiset_axioms;

    if lines.len() <= 1 {
        return lines;
    }
    let ghost all = lines@;
    let mut left = lines;
    let half: usize = left.len() / 2;
    let right = left.split_off(half);
    proof {
        assert(all =~= left@ + right@);
        vstd::seq_lib::lemma_multiset_commutative(left@, right@);
    }
    let left_sorted = sort_ranked(left, descending);
    let right_sorted = sort_ranked(right, descending);
    merge(left_sorted, right_sorted, descending)
}

/// In a ranking that rises, no line has a smaller score than a line before
/// it; in one that falls, none has a larger.
pub proof fn lemma_ranked_scores(lines: Seq<ServiceProviderView>, descending: bool, i: int, j: int)
    requires
        is_ranked(lines, descending),
        0 <= i <= j < lines.len(),
    ensures
        !descending ==> lines[i].ranking_score <= lines[j].ranking_score,
        descending ==> lines[i].ranking_score >= lines[j].ranking_score,
{
    if i < j {
        assert(ranks_before(lines[i], lines[j], descending));
    }
}

/// The score and the id of each line, in the lines' order.
pub open spec fn line_keys(lines: Seq<ServiceProviderView>) -> Seq<(int, u32)> {
    lines.map_values(|l: ServiceProviderView| (l.ranking_score as int, l.id))
}

/// The order of a ranking on pairs of score and id.
pub open spec fn key_before(a: (int, u32), b: (int, u32), descending: bool) -> bool {
    if a.0 == b.0 {
        a.1 <= b.1
    } else if descending {
        a.0 > b.0
    } else {
        a.0 < b.0
    }
}

/// Every pair stands before every later pair in the order of the ranking.
pub open spec fn keys_ranked(keys: Seq<(int, u32)>, descending: bool) -> bool {
    forall|i: int, j: int|
        0 <= i < j < keys.len() ==> key_before(#[trigger] keys[i], #[trigger] keys[j], descending)
}

/// The order of a ranking leaves no choice: two ranked lists of the same
/// pairs of score and id are the same list.
pub proof fn lemma_ranked_keys_unique(a: Seq<(int, u32)>, b: Seq<(int, u32)>, descending: bool)
    requires
        keys_ranked(a, descending),
        keys_ranked(b, descending),
        a.to_multiset() == b.to_multiset(),
    ensures
        a == b,
    decreases a.len(),
{
    broadcast use vstd::multiset::group_multiset_axioms;
    broadcast use vstd::seq_lib::group_to_multiset_ensures;

    assert(a.len() == a.to_multiset().len());
    assert(b.len() == b.to_multiset().len());
    if a.len() > 0 {
        let x = a[0];
        let y = b[0];
        assert(a.contains(x));
        assert(a.to_multiset().count(x) > 0);
        assert(b.contains(x));
        assert(b.contains(y));
        assert(b.to_multiset().count(y) > 0);
        assert(a.contains(y));
        let p = choose|p: int| 0 <= p < b.len() && b[p] == x;
        let q = choose|q: int| 0 <= q < a.len() && a[q] == y;
        assert(p == 0 || key_before(b[0], b[p], descending));
        assert(q == 0 || key_before(a[0], a[q], descending));
        assert(x == y);
        let ra = a.remove(0);
        let rb = b.remove(0);
        vstd::seq_lib::to_multiset_remove(a, 0);
        vstd::seq_lib::to_multiset_remove(b, 0);
        assert forall|i: int, j: int| 0 <= i < j < ra.len() implies key_before(
            #[trigger] ra[i],
            #[trigger] ra[j],
            descending,
        ) by {
            assert(ra[i] == a[i + 1]);
            assert(ra[j] == a[j + 1]);
        }
        assert forall|i: int, j: int| 0 <= i < j < rb.len() implies key_before(
            #[trigger] rb[i],
            #[trigger] rb[j],
            descending,
        ) by {
            assert(rb[i] == b[i + 1]);
            assert(rb[j] == b[j + 1]);
        }
        lemma_ranked_keys_unique(ra, rb, descending);
        assert forall|k: int| 0 <= k < a.len() implies a[k] == b[k] by {
            if k > 0 {
                assert(ra[k - 1] == a[k]);
                assert(rb[k - 1] == b[k]);
            }
        }
    }
    assert(a =~= b);
}

} // verus!
