//! Facts about sequences that the engine's proofs share.

use vstd::prelude::*;

verus! {

/// Each of `ids` is wanted, every wanted id is among them, and none occurs
/// twice.
pub open spec fn exactly_once(ids: Seq<u32>, wanted: Set<u32>) -> bool {
    &&& forall|j: int| 0 <= j < ids.len() ==> wanted.contains(#[trigger] ids[j])
    &&& forall|id: u32| #[trigger] wanted.contains(id) ==> ids.contains(id)
    &&& ids.no_duplicates()
}

/// Two lists with the same lines, in whatever order, have the same length
/// and the same members, and neither repeats a line unless the other does.
pub proof fn lemma_same_members<T>(a: Seq<T>, b: Seq<T>)
    requires
        a.to_multiset() == b.to_multiset(),
    ensures
        a.len() == b.len(),
        forall|x: T| a.contains(x) <==> b.contains(x),
        a.no_duplicates() ==> b.no_duplicates(),
{
    broadcast use vstd::multiset::group_multiset_axioms;
    broadcast use vstd::seq_lib::group_to_multiset_ensures;

    assert(a.len() == a.to_multiset().len());
    assert(b.len() == b.to_multiset().len());
    assert forall|x: T| a.contains(x) <==> b.contains(x) by {
        assert(a.contains(x) <==> a.to_multiset().count(x) > 0);
        assert(b.contains(x) <==> b.to_multiset().count(x) > 0);
    }
    if a.no_duplicates() {
        a.lemma_multiset_has_no_duplicates();
        b.lemma_multiset_has_no_duplicates_conv();
    }
}

/// What a filtered list holds: only members of the list that meet the
/// test, all of those, and no two with one key if the list had no two with
/// one key.
pub proof fn lemma_filter_facts<T>(s: Seq<T>, pred: spec_fn(T) -> bool, key: spec_fn(T) -> u32)
    ensures
        forall|j: int|
            0 <= j < s.filter(pred).len() ==> pred(#[trigger] s.filter(pred)[j]) && s.contains(
                s.filter(pred)[j],
            ),
        forall|k: int| 0 <= k < s.len() && pred(#[trigger] s[k]) ==> s.filter(pred).contains(s[k]),
        s.map_values(key).no_duplicates() ==> s.filter(pred).map_values(key).no_duplicates(),
    decreases s.len(),
{
    reveal(Seq::filter);
    let kept = s.filter(pred);
    if s.len() == 0 {
    } else {
        let front = s.drop_last();
        let last = s.last();
        lemma_filter_facts(front, pred, key);
        let sub = front.filter(pred);
        assert forall|j: int| 0 <= j < kept.len() implies pred(#[trigger] kept[j]) && s.contains(
            kept[j],
        ) by {
            if j < sub.len() {
                assert(kept[j] == sub[j]);
                assert(front.contains(sub[j]));
                let k = choose|k: int| 0 <= k < front.len() && front[k] == sub[j];
                assert(s[k] == sub[j]);
            } else {
                assert(kept[j] == last);
                assert(s[s.len() - 1] == last);
            }
        }
        assert forall|k: int| 0 <= k < s.len() && pred(#[trigger] s[k]) implies kept.contains(
            s[k],
        ) by {
            if k < front.len() {
                assert(front[k] == s[k]);
                assert(sub.contains(front[k]));
                let j = choose|j: int| 0 <= j < sub.len() && sub[j] == front[k];
                assert(kept[j] == s[k]);
            } else {
                assert(kept[kept.len() - 1] == s[k]);
            }
        }
        if s.map_values(key).no_duplicates() {
            let keys = s.map_values(key);
            assert forall|i: int, j: int|
                0 <= i < front.len() && 0 <= j < front.len() && i != j implies front.map_values(
                key,
            )[i] != front.map_values(key)[j] by {
                assert(keys[i] == key(s[i]));
                assert(keys[j] == key(s[j]));
            }
            let kept_keys = kept.map_values(key);
            let sub_keys = sub.map_values(key);
            assert forall|i: int, j: int|
                0 <= i < kept_keys.len() && 0 <= j < kept_keys.len() && i != j implies kept_keys[i]
                != kept_keys[j] by {
                if i < sub.len() && j < sub.len() {
                    assert(kept_keys[i] == sub_keys[i]);
                    assert(kept_keys[j] == sub_keys[j]);
                } else {
                    let old_one = if i < sub.len() {
                        i
                    } else {
                        j
                    };
                    assert(kept[old_one] == sub[old_one]);
                    assert(front.contains(sub[old_one]));
                    let k = choose|k: int| 0 <= k < front.len() && front[k] == sub[old_one];
                    assert(keys[k] == key(s[k]));
                    assert(keys[s.len() - 1] == key(last));
                }
            }
        }
    }
}

/// Filtering a list extended by one item: the item joins the filtered list
/// if it meets the test.
pub proof fn lemma_filter_step<T>(s: Seq<T>, pred: spec_fn(T) -> bool, k: int)
    requires
        0 <= k < s.len(),
    ensures
        s.subrange(0, k + 1).filter(pred) == if pred(s[k]) {
            s.subrange(0, k).filter(pred).push(s[k])
        } else {
            s.subrange(0, k).filter(pred)
        },
{
    reveal(Seq::filter);
    assert(s.subrange(0, k + 1).drop_last() =~= s.subrange(0, k));
}

} // verus!
