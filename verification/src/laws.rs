//! The laws of the pipeline, stated over the grouping model and proved
//! once and for all: no file is lost or duplicated by grouping, identical
//! content always lands in one group, distinct content in distinct
//! groups, only real duplicates are reported, and the report's membership
//! does not depend on the order in which results arrive.

use vstd::prelude::*;
use vstd::multiset::Multiset;

use crate::group::GroupView;
use crate::group::HashedPath;
use crate::group::dup_model;
use crate::group::dup_pred;
use crate::group::group_keys;
use crate::group::group_model;
use crate::group::has_hash;
use crate::group::is_dup_group;
use crate::group::lemma_group_keys_contains;
use crate::group::lemma_group_keys_distinct;
use crate::group::lemma_group_keys_push;
use crate::group::lemma_paths_with_hash_absent;
use crate::group::lemma_paths_with_hash_push;
use crate::group::path_of;
use crate::group::paths_with_hash;
use crate::hash::content_digest;

verus! {

broadcast use vstd::seq_lib::group_to_multiset_ensures;

/// Every path held by any group, as one multiset.
pub open spec fn group_paths_multiset(gs: Seq<GroupView>) -> Multiset<Seq<char>>
    decreases gs.len(),
{
    if gs.len() == 0 {
        Multiset::empty()
    } else {
        group_paths_multiset(gs.drop_last()).add(gs.last().1.to_multiset())
    }
}

/// Hashing is deterministic: any two fingerprints computed over identical
/// content bytes — whatever chunking each reader used, since every hashing
/// entry point promises exactly `content_digest` of its input — are equal.
pub proof fn lemma_hash_deterministic(bytes: Seq<u8>, r1: Seq<char>, r2: Seq<char>)
    requires
        r1 == content_digest(bytes),
        r2 == content_digest(bytes),
    ensures
        r1 == r2,
{
}

/// Pushing one path onto the list of one group adds exactly that path to
/// the union of all group paths.
proof fn lemma_gpm_update_push(gs: Seq<GroupView>, gs2: Seq<GroupView>, j: int, v: Seq<char>)
    requires
        0 <= j < gs.len(),
        gs2.len() == gs.len(),
        forall|t: int| 0 <= t < gs.len() && t != j ==> gs2[t] == gs[t],
        gs2[j].1 == gs[j].1.push(v),
    ensures
        group_paths_multiset(gs2) == group_paths_multiset(gs).insert(v),
    decreases gs.len(),
{
    if j == gs.len() - 1 {
        assert(gs2.drop_last() =~= gs.drop_last());
        assert(gs2.last().1.to_multiset() == gs.last().1.to_multiset().insert(v));
        assert(group_paths_multiset(gs2) =~= group_paths_multiset(gs).insert(v));
    } else {
        lemma_gpm_update_push(gs.drop_last(), gs2.drop_last(), j, v);
        assert(gs2.last() == gs[gs.len() - 1]);
        assert(group_paths_multiset(gs2) =~= group_paths_multiset(gs).insert(v));
    }
}

/// Grouping completeness: the union of all group path lists is exactly
/// the collection of scanned paths, each exactly once — no path dropped,
/// none duplicated.
pub proof fn lemma_grouping_complete(results: Seq<HashedPath>)
    ensures
        group_paths_multiset(group_model(results)) == results.map_values(path_of()).to_multiset(),
    decreases results.len(),
{
    if results.len() == 0 {
        assert(group_keys(results) =~= Seq::<Seq<char>>::empty());
        assert(group_model(results) =~= Seq::<GroupView>::empty());
        assert(results.map_values(path_of()) =~= Seq::<Seq<char>>::empty());
        assert(group_paths_multiset(group_model(results)) =~= results.map_values(
            path_of(),
        ).to_multiset());
    } else {
        let rs = results.drop_last();
        let x = results.last();
        lemma_grouping_complete(rs);
        assert(results =~= rs.push(x));
        lemma_group_keys_push(rs, x);
        lemma_group_keys_distinct(rs);
        let keys = group_keys(rs);
        let model = group_model(rs);
        let model2 = group_model(results);
        assert(results.map_values(path_of()) =~= rs.map_values(path_of()).push(x.1));
        assert(results.map_values(path_of()).to_multiset() == rs.map_values(
            path_of(),
        ).to_multiset().insert(x.1));
        if keys.contains(x.0) {
            let j = choose|j: int| 0 <= j < keys.len() && keys[j] == x.0;
            assert(group_keys(results) == keys);
            assert(model2.len() == model.len());
            assert forall|t: int| 0 <= t < model.len() && t != j implies model2[t] == model[t] by {
                assert(model[t] == (keys[t], paths_with_hash(rs, keys[t])));
                assert(model2[t] == (keys[t], paths_with_hash(results, keys[t])));
                assert(keys[t] != x.0);
                lemma_paths_with_hash_push(rs, x, keys[t]);
            }
            assert(model2[j].1 == model[j].1.push(x.1)) by {
                assert(model[j] == (keys[j], paths_with_hash(rs, keys[j])));
                assert(model2[j] == (keys[j], paths_with_hash(results, keys[j])));
                lemma_paths_with_hash_push(rs, x, x.0);
            }
            lemma_gpm_update_push(model, model2, j, x.1);
        } else {
            lemma_group_keys_contains(rs, x.0);
            lemma_paths_with_hash_absent(rs, x.0);
            lemma_paths_with_hash_push(rs, x, x.0);
            assert(paths_with_hash(results, x.0) == Seq::<Seq<char>>::empty().push(x.1));
            assert(model2 =~= model.push((x.0, paths_with_hash(results, x.0)))) by {
                assert(group_keys(results) == keys.push(x.0));
                assert(model2.len() == keys.len() + 1);
                assert forall|t: int| 0 <= t < keys.len() implies model2[t] == model[t] by {
                    assert(model[t] == (keys[t], paths_with_hash(rs, keys[t])));
                    assert(model2[t] == (keys[t], paths_with_hash(results, keys[t])));
                    assert(keys[t] != x.0) by {
                        if keys[t] == x.0 {
                            assert(keys.contains(x.0));
                        }
                    }
                    lemma_paths_with_hash_push(rs, x, keys[t]);
                }
                assert(model2[keys.len() as int] == (x.0, paths_with_hash(results, x.0)));
            }
            assert(Seq::<Seq<char>>::empty().push(x.1).to_multiset() =~= Multiset::<
                Seq<char>,
            >::empty().insert(x.1)) by {
                assert(Seq::<Seq<char>>::empty().to_multiset() =~= Multiset::<Seq<char>>::empty());
            }
            assert(group_paths_multiset(model2) =~= group_paths_multiset(model).insert(x.1)) by {
                assert(model2.drop_last() =~= model);
                assert(model2.last() == (x.0, paths_with_hash(results, x.0)));
            }
        }
    }
}

/// A scanned file is always a member of the group keyed by its digest.
pub proof fn lemma_group_membership(results: Seq<HashedPath>, i: int)
    requires
        0 <= i < results.len(),
    ensures
        paths_with_hash(results, results[i].0).contains(results[i].1),
{
    let pred = has_hash(results[i].0);
    results.lemma_filter_contains(pred, i);
    let filtered = results.filter(pred);
    let t = choose|t: int| 0 <= t < filtered.len() && filtered[t] == results[i];
    assert(filtered.map_values(path_of())[t] == results[i].1);
}

/// Duplicate detection, first half: two files with identical content
/// always land in one and the same group.
pub proof fn lemma_same_content_same_group(results: Seq<HashedPath>, i: int, j: int)
    requires
        0 <= i < results.len(),
        0 <= j < results.len(),
        results[i].0 == results[j].0,
    ensures
        exists|g: int|
            0 <= g < group_model(results).len() && (#[trigger] group_model(results)[g]).0
                == results[i].0 && group_model(results)[g].1.contains(results[i].1) && group_model(
                results,
            )[g].1.contains(results[j].1),
{
    lemma_group_keys_contains(results, results[i].0);
    let keys = group_keys(results);
    let g = choose|g: int| 0 <= g < keys.len() && keys[g] == results[i].0;
    lemma_group_membership(results, i);
    lemma_group_membership(results, j);
    assert(group_model(results)[g] == (keys[g], paths_with_hash(results, keys[g])));
}

/// Duplicate detection, second half: two files with distinct digests land
/// in two distinct groups, each keyed by its own digest.
pub proof fn lemma_distinct_content_distinct_groups(results: Seq<HashedPath>, i: int, j: int)
    requires
        0 <= i < results.len(),
        0 <= j < results.len(),
        results[i].0 != results[j].0,
    ensures
        exists|gi: int, gj: int|
            0 <= gi < group_model(results).len() && 0 <= gj < group_model(results).len() && gi != gj
                && (#[trigger] group_model(results)[gi]).0 == results[i].0 && (
            #[trigger] group_model(results)[gj]).0 == results[j].0 && group_model(
                results,
            )[gi].1.contains(results[i].1) && group_model(results)[gj].1.contains(results[j].1),
{
    lemma_group_keys_contains(results, results[i].0);
    lemma_group_keys_contains(results, results[j].0);
    let keys = group_keys(results);
    let gi = choose|g: int| 0 <= g < keys.len() && keys[g] == results[i].0;
    let gj = choose|g: int| 0 <= g < keys.len() && keys[g] == results[j].0;
    lemma_group_membership(results, i);
    lemma_group_membership(results, j);
    assert(group_model(results)[gi] == (keys[gi], paths_with_hash(results, keys[gi])));
    assert(group_model(results)[gj] == (keys[gj], paths_with_hash(results, keys[gj])));
    assert(gi != gj);
}

/// Filter correctness: no reported group ever has fewer than two members.
pub proof fn lemma_no_singleton_reported(results: Seq<HashedPath>)
    ensures
        forall|t: int|
            0 <= t < dup_model(results).len() ==> (#[trigger] dup_model(results)[t]).1.len() >= 2,
{
    assert forall|t: int| 0 <= t < dup_model(results).len() implies (#[trigger] dup_model(
        results,
    )[t]).1.len() >= 2 by {
        group_model(results).lemma_filter_pred(dup_pred(), t);
        assert(is_dup_group(dup_model(results)[t]));
    }
}

/// A sequence's filtered multiset is the filtered multiset.
proof fn lemma_filter_to_multiset<A>(s: Seq<A>, pred: spec_fn(A) -> bool)
    ensures
        s.filter(pred).to_multiset() == s.to_multiset().filter(pred),
    decreases s.len(),
{
    if s.len() == 0 {
        assert(s.filter(pred) =~= Seq::<A>::empty());
        assert(s.filter(pred).to_multiset() =~= s.to_multiset().filter(pred));
    } else {
        let t = s.drop_last();
        let a = s.last();
        lemma_filter_to_multiset(t, pred);
        t.lemma_filter_push(a, pred);
        assert(s =~= t.push(a));
        if pred(a) {
            assert(s.filter(pred).to_multiset() == t.filter(pred).to_multiset().insert(a));
            assert(s.to_multiset().filter(pred) =~= t.to_multiset().filter(pred).insert(a));
        } else {
            assert(s.filter(pred).to_multiset() == t.filter(pred).to_multiset());
            assert(s.to_multiset().filter(pred) =~= t.to_multiset().filter(pred));
        }
    }
}

/// Mapping two permutations of one collection gives permutations again.
proof fn lemma_map_values_to_multiset_eq<A, B>(a: Seq<A>, b: Seq<A>, f: spec_fn(A) -> B)
    requires
        a.to_multiset() == b.to_multiset(),
    ensures
        a.map_values(f).to_multiset() == b.map_values(f).to_multiset(),
    decreases a.len(),
{
    assert(a.len() == b.len()) by {
        assert(a.to_multiset().len() == a.len());
        assert(b.to_multiset().len() == b.len());
    }
    if a.len() == 0 {
        assert(a.map_values(f) =~= Seq::<B>::empty());
        assert(b.map_values(f) =~= Seq::<B>::empty());
    } else {
        let x = a.last();
        let a1 = a.drop_last();
        assert(a.contains(x));
        assert(b.to_multiset().count(x) > 0);
        assert(b.contains(x));
        let j = choose|j: int| 0 <= j < b.len() && b[j] == x;
        let b1 = b.remove(j);
        assert(a.remove(a.len() - 1) =~= a1);
        assert(a1.to_multiset() == a.to_multiset().remove(x));
        assert(b1.to_multiset() == b.to_multiset().remove(x));
        lemma_map_values_to_multiset_eq(a1, b1, f);
        assert(a.map_values(f) =~= a1.map_values(f).push(f(x)));
        assert(a.map_values(f).to_multiset() == a1.map_values(f).to_multiset().insert(f(x)));
        assert(b.map_values(f).remove(j) =~= b1.map_values(f));
        assert(b.map_values(f)[j] == f(x));
        assert(b1.map_values(f).to_multiset() == b.map_values(f).to_multiset().remove(f(x)));
        assert(b.map_values(f).to_multiset().count(f(x)) > 0) by {
            assert(b.map_values(f).contains(f(x)));
        }
        assert(b.map_values(f).to_multiset() =~= b1.map_values(f).to_multiset().insert(f(x)));
    }
}

/// Idempotence: two runs over the same files, however their results are
/// reordered by scheduling, group the same digests and give every digest
/// the same collection of paths.
pub proof fn lemma_idempotence(r1: Seq<HashedPath>, r2: Seq<HashedPath>)
    requires
        r1.to_multiset() == r2.to_multiset(),
    ensures
        group_keys(r1).to_set() == group_keys(r2).to_set(),
        forall|h: Seq<char>| #![trigger paths_with_hash(r1, h)] #![trigger paths_with_hash(r2, h)]
            paths_with_hash(r1, h).to_multiset() == paths_with_hash(r2, h).to_multiset(),
{
    assert forall|h: Seq<char>| group_keys(r1).to_set().contains(h) <==> group_keys(
        r2,
    ).to_set().contains(h) by {
        lemma_group_keys_contains(r1, h);
        lemma_group_keys_contains(r2, h);
        if exists|i: int| 0 <= i < r1.len() && r1[i].0 == h {
            let i = choose|i: int| 0 <= i < r1.len() && r1[i].0 == h;
            assert(r1.contains(r1[i]));
            assert(r2.to_multiset().count(r1[i]) > 0);
            assert(r2.contains(r1[i]));
            let t = choose|t: int| 0 <= t < r2.len() && r2[t] == r1[i];
            assert(r2[t].0 == h);
        }
        if exists|i: int| 0 <= i < r2.len() && r2[i].0 == h {
            let i = choose|i: int| 0 <= i < r2.len() && r2[i].0 == h;
            assert(r2.contains(r2[i]));
            assert(r1.to_multiset().count(r2[i]) > 0);
            assert(r1.contains(r2[i]));
            let t = choose|t: int| 0 <= t < r1.len() && r1[t] == r2[i];
            assert(r1[t].0 == h);
        }
    }
    assert(group_keys(r1).to_set() =~= group_keys(r2).to_set());
    assert forall|h: Seq<char>| #![trigger paths_with_hash(r1, h)] #![trigger paths_with_hash(
        r2,
        h,
    )] paths_with_hash(r1, h).to_multiset() == paths_with_hash(r2, h).to_multiset() by {
        let pred = has_hash(h);
        lemma_filter_to_multiset(r1, pred);
        lemma_filter_to_multiset(r2, pred);
        assert(r1.filter(pred).to_multiset() == r2.filter(pred).to_multiset());
        lemma_map_values_to_multiset_eq(r1.filter(pred), r2.filter(pred), path_of());
    }
}

} // verus!
