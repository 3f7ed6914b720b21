//! The grouping engine: accumulates (digest, path) pairs into groups of
//! paths keyed by digest, keys unique and ordered by first appearance,
//! paths within a group ordered as consumed; then filters the groups down
//! to those with at least two members.

use vstd::prelude::*;

verus! {

/// One reported group: a digest and every path whose content produced it.
pub struct FileHashEntry {
    pub hash: String,
    pub paths: Vec<String>,
}

impl FileHashEntry {
    /// Builds a group from its digest and path list.
    pub fn new(hash: String, paths: Vec<String>) -> (r: FileHashEntry)
        ensures
            r.hash == hash,
            r.paths == paths,
    {
        FileHashEntry { hash, paths }
    }
}

/// The mathematical image of one (digest, path) result pair.
pub type HashedPath = (Seq<char>, Seq<char>);

/// The mathematical image of one group: its digest and its path list.
pub type GroupView = (Seq<char>, Seq<Seq<char>>);

/// The views of a vector of (digest, path) pairs.
pub open spec fn pair_views(results: Seq<(String, String)>) -> Seq<HashedPath> {
    results.map_values(|p: (String, String)| (p.0@, p.1@))
}

/// The view of one built group.
pub open spec fn entry_view(e: FileHashEntry) -> GroupView {
    (e.hash@, e.paths@.map_values(|p: String| p@))
}

/// The views of a vector of built groups.
pub open spec fn entry_views(es: Seq<FileHashEntry>) -> Seq<GroupView> {
    es.map_values(|e: FileHashEntry| entry_view(e))
}

/// The predicate picking the results whose digest is `h`.
pub open spec fn has_hash(h: Seq<char>) -> spec_fn(HashedPath) -> bool {
    |r: HashedPath| r.0 == h
}

/// The projection from a result pair to its path.
pub open spec fn path_of() -> spec_fn(HashedPath) -> Seq<char> {
    |r: HashedPath| r.1
}

/// The paths among `results` whose digest is `h`, in consumption order.
pub open spec fn paths_with_hash(results: Seq<HashedPath>, h: Seq<char>) -> Seq<Seq<char>> {
    results.filter(has_hash(h)).map_values(path_of())
}

/// The distinct digests among `results`, ordered by first appearance.
pub open spec fn group_keys(results: Seq<HashedPath>) -> Seq<Seq<char>>
    decreases results.len(),
{
    if results.len() == 0 {
        Seq::empty()
    } else {
        let prior = group_keys(results.drop_last());
        if prior.contains(results.last().0) {
            prior
        } else {
            prior.push(results.last().0)
        }
    }
}

/// What grouping returns: one group per distinct digest, keyed in order of
/// first appearance, holding every path with that digest.
pub open spec fn group_model(results: Seq<HashedPath>) -> Seq<GroupView> {
    group_keys(results).map_values(|h: Seq<char>| (h, paths_with_hash(results, h)))
}

/// A group large enough to report: two or more members.
pub open spec fn is_dup_group(g: GroupView) -> bool {
    g.1.len() >= 2
}

/// The predicate picking the groups worth reporting.
pub open spec fn dup_pred() -> spec_fn(GroupView) -> bool {
    |g: GroupView| is_dup_group(g)
}

/// The groups worth reporting: those with at least two members.
pub open spec fn dup_model(results: Seq<HashedPath>) -> Seq<GroupView> {
    group_model(results).filter(dup_pred())
}

/// A digest occurs among the keys exactly when some result carries it.
pub proof fn lemma_group_keys_contains(results: Seq<HashedPath>, h: Seq<char>)
    ensures
        group_keys(results).contains(h) <==> (exists|i: int|
            0 <= i < results.len() && results[i].0 == h),
    decreases results.len(),
{
    if results.len() == 0 {
    } else {
        let prefix = results.drop_last();
        lemma_group_keys_contains(prefix, h);
        let prior = group_keys(prefix);
        if prior.contains(results.last().0) {
            if exists|i: int| 0 <= i < results.len() && results[i].0 == h {
                let i = choose|i: int| 0 <= i < results.len() && results[i].0 == h;
                if i == results.len() - 1 {
                    assert(results.last().0 == h);
                } else {
                    assert(prefix[i].0 == h);
                }
            }
        } else {
            if group_keys(results).contains(h) {
                let j = choose|j: int|
                    0 <= j < group_keys(results).len() && group_keys(results)[j] == h;
                if j < prior.len() {
                    assert(prior.contains(h));
                } else {
                    assert(h == results.last().0);
                    assert(results[results.len() - 1].0 == h);
                }
            }
            if exists|i: int| 0 <= i < results.len() && results[i].0 == h {
                let i = choose|i: int| 0 <= i < results.len() && results[i].0 == h;
                if i == results.len() - 1 {
                    assert(group_keys(results)[group_keys(results).len() - 1] == h);
                } else {
                    assert(prefix[i].0 == h);
                    assert(prior.contains(h));
                    let j = choose|j: int| 0 <= j < prior.len() && prior[j] == h;
                    assert(group_keys(results)[j] == h);
                }
            }
        }
    }
}

/// The keys never repeat: one group per distinct digest.
pub proof fn lemma_group_keys_distinct(results: Seq<HashedPath>)
    ensures
        forall|i: int, j: int|
            0 <= i < j < group_keys(results).len() ==> group_keys(results)[i] != group_keys(
                results,
            )[j],
    decreases results.len(),
{
    if results.len() == 0 {
    } else {
        let prefix = results.drop_last();
        lemma_group_keys_distinct(prefix);
        let prior = group_keys(prefix);
        if prior.contains(results.last().0) {
        } else {
            assert(forall|i: int|
                0 <= i < prior.len() ==> prior[i] != results.last().0) by {
                assert(forall|i: int|
                    0 <= i < prior.len() && prior[i] == results.last().0 ==> prior.contains(
                        results.last().0,
                    ));
            }
        }
    }
}

/// Appending one result either keeps the keys (digest already seen) or
/// appends its digest as the newest key.
pub proof fn lemma_group_keys_push(results: Seq<HashedPath>, x: HashedPath)
    ensures
        group_keys(results).contains(x.0) ==> group_keys(results.push(x)) == group_keys(results),
        !group_keys(results).contains(x.0) ==> group_keys(results.push(x)) == group_keys(
            results,
        ).push(x.0),
{
    assert(results.push(x).drop_last() =~= results);
    assert(results.push(x).last() == x);
}

/// Appending one result extends the path list of its own digest and no
/// other.
pub proof fn lemma_paths_with_hash_push(results: Seq<HashedPath>, x: HashedPath, h: Seq<char>)
    ensures
        x.0 == h ==> paths_with_hash(results.push(x), h) == paths_with_hash(results, h).push(x.1),
        x.0 != h ==> paths_with_hash(results.push(x), h) == paths_with_hash(results, h),
{
    let pred = has_hash(h);
    let f = path_of();
    results.lemma_filter_push(x, pred);
    if x.0 == h {
        assert(results.push(x).filter(pred) == results.filter(pred).push(x));
        assert(results.filter(pred).push(x).map_values(f) =~= results.filter(pred).map_values(
            f,
        ).push(x.1));
    } else {
        assert(results.push(x).filter(pred) == results.filter(pred));
    }
}

/// A digest carried by no result has no paths.
pub proof fn lemma_paths_with_hash_absent(results: Seq<HashedPath>, h: Seq<char>)
    requires
        forall|i: int| 0 <= i < results.len() ==> results[i].0 != h,
    ensures
        paths_with_hash(results, h) == Seq::<Seq<char>>::empty(),
{
    let pred = has_hash(h);
    assert(results.all(|r: HashedPath| !pred(r)));
    results.lemma_all_neg_filter_empty(pred);
    assert(paths_with_hash(results, h) =~= Seq::<Seq<char>>::empty());
}

/// Finds the group already keyed by `hash`, if any.
fn find_group(groups: &Vec<FileHashEntry>, hash: &String) -> (r: Option<usize>)
    ensures
        match r {
            Some(j) => j < groups@.len() && groups@[j as int].hash@ == hash@,
            None => forall|t: int| 0 <= t < groups@.len() ==> groups@[t].hash@ != hash@,
        },
{
    let mut j: usize = 0;
    while j < groups.len()
        invariant
            j <= groups@.len(),
            forall|t: int| 0 <= t < j ==> groups@[t].hash@ != hash@,
        decreases groups@.len() - j,
    {
        if groups[j].hash == *hash {
            return Some(j);
        }
        j = j + 1;
    }
    None
}

/// Accumulates (digest, path) pairs into groups: one group per distinct
/// digest, keyed in order of first appearance, each holding every path
/// that produced its digest, in consumption order.
pub fn group_by_hash(results: Vec<(String, String)>) -> (r: Vec<FileHashEntry>)
    ensures
        entry_views(r@) == group_model(pair_views(results@)),
{
    let ghost rv = pair_views(results@);
    let mut groups: Vec<FileHashEntry> = Vec::new();
    let mut k: usize = 0;
    proof {
        assert(entry_views(groups@) =~= group_model(rv.take(0)));
    }
    while k < results.len()
        invariant
            k <= results@.len(),
            rv == pair_views(results@),
            entry_views(groups@) == group_model(rv.take(k as int)),
        decreases results@.len() - k,
    {
        let pair: &(String, String) = &results[k];
        let hash: String = pair.0.clone();
        let path: String = pair.1.clone();
        let ghost prefix = rv.take(k as int);
        let ghost x = rv[k as int];
        let ghost old_groups = groups@;
        proof {
            assert(x == (hash@, path@));
            assert(rv.take(k as int + 1) =~= prefix.push(x));
            lemma_group_keys_distinct(prefix);
            assert(forall|t: int|
                0 <= t < old_groups.len() ==> #[trigger] entry_views(old_groups)[t]
                    == group_model(prefix)[t]);
        }
        match find_group(&groups, &hash) {
            Some(j) => {
                let mut e = groups.remove(j);
                e.paths.push(path);
                let ghost e_new = e;
                groups.insert(j, e);
                proof {
                    let keys = group_keys(prefix);
                    assert(entry_views(old_groups).len() == old_groups.len());
                    assert(group_model(prefix).len() == keys.len());
                    assert(entry_views(old_groups)[j as int] == entry_view(old_groups[j as int]));
                    assert(group_model(prefix)[j as int] == (keys[j as int], paths_with_hash(
                        prefix,
                        keys[j as int],
                    )));
                    assert(old_groups[j as int].hash@ == keys[j as int]);
                    assert(keys.contains(x.0)) by {
                        assert(keys[j as int] == x.0);
                    }
                    lemma_group_keys_push(prefix, x);
                    assert(groups@ =~= old_groups.update(j as int, e_new));
                    assert(e_new.paths@ =~= old_groups[j as int].paths@.push(path));
                    assert(e_new.paths@.map_values(|p: String| p@) =~= old_groups[
                        j as int
                    ].paths@.map_values(|p: String| p@).push(path@));
                    assert forall|t: int| 0 <= t < groups@.len() implies #[trigger] entry_views(
                        groups@,
                    )[t] == group_model(prefix.push(x))[t] by {
                        assert(group_keys(prefix.push(x)) == keys);
                        assert(groups@.len() == old_groups.len());
                        assert(entry_views(groups@)[t] == entry_view(groups@[t]));
                        assert(group_model(prefix.push(x))[t] == (keys[t], paths_with_hash(
                            prefix.push(x),
                            keys[t],
                        )));
                        lemma_paths_with_hash_push(prefix, x, keys[t]);
                        if t == j {
                            assert(groups@[t] == e_new);
                            assert(entry_view(old_groups[t]) == group_model(prefix)[t]);
                            assert(entry_view(e_new).1 == paths_with_hash(prefix, keys[t]).push(
                                x.1,
                            ));
                        } else {
                            assert(keys[t] != x.0);
                            assert(groups@[t] == old_groups[t]);
                            assert(entry_views(old_groups)[t] == group_model(prefix)[t]);
                            assert(entry_view(old_groups[t]) == (keys[t], paths_with_hash(
                                prefix,
                                keys[t],
                            )));
                        }
                    }
                    assert(entry_views(groups@) =~= group_model(prefix.push(x)));
                }
            },
            None => {
                let mut ps: Vec<String> = Vec::new();
                ps.push(path);
                let e = FileHashEntry::new(hash, ps);
                let ghost e_new = e;
                groups.push(e);
                proof {
                    let keys = group_keys(prefix);
                    assert(entry_views(old_groups).len() == old_groups.len());
                    assert(group_model(prefix).len() == keys.len());
                    assert(!keys.contains(x.0)) by {
                        if keys.contains(x.0) {
                            let t = choose|t: int| 0 <= t < keys.len() && keys[t] == x.0;
                            assert(entry_views(old_groups)[t] == group_model(prefix)[t]);
                            assert(entry_views(old_groups)[t] == entry_view(old_groups[t]));
                            assert(group_model(prefix)[t] == (keys[t], paths_with_hash(
                                prefix,
                                keys[t],
                            )));
                            assert(old_groups[t].hash@ == x.0);
                        }
                    }
                    lemma_group_keys_push(prefix, x);
                    lemma_group_keys_contains(prefix, x.0);
                    lemma_paths_with_hash_absent(prefix, x.0);
                    lemma_paths_with_hash_push(prefix, x, x.0);
                    assert(e_new.paths@.map_values(|p: String| p@) =~= Seq::<
                        Seq<char>,
                    >::empty().push(path@));
                    assert(entry_view(e_new).1 == paths_with_hash(prefix.push(x), x.0));
                    assert forall|t: int| 0 <= t < groups@.len() implies #[trigger] entry_views(
                        groups@,
                    )[t] == group_model(prefix.push(x))[t] by {
                        let keys2 = group_keys(prefix.push(x));
                        assert(keys2 == keys.push(x.0));
                        assert(groups@ =~= old_groups.push(e_new));
                        assert(entry_views(groups@)[t] == entry_view(groups@[t]));
                        assert(group_model(prefix.push(x))[t] == (keys2[t], paths_with_hash(
                            prefix.push(x),
                            keys2[t],
                        )));
                        if t < old_groups.len() {
                            lemma_paths_with_hash_push(prefix, x, keys[t]);
                            assert(keys[t] != x.0) by {
                                if keys[t] == x.0 {
                                    assert(keys.contains(x.0));
                                }
                            }
                            assert(groups@[t] == old_groups[t]);
                            assert(entry_views(old_groups)[t] == group_model(prefix)[t]);
                            assert(entry_view(old_groups[t]) == (keys[t], paths_with_hash(
                                prefix,
                                keys[t],
                            )));
                        } else {
                            assert(groups@[t] == e_new);
                            assert(keys2[t] == x.0);
                        }
                    }
                    assert(entry_views(groups@) =~= group_model(prefix.push(x)));
                }
            },
        }
        k = k + 1;
    }
    proof {
        assert(rv.take(results@.len() as int) =~= rv);
    }
    groups
}

/// Keeps only the groups with at least two members, in order.
pub fn filter_duplicates(groups: Vec<FileHashEntry>) -> (r: Vec<FileHashEntry>)
    ensures
        entry_views(r@) == entry_views(groups@).filter(dup_pred()),
        forall|t: int| 0 <= t < r@.len() ==> #[trigger] r@[t].paths@.len() >= 2,
{
    let ghost all = groups@;
    let mut rest = groups;
    let mut out: Vec<FileHashEntry> = Vec::new();
    let ghost mut k: int = 0;
    proof {
        assert(entry_views(out@) =~= entry_views(all.take(0)).filter(dup_pred()));
        assert(rest@ =~= all.skip(0));
    }
    while rest.len() > 0
        invariant
            0 <= k <= all.len(),
            rest@ == all.skip(k),
            entry_views(out@) == entry_views(all.take(k)).filter(dup_pred()),
            forall|t: int| 0 <= t < out@.len() ==> #[trigger] out@[t].paths@.len() >= 2,
        decreases rest@.len(),
    {
        let ghost prefix = entry_views(all.take(k));
        let g = rest.remove(0);
        let ghost gv = entry_view(g);
        proof {
            assert(g == all[k]);
            assert(all.take(k + 1) =~= all.take(k).push(g));
            assert(entry_views(all.take(k + 1)) =~= prefix.push(gv));
            prefix.lemma_filter_push(gv, dup_pred());
            assert(rest@ =~= all.skip(k + 1));
        }
        if g.paths.len() >= 2 {
            proof {
                assert(gv.1.len() == g.paths@.len());
            }
            out.push(g);
            proof {
                assert(entry_views(out@) =~= prefix.filter(dup_pred()).push(gv));
            }
        } else {
            proof {
                assert(gv.1.len() == g.paths@.len());
                assert(entry_views(out@) =~= prefix.filter(dup_pred()));
            }
        }
        proof {
            k = k + 1;
        }
    }
    proof {
        assert(all.take(all.len() as int) =~= all);
    }
    out
}

/// The whole aggregation step: groups the results and keeps the groups
/// with at least two members.
pub fn duplicate_groups(results: Vec<(String, String)>) -> (r: Vec<FileHashEntry>)
    ensures
        entry_views(r@) == dup_model(pair_views(results@)),
        forall|t: int| 0 <= t < r@.len() ==> #[trigger] r@[t].paths@.len() >= 2,
{
    let grouped = group_by_hash(results);
    filter_duplicates(grouped)
}

} // verus!
