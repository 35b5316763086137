//! Grouping of a coalesced batch by metric.
use vstd::prelude::*;
use crate::order::{seq_lt, compare_names, lemma_lt_transitive, lemma_lt_irreflexive, lemma_lt_total};
use crate::types::Datum;
use itertools::Itertools;

verus! {

/// The datums of `ds` whose metric is `m`, in their order in `ds`.
pub open spec fn with_metric(ds: Seq<Datum>, m: Seq<char>) -> Seq<Datum> {
    ds.filter(|d: Datum| d.metric@ == m)
}

/// Some group of `groups` is that of metric `m`.
pub open spec fn has_group(groups: Seq<(String, Vec<Datum>)>, m: Seq<char>) -> bool {
    exists|i: int| 0 <= i < groups.len() && groups[i].0@ == m
}

/// `groups` holds, in strictly ascending order of metric, one non-empty group for each
/// metric of `ds`, holding that metric's datums in their order in `ds`.
pub open spec fn groups_of(groups: Seq<(String, Vec<Datum>)>, ds: Seq<Datum>) -> bool {
    &&& forall|i: int, j: int| 0 <= i < j < groups.len() ==> seq_lt(#[trigger] groups[i].0@, #[trigger] groups[j].0@)
    &&& forall|i: int| 0 <= i < groups.len() ==> (#[trigger] groups[i]).1@ == with_metric(ds, groups[i].0@) && groups[i].1@.len() > 0
    &&& forall|t: int| #![trigger ds[t]] 0 <= t < ds.len() ==> has_group(groups, ds[t].metric@)
}

proof fn lemma_with_metric_push(ds: Seq<Datum>, d: Datum, m: Seq<char>)
    ensures
        with_metric(ds.push(d), m) == if d.metric@ == m { with_metric(ds, m).push(d) } else { with_metric(ds, m) },
{
    reveal(Seq::filter);
    assert(ds.push(d).drop_last() =~= ds);
}

proof fn lemma_with_metric_absent(ds: Seq<Datum>, m: Seq<char>)
    requires
        forall|t: int| #![trigger ds[t]] 0 <= t < ds.len() ==> ds[t].metric@ != m,
    ensures
        with_metric(ds, m) == Seq::<Datum>::empty(),
    decreases ds.len(),
{
    if ds.len() > 0 {
        let init = ds.drop_last();
        assert forall|t: int| 0 <= t < init.len() implies (#[trigger] init[t]).metric@ != m by {
            assert(init[t] == ds[t]);
        }
        lemma_with_metric_absent(init, m);
        assert(init.push(ds.last()) =~= ds);
        lemma_with_metric_push(init, ds.last(), m);
    } else {
        assert(with_metric(ds, m) =~= Seq::<Datum>::empty()) by {
            reveal(Seq::filter);
        }
    }
}

proof fn lemma_with_metric_members(ds: Seq<Datum>, m: Seq<char>)
    ensures
        forall|t: int| 0 <= t < ds.len() && ds[t].metric@ == m ==> with_metric(ds, m).contains(#[trigger] ds[t]),
        forall|x: Datum| #[trigger] with_metric(ds, m).contains(x) ==> ds.contains(x) && x.metric@ == m,
    decreases ds.len(),
{
    if ds.len() == 0 {
        assert(with_metric(ds, m) =~= Seq::<Datum>::empty()) by {
            reveal(Seq::filter);
        }
    } else {
        let init = ds.drop_last();
        lemma_with_metric_members(init, m);
        assert(init.push(ds.last()) =~= ds);
        lemma_with_metric_push(init, ds.last(), m);
        assert forall|t: int| 0 <= t < ds.len() && ds[t].metric@ == m implies with_metric(ds, m).contains(#[trigger] ds[t]) by {
            if t < init.len() {
                assert(init[t] == ds[t]);
                let k = choose|k: int| 0 <= k < with_metric(init, m).len() && with_metric(init, m)[k] == init[t];
                assert(with_metric(ds, m)[k] == ds[t]);
            } else {
                assert(with_metric(ds, m).last() == ds[t]);
            }
        }
        assert forall|x: Datum| #[trigger] with_metric(ds, m).contains(x) implies ds.contains(x) && x.metric@ == m by {
            let k = choose|k: int| 0 <= k < with_metric(ds, m).len() && with_metric(ds, m)[k] == x;
            if k < with_metric(init, m).len() {
                assert(with_metric(init, m)[k] == x);
                assert(with_metric(init, m).contains(x));
                let u = choose|u: int| 0 <= u < init.len() && init[u] == x;
                assert(ds[u] == x);
            } else {
                assert(ds[ds.len() - 1] == x);
            }
        }
    }
}

proof fn lemma_groups_transfer(g: Seq<(String, Vec<Datum>)>, s: Seq<Datum>, b: Seq<Datum>)
    requires
        groups_of(g, s),
        forall|m: Seq<char>| #[trigger] with_metric(s, m) == with_metric(b, m),
    ensures
        groups_of(g, b),
{
    assert forall|i: int| 0 <= i < g.len() implies (#[trigger] g[i]).1@ == with_metric(b, g[i].0@) && g[i].1@.len() > 0 by {
        assert(with_metric(s, g[i].0@) == with_metric(b, g[i].0@));
    }
    assert forall|t: int| #![trigger b[t]] 0 <= t < b.len() implies has_group(g, b[t].metric@) by {
        let m = b[t].metric@;
        lemma_with_metric_members(b, m);
        lemma_with_metric_members(s, m);
        assert(with_metric(b, m).contains(b[t]));
        assert(with_metric(s, m) == with_metric(b, m));
        assert(s.contains(b[t]));
        let u = choose|u: int| 0 <= u < s.len() && s[u] == b[t];
        assert(has_group(g, s[u].metric@));
    }
}

/// Relies on itertools::Itertools::sorted_by_key, which sorts with slice::sort_by_key: a stable
/// sort, here by metric under String's order (code points compared from the left).
#[verifier::external_body]
fn sorted_by_metric(batch: Vec<Datum>) -> (r: Vec<Datum>)
    ensures
        forall|i: int, j: int| 0 <= i < j < r@.len() ==> !seq_lt(#[trigger] r@[j].metric@, #[trigger] r@[i].metric@),
        forall|m: Seq<char>| #[trigger] with_metric(r@, m) == with_metric(batch@, m),
{
    batch.into_iter().sorted_by_key(|d| d.metric.clone()).collect()
}

/// Adds `d`, whose metric sorts after no metric of `ds`, to the groups of `ds`: to the last
/// group where that is its metric, else as a new last group.
fn add_to_groups(groups: &mut Vec<(String, Vec<Datum>)>, d: Datum, Ghost(ds): Ghost<Seq<Datum>>)
    requires
        groups_of(old(groups)@, ds),
        forall|t: int| 0 <= t < ds.len() ==> !seq_lt(d.metric@, #[trigger] ds[t].metric@),
    ensures
        groups_of(final(groups)@, ds.push(d)),
{
    let ghost k = d.metric@;
    let ghost ds2 = ds.push(d);
    let n = groups.len();
    let same = n > 0 && compare_names(groups[n - 1].0.as_str(), d.metric.as_str()) == 0;
    let i: usize = if same { n - 1 } else { n };
    let ghost e = groups@;
    proof {
        if !same && n > 0 {
            let last = e[n - 1].0@;
            lemma_with_metric_members(ds, last);
            let x = e[n - 1].1@[0];
            assert(with_metric(ds, last).contains(x));
            let t = choose|t: int| 0 <= t < ds.len() && ds[t] == x;
            assert(!seq_lt(k, ds[t].metric@));
            lemma_lt_total(k, last);
            assert(seq_lt(last, k));
            assert forall|j: int| 0 <= j < i implies seq_lt(#[trigger] e[j].0@, k) by {
                if j < n - 1 {
                    lemma_lt_transitive(e[j].0@, last, k);
                }
            }
        }
    }
    proof {
        lemma_lt_irreflexive(k);
    }
    if same {
        let (name, mut members) = groups.remove(i);
        members.push(d);
        groups.insert(i, (name, members));
        assert(groups@.len() == e.len());
        assert forall|j: int| 0 <= j < groups@.len() implies (#[trigger] groups@[j]).0@ == e[j].0@ by {
            if j != i {
                assert(groups@[j] == e[j]);
            }
        }
        assert forall|a: int, b: int| 0 <= a < b < groups@.len() implies seq_lt(#[trigger] groups@[a].0@, #[trigger] groups@[b].0@) by {
            assert(groups@[a].0@ == e[a].0@);
            assert(groups@[b].0@ == e[b].0@);
        }
        assert forall|j: int| 0 <= j < groups@.len() implies (#[trigger] groups@[j]).1@ == with_metric(ds2, groups@[j].0@) && groups@[j].1@.len() > 0 by {
            lemma_with_metric_push(ds, d, groups@[j].0@);
            if j != i {
                assert(groups@[j] == e[j]);
                if j < i {
                    assert(seq_lt(e[j].0@, e[i as int].0@));
                } else {
                    assert(seq_lt(e[i as int].0@, e[j].0@));
                }
            }
        }
        assert forall|t: int| #![trigger ds2[t]] 0 <= t < ds2.len() implies has_group(groups@, ds2[t].metric@) by {
            if t < ds.len() {
                assert(ds2[t] == ds[t]);
                let j = choose|j: int| 0 <= j < e.len() && e[j].0@ == ds[t].metric@;
                assert(groups@[j].0@ == e[j].0@);
            } else {
                assert(groups@[i as int].0@ == ds2[t].metric@);
            }
        }
    } else {
        proof {
            if i < n {
                lemma_lt_total(e[i as int].0@, k);
            }
            assert forall|j: int| i <= j < n implies seq_lt(k, #[trigger] e[j].0@) by {
                if j > i {
                    lemma_lt_transitive(k, e[i as int].0@, e[j].0@);
                }
            }
            assert forall|t: int| #![trigger ds[t]] 0 <= t < ds.len() implies ds[t].metric@ != k by {
                let j = choose|j: int| 0 <= j < e.len() && e[j].0@ == ds[t].metric@;
                if j < i {
                    assert(seq_lt(e[j].0@, k));
                } else {
                    assert(seq_lt(k, e[j].0@));
                }
            }
            lemma_with_metric_absent(ds, k);
        }
        let name = d.metric.clone();
        let mut members: Vec<Datum> = Vec::new();
        members.push(d);
        groups.insert(i, (name, members));
        assert forall|a: int, b: int| 0 <= a < b < groups@.len() implies seq_lt(#[trigger] groups@[a].0@, #[trigger] groups@[b].0@) by {
            if b < i {
            } else if b == i {
            } else if a < i {
                lemma_lt_transitive(e[a].0@, k, e[b - 1].0@);
            } else if a == i {
            } else {
                assert(seq_lt(e[a - 1].0@, e[b - 1].0@));
            }
        }
        assert forall|j: int| 0 <= j < groups@.len() implies (#[trigger] groups@[j]).1@ == with_metric(ds2, groups@[j].0@) && groups@[j].1@.len() > 0 by {
            lemma_with_metric_push(ds, d, groups@[j].0@);
            if j < i {
                assert(groups@[j] == e[j]);
                assert(seq_lt(e[j].0@, k));
            } else if j > i {
                assert(groups@[j] == e[j - 1]);
                assert(seq_lt(k, e[j - 1].0@));
            } else {
                assert(groups@[j].1@ =~= Seq::<Datum>::empty().push(d));
            }
        }
        assert forall|t: int| #![trigger ds2[t]] 0 <= t < ds2.len() implies has_group(groups@, ds2[t].metric@) by {
            if t < ds.len() {
                assert(ds2[t] == ds[t]);
                let j = choose|j: int| 0 <= j < e.len() && e[j].0@ == ds[t].metric@;
                if j < i {
                    assert(groups@[j].0@ == e[j].0@);
                } else {
                    assert(groups@[j + 1].0@ == e[j].0@);
                }
            } else {
                assert(groups@[i as int].0@ == ds2[t].metric@);
            }
        }
    }
}

/// Partitions a batch by metric: sorts it stably by metric, then cuts it into runs of one
/// metric, giving one group per metric,
/// in ascending order of metric name, each holding that metric's datums in the order of the
/// batch.
pub fn group_metrics(batch: Vec<Datum>) -> (r: Vec<(String, Vec<Datum>)>)
    ensures
        groups_of(r@, batch@),
{
    let ghost unsorted = batch@;
    let sorted = sorted_by_metric(batch);
    let ghost all = sorted@;
    let total = sorted.len();
    let mut rest = sorted;
    let mut groups: Vec<(String, Vec<Datum>)> = Vec::new();
    let mut k: usize = 0;
    assert(all.subrange(0, 0) =~= Seq::<Datum>::empty());
    proof {
        lemma_with_metric_absent(Seq::<Datum>::empty(), Seq::empty());
    }
    while rest.len() > 0
        invariant
            k <= all.len(),
            all.len() == total,
            rest@ == all.subrange(k as int, all.len() as int),
            groups_of(groups@, all.subrange(0, k as int)),
            forall|a: int, b: int| 0 <= a < b < all.len() ==> !seq_lt(#[trigger] all[b].metric@, #[trigger] all[a].metric@),
        decreases rest@.len(),
    {
        let d = rest.remove(0);
        assert(d == all[k as int]);
        assert(all.subrange(0, k as int + 1) =~= all.subrange(0, k as int).push(d));
        assert forall|t: int| 0 <= t < all.subrange(0, k as int).len() implies !seq_lt(d.metric@, #[trigger] all.subrange(0, k as int)[t].metric@) by {
            assert(all.subrange(0, k as int)[t] == all[t]);
            assert(!seq_lt(all[k as int].metric@, all[t].metric@));
        }
        add_to_groups(&mut groups, d, Ghost(all.subrange(0, k as int)));
        assert(rest@ =~= all.subrange(k as int + 1, all.len() as int));
        k = k + 1;
    }
    assert(all.subrange(0, k as int) =~= all);
    proof {
        lemma_groups_transfer(groups@, all, unsorted);
    }
    groups
}

} // verus!
