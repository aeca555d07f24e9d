//! Cross-function laws of the collector, stated and proved once.

use vstd::prelude::*;

use crate::query::{filter_names, is_substring};
use crate::store::{ClogTracker, MetricView};

verus! {

/// One serialized append step of the write path, exactly as
/// [`ClogTracker::record_metric`] guarantees it: the series under `name`
/// grows by `m` and every other series is untouched.
pub open spec fn metric_step(
    pre: ClogTracker,
    post: ClogTracker,
    name: Seq<char>,
    m: MetricView,
) -> bool {
    &&& m.name == name
    &&& post.series(name) == pre.series(name).push(m)
    &&& forall|n: Seq<char>| n != name ==> #[trigger] post.series(n) == pre.series(n)
}

/// A serialized history of append steps: `tr[0]` is the starting store and
/// each call turns one store into the next.
pub open spec fn is_trace(tr: Seq<ClogTracker>, calls: Seq<(Seq<char>, MetricView)>) -> bool {
    &&& tr.len() == calls.len() + 1
    &&& forall|i: int|
        0 <= i < calls.len() ==> #[trigger] metric_step(tr[i], tr[i + 1], calls[i].0, calls[i].1)
}

/// The observations of `calls` recorded under `n`, in call order.
pub open spec fn calls_for(calls: Seq<(Seq<char>, MetricView)>, n: Seq<char>) -> Seq<MetricView>
    decreases calls.len(),
{
    if calls.len() == 0 {
        Seq::empty()
    } else {
        let rest = calls_for(calls.drop_last(), n);
        if calls.last().0 == n {
            rest.push(calls.last().1)
        } else {
            rest
        }
    }
}

/// Appends lose nothing, reorder nothing, and do not interfere: after any
/// serialized sequence of append steps — in particular any interleaving of
/// concurrent writers, which the store's exclusion guard serializes — every
/// series equals its starting value followed by exactly the observations
/// recorded under its name, in call order.
pub proof fn lemma_trace_series(
    tr: Seq<ClogTracker>,
    calls: Seq<(Seq<char>, MetricView)>,
    n: Seq<char>,
)
    requires
        is_trace(tr, calls),
    ensures
        tr.last().series(n) == tr[0].series(n) + calls_for(calls, n),
    decreases calls.len(),
{
    if calls.len() == 0 {
        assert(tr.last() == tr[0]);
        assert(tr[0].series(n) + calls_for(calls, n) =~= tr[0].series(n));
    } else {
        let tr0 = tr.drop_last();
        let calls0 = calls.drop_last();
        assert(is_trace(tr0, calls0)) by {
            assert forall|i: int| 0 <= i < calls0.len() implies #[trigger] metric_step(
                tr0[i],
                tr0[i + 1],
                calls0[i].0,
                calls0[i].1,
            ) by {
                assert(metric_step(tr[i], tr[i + 1], calls[i].0, calls[i].1));
            }
        }
        lemma_trace_series(tr0, calls0, n);
        let k = calls.len() - 1;
        assert(metric_step(tr[k], tr[k + 1], calls[k].0, calls[k].1));
        assert(tr0.last() == tr[k]);
        assert(tr.last() == tr[k + 1]);
        if calls[k].0 == n {
            assert(tr.last().series(n) =~= tr[0].series(n) + calls_for(calls, n));
        } else {
            assert(tr.last().series(n) =~= tr[0].series(n) + calls_for(calls, n));
        }
    }
}

/// For a sequence of calls all under one name, the recorded observations
/// are exactly the calls' observations: one per call, in call order. With
/// [`lemma_trace_series`], a series that starts empty ends with length
/// equal to the call count and the values in call order.
pub proof fn lemma_same_name_calls(calls: Seq<(Seq<char>, MetricView)>, n: Seq<char>)
    requires
        forall|i: int| 0 <= i < calls.len() ==> (#[trigger] calls[i].0) == n,
    ensures
        calls_for(calls, n).len() == calls.len(),
        forall|i: int|
            0 <= i < calls.len() ==> #[trigger] calls_for(calls, n)[i] == calls[i].1,
    decreases calls.len(),
{
    if calls.len() > 0 {
        let rest = calls.drop_last();
        lemma_same_name_calls(rest, n);
        assert(calls.last().0 == n);
        assert forall|i: int| 0 <= i < calls.len() implies #[trigger] calls_for(calls, n)[i]
            == calls[i].1 by {
            if i < calls.len() - 1 {
                assert(calls_for(rest, n)[i] == rest[i].1);
            }
        }
    }
}

/// The empty query matches every name: filtering with it is the identity.
pub proof fn lemma_empty_query_matches_all(names: Seq<Seq<char>>)
    ensures
        filter_names(names, Seq::<char>::empty()) == names,
    decreases names.len(),
{
    let q = Seq::<char>::empty();
    if names.len() == 0 {
        assert(filter_names(names, q) =~= names);
    } else {
        lemma_empty_query_matches_all(names.drop_last());
        assert(is_substring(q, names.last())) by {
            assert(names.last().subrange(0, 0 + q.len() as int) =~= q);
        }
        assert(filter_names(names, q) =~= names);
    }
}

} // verus!
