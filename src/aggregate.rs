use vstd::prelude::*;
use crate::model::{FeedError, NewsItem};

verus! {

/// The outcome of one query, as it came back from the provider.
pub struct Arrival {
    /// The position of the query's keyword in the submitted keyword list.
    pub index: usize,
    pub outcome: Result<Vec<NewsItem>, FeedError>,
}

/// A query that failed, attributed to its keyword.
#[derive(Clone, Debug)]
pub struct QueryFailure {
    pub index: usize,
    pub keyword: String,
    pub error: FeedError,
}

/// Every item fetched in one run, in keyword-submission order, with the
/// keyword position of each item and the list of failed queries.
pub struct AggregatePool {
    pub keyword_count: usize,
    pub items: Vec<NewsItem>,
    /// `origins[i]` is the keyword position that `items[i]` was found under.
    pub origins: Vec<usize>,
    pub failures: Vec<QueryFailure>,
}

/// Each of the `n` keyword positions has exactly one arrival, and no arrival
/// names another position.
pub open spec fn arrivals_complete(arrivals: Seq<Arrival>, n: nat) -> bool {
    &&& forall|j: int| 0 <= j < arrivals.len() ==> arrivals[j].index < n
    &&& forall|j: int, l: int|
        0 <= j < l < arrivals.len() ==> arrivals[j].index != arrivals[l].index
    &&& forall|k: int| 0 <= k < n ==> #[trigger] has_arrival(arrivals, k)
}

/// Some arrival names keyword position `k`.
pub open spec fn has_arrival(arrivals: Seq<Arrival>, k: int) -> bool {
    exists|j: int| 0 <= j < arrivals.len() && arrivals[j].index == k
}

/// The outcomes of `arrivals` listed by keyword position.
pub open spec fn in_keyword_order(arrivals: Seq<Arrival>, n: nat) -> Seq<
    Result<Vec<NewsItem>, FeedError>,
> {
    Seq::new(
        n,
        |k: int| arrivals[choose|j: int| 0 <= j < arrivals.len() && arrivals[j].index == k].outcome,
    )
}

/// The items of the successful outcomes, one outcome after the other.
pub open spec fn pooled(outs: Seq<Result<Vec<NewsItem>, FeedError>>) -> Seq<NewsItem>
    decreases outs.len(),
{
    if outs.len() == 0 {
        Seq::<NewsItem>::empty()
    } else {
        pooled(outs.drop_last()) + match outs.last() {
            Ok(v) => v@,
            Err(_) => Seq::<NewsItem>::empty(),
        }
    }
}

/// For each item of `pooled(outs)`, the position of the outcome it came from.
pub open spec fn pooled_origins(outs: Seq<Result<Vec<NewsItem>, FeedError>>) -> Seq<usize>
    decreases outs.len(),
{
    if outs.len() == 0 {
        Seq::<usize>::empty()
    } else {
        pooled_origins(outs.drop_last()) + match outs.last() {
            Ok(v) => Seq::new(v@.len(), |i: int| (outs.len() - 1) as usize),
            Err(_) => Seq::<usize>::empty(),
        }
    }
}

/// The failed outcomes, in keyword order, each with its keyword.
pub open spec fn failures_of(
    keywords: Seq<String>,
    outs: Seq<Result<Vec<NewsItem>, FeedError>>,
) -> Seq<QueryFailure>
    decreases outs.len(),
{
    if outs.len() == 0 {
        Seq::<QueryFailure>::empty()
    } else {
        failures_of(keywords, outs.drop_last()) + match outs.last() {
            Ok(_) => Seq::<QueryFailure>::empty(),
            Err(e) => seq![
                QueryFailure {
                    index: (outs.len() - 1) as usize,
                    keyword: keywords[outs.len() - 1],
                    error: e,
                },
            ],
        }
    }
}

impl AggregatePool {
    /// Items and origins run in parallel; origins are valid keyword positions
    /// and never decrease, so each keyword's items form one block, in
    /// keyword-submission order.
    pub open spec fn wf(&self) -> bool {
        &&& self.origins@.len() == self.items@.len()
        &&& forall|i: int| 0 <= i < self.origins@.len() ==> self.origins@[i] < self.keyword_count
        &&& forall|i: int, j: int|
            0 <= i <= j < self.origins@.len() ==> self.origins@[i] <= self.origins@[j]
    }
}

/// Merges the outcomes of one run, given in the order in which they arrived,
/// into a pool ordered by keyword position; failures are recorded, not fatal.
pub fn aggregate(keywords: &Vec<String>, arrivals: Vec<Arrival>) -> (pool: AggregatePool)
    requires
        arrivals_complete(arrivals@, keywords@.len()),
    ensures
        pool.wf(),
        pool.keyword_count == keywords@.len(),
        pool.items@ == pooled(in_keyword_order(arrivals@, keywords@.len())),
        pool.origins@ == pooled_origins(in_keyword_order(arrivals@, keywords@.len())),
        pool.failures@ == failures_of(keywords@, in_keyword_order(arrivals@, keywords@.len())),
{
    let n = keywords.len();
    let ghost orig = arrivals@;
    let ghost outs = in_keyword_order(orig, n as nat);
    let mut arrivals = arrivals;
    let mut slots: Vec<Option<Result<Vec<NewsItem>, FeedError>>> = Vec::new();
    while slots.len() < n
        invariant
            slots@.len() <= n,
            forall|k: int| 0 <= k < slots@.len() ==> slots@[k] is None,
        decreases n - slots@.len(),
    {
        slots.push(None);
    }
    while arrivals.len() > 0
        invariant
            slots@.len() == n,
            n == keywords@.len(),
            arrivals_complete(orig, n as nat),
            arrivals@.len() <= orig.len(),
            arrivals@ == orig.take(arrivals@.len() as int),
            forall|j: int|
                arrivals@.len() <= j < orig.len() ==> slots@[orig[j].index as int] == Some(
                    orig[j].outcome,
                ),
        decreases arrivals@.len(),
    {
        let ghost at = arrivals@.len() - 1;
        assert(arrivals@[at] == orig[at]);
        let a = arrivals.pop().unwrap();
        assert(a == orig[at]);
        assert(a.index < n);
        slots.set(a.index, Some(a.outcome));
        assert(arrivals@ == orig.take(arrivals@.len() as int));
        assert forall|j: int| arrivals@.len() <= j < orig.len() implies slots@[orig[j].index as int]
            == Some(orig[j].outcome) by {
            if j > at {
                assert(orig[j].index != orig[at].index);
            }
        }
    }
    assert forall|k: int| 0 <= k < n implies slots@[k] == Some(#[trigger] outs[k]) by {
        assert(has_arrival(orig, k));
        let j = choose|j: int| 0 <= j < orig.len() && orig[j].index == k;
    }
    let ghost all_slots = slots@;
    let mut items: Vec<NewsItem> = Vec::new();
    let mut origins: Vec<usize> = Vec::new();
    let mut failures: Vec<QueryFailure> = Vec::new();
    let mut k: usize = 0;
    while k < n
        invariant
            k <= n,
            n == keywords@.len(),
            outs.len() == n,
            all_slots.len() == n,
            slots@ == all_slots.subrange(k as int, n as int),
            forall|m: int| 0 <= m < n ==> all_slots[m] == Some(#[trigger] outs[m]),
            items@ == pooled(outs.take(k as int)),
            origins@ == pooled_origins(outs.take(k as int)),
            failures@ == failures_of(keywords@, outs.take(k as int)),
            origins@.len() == items@.len(),
            forall|i: int| 0 <= i < origins@.len() ==> origins@[i] < k,
            forall|i: int, j: int| 0 <= i <= j < origins@.len() ==> origins@[i] <= origins@[j],
        decreases n - k,
    {
        let slot = slots.remove(0);
        assert(slot == Some(outs[k as int]));
        let ghost before = outs.take(k as int);
        assert(outs.take(k + 1).drop_last() == before);
        match slot {
            Some(Ok(found)) => {
                let mut found = found;
                let ghost start = origins@;
                let mut c: usize = 0;
                while c < found.len()
                    invariant
                        c <= found@.len(),
                        origins@ == start + Seq::new(c as nat, |i: int| k),
                    decreases found@.len() - c,
                {
                    origins.push(k);
                    c = c + 1;
                    assert(origins@ == start + Seq::new(c as nat, |i: int| k));
                }
                items.append(&mut found);
            },
            Some(Err(e)) => {
                let failure = QueryFailure { index: k, keyword: keywords[k].clone(), error: e };
                failures.push(failure);
            },
            None => {},
        }
        k = k + 1;
    }
    assert(outs.take(n as int) == outs);
    AggregatePool { keyword_count: n, items, origins, failures }
}

/// The pool does not depend on the order in which the queries completed: two
/// arrival orders that give each keyword the same outcome yield the same
/// items, origins and failures.
pub proof fn lemma_arrival_order_irrelevant(
    keywords: Seq<String>,
    first: Seq<Arrival>,
    second: Seq<Arrival>,
)
    requires
        arrivals_complete(first, keywords.len()),
        arrivals_complete(second, keywords.len()),
        forall|i: int, j: int|
            0 <= i < first.len() && 0 <= j < second.len() && first[i].index == second[j].index
                ==> first[i].outcome == second[j].outcome,
    ensures
        in_keyword_order(first, keywords.len()) == in_keyword_order(second, keywords.len()),
        pooled(in_keyword_order(first, keywords.len())) == pooled(
            in_keyword_order(second, keywords.len()),
        ),
        pooled_origins(in_keyword_order(first, keywords.len())) == pooled_origins(
            in_keyword_order(second, keywords.len()),
        ),
        failures_of(keywords, in_keyword_order(first, keywords.len())) == failures_of(
            keywords,
            in_keyword_order(second, keywords.len()),
        ),
{
    let n = keywords.len();
    let a = in_keyword_order(first, n);
    let b = in_keyword_order(second, n);
    assert forall|k: int| 0 <= k < n implies a[k] == b[k] by {
        assert(has_arrival(first, k));
        assert(has_arrival(second, k));
    }
    assert(a == b);
}

/// When every query fails, the pool is empty and every keyword is reported
/// as a failure, in order.
pub proof fn lemma_all_failures(
    keywords: Seq<String>,
    outs: Seq<Result<Vec<NewsItem>, FeedError>>,
)
    requires
        outs.len() <= keywords.len(),
        forall|k: int| 0 <= k < outs.len() ==> outs[k] is Err,
    ensures
        pooled(outs).len() == 0,
        pooled_origins(outs).len() == 0,
        failures_of(keywords, outs).len() == outs.len(),
        forall|k: int|
            0 <= k < outs.len() ==> (#[trigger] failures_of(keywords, outs)[k]).index == k as usize
                && failures_of(keywords, outs)[k].keyword == keywords[k],
    decreases outs.len(),
{
    if outs.len() > 0 {
        let prefix = outs.drop_last();
        lemma_all_failures(keywords, prefix);
        let fs = failures_of(keywords, outs);
        let ps = failures_of(keywords, prefix);
        assert forall|k: int| 0 <= k < outs.len() implies (#[trigger] fs[k]).index == k as usize
            && fs[k].keyword == keywords[k] by {
            if k < prefix.len() {
                assert(fs[k] == ps[k]);
            } else {
                let e = outs.last()->Err_0;
                assert(fs == ps + seq![
                    QueryFailure { index: k as usize, keyword: keywords[k], error: e },
                ]);
            }
        }
    }
}

} // verus!
