use vstd::prelude::*;
use crate::aggregate::AggregatePool;
use crate::model::NewsItem;

verus! {

/// The items whose origin is `k`, in pool order.
pub open spec fn group_of(items: Seq<NewsItem>, origins: Seq<usize>, k: int) -> Seq<NewsItem>
    decreases items.len(),
{
    if items.len() == 0 {
        Seq::<NewsItem>::empty()
    } else {
        let rest = group_of(items.drop_last(), origins, k);
        if origins[items.len() - 1] == k {
            rest.push(items.last())
        } else {
            rest
        }
    }
}

/// The sizes of the groups of keyword positions `0..n`, added up.
pub open spec fn group_sizes_sum(items: Seq<NewsItem>, origins: Seq<usize>, n: nat) -> nat
    decreases n,
{
    if n == 0 {
        0
    } else {
        group_sizes_sum(items, origins, (n - 1) as nat) + group_of(
            items,
            origins,
            n - 1,
        ).len()
    }
}

/// The lengths of `groups`, added up.
pub open spec fn total_len(groups: Seq<Vec<NewsItem>>) -> nat
    decreases groups.len(),
{
    if groups.len() == 0 {
        0
    } else {
        total_len(groups.drop_last()) + groups.last()@.len()
    }
}

proof fn lemma_sum_step(items: Seq<NewsItem>, origins: Seq<usize>, m: nat)
    requires
        items.len() > 0,
    ensures
        group_sizes_sum(items, origins, m) == group_sizes_sum(items.drop_last(), origins, m) + (
        if origins[items.len() - 1] < m {
            1nat
        } else {
            0nat
        }),
    decreases m,
{
    if m > 0 {
        lemma_sum_step(items, origins, (m - 1) as nat);
    }
}

/// Grouping by keyword neither loses nor adds items: over the `n` keyword
/// positions, the group sizes add up to the size of the pool.
pub proof fn lemma_partition_preserves_count(items: Seq<NewsItem>, origins: Seq<usize>, n: nat)
    requires
        origins.len() == items.len(),
        forall|i: int| 0 <= i < origins.len() ==> origins[i] < n,
    ensures
        group_sizes_sum(items, origins, n) == items.len(),
{
    lemma_count_prefix(items, origins, n);
}

proof fn lemma_count_prefix(items: Seq<NewsItem>, origins: Seq<usize>, n: nat)
    requires
        items.len() <= origins.len(),
        forall|i: int| 0 <= i < items.len() ==> origins[i] < n,
    ensures
        group_sizes_sum(items, origins, n) == items.len(),
    decreases items.len(),
{
    if items.len() == 0 {
        lemma_sum_of_empty(items, origins, n);
    } else {
        lemma_sum_step(items, origins, n);
        lemma_count_prefix(items.drop_last(), origins, n);
    }
}

proof fn lemma_sum_of_empty(items: Seq<NewsItem>, origins: Seq<usize>, n: nat)
    requires
        items.len() == 0,
    ensures
        group_sizes_sum(items, origins, n) == 0,
    decreases n,
{
    if n > 0 {
        lemma_sum_of_empty(items, origins, (n - 1) as nat);
    }
}

proof fn lemma_total_len(groups: Seq<Vec<NewsItem>>, items: Seq<NewsItem>, origins: Seq<usize>)
    requires
        forall|k: int| 0 <= k < groups.len() ==> groups[k]@ == group_of(items, origins, k),
    ensures
        total_len(groups) == group_sizes_sum(items, origins, groups.len()),
    decreases groups.len(),
{
    if groups.len() > 0 {
        lemma_total_len(groups.drop_last(), items, origins);
    }
}

impl AggregatePool {
    /// Splits the pool into one group per keyword position, each holding the
    /// items found under that keyword in pool order.
    pub fn partition(self) -> (groups: Vec<Vec<NewsItem>>)
        requires
            self.wf(),
        ensures
            groups@.len() == self.keyword_count,
            forall|k: int|
                0 <= k < groups@.len() ==> (#[trigger] groups@[k])@ == group_of(
                    self.items@,
                    self.origins@,
                    k,
                ),
            total_len(groups@) == self.items@.len(),
    {
        let n = self.keyword_count;
        let ghost all = self.items@;
        let ghost origins_all = self.origins@;
        let mut items = self.items;
        let origins = self.origins;
        let mut groups: Vec<Vec<NewsItem>> = Vec::new();
        while groups.len() < n
            invariant
                groups@.len() <= n,
                forall|k: int| 0 <= k < groups@.len() ==> (#[trigger] groups@[k])@.len() == 0,
            decreases n - groups@.len(),
        {
            groups.push(Vec::new());
        }
        assert forall|k: int| 0 <= k < groups@.len() implies (#[trigger] groups@[k])@
            == group_of(all.take(0), origins_all, k) by {
            assert(groups@[k]@ =~= Seq::<NewsItem>::empty());
        }
        let total = items.len();
        let mut i: usize = 0;
        while i < total
            invariant
                i <= total,
                total == all.len(),
                origins@ == origins_all,
                origins_all.len() == all.len(),
                forall|j: int| 0 <= j < origins_all.len() ==> origins_all[j] < n,
                items@ == all.subrange(i as int, total as int),
                groups@.len() == n,
                forall|k: int|
                    0 <= k < groups@.len() ==> (#[trigger] groups@[k])@ == group_of(
                        all.take(i as int),
                        origins_all,
                        k,
                    ),
            decreases total - i,
        {
            let item = items.remove(0);
            let o = origins[i];
            let ghost prev = groups@;
            let mut g = groups.remove(o);
            g.push(item);
            groups.insert(o, g);
            assert(all.take(i + 1).drop_last() == all.take(i as int));
            assert(item == all[i as int]);
            assert forall|k: int| 0 <= k < groups@.len() implies (#[trigger] groups@[k])@
                == group_of(all.take(i + 1), origins_all, k) by {
                if k != o {
                    assert(groups@[k] == prev[k]);
                }
            }
            i = i + 1;
        }
        assert(all.take(total as int) == all);
        proof {
            lemma_total_len(groups@, all, origins_all);
            lemma_partition_preserves_count(all, origins_all, n as nat);
        }
        groups
    }
}

/// `chosen` lists the pool entries at `picks`, which are distinct positions
/// of the pool.
pub open spec fn selects(pool: Seq<NewsItem>, picks: Seq<usize>, chosen: Seq<NewsItem>) -> bool {
    &&& chosen.len() == picks.len()
    &&& forall|i: int| 0 <= i < picks.len() ==> picks[i] < pool.len()
    &&& forall|i: int, j: int| 0 <= i < j < picks.len() ==> picks[i] != picks[j]
    &&& forall|i: int| 0 <= i < picks.len() ==> chosen[i] == pool[picks[i] as int]
}

/// The smaller of `a` and `b`.
pub open spec fn min_len(a: nat, b: nat) -> nat {
    if a < b {
        a
    } else {
        b
    }
}

/// Relies on rand::seq::index::sample, with the thread-local generator:
/// `amount` distinct indices below `length` (it panics if `amount > length`).
#[verifier::external_body]
fn draw_indices(length: usize, amount: usize) -> (r: Vec<usize>)
    requires
        amount <= length,
    ensures
        r@.len() == amount,
        forall|i: int| 0 <= i < r@.len() ==> r@[i] < length,
        forall|i: int, j: int| 0 <= i < j < r@.len() ==> r@[i] != r@[j],
{
    rand::seq::index::sample(&mut rand::thread_rng(), length, amount).into_vec()
}

/// Relies on rand::seq::index::sample, with a `StdRng` seeded from `seed`:
/// `amount` distinct indices below `length` (it panics if `amount > length`).
#[verifier::external_body]
fn draw_indices_seeded(length: usize, amount: usize, seed: u64) -> (r: Vec<usize>)
    requires
        amount <= length,
    ensures
        r@.len() == amount,
        forall|i: int| 0 <= i < r@.len() ==> r@[i] < length,
        forall|i: int, j: int| 0 <= i < j < r@.len() ==> r@[i] != r@[j],
{
    let mut rng = <rand::rngs::StdRng as rand::SeedableRng>::seed_from_u64(seed);
    rand::seq::index::sample(&mut rng, length, amount).into_vec()
}

/// Copies the pool entries at `picks`, in the order of `picks`.
pub fn pick(pool: &Vec<NewsItem>, picks: &Vec<usize>) -> (chosen: Vec<NewsItem>)
    requires
        forall|i: int| 0 <= i < picks@.len() ==> picks@[i] < pool@.len(),
    ensures
        chosen@.len() == picks@.len(),
        forall|i: int| 0 <= i < picks@.len() ==> chosen@[i] == pool@[picks@[i] as int],
{
    let mut chosen: Vec<NewsItem> = Vec::new();
    let mut i: usize = 0;
    while i < picks.len()
        invariant
            i <= picks@.len(),
            forall|j: int| 0 <= j < picks@.len() ==> picks@[j] < pool@.len(),
            chosen@.len() == i,
            forall|j: int| 0 <= j < i ==> chosen@[j] == pool@[picks@[j] as int],
        decreases picks@.len() - i,
    {
        chosen.push(pool[picks[i]].duplicate());
        i = i + 1;
    }
    chosen
}

/// Draws `amount` items uniformly at random without replacement, or the whole
/// pool in random order when it holds fewer.
pub fn sample(pool: &Vec<NewsItem>, amount: usize) -> (chosen: Vec<NewsItem>)
    ensures
        chosen@.len() == min_len(pool@.len(), amount as nat),
        exists|picks: Seq<usize>| selects(pool@, picks, chosen@),
{
    let k = if amount < pool.len() {
        amount
    } else {
        pool.len()
    };
    let picks = draw_indices(pool.len(), k);
    let chosen = pick(pool, &picks);
    assert(selects(pool@, picks@, chosen@));
    chosen
}

/// As `sample`, with the random generator seeded from `seed`, so that a draw
/// can be repeated.
pub fn sample_seeded(pool: &Vec<NewsItem>, amount: usize, seed: u64) -> (chosen: Vec<NewsItem>)
    ensures
        chosen@.len() == min_len(pool@.len(), amount as nat),
        exists|picks: Seq<usize>| selects(pool@, picks, chosen@),
{
    let k = if amount < pool.len() {
        amount
    } else {
        pool.len()
    };
    let picks = draw_indices_seeded(pool.len(), k, seed);
    let chosen = pick(pool, &picks);
    assert(selects(pool@, picks@, chosen@));
    chosen
}

} // verus!
