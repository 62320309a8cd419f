use vstd::prelude::*;
use vstd::arithmetic::div_mod::lemma_fundamental_div_mod;

verus! {

/// How many items each batch but the last receives.
pub open spec fn batch_size(n: int, workers: int) -> int {
    n / workers
}

/// `items` cut into `workers` contiguous batches in order: each batch holds
/// `items.len() / workers` items, and the last also holds what remains after that.
pub open spec fn partition_of<A>(items: Seq<A>, workers: int) -> Seq<Seq<A>> {
    let k = batch_size(items.len() as int, workers);
    Seq::new(
        workers as nat,
        |j: int|
            if j < workers - 1 {
                items.subrange(j * k, (j + 1) * k)
            } else {
                items.subrange(j * k, items.len() as int)
            },
    )
}

pub(crate) proof fn lemma_batches_fit(n: int, workers: int, j: int)
    requires
        0 <= n,
        1 <= workers,
        0 <= j <= workers,
    ensures
        0 <= j * batch_size(n, workers) <= n,
        (j + 1) * batch_size(n, workers) == j * batch_size(n, workers) + batch_size(n, workers),
        0 <= batch_size(n, workers),
{
    let k = batch_size(n, workers);
    lemma_fundamental_div_mod(n, workers);
    assert(0 <= k) by (nonlinear_arith)
        requires
            k == n / workers,
            0 <= n,
            1 <= workers,
    ;
    assert(j * k <= workers * k) by (nonlinear_arith)
        requires
            j <= workers,
            0 <= k,
    ;
    assert(0 <= j * k) by (nonlinear_arith)
        requires
            0 <= j,
            0 <= k,
    ;
    assert((j + 1) * k == j * k + k) by (nonlinear_arith);
}

proof fn lemma_partition_suffix<A>(items: Seq<A>, workers: int, j: int)
    requires
        1 <= workers,
        0 <= j < workers,
    ensures
        partition_of(items, workers).subrange(j, workers).flatten() == items.subrange(
            j * batch_size(items.len() as int, workers),
            items.len() as int,
        ),
    decreases workers - j,
{
    let n = items.len() as int;
    let k = batch_size(n, workers);
    let p = partition_of(items, workers);
    let s = p.subrange(j, workers);
    lemma_batches_fit(n, workers, j);
    lemma_batches_fit(n, workers, j + 1);
    if j == workers - 1 {
        assert(s.drop_first() =~= Seq::<Seq<A>>::empty());
        assert(s.flatten() =~= s[0] + s.drop_first().flatten());
        assert(s.flatten() =~= items.subrange(j * k, n));
    } else {
        lemma_partition_suffix(items, workers, j + 1);
        assert(s.drop_first() =~= p.subrange(j + 1, workers));
        assert(s.flatten() == s[0] + s.drop_first().flatten());
        assert(s.flatten() =~= items.subrange(j * k, n));
    }
}

/// Every item lands in exactly one batch: the batches, laid end to end, give back the
/// items in their order, for any number of workers and any number of items.
pub proof fn lemma_partition_complete<A>(items: Seq<A>, workers: int)
    requires
        1 <= workers,
    ensures
        partition_of(items, workers).len() == workers,
        partition_of(items, workers).flatten() == items,
{
    lemma_partition_suffix(items, workers, 0);
    assert(partition_of(items, workers).subrange(0, workers) =~= partition_of(items, workers));
    assert(items.subrange(0, items.len() as int) =~= items);
}

/// Cuts `items` into `worker_count` contiguous batches, in order; the last batch also takes
/// the items that an even split leaves over.
pub fn partition<T>(items: Vec<T>, worker_count: usize) -> (r: Vec<Vec<T>>)
    requires
        worker_count >= 1,
    ensures
        r@.map_values(|b: Vec<T>| b@) == partition_of(items@, worker_count as int),
{
    let ghost all = items@;
    let n = items.len();
    let k = n / worker_count;
    let mut rest = items;
    let mut out: Vec<Vec<T>> = Vec::new();
    let mut i: usize = 0;
    while i + 1 < worker_count
        invariant
            1 <= worker_count,
            i < worker_count,
            n == all.len(),
            k == batch_size(n as int, worker_count as int),
            out@.len() == i,
            forall|j: int|
                0 <= j < i ==> #[trigger] out@[j]@ == all.subrange(j * k, (j + 1) * k),
            0 <= i * k <= n,
            rest@ == all.subrange(i * k, n as int),
        decreases worker_count - i,
    {
        proof {
            lemma_batches_fit(n as int, worker_count as int, (i + 1) as int);
            lemma_batches_fit(n as int, worker_count as int, i as int);
        }
        let tail = rest.split_off(k);
        out.push(rest);
        rest = tail;
        i = i + 1;
        assert(out@[i - 1]@ == all.subrange((i - 1) * k, i * k));
    }
    out.push(rest);
    assert(out@.map_values(|b: Vec<T>| b@) =~= partition_of(all, worker_count as int));
    out
}

} // verus!
