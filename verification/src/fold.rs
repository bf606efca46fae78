//! Running through values with an operation of the caller's.
use vstd::prelude::*;

verus! {

/// The step from the `k`-th result to the next.
pub open spec fn fold_step<T, G: Fn(T, T) -> T>(op: G, items: Seq<T>, acc: Seq<T>, k: int) -> bool {
    call_ensures(op, (acc[k], items[k]), acc[k + 1])
}

/// `acc` holds the results of a run over `items`, from `start` on.
pub open spec fn fold_run<T, G: Fn(T, T) -> T>(
    op: G,
    start: T,
    items: Seq<T>,
    acc: Seq<T>,
) -> bool {
    &&& acc.len() == items.len() + 1
    &&& acc[0] == start
    &&& forall|k: int| 0 <= k < items.len() ==> #[trigger] fold_step(op, items, acc, k)
}

/// `out` is what `op` gives when it takes in the items one after another.
pub open spec fn folded<T, G: Fn(T, T) -> T>(op: G, start: T, items: Seq<T>, out: T) -> bool {
    exists|acc: Seq<T>| #[trigger] fold_run(op, start, items, acc) && acc.last() == out
}

/// Takes the items in one after another.
pub fn fold<T: Copy, G: Fn(T, T) -> T>(items: &[T], start: T, op: &G) -> (r: T)
    requires
        forall|a: T, b: T| #[trigger] call_requires(*op, (a, b)),
    ensures
        folded(*op, start, items@, r),
{
    let ghost mut accs: Seq<T> = seq![start];
    let mut acc: T = start;
    for i in 0..items.len()
        invariant
            accs.len() == i + 1,
            accs[0] == start,
            accs.last() == acc,
            forall|a: T, b: T| #[trigger] call_requires(*op, (a, b)),
            forall|k: int| 0 <= k < i ==> #[trigger] fold_step(*op, items@, accs, k),
    {
        let next: T = op(acc, items[i]);
        proof {
            let was = accs;
            accs = accs.push(next);
            assert forall|k: int| 0 <= k < i + 1 implies #[trigger] fold_step(
                *op,
                items@,
                accs,
                k,
            ) by {
                if k < i {
                    assert(fold_step(*op, items@, was, k));
                }
            }
        }
        acc = next;
    }
    assert(fold_run(*op, start, items@, accs));
    acc
}

/// The sum of integers.
pub open spec fn total(items: Seq<i64>) -> int
    decreases items.len(),
{
    if items.len() == 0 {
        0
    } else {
        total(items.drop_last()) + items.last()
    }
}

/// Where the operation is exact addition, the result is the sum.
pub proof fn law_folded_is_total<G: Fn(i64, i64) -> i64>(op: G, items: Seq<i64>, out: i64)
    requires
        folded(op, 0i64, items, out),
        forall|a: i64, b: i64, r: i64| #[trigger] call_ensures(op, (a, b), r) ==> r == a + b,
    ensures
        out == total(items),
{
    let acc = choose|acc: Seq<i64>| #[trigger]
        fold_run(op, 0i64, items, acc) && acc.last() == out;
    lemma_run_total(op, items, acc, items.len() as int);
    assert(items.take(items.len() as int) =~= items);
}

proof fn lemma_run_total<G: Fn(i64, i64) -> i64>(op: G, items: Seq<i64>, acc: Seq<i64>, n: int)
    requires
        fold_run(op, 0i64, items, acc),
        0 <= n <= items.len(),
        forall|a: i64, b: i64, r: i64| #[trigger] call_ensures(op, (a, b), r) ==> r == a + b,
    ensures
        acc[n] == total(items.take(n)),
    decreases n,
{
    if n > 0 {
        lemma_run_total(op, items, acc, n - 1);
        assert(fold_step(op, items, acc, n - 1));
        assert(items.take(n).drop_last() =~= items.take(n - 1));
    }
}

/// The value to beat: the one that was picked, or the floor before any was.
pub open spec fn champion<T>(values: Seq<T>, floor: T, at: Option<int>) -> T {
    match at {
        None => floor,
        Some(i) => values[i],
    }
}

/// The step of a search from the `k`-th pick to the next.
pub open spec fn best_step<T, G: Fn(T, T) -> bool>(
    greater: G,
    values: Seq<T>,
    floor: T,
    picks: Seq<Option<int>>,
    k: int,
) -> bool {
    exists|b: bool| #[trigger]
        call_ensures(greater, (values[k], champion(values, floor, picks[k])), b) && picks[k + 1]
            == if b {
            Some(k)
        } else {
            picks[k]
        }
}

/// `picks` holds the picks of a search through `values`, from none on.
pub open spec fn best_run<T, G: Fn(T, T) -> bool>(
    greater: G,
    values: Seq<T>,
    floor: T,
    picks: Seq<Option<int>>,
) -> bool {
    &&& picks.len() == values.len() + 1
    &&& picks[0] is None
    &&& forall|k: int|
        0 <= k < values.len() ==> #[trigger] best_step(greater, values, floor, picks, k)
}

/// `out` is the place of the value that beats the floor and all before it, as a search from the
/// front finds it.
pub open spec fn best<T, G: Fn(T, T) -> bool>(
    greater: G,
    values: Seq<T>,
    floor: T,
    out: Option<int>,
) -> bool {
    exists|picks: Seq<Option<int>>| #[trigger]
        best_run(greater, values, floor, picks) && picks.last() == out
}

/// A place as a number.
pub open spec fn place(at: Option<usize>) -> Option<int> {
    match at {
        None => None,
        Some(i) => Some(i as int),
    }
}

/// Searches for the greatest value over a floor; of equal ones the first is found.
pub fn best_above<T: Copy, G: Fn(T, T) -> bool>(values: &[T], floor: T, greater: &G) -> (r: Option<
    usize,
>)
    requires
        forall|a: T, b: T| #[trigger] call_requires(*greater, (a, b)),
    ensures
        best(*greater, values@, floor, place(r)),
        r matches Some(i) ==> i < values@.len(),
{
    let ghost mut picks: Seq<Option<int>> = seq![None::<int>];
    let mut at: Option<usize> = None;
    let mut top: T = floor;
    for i in 0..values.len()
        invariant
            picks.len() == i + 1,
            picks[0] is None,
            picks.last() == place(at),
            top == champion(values@, floor, place(at)),
            at matches Some(k) ==> k < i,
            forall|a: T, b: T| #[trigger] call_requires(*greater, (a, b)),
            forall|k: int| 0 <= k < i ==> #[trigger] best_step(*greater, values@, floor, picks, k),
    {
        let b: bool = greater(values[i], top);
        let ghost was = picks;
        if b {
            at = Some(i);
            top = values[i];
        }
        proof {
            picks = picks.push(place(at));
            assert(call_ensures(
                *greater,
                (values@[i as int], champion(values@, floor, was[i as int])),
                b,
            ));
            assert forall|k: int| 0 <= k < i + 1 implies #[trigger] best_step(
                *greater,
                values@,
                floor,
                picks,
                k,
            ) by {
                if k < i {
                    assert(best_step(*greater, values@, floor, was, k));
                    let c = choose|c: bool| #[trigger]
                        call_ensures(
                            *greater,
                            (values@[k], champion(values@, floor, was[k])),
                            c,
                        ) && was[k + 1] == if c {
                            Some(k)
                        } else {
                            was[k]
                        };
                    assert(call_ensures(
                        *greater,
                        (values@[k], champion(values@, floor, picks[k])),
                        c,
                    ));
                }
            }
        }
    }
    assert(best_run(*greater, values@, floor, picks));
    at
}

/// Where the comparison is exact, a search finds the first of the greatest values, if it is over
/// the floor, and nothing otherwise.
pub proof fn law_best_is_greatest<G: Fn(i64, i64) -> bool>(
    greater: G,
    values: Seq<i64>,
    floor: i64,
    out: Option<int>,
)
    requires
        best(greater, values, floor, out),
        forall|a: i64, b: i64, r: bool|
            #[trigger] call_ensures(greater, (a, b), r) ==> r == (a > b),
    ensures
        out is None ==> forall|k: int| 0 <= k < values.len() ==> #[trigger] values[k] <= floor,
        out matches Some(i) ==> 0 <= i < values.len() && values[i] > floor && (forall|k: int|
            0 <= k < values.len() ==> #[trigger] values[k] <= values[i]) && (forall|k: int|
            0 <= k < i ==> #[trigger] values[k] < values[i]),
{
    let picks = choose|picks: Seq<Option<int>>| #[trigger]
        best_run(greater, values, floor, picks) && picks.last() == out;
    lemma_best_prefix(greater, values, floor, picks, values.len() as int);
}

proof fn lemma_best_prefix<G: Fn(i64, i64) -> bool>(
    greater: G,
    values: Seq<i64>,
    floor: i64,
    picks: Seq<Option<int>>,
    n: int,
)
    requires
        best_run(greater, values, floor, picks),
        0 <= n <= values.len(),
        forall|a: i64, b: i64, r: bool|
            #[trigger] call_ensures(greater, (a, b), r) ==> r == (a > b),
    ensures
        picks[n] is None ==> forall|k: int| 0 <= k < n ==> #[trigger] values[k] <= floor,
        picks[n] matches Some(i) ==> 0 <= i < n && values[i] > floor && (forall|k: int|
            0 <= k < n ==> #[trigger] values[k] <= values[i]) && (forall|k: int|
            0 <= k < i ==> #[trigger] values[k] < values[i]),
    decreases n,
{
    if n > 0 {
        lemma_best_prefix(greater, values, floor, picks, n - 1);
        assert(best_step(greater, values, floor, picks, n - 1));
    }
}

} // verus!
