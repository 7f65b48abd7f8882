use vstd::prelude::*;
use vstd::set_lib::{lemma_int_range, lemma_map_size, lemma_subset_equality, set_int_range};
use crate::workers::{build_pool, run_in_pool};

verus! {

/// Number of worker threads in the pool built for one parallel run.
pub const THREAD_NUMBER: usize = 10;

/// Inputs of at most this many elements are mapped in the calling thread.
pub const THRESHOLD: usize = 10;

/// A result paired with the position of the input it was computed from.
pub struct OrderedItem<I> {
    pub item: I,
    pub index: usize,
}

impl<I> OrderedItem<I> {
    pub fn new(item: I, index: usize) -> (r: OrderedItem<I>)
        ensures
            r.item == item,
            r.index == index,
    {
        OrderedItem { item, index }
    }
}

/// Why a run produced no output.
#[derive(Debug, Clone, Copy, PartialEq, Eq)]
pub enum ExecuteError {
    /// The worker pool could not be started.
    PoolBuild,
    /// The results that arrived do not carry each position exactly once.
    IncompleteResults,
}

/// Whether a run over `n` inputs uses the worker pool.
pub open spec fn runs_in_parallel(n: nat) -> bool {
    n > THRESHOLD
}

/// `out` holds, at each position, a result that `f` may return for the
/// input at that position.
pub open spec fn maps_to<T, R, F: Fn(T) -> R>(f: F, params: Seq<T>, out: Seq<R>) -> bool {
    &&& out.len() == params.len()
    &&& forall|i: int| 0 <= i < params.len() ==> f.ensures((params[i],), #[trigger] out[i])
}

/// `f` is a function of its argument: it never returns two different results
/// for one input.
pub open spec fn deterministic<T, R, F: Fn(T) -> R>(f: F) -> bool {
    forall|x: T, a: R, b: R| f.ensures((x,), a) && f.ensures((x,), b) ==> a == b
}

/// The tags of `s` are the positions `0..n`, each exactly once.
pub open spec fn tags_are_permutation<R>(s: Seq<OrderedItem<R>>, n: nat) -> bool {
    &&& s.len() == n
    &&& forall|j: int| 0 <= j < s.len() ==> (#[trigger] s[j].index) < n
    &&& forall|a: int, b: int|
        0 <= a < s.len() && 0 <= b < s.len() && a != b ==> s[a].index != s[b].index
}

/// The items of `s` laid out by their tags.
pub open spec fn restored<R>(s: Seq<OrderedItem<R>>, n: nat) -> Seq<R> {
    Seq::new(n, |i: int| s[choose|j: int| 0 <= j < s.len() && s[j].index == i].item)
}

/// Each tagged item is a result that `f` may return for the input at its tag.
pub open spec fn tagged_results_of<T, R, F: Fn(T) -> R>(
    f: F,
    params: Seq<T>,
    s: Seq<OrderedItem<R>>,
) -> bool {
    forall|j: int|
        0 <= j < s.len() ==> {
            &&& (#[trigger] s[j].index) < params.len()
            &&& f.ensures((params[s[j].index as int],), s[j].item)
        }
}

/// Some item of `s` is tagged with `p`.
pub open spec fn has_tag<R>(s: Seq<OrderedItem<R>>, p: int) -> bool {
    exists|j: int| 0 <= j < s.len() && s[j].index == p
}

/// Where the tags are a permutation of `0..n`, every position is the tag of
/// some item.
proof fn lemma_tags_cover<R>(s: Seq<OrderedItem<R>>, n: nat)
    requires
        tags_are_permutation(s, n),
    ensures
        forall|p: int| 0 <= p < n ==> #[trigger] has_tag(s, p),
{
    let positions = set_int_range(0, n as int);
    let tag = |j: int| s[j].index as int;
    lemma_int_range(0, n as int);
    assert(vstd::relations::injective_on(tag, positions));
    let tags = positions.map(tag);
    lemma_map_size(positions, tags, tag);
    assert(tags.subset_of(positions)) by {
        assert forall|p: int| tags.contains(p) implies positions.contains(p) by {
            let j = choose|j: int| positions.contains(j) && tag(j) == p;
            assert(s[j].index < n);
        }
    }
    lemma_subset_equality(tags, positions);
    assert forall|p: int| 0 <= p < n implies #[trigger] has_tag(s, p) by {
        assert(positions.contains(p));
        assert(tags.contains(p));
        let j = choose|j: int| positions.contains(j) && tag(j) == p;
        assert(0 <= j < s.len() && s[j].index == p);
    }
}

/// Where the tags are a permutation of `0..n`, `r` is the restored order
/// exactly when each item stands at its tag.
proof fn lemma_restored_at_tags<R>(s: Seq<OrderedItem<R>>, n: nat, r: Seq<R>)
    requires
        tags_are_permutation(s, n),
        r.len() == n,
        forall|j: int| 0 <= j < s.len() ==> r[#[trigger] s[j].index as int] == s[j].item,
    ensures
        r == restored(s, n),
{
    lemma_tags_cover(s, n);
    assert forall|i: int| 0 <= i < n implies r[i] == restored(s, n)[i] by {
        assert(has_tag(s, i));
        let j = choose|j: int| 0 <= j < s.len() && s[j].index == i;
        assert(r[s[j].index as int] == s[j].item);
    }
    assert(r =~= restored(s, n));
}

/// Laying out tagged results of `f` by their tags gives, at every position, a
/// result of `f` on the input at that position, whatever order the tagged
/// results stand in.
pub proof fn lemma_restored_is_map<T, R, F: Fn(T) -> R>(
    f: F,
    params: Seq<T>,
    s: Seq<OrderedItem<R>>,
)
    requires
        tags_are_permutation(s, params.len()),
        tagged_results_of(f, params, s),
    ensures
        maps_to(f, params, restored(s, params.len())),
{
    let n = params.len();
    lemma_tags_cover(s, n);
    assert forall|i: int| 0 <= i < n implies f.ensures(
        (params[i],),
        #[trigger] restored(s, n)[i],
    ) by {
        assert(has_tag(s, i));
        let j = choose|j: int| 0 <= j < s.len() && s[j].index == i;
        assert(s[j].index < params.len());
    }
}

/// The choice of strategy does not show: for a deterministic `f`, the
/// sequential result and the order restored from the workers' tagged results
/// are the same sequence.
pub proof fn lemma_strategies_agree<T, R, F: Fn(T) -> R>(
    f: F,
    params: Seq<T>,
    sequential: Seq<R>,
    s: Seq<OrderedItem<R>>,
)
    requires
        deterministic(f),
        maps_to(f, params, sequential),
        tags_are_permutation(s, params.len()),
        tagged_results_of(f, params, s),
    ensures
        restored(s, params.len()) == sequential,
{
    lemma_restored_is_map(f, params, s);
    lemma_repeat_calls_agree(f, params, restored(s, params.len()), sequential);
}

/// For a deterministic `f`, any two index-aligned maps of the same inputs are
/// equal: repeated runs give identical outputs.
pub proof fn lemma_repeat_calls_agree<T, R, F: Fn(T) -> R>(
    f: F,
    params: Seq<T>,
    first: Seq<R>,
    second: Seq<R>,
)
    requires
        deterministic(f),
        maps_to(f, params, first),
        maps_to(f, params, second),
    ensures
        first == second,
{
    assert forall|i: int| 0 <= i < first.len() implies first[i] == second[i] by {
        assert(f.ensures((params[i],), first[i]));
        assert(f.ensures((params[i],), second[i]));
    }
    assert(first =~= second);
}

/// Lays out tagged results by their tags: the `Ok` case comes exactly when
/// the tags are `0..n`, each once.
pub fn restore_order<R: Copy>(tagged: &Vec<OrderedItem<R>>, n: usize) -> (result: Result<
    Vec<R>,
    ExecuteError,
>)
    ensures
        result is Ok <==> tags_are_permutation(tagged@, n as nat),
        result matches Ok(r) ==> r@ == restored(tagged@, n as nat),
        result matches Err(e) ==> e == ExecuteError::IncompleteResults,
{
    if tagged.len() != n {
        return Err(ExecuteError::IncompleteResults);
    }
    let mut slots: Vec<Option<R>> = Vec::new();
    let mut i: usize = 0;
    while i < n
        invariant
            i <= n,
            slots.len() == i,
            forall|p: int| 0 <= p < i ==> slots[p] is None,
        decreases n - i,
    {
        slots.push(None);
        i = i + 1;
    }
    let mut j: usize = 0;
    while j < n
        invariant
            j <= n,
            tagged.len() == n,
            slots.len() == n,
            forall|a: int| 0 <= a < j ==> (#[trigger] tagged[a].index) < n,
            forall|a: int, b: int|
                0 <= a < j && 0 <= b < j && a != b ==> tagged[a].index != tagged[b].index,
            forall|a: int| 0 <= a < j ==> slots[#[trigger] tagged[a].index as int] == Some(tagged[a].item),
            forall|p: int|
                0 <= p < n ==> (slots[p] is Some <==> exists|a: int|
                    0 <= a < j && (#[trigger] tagged[a].index) == p),
        decreases n - j,
    {
        let idx = tagged[j].index;
        if idx >= n {
            return Err(ExecuteError::IncompleteResults);
        }
        if slots[idx].is_some() {
            proof {
                let a = choose|a: int| 0 <= a < j && tagged[a].index == idx;
                assert(tagged[a].index == tagged[j as int].index);
            }
            return Err(ExecuteError::IncompleteResults);
        }
        slots.set(idx, Some(tagged[j].item));
        j = j + 1;
    }
    proof {
        lemma_tags_cover(tagged@, n as nat);
        assert forall|q: int| 0 <= q < n implies slots[q] is Some by {
            assert(has_tag(tagged@, q));
            let a = choose|a: int| 0 <= a < tagged.len() && tagged[a].index == q;
            assert(0 <= a < j && tagged[a].index == q);
        }
    }
    let mut out: Vec<R> = Vec::new();
    let mut p: usize = 0;
    while p < n
        invariant
            p <= n,
            slots.len() == n,
            out.len() == p,
            forall|q: int| 0 <= q < p ==> slots[q] == Some(#[trigger] out[q]),
            forall|q: int| 0 <= q < n ==> slots[q] is Some,
        decreases n - p,
    {
        match slots[p] {
            Some(x) => out.push(x),
            None => return Err(ExecuteError::IncompleteResults),
        }
        p = p + 1;
    }
    proof {
        assert forall|a: int| 0 <= a < tagged.len() implies out[#[trigger] tagged[a].index as int]
            == tagged[a].item by {
            assert(slots[tagged[a].index as int] == Some(tagged[a].item));
        }
        lemma_restored_at_tags(tagged@, n as nat, out@);
    }
    Ok(out)
}

/// Applies `function` to each input in order, in the calling thread.
pub fn map_sequential<T: Copy, R, F: Fn(T) -> R>(params: &Vec<T>, function: &F) -> (out: Vec<R>)
    requires
        forall|i: int| 0 <= i < params.len() ==> function.requires((params[i],)),
    ensures
        maps_to(*function, params@, out@),
{
    let mut out: Vec<R> = Vec::new();
    let mut i: usize = 0;
    while i < params.len()
        invariant
            i <= params.len(),
            out.len() == i,
            forall|q: int| 0 <= q < params.len() ==> function.requires((params[q],)),
            forall|q: int| 0 <= q < i ==> function.ensures((params[q],), #[trigger] out[q]),
        decreases params.len() - i,
    {
        out.push(function(params[i]));
        i = i + 1;
    }
    out
}

/// The work of one task: `function` applied to `param`, tagged with `index`.
pub(crate) fn run_task<T, R, F: Fn(T) -> R>(function: &F, param: T, index: usize) -> (r:
    OrderedItem<R>)
    requires
        function.requires((param,)),
    ensures
        r.index == index,
        function.ensures((param,), r.item),
{
    let result = function(param);
    OrderedItem::new(result, index)
}

/// Applies `function` to every input and returns the results in input order.
/// Up to `THRESHOLD` inputs are mapped in the calling thread, which cannot
/// fail; larger inputs are spread over a fresh pool of `THREAD_NUMBER`
/// workers, one job per input, whose tagged results are laid out by their
/// tags. The only failure is a pool that cannot be started.
pub fn smart_execute<T, R, F>(params: Vec<T>, function: F) -> (result: Result<Vec<R>, ExecuteError>)
    where T: Copy + Send + Sync, R: Copy + Send, F: Fn(T) -> R + Sync
    requires
        forall|i: int| 0 <= i < params.len() ==> function.requires((params[i],)),
    ensures
        !runs_in_parallel(params.len() as nat) ==> result is Ok,
        result matches Ok(r) ==> maps_to(function, params@, r@),
        result matches Err(e) ==> runs_in_parallel(params.len() as nat) && e
            == ExecuteError::PoolBuild,
{
    let size = params.len();
    if size <= THRESHOLD {
        return Ok(map_sequential(&params, &function));
    }
    let pool = match build_pool(THREAD_NUMBER) {
        Ok(pool) => pool,
        Err(_) => return Err(ExecuteError::PoolBuild),
    };
    let tagged = run_in_pool(&pool, &params, &function);
    proof {
        assert(tags_are_permutation(tagged@, size as nat));
        assert(tagged_results_of(function, params@, tagged@));
        lemma_restored_is_map(function, params@, tagged@);
    }
    restore_order(&tagged, size)
}

} // verus!
