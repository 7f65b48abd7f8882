use vstd::prelude::*;
use crate::executor::{runs_in_parallel, smart_execute, ExecuteError};

verus! {

/// The value reached by walking the halve-or-triple sequence from `input`,
/// starting at step `step_number` and stopping at step `k`: the step count is
/// returned once the walk reaches one, otherwise the value in hand at step `k`.
pub open spec fn step_value(input: nat, step_number: nat, k: nat) -> nat
    decreases k - step_number,
{
    if step_number >= k {
        input
    } else if input == 1 {
        step_number
    } else if input % 2 == 0 {
        step_value(input / 2, step_number + 1, k)
    } else {
        step_value(3 * input + 1, step_number + 1, k)
    }
}

/// Every value met by that walk, before it stops, fits in a `u64`.
pub open spec fn step_fits(input: nat, step_number: nat, k: nat) -> bool
    decreases k - step_number,
{
    if step_number >= k || input == 1 {
        true
    } else if input % 2 == 0 {
        step_fits(input / 2, step_number + 1, k)
    } else {
        3 * input + 1 <= u64::MAX && step_fits(3 * input + 1, step_number + 1, k)
    }
}

/// An input of the demo transformation: a starting value and a step limit.
#[derive(Copy, Clone)]
pub struct ItemWithStep {
    pub item: u64,
    pub k: u64,
}

impl ItemWithStep {
    pub fn new(item: u64, k: u64) -> (r: ItemWithStep)
        ensures
            r.item == item,
            r.k == k,
    {
        ItemWithStep { item, k }
    }

    pub open spec fn fits(self) -> bool {
        step_fits(self.item as nat, 0, self.k as nat)
    }
}

/// Walks the halve-or-triple sequence from `input` (see `step_value`).
pub fn step(input: u64, step_number: u64, k: u64) -> (r: u64)
    requires
        step_fits(input as nat, step_number as nat, k as nat),
    ensures
        r as nat == step_value(input as nat, step_number as nat, k as nat),
{
    let mut value: u64 = input;
    let mut n: u64 = step_number;
    while n < k && value != 1
        invariant
            step_fits(value as nat, n as nat, k as nat),
            step_value(value as nat, n as nat, k as nat) == step_value(
                input as nat,
                step_number as nat,
                k as nat,
            ),
        decreases k - n,
    {
        if value % 2 == 0 {
            value = value / 2;
        } else {
            value = value * 3 + 1;
        }
        n = n + 1;
    }
    if n >= k {
        value
    } else {
        n
    }
}

/// The demo transformation: the walk from `i.item` with limit `i.k`.
pub fn result_function(i: ItemWithStep) -> (r: u64)
    requires
        i.fits(),
    ensures
        r as nat == step_value(i.item as nat, 0, i.k as nat),
{
    step(i.item, 0, i.k)
}

/// Applies the demo transformation with limit `k` to every number, in order.
pub fn process_numbers(numbers: Vec<u64>, k: u64) -> (result: Result<Vec<u64>, ExecuteError>)
    requires
        forall|i: int| 0 <= i < numbers.len() ==> step_fits(numbers[i] as nat, 0, k as nat),
    ensures
        !runs_in_parallel(numbers.len() as nat) ==> result is Ok,
        result matches Ok(r) ==> r.len() == numbers.len() && forall|i: int|
            0 <= i < numbers.len() ==> r[i] as nat == step_value(numbers[i] as nat, 0, k as nat),
        result matches Err(e) ==> runs_in_parallel(numbers.len() as nat) && e
            == ExecuteError::PoolBuild,
{
    let mut items: Vec<ItemWithStep> = Vec::new();
    let mut i: usize = 0;
    while i < numbers.len()
        invariant
            i <= numbers.len(),
            items.len() == i,
            forall|q: int| 0 <= q < numbers.len() ==> step_fits(numbers[q] as nat, 0, k as nat),
            forall|q: int| 0 <= q < i ==> #[trigger] items[q] == (ItemWithStep { item: numbers[q], k }),
        decreases numbers.len() - i,
    {
        items.push(ItemWithStep::new(numbers[i], k));
        i = i + 1;
    }
    let result = smart_execute(items, result_function);
    proof {
        if result is Ok {
            let r = result->Ok_0;
            assert forall|i: int| 0 <= i < numbers.len() implies r[i] as nat == step_value(
                numbers[i] as nat,
                0,
                k as nat,
            ) by {
                assert(items[i] == (ItemWithStep { item: numbers[i], k }));
            }
        }
    }
    result
}

} // verus!
