//! Work on every element of a slice of integers, one after the other or
//! spread over rayon's thread pool.

use rayon::iter::{IntoParallelRefIterator, IntoParallelRefMutIterator, ParallelIterator};
use vstd::prelude::*;

verus! {

/// Every element of `after` is one less than the element of `before` in
/// its place.
pub open spec fn each_one_less(before: Seq<i32>, after: Seq<i32>) -> bool {
    &&& after.len() == before.len()
    &&& forall|i: int| 0 <= i < before.len() ==> #[trigger] after[i] == before[i] - 1
}

/// Every element can be made one less.
pub open spec fn all_above_least(values: Seq<i32>) -> bool {
    forall|i: int| 0 <= i < values.len() ==> #[trigger] values[i] > i32::MIN
}

/// Makes one integer one less.
pub fn decrement(value: &mut i32)
    requires
        *old(value) > i32::MIN,
    ensures
        *final(value) == *old(value) - 1,
{
    *value = *value - 1;
}

/// Makes every element one less, one after the other.
pub fn serial_change_arr_ele(arr: &mut [i32])
    requires
        all_above_least(old(arr)@),
    ensures
        each_one_less(old(arr)@, final(arr)@),
{
    let mut i: usize = 0;
    while i < arr.len()
        invariant
            i <= arr@.len() == old(arr)@.len(),
            forall|k: int| 0 <= k < i ==> #[trigger] arr@[k] == old(arr)@[k] - 1,
            forall|k: int| i <= k < arr@.len() ==> #[trigger] arr@[k] == old(arr)@[k],
            all_above_least(old(arr)@),
        decreases arr@.len() - i,
    {
        arr[i] = arr[i] - 1;
        i += 1;
    }
}

/// `ParallelIterator::for_each` over `par_iter_mut` of the slice: rayon
/// calls `decrement` on a mutable reference to each element, once, on some
/// thread of its pool. So every element ends one less than it was.
#[verifier::external_body]
fn decrement_each(arr: &mut [i32])
    requires
        all_above_least(old(arr)@),
    ensures
        each_one_less(old(arr)@, final(arr)@),
{
    arr.par_iter_mut().for_each(|value| decrement(value))
}

/// Makes every element one less, in parallel.
pub fn parallel_change_arr_ele(arr: &mut [i32])
    requires
        all_above_least(old(arr)@),
    ensures
        each_one_less(old(arr)@, final(arr)@),
{
    decrement_each(arr)
}

/// `ParallelIterator::any` over `par_iter` of the slice, with `condition`
/// as the predicate. Rayon answers `true` only after a call of the
/// predicate on some element returned `true`, and `false` only after it has
/// called the predicate on every element and each call returned `false`.
#[verifier::external_body]
fn any_element<F>(values: &[i32], condition: &F) -> (found: bool) where
    F: Fn(&i32) -> bool + Sync,

    requires
        forall|i: int| 0 <= i < values@.len() ==> call_requires(*condition, (&values@[i],)),
    ensures
        found ==> exists|i: int|
            0 <= i < values@.len() && call_ensures(*condition, (&values@[i],), true),
        !found ==> forall|i: int|
            0 <= i < values@.len() ==> call_ensures(*condition, (&values@[i],), false),
{
    values.par_iter().any(|value| condition(value))
}

/// `ParallelIterator::all` over `par_iter` of the slice, with `condition`
/// as the predicate. Rayon answers `false` only after a call of the
/// predicate on some element returned `false`, and `true` only after it has
/// called the predicate on every element and each call returned `true`.
#[verifier::external_body]
fn every_element<F>(values: &[i32], condition: &F) -> (holds: bool) where
    F: Fn(&i32) -> bool + Sync,

    requires
        forall|i: int| 0 <= i < values@.len() ==> call_requires(*condition, (&values@[i],)),
    ensures
        holds ==> forall|i: int|
            0 <= i < values@.len() ==> call_ensures(*condition, (&values@[i],), true),
        !holds ==> exists|i: int|
            0 <= i < values@.len() && call_ensures(*condition, (&values@[i],), false),
{
    values.par_iter().all(|value| condition(value))
}

/// Whether `condition` holds of some element of `vec`, asked in parallel.
///
/// `true` names an element on which `condition` returned `true`; `false`
/// says that it returned `false` on every element.
pub fn parallel_any_condition<F>(vec: &[i32], condition: F) -> (found: bool) where
    F: Fn(&i32) -> bool + Sync,

    requires
        forall|i: int| 0 <= i < vec@.len() ==> call_requires(condition, (&vec@[i],)),
    ensures
        found ==> exists|i: int| 0 <= i < vec@.len() && call_ensures(condition, (&vec@[i],), true),
        !found ==> forall|i: int|
            0 <= i < vec@.len() ==> call_ensures(condition, (&vec@[i],), false),
{
    any_element(vec, &condition)
}

/// Whether `condition` holds of every element of `vec`, asked in parallel.
///
/// `true` says that `condition` returned `true` on every element; `false`
/// names an element on which it returned `false`.
pub fn parallel_all_condition<F>(vec: &[i32], condition: F) -> (holds: bool) where
    F: Fn(&i32) -> bool + Sync,

    requires
        forall|i: int| 0 <= i < vec@.len() ==> call_requires(condition, (&vec@[i],)),
    ensures
        holds ==> forall|i: int|
            0 <= i < vec@.len() ==> call_ensures(condition, (&vec@[i],), true),
        !holds ==> exists|i: int|
            0 <= i < vec@.len() && call_ensures(condition, (&vec@[i],), false),
{
    every_element(vec, &condition)
}

} // verus!
