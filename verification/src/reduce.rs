//! Fork-join maximum of a slice of integers.
//!
//! Short slices are scanned on the calling thread. Longer ones are split in
//! two halves, each half is reduced by a task of its own inside a scope that
//! joins both, and the two partial maxima are merged.

use crate::error::PipelineError;
use vstd::prelude::*;

verus! {

/// Slices of at most this many elements are reduced on the calling thread.
pub const THRESHOLD: usize = 2;

/// What a reduction found and how much concurrency it used.
#[derive(Clone, Copy, Debug, PartialEq, Eq, Structural)]
pub struct Reduction {
    /// The maximum, `None` for an empty input.
    pub max: Option<i32>,
    /// How many times the input or a part of it was split. Each split opens
    /// one scope and spawns two tasks in it; zero means that no task was
    /// spawned at all.
    pub forks: usize,
}

/// The maximum of a sequence, scanning from the left; `None` when it is empty.
pub open spec fn max_of(s: Seq<i32>) -> Option<i32>
    decreases s.len(),
{
    if s.len() == 0 {
        None
    } else {
        merge_max(max_of(s.drop_last()), Some(s.last()))
    }
}

/// The reduction operator on partial results: the larger of two maxima, an
/// absent one counting as the neutral element.
pub open spec fn merge_max(a: Option<i32>, b: Option<i32>) -> Option<i32> {
    match (a, b) {
        (None, _) => b,
        (_, None) => a,
        (Some(x), Some(y)) => Some(if y > x { y } else { x }),
    }
}

/// Where a sequence of `len` elements is split.
pub open spec fn midpoint(len: nat) -> int {
    len as int / 2
}

/// The maximum as the fork-join recursion computes it: directly below the
/// threshold, else by merging the maxima of the two halves.
pub open spec fn fork_join_max(s: Seq<i32>) -> Option<i32>
    decreases s.len(),
{
    if s.len() <= THRESHOLD {
        max_of(s)
    } else {
        let mid = midpoint(s.len());
        merge_max(
            fork_join_max(s.subrange(0, mid)),
            fork_join_max(s.subrange(mid, s.len() as int)),
        )
    }
}

/// How many splits the recursion makes on an input of `len` elements.
pub open spec fn forks_for(len: nat) -> nat
    decreases len,
{
    if len <= THRESHOLD {
        0
    } else {
        let mid = midpoint(len);
        1 + forks_for(mid as nat) + forks_for((len - mid) as nat)
    }
}

/// A value is the maximum of a sequence exactly when it occurs in it and
/// nothing in it is larger; an empty sequence has none.
pub proof fn lemma_max_of_is_greatest(s: Seq<i32>)
    ensures
        s.len() == 0 <==> max_of(s) is None,
        forall|m: i32|
            max_of(s) == Some(m) <==> (s.contains(m) && forall|i: int|
                0 <= i < s.len() ==> s[i] <= m),
    decreases s.len(),
{
    if s.len() > 0 {
        let front = s.drop_last();
        let x = s.last();
        lemma_max_of_is_greatest(front);
        let best = max_of(s)->Some_0;
        assert(forall|i: int| 0 <= i < front.len() ==> front[i] == s[i]);
        if front.len() > 0 {
            let before = max_of(front)->Some_0;
            assert(max_of(front) == Some(before));
            assert(front.contains(before));
            let k = choose|k: int| 0 <= k < front.len() && front[k] == before;
            assert(s[k] == before);
            assert(forall|i: int| 0 <= i < front.len() ==> front[i] <= before);
        }
        assert(s[s.len() - 1] == x);
        assert(s.contains(best));
        assert forall|i: int| 0 <= i < s.len() implies s[i] <= best by {
            if i < front.len() {
                assert(front[i] == s[i]);
            }
        }
        assert forall|m: i32|
            (s.contains(m) && forall|i: int| 0 <= i < s.len() ==> s[i] <= m) implies max_of(s)
            == Some(m) by {
            let k = choose|k: int| 0 <= k < s.len() && s[k] == best;
            assert(s[k] <= m);
            let j = choose|j: int| 0 <= j < s.len() && s[j] == m;
            assert(s[j] <= best);
        }
    } else {
        assert forall|m: i32| !s.contains(m) by {
            if s.contains(m) {
                let k = choose|k: int| 0 <= k < s.len() && s[k] == m;
            }
        }
    }
}

/// The maximum of a concatenation is the merge of the two maxima.
pub proof fn lemma_max_of_concat(a: Seq<i32>, b: Seq<i32>)
    ensures
        max_of(a + b) == merge_max(max_of(a), max_of(b)),
    decreases b.len(),
{
    if b.len() == 0 {
        assert(a + b == a);
    } else {
        lemma_max_of_concat(a, b.drop_last());
        assert((a + b).drop_last() == a + b.drop_last());
        assert((a + b).last() == b.last());
    }
}

/// Wherever a sequence is cut, merging the maxima of the two parts gives the
/// maximum of the whole.
pub proof fn lemma_max_of_split(s: Seq<i32>, mid: int)
    requires
        0 <= mid <= s.len(),
    ensures
        merge_max(max_of(s.subrange(0, mid)), max_of(s.subrange(mid, s.len() as int))) == max_of(
            s,
        ),
{
    lemma_max_of_concat(s.subrange(0, mid), s.subrange(mid, s.len() as int));
    assert(s.subrange(0, mid) + s.subrange(mid, s.len() as int) == s);
}

/// The fork-join recursion and the sequential scan find the same maximum,
/// on every sequence.
pub proof fn lemma_fork_join_is_sequential(s: Seq<i32>)
    ensures
        fork_join_max(s) == max_of(s),
    decreases s.len(),
{
    if s.len() > THRESHOLD {
        let mid = midpoint(s.len());
        lemma_fork_join_is_sequential(s.subrange(0, mid));
        lemma_fork_join_is_sequential(s.subrange(mid, s.len() as int));
        lemma_max_of_split(s, mid);
    }
}

/// A sequence is split fewer times than it has elements.
pub proof fn lemma_forks_below_len(len: nat)
    ensures
        forks_for(len) <= len,
        len >= 1 ==> forks_for(len) < len,
    decreases len,
{
    if len > THRESHOLD {
        let mid = midpoint(len);
        lemma_forks_below_len(mid as nat);
        lemma_forks_below_len((len - mid) as nat);
    }
}

/// Scans the slice once on the calling thread.
pub fn sequential_max(arr: &[i32]) -> (max: Option<i32>)
    ensures
        max == max_of(arr@),
{
    let mut best: Option<i32> = None;
    let mut i: usize = 0;
    while i < arr.len()
        invariant
            i <= arr.len(),
            best == max_of(arr@.take(i as int)),
        decreases arr.len() - i,
    {
        let x = arr[i];
        proof {
            assert(arr@.take(i + 1).drop_last() == arr@.take(i as int));
        }
        best = merge(best, Some(x));
        i += 1;
    }
    proof {
        assert(arr@.take(arr.len() as int) == arr@);
    }
    best
}

/// Merges two partial maxima.
pub fn merge(a: Option<i32>, b: Option<i32>) -> (merged: Option<i32>)
    ensures
        merged == merge_max(a, b),
{
    match (a, b) {
        (None, _) => b,
        (_, None) => a,
        (Some(x), Some(y)) => Some(if y > x { y } else { x }),
    }
}

/// What the reduction of one half may hand back: exactly what `reduce_max`
/// promises of its result on that half.
pub open spec fn reduces(half: Seq<i32>, outcome: Result<Reduction, PipelineError>) -> bool {
    &&& outcome matches Ok(found) ==> found.max == max_of(half) && found.forks == forks_for(
        half.len(),
    )
    &&& outcome matches Err(e) ==> e == PipelineError::TaskFailure || e
        == PipelineError::ScopeFailure
    &&& half.len() <= THRESHOLD ==> outcome is Ok
}

/// Runs `reduce_max` on each half in a task of its own, inside one scope of
/// `crossbeam::scope`, and joins both before the scope ends.
///
/// The outer `None` stands for a scope that reported a panicked task. An
/// inner `None` stands for a task that `ScopedThreadBuilder::spawn` could
/// not start or whose `ScopedJoinHandle::join` reported a panic. Otherwise
/// each half carries what its task returned, which is the result of
/// `reduce_max` on that half: this is the one thing the contract claims.
#[verifier::external_body]
fn fork_halves(left: &[i32], right: &[i32]) -> (joined: Option<
    (Option<Result<Reduction, PipelineError>>, Option<Result<Reduction, PipelineError>>),
>)
    ensures
        joined matches Some((Some(l), _)) ==> reduces(left@, l),
        joined matches Some((_, Some(r))) ==> reduces(right@, r),
{
    crossbeam::scope(
        |s|
            {
                let l = s.builder().spawn(|_| reduce_max(left));
                let r = s.builder().spawn(|_| reduce_max(right));
                (l.ok().and_then(|h| h.join().ok()), r.ok().and_then(|h| h.join().ok()))
            },
    ).ok()
}

/// The failure that a joined pair of halves amounts to, if any: a failed
/// scope first, then the left half, then the right one. A task that did not
/// return counts as a task failure; one that returned an error passes it on.
pub open spec fn halves_failure(
    joined: Option<
        (Option<Result<Reduction, PipelineError>>, Option<Result<Reduction, PipelineError>>),
    >,
) -> Option<PipelineError> {
    match joined {
        None => Some(PipelineError::ScopeFailure),
        Some((None, _)) => Some(PipelineError::TaskFailure),
        Some((Some(Err(e)), _)) => Some(e),
        Some((Some(Ok(_)), None)) => Some(PipelineError::TaskFailure),
        Some((Some(Ok(_)), Some(Err(e)))) => Some(e),
        Some((Some(Ok(_)), Some(Ok(_)))) => None,
    }
}

/// Settles what came back from the two halves: the first failure, or the
/// merged maximum with the splits of both halves and this one.
pub fn merge_halves(
    joined: Option<
        (Option<Result<Reduction, PipelineError>>, Option<Result<Reduction, PipelineError>>),
    >,
) -> (merged: Result<Reduction, PipelineError>)
    requires
        joined matches Some((Some(Ok(l)), Some(Ok(r)))) ==> l.forks + r.forks < usize::MAX,
    ensures
        halves_failure(joined) matches Some(e) ==> merged == Err::<Reduction, PipelineError>(e),
        joined matches Some((Some(Ok(l)), Some(Ok(r)))) ==> merged == Ok::<
            Reduction,
            PipelineError,
        >(Reduction { max: merge_max(l.max, r.max), forks: (l.forks + r.forks + 1) as usize }),
{
    match joined {
        None => Err(PipelineError::ScopeFailure),
        Some((left, right)) => {
            match left {
                None => Err(PipelineError::TaskFailure),
                Some(Err(e)) => Err(e),
                Some(Ok(l)) => match right {
                    None => Err(PipelineError::TaskFailure),
                    Some(Err(e)) => Err(e),
                    Some(Ok(r)) => Ok(
                        Reduction { max: merge(l.max, r.max), forks: l.forks + r.forks + 1 },
                    ),
                },
            }
        },
    }
}

/// The maximum of `arr` by fork-join recursion, with the number of splits.
///
/// A slice of at most `THRESHOLD` elements is scanned on the calling thread:
/// that always succeeds and spawns nothing. A longer one is cut at its
/// midpoint and each half is reduced by its own task; whether those tasks
/// can be started and joined is decided outside this function, so success
/// is promised only below the threshold. Whenever a result is returned, it
/// is the maximum of the whole slice, which is also what merging the
/// halves' maxima all the way down comes to.
pub fn reduce_max(arr: &[i32]) -> (outcome: Result<Reduction, PipelineError>)
    ensures
        outcome matches Ok(found) ==> found.max == max_of(arr@) && found.max == fork_join_max(
            arr@,
        ) && found.forks == forks_for(arr@.len()),
        outcome matches Err(e) ==> e == PipelineError::TaskFailure || e
            == PipelineError::ScopeFailure,
        arr@.len() <= THRESHOLD ==> outcome == Ok::<Reduction, PipelineError>(
            Reduction { max: max_of(arr@), forks: 0 },
        ),
{
    proof {
        lemma_fork_join_is_sequential(arr@);
    }
    if arr.len() <= THRESHOLD {
        return Ok(Reduction { max: sequential_max(arr), forks: 0 });
    }
    let mid = arr.len() / 2;
    let (left, right) = arr.split_at(mid);
    let joined = fork_halves(left, right);
    proof {
        lemma_max_of_split(arr@, mid as int);
        lemma_forks_below_len(left@.len());
        lemma_forks_below_len(right@.len());
    }
    merge_halves(joined)
}

/// The maximum of `arr`, `None` when it is empty.
///
/// Equal to what `sequential_max` returns whenever a result is returned,
/// and always returned for a slice of at most `THRESHOLD` elements.
pub fn find_max(arr: &[i32]) -> (outcome: Result<Option<i32>, PipelineError>)
    ensures
        outcome matches Ok(max) ==> max == max_of(arr@),
        outcome matches Err(e) ==> e == PipelineError::TaskFailure || e
            == PipelineError::ScopeFailure,
        arr@.len() <= THRESHOLD ==> outcome == Ok::<Option<i32>, PipelineError>(max_of(arr@)),
        arr@.len() == 0 ==> outcome == Ok::<Option<i32>, PipelineError>(None),
{
    match reduce_max(arr) {
        Ok(found) => Ok(found.max),
        Err(e) => Err(e),
    }
}

/// Reduces the sample `[1, 25, -4, 10]`: one split into `[1, 25]` and
/// `[-4, 10]`, and the maximum 25.
pub fn generate_short_term_threads() -> (outcome: Result<Reduction, PipelineError>)
    ensures
        outcome matches Ok(found) ==> found == (Reduction { max: Some(25i32), forks: 1 }),
        outcome matches Err(e) ==> e == PipelineError::TaskFailure || e
            == PipelineError::ScopeFailure,
{
    let arr: [i32; 4] = [1, 25, -4, 10];
    let outcome = reduce_max(arr.as_slice());
    proof {
        let s = arr@;
        reveal_with_fuel(max_of, 5);
        reveal_with_fuel(forks_for, 2);
        assert(s.drop_last().drop_last().drop_last().drop_last().len() == 0);
        assert(max_of(s) == Some(25i32));
        assert(forks_for(4) == 1);
    }
    outcome
}

} // verus!
