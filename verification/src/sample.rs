//! Random sampling of questions without replacement.
//!
//! The draw itself comes from the `rand` crate behind a trusted wrapper that
//! yields distinct in-range indices; everything built on top of the indices
//! is verified.

use vstd::prelude::*;
use crate::questions::{Question, TypedQuestion, clone_question, clone_typed_question};

verus! {

/// Relies on `rand::seq::index::sample`: it returns exactly `amount` distinct
/// indices drawn from `0..length` in random order, and panics only when
/// `amount > length`.
#[verifier::external_body]
fn sample_indices(length: usize, amount: usize) -> (r: Vec<usize>)
    requires
        amount <= length,
    ensures
        r@.len() == amount,
        forall|k: int| 0 <= k < r@.len() ==> #[trigger] r@[k] < length,
        forall|k: int, l: int| 0 <= k < l < r@.len() ==> r@[k] != r@[l],
{
    let mut rng = rand::rng();
    rand::seq::index::sample(&mut rng, length, amount).into_vec()
}

/// Whether `r` is a sample of `min(n, len)` distinct positions of a pool of
/// length `len`, described by the positions `idx` the entries were drawn from.
pub open spec fn is_sample_of(idx: Seq<int>, len: nat, n: nat, out_len: nat) -> bool {
    &&& out_len == if n <= len {
        n
    } else {
        len
    }
    &&& idx.len() == out_len
    &&& (forall|k: int| 0 <= k < idx.len() ==> 0 <= #[trigger] idx[k] < len)
    &&& (forall|k: int, l: int| 0 <= k < l < idx.len() ==> idx[k] != idx[l])
}

/// Draws `min(num_questions, pool size)` questions from the pool, without
/// replacement: the entries of the result stand at pairwise distinct pool
/// positions and come out in draw order.
pub fn choose_questions(pool: &Vec<Question>, num_questions: usize) -> (r: Vec<Question>)
    ensures
        exists|idx: Seq<int>|
            {
                &&& #[trigger] is_sample_of(idx, pool@.len(), num_questions as nat, r@.len())
                &&& forall|k: int| 0 <= k < idx.len() ==> r@[k]@ == #[trigger] pool@[idx[k]]@
            },
{
    let amount = if num_questions <= pool.len() {
        num_questions
    } else {
        pool.len()
    };
    let picks = sample_indices(pool.len(), amount);
    let mut r: Vec<Question> = Vec::new();
    let mut i: usize = 0;
    while i < picks.len()
        invariant
            i <= picks@.len(),
            r@.len() == i,
            forall|k: int| 0 <= k < picks@.len() ==> #[trigger] picks@[k] < pool@.len(),
            forall|k: int| 0 <= k < i ==> r@[k]@ == #[trigger] pool@[picks@[k] as int]@,
        decreases picks@.len() - i,
    {
        r.push(clone_question(&pool[picks[i]]));
        i = i + 1;
    }
    proof {
        let idx = picks@.map_values(|u: usize| u as int);
        assert(is_sample_of(idx, pool@.len(), num_questions as nat, r@.len()));
        assert(forall|k: int| 0 <= k < idx.len() ==> r@[k]@ == #[trigger] pool@[idx[k]]@);
    }
    r
}

/// Draws `min(num_questions, pool size)` classified questions from a
/// classified pool, without replacement, in draw order.
pub fn choose_typed_questions(pool: &Vec<TypedQuestion>, num_questions: usize) -> (r: Vec<
    TypedQuestion,
>)
    ensures
        exists|idx: Seq<int>|
            {
                &&& #[trigger] is_sample_of(idx, pool@.len(), num_questions as nat, r@.len())
                &&& forall|k: int| 0 <= k < idx.len() ==> r@[k]@ == #[trigger] pool@[idx[k]]@
            },
{
    let amount = if num_questions <= pool.len() {
        num_questions
    } else {
        pool.len()
    };
    let picks = sample_indices(pool.len(), amount);
    let mut r: Vec<TypedQuestion> = Vec::new();
    let mut i: usize = 0;
    while i < picks.len()
        invariant
            i <= picks@.len(),
            r@.len() == i,
            forall|k: int| 0 <= k < picks@.len() ==> #[trigger] picks@[k] < pool@.len(),
            forall|k: int| 0 <= k < i ==> r@[k]@ == #[trigger] pool@[picks@[k] as int]@,
        decreases picks@.len() - i,
    {
        r.push(clone_typed_question(&pool[picks[i]]));
        i = i + 1;
    }
    proof {
        let idx = picks@.map_values(|u: usize| u as int);
        assert(is_sample_of(idx, pool@.len(), num_questions as nat, r@.len()));
        assert(forall|k: int| 0 <= k < idx.len() ==> r@[k]@ == #[trigger] pool@[idx[k]]@);
    }
    r
}

} // verus!
