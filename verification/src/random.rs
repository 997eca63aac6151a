//! Random numbers and the shuffle that orders the images.

use crate::error::{WallSwitchError, WallSwitchErrorView, WallSwitchResult};
use std::hash::{BuildHasher, DefaultHasher, Hasher, RandomState};
use vstd::prelude::*;
use vstd::seq_lib::to_multiset_update;

verus! {

/// `RandomState::new` makes a hash builder with keys that differ from call
/// to call; nothing is known of it.
pub assume_specification[ RandomState::new ]() -> RandomState;

/// `RandomState::build_hasher` starts a hasher with the keys of the
/// builder; nothing is known of its state.
pub assume_specification[ <RandomState as BuildHasher>::build_hasher ](
    state: &RandomState,
) -> DefaultHasher;

/// `<[T]>::swap` exchanges the elements at two positions of a slice and
/// panics where a position is outside the slice.
pub assume_specification<U>[ <[U]>::swap ](slice: &mut [U], a: usize, b: usize)
    requires
        a < old(slice)@.len(),
        b < old(slice)@.len(),
    ensures
        final(slice)@ == swapped(old(slice)@, a as int, b as int),
;

/// `s` with the elements at `i` and `j` exchanged.
pub open spec fn swapped<T>(s: Seq<T>, i: int, j: int) -> Seq<T> {
    s.update(i, s[j]).update(j, s[i])
}

/// The position that the `i`-th step of a shuffle of `n` elements exchanges
/// with position `i`, where `draw` is the number drawn for the step: one of
/// the positions from `i` on.
pub open spec fn pick(n: int, i: int, draw: u64) -> int {
    i + draw as int % (n - i)
}

/// `s` after the first `steps` steps of the Fisher–Yates shuffle, which
/// takes the number for its `i`-th step from `draws[i]`.
pub open spec fn shuffled<T>(s: Seq<T>, draws: Seq<u64>, steps: int) -> Seq<T>
    decreases steps,
{
    if steps <= 0 {
        s
    } else {
        swapped(
            shuffled(s, draws, steps - 1),
            steps - 1,
            pick(s.len() as int, steps - 1, draws[steps - 1]),
        )
    }
}

/// The number of steps in which `n` elements are shuffled.
pub open spec fn shuffle_steps(n: int) -> int {
    if n <= 1 {
        0
    } else {
        n - 1
    }
}

/// Exchanging two elements rearranges a sequence.
pub proof fn lemma_swapped_is_permutation<T>(s: Seq<T>, i: int, j: int)
    requires
        0 <= i < s.len(),
        0 <= j < s.len(),
    ensures
        swapped(s, i, j).len() == s.len(),
        swapped(s, i, j).to_multiset() == s.to_multiset(),
{
    broadcast use vstd::multiset::group_multiset_axioms;

    let first = s.update(i, s[j]);
    to_multiset_update(s, i, s[j]);
    to_multiset_update(first, j, s[i]);
    s.to_multiset_ensures();
    assert(s.to_multiset().count(s[i]) > 0) by {
        assert(s.contains(s[i]));
    }
    assert(s.to_multiset().count(s[j]) > 0) by {
        assert(s.contains(s[j]));
    }
    if i == j {
        assert(swapped(s, i, j) =~= s);
    } else {
        assert(first[j] == s[j]);
        assert(swapped(s, i, j).to_multiset() =~= s.to_multiset());
    }
}

/// A shuffle rearranges: whatever numbers are drawn, the result holds the
/// elements of the input, each as often as the input.
pub proof fn lemma_shuffled_is_permutation<T>(s: Seq<T>, draws: Seq<u64>, steps: int)
    requires
        0 <= steps <= shuffle_steps(s.len() as int),
    ensures
        shuffled(s, draws, steps).len() == s.len(),
        shuffled(s, draws, steps).to_multiset() == s.to_multiset(),
    decreases steps,
{
    if steps > 0 {
        lemma_shuffled_is_permutation(s, draws, steps - 1);
        let n = s.len() as int;
        let i = steps - 1;
        assert(0 <= draws[i] as int % (n - i) < n - i);
        lemma_swapped_is_permutation(shuffled(s, draws, steps - 1), i, pick(n, i, draws[i]));
    }
}

/// A number that differs from call to call.
pub fn rand() -> u64 {
    RandomState::new().build_hasher().finish()
}

/// As many random numbers as a shuffle of `n` elements takes.
fn draw_for_shuffle(n: usize) -> (draws: Vec<u64>)
    ensures
        draws@.len() == shuffle_steps(n as int),
{
    let mut draws: Vec<u64> = Vec::new();
    if n > 1 {
        let mut i: usize = 0;
        while i < n - 1
            invariant
                n > 1,
                i <= n - 1,
                draws@.len() == i,
            decreases n - 1 - i,
        {
            draws.push(rand());
            i += 1;
        }
    }
    draws
}

/// Shuffles `vec` in place with the Fisher–Yates algorithm, taking the
/// random number for each step from `draws`.
pub fn shuffle_with<T>(vec: &mut [T], draws: &[u64])
    requires
        draws@.len() >= shuffle_steps(old(vec)@.len() as int),
    ensures
        final(vec)@ == shuffled(old(vec)@, draws@, shuffle_steps(old(vec)@.len() as int)),
{
    let n: usize = vec.len();
    if n <= 1 {
        return ;
    }
    let mut i: usize = 0;
    while i < n - 1
        invariant
            n == old(vec)@.len(),
            n > 1,
            i <= n - 1,
            draws@.len() >= n - 1,
            vec@.len() == n,
            vec@ == shuffled(old(vec)@, draws@, i as int),
        decreases n - 1 - i,
    {
        let span: u64 = (n - i) as u64;
        let j: usize = i + (draws[i] % span) as usize;
        vec.swap(i, j);
        i += 1;
    }
}

/// Shuffles `vec` in place with the Fisher–Yates algorithm and random
/// numbers of the process: the slice is left as the algorithm leaves it for
/// the numbers that were drawn, one for each step. Whatever they are, the
/// slice holds the same elements as before.
pub fn shuffle<T>(vec: &mut [T])
    ensures
        exists|draws: Seq<u64>|
            draws.len() == shuffle_steps(old(vec)@.len() as int) && final(vec)@
                == #[trigger] shuffled(old(vec)@, draws, shuffle_steps(old(vec)@.len() as int)),
        final(vec)@.len() == old(vec)@.len(),
        final(vec)@.to_multiset() == old(vec)@.to_multiset(),
{
    let draws = draw_for_shuffle(vec.len());
    proof {
        lemma_shuffled_is_permutation(
            old(vec)@,
            draws@,
            shuffle_steps(old(vec)@.len() as int),
        );
    }
    shuffle_with(vec, draws.as_slice());
    assert(vec@ == shuffled(old(vec)@, draws@, shuffle_steps(old(vec)@.len() as int)));
}

/// The number between `min` and `max` that the random number `draw`
/// selects.
pub open spec fn in_range_spec(min: u64, max: u64, draw: u64) -> int {
    min + draw as int % (max - min + 1)
}

/// The number between `min` and `max`, both included, that the random
/// number `draw` selects.
pub fn random_integer_with(min: u64, max: u64, draw: u64) -> (r: u64)
    requires
        min <= max,
    ensures
        r == in_range_spec(min, max, draw),
        min <= r <= max,
{
    let width: u64 = max - min;
    if width == u64::MAX {
        draw
    } else {
        min + draw % (width + 1)
    }
}

/// A random integer between `min` and `max`, both included.
pub fn get_random_integer(min: u64, max: u64) -> (r: u64)
    requires
        min <= max,
    ensures
        min <= r <= max,
{
    random_integer_with(min, max, rand())
}

/// A random integer between `min` and `max`, both included; an error where
/// `min` exceeds `max`.
pub fn get_random_integer_v2(min: u64, max: u64) -> (r: WallSwitchResult<u64>)
    ensures
        match r {
            Ok(n) => min <= n <= max,
            Err(e) => min > max && e@ == (WallSwitchErrorView::MinMax { min, max }),
        },
{
    if min > max {
        Err(WallSwitchError::MinMax { min, max })
    } else {
        Ok(random_integer_with(min, max, rand()))
    }
}

} // verus!
