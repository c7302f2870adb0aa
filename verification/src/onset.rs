//! The onset search: where, in a buffer that holds an utterance, speech
//! begins.

use crate::window::{constant_amplitude, lemma_total_of_constant, magnitude, sample_magnitude,
    total_magnitude};
use std::collections::VecDeque;
use vstd::prelude::*;

verus! {

/// Why no onset could be given.
#[derive(Clone, Copy, Debug, PartialEq, Eq, Structural)]
pub enum OnsetError {
    /// The running mean reaches the threshold nowhere in the buffer. The
    /// search is only made after speech was heard in it, so this shows a fault
    /// of the caller.
    NoCrossing,
}

/// The first index of the `window_size` samples that end at `index`, or 0
/// where fewer come before.
pub open spec fn trailing_start(index: int, window_size: nat) -> int {
    if index + 1 >= window_size {
        index + 1 - window_size
    } else {
        0
    }
}

/// The summed magnitude of the `window_size` samples that end at `index`; of
/// those from the start of the buffer where fewer come before.
pub open spec fn trailing_total(samples: Seq<i32>, index: int, window_size: nat) -> nat {
    total_magnitude(samples.subrange(trailing_start(index, window_size), index + 1))
}

/// The running mean at `index`: the trailing total over the full window size,
/// rounded down, the samples before the buffer counting as silence.
pub open spec fn running_mean(samples: Seq<i32>, index: int, window_size: nat) -> nat {
    trailing_total(samples, index, window_size) / window_size
}

/// The running mean at `index` has reached the threshold. With a window of no
/// samples there is no mean and nothing crosses.
pub open spec fn crosses_at(samples: Seq<i32>, index: int, window_size: nat, threshold: nat) -> bool {
    window_size > 0 && running_mean(samples, index, window_size) >= threshold
}

/// The least index from `from` on at which the running mean has reached the
/// threshold.
pub open spec fn first_crossing(
    samples: Seq<i32>,
    window_size: nat,
    threshold: nat,
    from: int,
) -> Option<int>
    decreases samples.len() - from,
{
    if from < 0 || from >= samples.len() {
        None
    } else if crosses_at(samples, from, window_size, threshold) {
        Some(from)
    } else {
        first_crossing(samples, window_size, threshold, from + 1)
    }
}

/// Where speech begins: half a window before the first crossing, and no
/// earlier than the start of the buffer.
pub open spec fn onset_of(samples: Seq<i32>, window_size: nat, threshold: nat) -> Option<int> {
    match first_crossing(samples, window_size, threshold, 0) {
        Some(crossing) => Some(
            if crossing >= window_size / 2 {
                crossing - window_size / 2
            } else {
                0
            },
        ),
        None => None,
    }
}

/// The first `quiet` samples are silent and all later ones have the absolute
/// value `amplitude`.
pub open spec fn silence_then_constant(samples: Seq<i32>, quiet: nat, amplitude: nat) -> bool {
    &&& quiet <= samples.len()
    &&& forall|i: int| 0 <= i < quiet ==> magnitude(#[trigger] samples[i]) == 0
    &&& forall|i: int| quiet <= i < samples.len() ==> magnitude(#[trigger] samples[i]) == amplitude
}

/// The summed magnitude of a buffer is that of its first sample plus that of
/// the rest.
pub proof fn lemma_total_split_first(samples: Seq<i32>)
    requires
        samples.len() > 0,
    ensures
        total_magnitude(samples) == magnitude(samples.first()) + total_magnitude(
            samples.drop_first(),
        ),
    decreases samples.len(),
{
    if samples.len() == 1 {
        assert(samples.drop_last() =~= samples.drop_first());
    } else {
        lemma_total_split_first(samples.drop_last());
        assert(samples.drop_last().drop_first() =~= samples.drop_first().drop_last());
    }
}

/// Moving the window one sample on adds the sample that enters and takes
/// away the one that leaves.
pub proof fn lemma_trailing_total_step(samples: Seq<i32>, index: int, window_size: nat)
    requires
        0 <= index < samples.len(),
        window_size > 0,
    ensures
        trailing_total(samples, index, window_size) + (if index >= window_size {
            magnitude(samples[index - window_size])
        } else {
            0
        }) == trailing_total(samples, index - 1, window_size) + magnitude(samples[index]),
{
    let before = trailing_start(index - 1, window_size);
    let grown = samples.subrange(before, index + 1);
    assert(grown.drop_last() =~= samples.subrange(before, index as int));
    if index >= window_size {
        lemma_total_split_first(grown);
        assert(grown.drop_first() =~= samples.subrange(before + 1, index + 1));
    }
}

/// What the first crossing is: an index of the buffer at which the running
/// mean has reached the threshold and before which, from `from` on, it has
/// not; and there is none only where it has reached it nowhere from `from` on.
pub proof fn lemma_first_crossing_is_least(
    samples: Seq<i32>,
    window_size: nat,
    threshold: nat,
    from: int,
)
    requires
        0 <= from,
    ensures
        match first_crossing(samples, window_size, threshold, from) {
            Some(crossing) => {
                &&& from <= crossing < samples.len()
                &&& crosses_at(samples, crossing, window_size, threshold)
                &&& forall|k: int|
                    from <= k < crossing ==> !crosses_at(samples, k, window_size, threshold)
            },
            None => forall|k: int|
                from <= k < samples.len() ==> !crosses_at(samples, k, window_size, threshold),
        },
    decreases samples.len() - from,
{
    if from < samples.len() && !crosses_at(samples, from, window_size, threshold) {
        lemma_first_crossing_is_least(samples, window_size, threshold, from + 1);
    }
}

/// Finds where speech begins in `samples`: runs the mean absolute amplitude of
/// the trailing `window_size` samples along the buffer and gives the first
/// index at which it has reached `threshold`, moved back by half a window. It
/// fails exactly where the mean reaches the threshold nowhere.
pub fn locate_onset(samples: &VecDeque<i32>, window_size: usize, threshold: u32) -> (onset: Result<
    usize,
    OnsetError,
>)
    ensures
        match onset {
            Ok(start) => onset_of(samples@, window_size as nat, threshold as nat) == Some(
                start as int,
            ) && start < samples@.len(),
            Err(OnsetError::NoCrossing) => onset_of(
                samples@,
                window_size as nat,
                threshold as nat,
            ) is None,
        },
{
    if window_size == 0 {
        proof {
            lemma_first_crossing_is_least(samples@, 0, threshold as nat, 0);
        }
        return Err(OnsetError::NoCrossing);
    }
    let len = samples.len();
    let mut running: u128 = 0;
    let mut index: usize = 0;
    while index < len
        invariant
            index <= len,
            len == samples@.len(),
            window_size > 0,
            running == trailing_total(samples@, index - 1, window_size as nat),
            running <= index * 0x8000_0000,
            first_crossing(samples@, window_size as nat, threshold as nat, 0) == first_crossing(
                samples@,
                window_size as nat,
                threshold as nat,
                index as int,
            ),
        decreases len - index,
    {
        proof {
            lemma_trailing_total_step(samples@, index as int, window_size as nat);
        }
        let entering = sample_magnitude(samples[index]);
        let leaving = if index >= window_size {
            sample_magnitude(samples[index - window_size])
        } else {
            0
        };
        running = running + entering as u128 - leaving as u128;
        if running / window_size as u128 >= threshold as u128 {
            proof {
                lemma_first_crossing_is_least(
                    samples@,
                    window_size as nat,
                    threshold as nat,
                    index as int,
                );
            }
            return Ok(index.saturating_sub(window_size / 2));
        }
        index = index + 1;
    }
    Err(OnsetError::NoCrossing)
}

/// In a buffer that is silent for `quiet` samples and then holds one
/// amplitude at or above the threshold, the onset lies within half a window
/// of the first loud sample, and is found whenever the loud part is at least
/// one window long.
pub proof fn lemma_onset_after_silence(
    samples: Seq<i32>,
    quiet: nat,
    amplitude: nat,
    window_size: nat,
    threshold: nat,
)
    requires
        silence_then_constant(samples, quiet, amplitude),
        window_size > 0,
        0 < threshold <= amplitude,
    ensures
        samples.len() >= quiet + window_size ==> onset_of(samples, window_size, threshold) is Some,
        onset_of(samples, window_size, threshold) matches Some(start) ==> {
            &&& quiet - window_size / 2 <= start <= quiet + window_size / 2
            &&& 0 <= start
        },
{
    lemma_first_crossing_is_least(samples, window_size, threshold, 0);
    assert forall|k: int| 0 <= k < quiet implies !crosses_at(
        samples,
        k,
        window_size,
        threshold,
    ) by {
        let held = samples.subrange(trailing_start(k, window_size), k + 1);
        lemma_total_of_constant(held, 0);
        assert(0nat / window_size == 0) by (nonlinear_arith)
            requires
                window_size > 0,
        ;
    }
    if samples.len() >= quiet + window_size {
        let full = quiet + window_size - 1;
        let held = samples.subrange(trailing_start(full, window_size), full + 1);
        lemma_total_of_constant(held, amplitude);
        assert((window_size * amplitude) / window_size == amplitude) by (nonlinear_arith)
            requires
                window_size > 0,
        ;
        assert(crosses_at(samples, full, window_size, threshold));
    }
}

} // verus!
