//! Voice-activity detection: a latch with hysteresis that turns a stream of
//! loudness readings into start-of-speech and end-of-speech edges.

use vstd::prelude::*;

verus! {

/// What one loudness reading means for the speech latch.
#[derive(Clone, Copy, Debug, PartialEq, Eq, Structural)]
pub enum VoiceEvent {
    /// The reading did not move the latch.
    NoEvent,
    /// The reading reached the threshold while the latch was open.
    StartOfSpeech,
    /// The reading fell below the threshold while the latch was set.
    EndOfSpeech,
}

/// The event that a reading of `loudness` raises on a latch that is `latched`.
pub open spec fn edge_of(latched: bool, loudness: nat, threshold: nat) -> VoiceEvent {
    if !latched && loudness >= threshold {
        VoiceEvent::StartOfSpeech
    } else if latched && loudness < threshold {
        VoiceEvent::EndOfSpeech
    } else {
        VoiceEvent::NoEvent
    }
}

/// The latch after `event` was raised on it.
pub open spec fn latch_after(latched: bool, event: VoiceEvent) -> bool {
    match event {
        VoiceEvent::StartOfSpeech => true,
        VoiceEvent::EndOfSpeech => false,
        VoiceEvent::NoEvent => latched,
    }
}

/// The latch after all of `readings` were observed in order, starting from
/// `latched`.
pub open spec fn latch_after_all(latched: bool, readings: Seq<nat>, threshold: nat) -> bool
    decreases readings.len(),
{
    if readings.len() == 0 {
        latched
    } else {
        let before = latch_after_all(latched, readings.drop_last(), threshold);
        latch_after(before, edge_of(before, readings.last(), threshold))
    }
}

/// The events that observing `readings` in order raises, one per reading,
/// starting from `latched`.
pub open spec fn events_of(latched: bool, readings: Seq<nat>, threshold: nat) -> Seq<VoiceEvent>
    decreases readings.len(),
{
    if readings.len() == 0 {
        Seq::empty()
    } else {
        let earlier = readings.drop_last();
        events_of(latched, earlier, threshold).push(
            edge_of(latch_after_all(latched, earlier, threshold), readings.last(), threshold),
        )
    }
}

/// How often `event` occurs in `events`.
pub open spec fn occurrences(events: Seq<VoiceEvent>, event: VoiceEvent) -> nat
    decreases events.len(),
{
    if events.len() == 0 {
        0
    } else {
        occurrences(events.drop_last(), event) + if events.last() == event {
            1nat
        } else {
            0nat
        }
    }
}

/// The readings stay below the threshold before `rise`, at or above it from
/// `rise` up to `fall`, and below it from `fall` on.
pub open spec fn crosses_once(readings: Seq<nat>, threshold: nat, rise: int, fall: int) -> bool {
    &&& 0 <= rise < fall < readings.len()
    &&& forall|k: int| 0 <= k < rise ==> #[trigger] readings[k] < threshold
    &&& forall|k: int| rise <= k < fall ==> #[trigger] readings[k] >= threshold
    &&& forall|k: int| fall <= k < readings.len() ==> #[trigger] readings[k] < threshold
}

/// The voice-activity state of one listening phase: the latch, and the number
/// of newest samples over which loudness is measured.
#[derive(Clone, Copy, Debug, PartialEq, Eq, Structural)]
pub struct VoiceActivity {
    /// Set between a start-of-speech and the next end-of-speech.
    pub crossed_loudness: bool,
    /// The number of newest samples that a loudness reading averages.
    pub window_size: usize,
}

impl VoiceActivity {
    /// A state with the latch open.
    pub fn new(window_size: usize) -> (activity: VoiceActivity)
        ensures
            activity == (VoiceActivity { crossed_loudness: false, window_size }),
    {
        VoiceActivity { crossed_loudness: false, window_size }
    }

    /// Takes one loudness reading: raises the edge it causes, if any, and
    /// moves the latch accordingly.
    pub fn observe(&mut self, loudness: u32, threshold: u32) -> (event: VoiceEvent)
        ensures
            event == edge_of(old(self).crossed_loudness, loudness as nat, threshold as nat),
            final(self).crossed_loudness == latch_after(old(self).crossed_loudness, event),
            final(self).window_size == old(self).window_size,
    {
        if !self.crossed_loudness && loudness >= threshold {
            self.crossed_loudness = true;
            VoiceEvent::StartOfSpeech
        } else if self.crossed_loudness && loudness < threshold {
            self.crossed_loudness = false;
            VoiceEvent::EndOfSpeech
        } else {
            VoiceEvent::NoEvent
        }
    }
}

/// One reading raises one event, and never both edges: each event is decided
/// by the latch and the side of the threshold the reading lies on.
pub proof fn lemma_edge_is_exclusive(latched: bool, loudness: nat, threshold: nat)
    ensures
        edge_of(latched, loudness, threshold) == VoiceEvent::StartOfSpeech <==> !latched
            && loudness >= threshold,
        edge_of(latched, loudness, threshold) == VoiceEvent::EndOfSpeech <==> latched && loudness
            < threshold,
        latch_after(latched, edge_of(latched, loudness, threshold)) == (loudness >= threshold),
{
}

/// What a prefix of readings that cross the threshold once leaves behind: the
/// latch is set exactly between the rise and the fall, the rise has raised
/// one start-of-speech by then and the fall one end-of-speech.
proof fn lemma_single_crossing_prefix(
    readings: Seq<nat>,
    threshold: nat,
    rise: int,
    fall: int,
    upto: int,
)
    requires
        crosses_once(readings, threshold, rise, fall),
        0 <= upto <= readings.len(),
    ensures
        latch_after_all(false, readings.take(upto), threshold) == (rise < upto <= fall),
        events_of(false, readings.take(upto), threshold).len() == upto,
        occurrences(
            events_of(false, readings.take(upto), threshold),
            VoiceEvent::StartOfSpeech,
        ) == if rise < upto {
            1nat
        } else {
            0nat
        },
        occurrences(
            events_of(false, readings.take(upto), threshold),
            VoiceEvent::EndOfSpeech,
        ) == if fall < upto {
            1nat
        } else {
            0nat
        },
    decreases upto,
{
    if upto > 0 {
        lemma_single_crossing_prefix(readings, threshold, rise, fall, upto - 1);
        assert(readings.take(upto).drop_last() =~= readings.take(upto - 1));
        let events = events_of(false, readings.take(upto), threshold);
        assert(events.drop_last() =~= events_of(false, readings.take(upto - 1), threshold));
    }
}

/// Readings that cross the threshold upward once and downward once raise
/// exactly one start-of-speech and exactly one end-of-speech on an open
/// latch, however many readings lie on either side, and leave the latch open.
pub proof fn lemma_single_crossing(readings: Seq<nat>, threshold: nat, rise: int, fall: int)
    requires
        crosses_once(readings, threshold, rise, fall),
    ensures
        occurrences(events_of(false, readings, threshold), VoiceEvent::StartOfSpeech) == 1,
        occurrences(events_of(false, readings, threshold), VoiceEvent::EndOfSpeech) == 1,
        events_of(false, readings, threshold).len() == readings.len(),
        !latch_after_all(false, readings, threshold),
{
    lemma_single_crossing_prefix(readings, threshold, rise, fall, readings.len() as int);
    assert(readings.take(readings.len() as int) =~= readings);
}

} // verus!
