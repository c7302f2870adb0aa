//! Decision logic of a wake-word voice command dispatcher.
//!
//! The crate holds the parts of the dispatcher that decide: the bounded audio
//! window and its loudness, the voice-activity latch, the onset search, the
//! grid of transcript candidates, the walk through the command tree, and the
//! session state machine that ties them together. Every function carries a
//! contract that Verus proves. Devices, the speech engines and the script
//! runtime are driven by the host program, which feeds events in and carries
//! actions out.
//!
//! Audio samples are fixed-point amplitudes: an `i32` counts millionths of
//! full scale, so the activation threshold of one hundredth of full scale is
//! the integer `10_000` and every loudness computation is exact.
//!
//! A host drives a session like this: it starts from
//! [`controller::State::new_idle`] and then, over and over, does what the
//! phase calls for, reports it with [`controller::State::step`] and performs
//! the action that comes back. While the session listens, the host reports
//! the audio that has arrived; while it searches, the listing of the command
//! tree; while it executes, the end of the script. When a step asks for an
//! utterance to be recognised, the host reports the hypotheses before it goes
//! on.

pub mod commands;
pub mod controller;
pub mod onset;
pub mod resolver;
pub mod transcript;
pub mod vad;
pub mod window;
