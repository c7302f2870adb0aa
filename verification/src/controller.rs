//! The voice session: a state machine of four phases that listens for the
//! wake word, captures a command, resolves it and has its script run. The
//! host performs what each step asks for and reports back what happened.

use crate::commands::{CommandIndex, EntryKind};
use crate::onset::{locate_onset, onset_of, OnsetError};
use crate::resolver::{path_text, render_path, resolution_of, resolve, Outcome, ResolveError,
    ResolvedCommand};
use crate::transcript::{grid_of, has_wake_word, heard_wake_word, texts_of, TranscriptTree};
use crate::vad::{crosses_once, edge_of, events_of, latch_after, latch_after_all,
    lemma_single_crossing, occurrences, VoiceActivity, VoiceEvent};
use crate::window::{chunk_views, concat_chunks, keep_last, loudness_of, silence, SampleWindow};
use vstd::prelude::*;
use vstd::string::*;

verus! {

/// The loudness from which on sound counts as speech: a hundredth of full
/// scale.
pub const ACTIVATION_THRESHOLD: u32 = 10_000;

/// The number of hypotheses asked of the speech recogniser per utterance.
pub const TRANSCRIPT_COUNT: u16 = 300;

/// The seconds of newest audio over which loudness is measured.
pub const THRESHOLD_TIME_SECONDS: usize = 1;

/// The seconds of audio kept while waiting for the wake word.
pub const ACTIVATION_BUFFER_SIZE_SECONDS: usize = 2;

/// The seconds of audio kept while a command is spoken.
pub const COMMAND_BUFFER_SIZE_SECONDS: usize = 15;

/// The number of samples in `seconds` seconds at `sample_rate` samples per
/// second, capped at the largest count the machine can hold.
pub open spec fn sample_count(sample_rate: u32, seconds: usize) -> nat {
    if sample_rate * seconds > usize::MAX {
        usize::MAX as nat
    } else {
        (sample_rate * seconds) as nat
    }
}

/// The number of samples in `seconds` seconds at `sample_rate` samples per
/// second, capped at the largest count the machine can hold.
pub fn samples_in(sample_rate: u32, seconds: usize) -> (count: usize)
    ensures
        count == sample_count(sample_rate, seconds),
{
    match (sample_rate as usize).checked_mul(seconds) {
        Some(count) => count,
        None => usize::MAX,
    }
}

/// What is said when the wake word was heard.
pub open spec fn ready_text() -> Seq<char> {
    "ready"@
}

/// What is said when a command was heard and the search begins.
pub open spec fn searching_text() -> Seq<char> {
    "searching for command"@
}

/// What is said when a command was found.
pub open spec fn executing_text() -> Seq<char> {
    "Executing command"@
}

/// What is said when no command was found.
pub open spec fn not_found_text() -> Seq<char> {
    "Could not find that command."@
}

/// What is said of a malformed command tree, before the offending path.
pub open spec fn malformed_prefix() -> Seq<char> {
    "Invalid file found in commands: "@
}

/// The report of an utterance in which the onset search found no speech.
pub open spec fn no_onset_text() -> Seq<char> {
    "Somehow tried to process a command both loud enough and not loud enough"@
}

/// The audio of one utterance, as it stood in the window when speech ended.
pub struct Utterance {
    samples: Vec<i32>,
}

impl View for Utterance {
    type V = Seq<i32>;

    closed spec fn view(&self) -> Seq<i32> {
        self.samples@
    }
}

impl Utterance {
    /// The samples, oldest first.
    pub fn samples(&self) -> (samples: &Vec<i32>)
        ensures
            samples@ == self@,
    {
        &self.samples
    }
}

/// The phase of the session, with what that phase works on.
pub enum State {
    /// Waiting for the wake word.
    Idle { window: SampleWindow, activity: VoiceActivity },
    /// The wake word was heard; waiting for a command.
    HeardTrigger { window: SampleWindow, activity: VoiceActivity },
    /// A command was heard; it is to be looked up in the command tree.
    SearchingForCommand { tree: TranscriptTree },
    /// A command was found; its script is to be run.
    ExecingCommand { command: ResolvedCommand },
}

/// What the host reports to the session.
pub enum Event {
    /// Chunks of audio arrived from the microphone, oldest first. None at all
    /// is reported as an empty list.
    Audio(Vec<Vec<i32>>),
    /// The speech recogniser gave its hypotheses, most confident first.
    Transcribed(Vec<String>),
    /// The speech recogniser failed, with this report.
    TranscriptionFailed(String),
    /// The command tree was read.
    Commands(CommandIndex),
    /// The script ran to its end.
    ScriptFinished,
    /// The script failed, with this report.
    ScriptFailed(String),
    /// A channel to a device lost its other end, with this report.
    ChannelClosed(String),
}

/// What the session asks of the host.
pub enum Action {
    /// Nothing: go on with what the phase calls for.
    Continue,
    /// Have the utterance recognised, asking for this many hypotheses, and
    /// report the outcome.
    Transcribe { utterance: Utterance, hypotheses: u16 },
    /// Say this, then go on with what the phase calls for.
    Speak(String),
    /// Stop with this report: the session cannot go on.
    Fail(String),
}

/// A phase as contracts see it.
pub enum StateView {
    Idle { samples: Seq<i32>, capacity: nat, latched: bool, window_size: nat },
    HeardTrigger { samples: Seq<i32>, capacity: nat, latched: bool, window_size: nat },
    SearchingForCommand { grid: Seq<Seq<Option<Seq<char>>>> },
    ExecingCommand { root: Seq<char>, script: Seq<Seq<char>>, slots: Seq<Seq<Seq<char>>> },
}

/// An event as contracts see it.
pub enum EventView {
    Audio { chunks: Seq<Seq<i32>> },
    Transcribed { hypotheses: Seq<Seq<char>> },
    TranscriptionFailed { report: Seq<char> },
    Commands { root: Seq<char>, listing: Map<Seq<Seq<char>>, EntryKind> },
    ScriptFinished,
    ScriptFailed { report: Seq<char> },
    ChannelClosed { report: Seq<char> },
}

/// An action as contracts see it.
pub enum ActionView {
    Continue,
    Transcribe { samples: Seq<i32>, hypotheses: nat },
    Speak { text: Seq<char> },
    Fail { report: Seq<char> },
}

/// A step of the session: the phase it leads to and what it asks for.
pub struct Transition {
    pub state: StateView,
    pub action: ActionView,
}

impl View for State {
    type V = StateView;

    open spec fn view(&self) -> StateView {
        match self {
            State::Idle { window, activity } => StateView::Idle {
                samples: window@,
                capacity: window.limit(),
                latched: activity.crossed_loudness,
                window_size: activity.window_size as nat,
            },
            State::HeardTrigger { window, activity } => StateView::HeardTrigger {
                samples: window@,
                capacity: window.limit(),
                latched: activity.crossed_loudness,
                window_size: activity.window_size as nat,
            },
            State::SearchingForCommand { tree } => StateView::SearchingForCommand { grid: tree@ },
            State::ExecingCommand { command } => StateView::ExecingCommand {
                root: command.root_text(),
                script: command.script_segments(),
                slots: command.slot_texts(),
            },
        }
    }
}

impl View for Event {
    type V = EventView;

    open spec fn view(&self) -> EventView {
        match self {
            Event::Audio(chunks) => EventView::Audio { chunks: chunk_views(chunks@) },
            Event::Transcribed(hypotheses) => EventView::Transcribed {
                hypotheses: texts_of(hypotheses@),
            },
            Event::TranscriptionFailed(report) => EventView::TranscriptionFailed {
                report: report@,
            },
            Event::Commands(index) => EventView::Commands {
                root: index.root_text(),
                listing: index@,
            },
            Event::ScriptFinished => EventView::ScriptFinished,
            Event::ScriptFailed(report) => EventView::ScriptFailed { report: report@ },
            Event::ChannelClosed(report) => EventView::ChannelClosed { report: report@ },
        }
    }
}

impl View for Action {
    type V = ActionView;

    open spec fn view(&self) -> ActionView {
        match self {
            Action::Continue => ActionView::Continue,
            Action::Transcribe { utterance, hypotheses } => ActionView::Transcribe {
                samples: utterance@,
                hypotheses: *hypotheses as nat,
            },
            Action::Speak(text) => ActionView::Speak { text: text@ },
            Action::Fail(report) => ActionView::Fail { report: report@ },
        }
    }
}

/// The idle phase as it begins: a window of two seconds of silence and an
/// open latch that measures loudness over one second.
pub open spec fn fresh_idle(sample_rate: u32) -> StateView {
    StateView::Idle {
        samples: silence(sample_count(sample_rate, ACTIVATION_BUFFER_SIZE_SECONDS)),
        capacity: sample_count(sample_rate, ACTIVATION_BUFFER_SIZE_SECONDS),
        latched: false,
        window_size: sample_count(sample_rate, THRESHOLD_TIME_SECONDS),
    }
}

/// The command phase as it begins: a window of fifteen seconds of silence and
/// an open latch that measures loudness over one second.
pub open spec fn fresh_heard_trigger(sample_rate: u32) -> StateView {
    StateView::HeardTrigger {
        samples: silence(sample_count(sample_rate, COMMAND_BUFFER_SIZE_SECONDS)),
        capacity: sample_count(sample_rate, COMMAND_BUFFER_SIZE_SECONDS),
        latched: false,
        window_size: sample_count(sample_rate, THRESHOLD_TIME_SECONDS),
    }
}

/// The window after the chunks were pushed into it.
pub open spec fn heard(samples: Seq<i32>, capacity: nat, chunks: Seq<Seq<i32>>) -> Seq<i32> {
    keep_last(samples + concat_chunks(chunks), capacity)
}

/// The edge that the window raises once the chunks were pushed into it.
pub open spec fn edge_heard(
    samples: Seq<i32>,
    capacity: nat,
    latched: bool,
    window_size: nat,
    chunks: Seq<Seq<i32>>,
) -> VoiceEvent {
    edge_of(
        latched,
        loudness_of(heard(samples, capacity, chunks), window_size),
        ACTIVATION_THRESHOLD as nat,
    )
}

/// What the session does on audio while it waits for the wake word: it takes
/// the audio in, and where speech ends it asks for the whole window to be
/// recognised.
pub open spec fn idle_on_audio(
    samples: Seq<i32>,
    capacity: nat,
    latched: bool,
    window_size: nat,
    chunks: Seq<Seq<i32>>,
) -> Transition {
    let edge = edge_heard(samples, capacity, latched, window_size, chunks);
    Transition {
        state: StateView::Idle {
            samples: heard(samples, capacity, chunks),
            capacity,
            latched: latch_after(latched, edge),
            window_size,
        },
        action: if edge == VoiceEvent::EndOfSpeech {
            ActionView::Transcribe {
                samples: heard(samples, capacity, chunks),
                hypotheses: TRANSCRIPT_COUNT as nat,
            }
        } else {
            ActionView::Continue
        },
    }
}

/// What the session does on audio while it waits for a command: it takes the
/// audio in, and where speech ends it asks for the window from the onset of
/// speech on to be recognised, or stops where no onset is found.
pub open spec fn trigger_on_audio(
    samples: Seq<i32>,
    capacity: nat,
    latched: bool,
    window_size: nat,
    chunks: Seq<Seq<i32>>,
) -> Transition {
    let edge = edge_heard(samples, capacity, latched, window_size, chunks);
    let now = heard(samples, capacity, chunks);
    Transition {
        state: StateView::HeardTrigger {
            samples: now,
            capacity,
            latched: latch_after(latched, edge),
            window_size,
        },
        action: if edge == VoiceEvent::EndOfSpeech {
            match onset_of(now, window_size, ACTIVATION_THRESHOLD as nat) {
                Some(start) => ActionView::Transcribe {
                    samples: now.subrange(start, now.len() as int),
                    hypotheses: TRANSCRIPT_COUNT as nat,
                },
                None => ActionView::Fail { report: no_onset_text() },
            }
        } else {
            ActionView::Continue
        },
    }
}

/// What the session does once the command tree was read: with a command
/// found it goes on to run it; with none, or at a malformed tree, it says so
/// and goes back to waiting for the wake word.
pub open spec fn search_on_commands(
    grid: Seq<Seq<Option<Seq<char>>>>,
    root: Seq<char>,
    listing: Map<Seq<Seq<char>>, EntryKind>,
    sample_rate: u32,
) -> Transition {
    match resolution_of(listing, grid) {
        Outcome::Found { script, slots } => Transition {
            state: StateView::ExecingCommand { root, script, slots },
            action: ActionView::Speak { text: executing_text() },
        },
        Outcome::NotFound => Transition {
            state: fresh_idle(sample_rate),
            action: ActionView::Speak { text: not_found_text() },
        },
        Outcome::Malformed { path } => Transition {
            state: fresh_idle(sample_rate),
            action: ActionView::Speak { text: malformed_prefix() + path_text(root, path) },
        },
    }
}

/// The step that the session takes from `state` on `event`, where the
/// microphone gives `sample_rate` samples per second. An event that the phase
/// does not wait for leaves the session as it is.
pub open spec fn step_of(state: StateView, event: EventView, sample_rate: u32) -> Transition {
    match event {
        EventView::TranscriptionFailed { report } => Transition {
            state,
            action: ActionView::Fail { report },
        },
        EventView::ChannelClosed { report } => Transition {
            state,
            action: ActionView::Fail { report },
        },
        EventView::Audio { chunks } => match state {
            StateView::Idle { samples, capacity, latched, window_size } => idle_on_audio(
                samples,
                capacity,
                latched,
                window_size,
                chunks,
            ),
            StateView::HeardTrigger {
                samples,
                capacity,
                latched,
                window_size,
            } => trigger_on_audio(samples, capacity, latched, window_size, chunks),
            _ => Transition { state, action: ActionView::Continue },
        },
        EventView::Transcribed { hypotheses } => match state {
            StateView::Idle { samples, capacity, latched, window_size } => if has_wake_word(
                hypotheses,
            ) {
                Transition {
                    state: fresh_heard_trigger(sample_rate),
                    action: ActionView::Speak { text: ready_text() },
                }
            } else {
                Transition {
                    state: StateView::Idle { samples, capacity, latched: false, window_size },
                    action: ActionView::Continue,
                }
            },
            StateView::HeardTrigger { .. } => Transition {
                state: StateView::SearchingForCommand { grid: grid_of(hypotheses) },
                action: ActionView::Speak { text: searching_text() },
            },
            _ => Transition { state, action: ActionView::Continue },
        },
        EventView::Commands { root, listing } => match state {
            StateView::SearchingForCommand { grid } => search_on_commands(
                grid,
                root,
                listing,
                sample_rate,
            ),
            _ => Transition { state, action: ActionView::Continue },
        },
        EventView::ScriptFinished => match state {
            StateView::ExecingCommand { .. } => Transition {
                state: fresh_idle(sample_rate),
                action: ActionView::Continue,
            },
            _ => Transition { state, action: ActionView::Continue },
        },
        EventView::ScriptFailed { report } => match state {
            StateView::ExecingCommand { .. } => Transition {
                state,
                action: ActionView::Fail { report },
            },
            _ => Transition { state, action: ActionView::Continue },
        },
    }
}

/// Takes the chunks into the window and gives the edge that its loudness
/// raises on the latch.
fn listen(window: &mut SampleWindow, activity: &mut VoiceActivity, chunks: Vec<Vec<i32>>) -> (edge:
    VoiceEvent)
    ensures
        final(window)@ == heard(old(window)@, old(window).limit(), chunk_views(chunks@)),
        final(window).limit() == old(window).limit(),
        edge == edge_heard(
            old(window)@,
            old(window).limit(),
            old(activity).crossed_loudness,
            old(activity).window_size as nat,
            chunk_views(chunks@),
        ),
        final(activity).crossed_loudness == latch_after(old(activity).crossed_loudness, edge),
        final(activity).window_size == old(activity).window_size,
{
    window.extend(chunks);
    let loudness = window.loudness(activity.window_size);
    activity.observe(loudness, ACTIVATION_THRESHOLD)
}

impl State {
    /// The idle phase as it begins.
    pub fn new_idle(sample_rate: u32) -> (state: State)
        ensures
            state@ == fresh_idle(sample_rate),
    {
        State::Idle {
            window: SampleWindow::silent(samples_in(sample_rate, ACTIVATION_BUFFER_SIZE_SECONDS)),
            activity: VoiceActivity::new(samples_in(sample_rate, THRESHOLD_TIME_SECONDS)),
        }
    }

    /// The command phase as it begins.
    pub fn new_heard_trigger(sample_rate: u32) -> (state: State)
        ensures
            state@ == fresh_heard_trigger(sample_rate),
    {
        State::HeardTrigger {
            window: SampleWindow::silent(samples_in(sample_rate, COMMAND_BUFFER_SIZE_SECONDS)),
            activity: VoiceActivity::new(samples_in(sample_rate, THRESHOLD_TIME_SECONDS)),
        }
    }

    /// The search phase for the transcript `tree`.
    pub fn new_searching_for_command(tree: TranscriptTree) -> (state: State)
        ensures
            state@ == (StateView::SearchingForCommand { grid: tree@ }),
    {
        State::SearchingForCommand { tree }
    }

    /// The phase in which `command` is run.
    pub fn new_execing_command(command: ResolvedCommand) -> (state: State)
        ensures
            state@ == (StateView::ExecingCommand {
                root: command.root_text(),
                script: command.script_segments(),
                slots: command.slot_texts(),
            }),
    {
        State::ExecingCommand { command }
    }

    /// Takes one step: from this phase, on `event`, to the next phase and
    /// the action that the host is to perform.
    pub fn step(self, event: Event, sample_rate: u32) -> (next: (State, Action))
        ensures
            next.0@ == step_of(self@, event@, sample_rate).state,
            next.1@ == step_of(self@, event@, sample_rate).action,
    {
        match event {
            Event::TranscriptionFailed(report) => (self, Action::Fail(report)),
            Event::ChannelClosed(report) => (self, Action::Fail(report)),
            Event::Audio(chunks) => match self {
                State::Idle { window, activity } => {
                    let mut window = window;
                    let mut activity = activity;
                    let edge = listen(&mut window, &mut activity, chunks);
                    let action = match edge {
                        VoiceEvent::EndOfSpeech => {
                            let samples = window.snapshot_from(0);
                            assert(samples@ =~= window@);
                            Action::Transcribe {
                                utterance: Utterance { samples },
                                hypotheses: TRANSCRIPT_COUNT,
                            }
                        },
                        _ => Action::Continue,
                    };
                    (State::Idle { window, activity }, action)
                },
                State::HeardTrigger { window, activity } => {
                    let mut window = window;
                    let mut activity = activity;
                    let edge = listen(&mut window, &mut activity, chunks);
                    let action = match edge {
                        VoiceEvent::EndOfSpeech => {
                            match locate_onset(
                                window.samples(),
                                activity.window_size,
                                ACTIVATION_THRESHOLD,
                            ) {
                                Ok(start) => Action::Transcribe {
                                    utterance: Utterance { samples: window.snapshot_from(start) },
                                    hypotheses: TRANSCRIPT_COUNT,
                                },
                                Err(OnsetError::NoCrossing) => Action::Fail(
                                    "Somehow tried to process a command both loud enough and not loud enough".to_owned(),
                                ),
                            }
                        },
                        _ => Action::Continue,
                    };
                    (State::HeardTrigger { window, activity }, action)
                },
                other => (other, Action::Continue),
            },
            Event::Transcribed(hypotheses) => match self {
                State::Idle { window, activity } => {
                    if heard_wake_word(&hypotheses) {
                        (State::new_heard_trigger(sample_rate), Action::Speak("ready".to_owned()))
                    } else {
                        let activity = VoiceActivity {
                            crossed_loudness: false,
                            window_size: activity.window_size,
                        };
                        (State::Idle { window, activity }, Action::Continue)
                    }
                },
                State::HeardTrigger { .. } => (
                    State::SearchingForCommand { tree: TranscriptTree::build(&hypotheses) },
                    Action::Speak("searching for command".to_owned()),
                ),
                other => (other, Action::Continue),
            },
            Event::Commands(index) => match self {
                State::SearchingForCommand { tree } => match resolve(&tree, &index) {
                    Ok(command) => (
                        State::ExecingCommand { command },
                        Action::Speak("Executing command".to_owned()),
                    ),
                    Err(ResolveError::NotFound) => (
                        State::new_idle(sample_rate),
                        Action::Speak("Could not find that command.".to_owned()),
                    ),
                    Err(ResolveError::Malformed { path }) => {
                        let mut text = "Invalid file found in commands: ".to_owned();
                        text.append(render_path(index.root(), &path).as_str());
                        (State::new_idle(sample_rate), Action::Speak(text))
                    },
                },
                other => (other, Action::Continue),
            },
            Event::ScriptFinished => match self {
                State::ExecingCommand { .. } => (State::new_idle(sample_rate), Action::Continue),
                other => (other, Action::Continue),
            },
            Event::ScriptFailed(report) => match self {
                State::ExecingCommand { command } => (
                    State::ExecingCommand { command },
                    Action::Fail(report),
                ),
                other => (other, Action::Continue),
            },
        }
    }
}

/// The window of the phase, if it has one, holds no more than its capacity.
pub open spec fn window_within_capacity(state: StateView) -> bool {
    match state {
        StateView::Idle { samples, capacity, .. } => samples.len() <= capacity,
        StateView::HeardTrigger { samples, capacity, .. } => samples.len() <= capacity,
        _ => true,
    }
}

/// In every phase the window stays within its capacity: the listening phases
/// begin so, and every step keeps it so.
pub proof fn lemma_window_stays_within_capacity(state: StateView, event: EventView, sample_rate: u32)
    requires
        window_within_capacity(state),
    ensures
        window_within_capacity(fresh_idle(sample_rate)),
        window_within_capacity(fresh_heard_trigger(sample_rate)),
        window_within_capacity(step_of(state, event, sample_rate).state),
{
}

/// Recognition is asked for only when audio arrives in a listening phase and
/// ends speech there, and then for 300 hypotheses.
pub proof fn lemma_transcription_follows_end_of_speech(
    state: StateView,
    event: EventView,
    sample_rate: u32,
)
    requires
        step_of(state, event, sample_rate).action is Transcribe,
    ensures
        step_of(state, event, sample_rate).action->hypotheses == 300,
        event matches EventView::Audio { chunks } && match state {
            StateView::Idle { samples, capacity, latched, window_size } => latched && edge_heard(
                samples,
                capacity,
                latched,
                window_size,
                chunks,
            ) == VoiceEvent::EndOfSpeech,
            StateView::HeardTrigger {
                samples,
                capacity,
                latched,
                window_size,
            } => latched && edge_heard(samples, capacity, latched, window_size, chunks)
                == VoiceEvent::EndOfSpeech,
            _ => false,
        },
{
}

/// The state searches for a command and the event brings a command tree in
/// which the transcript resolves to a script.
pub open spec fn finds_command(state: StateView, event: EventView) -> bool {
    match state {
        StateView::SearchingForCommand { grid } => match event {
            EventView::Commands { root, listing } => resolution_of(listing, grid) is Found,
            _ => false,
        },
        _ => false,
    }
}

/// A script is run only for a command that was found: a step enters the
/// executing phase only from the search phase and only on a command tree in
/// which the transcript resolves to a script. Where the search finds none,
/// the step leads to the idle phase as it begins.
pub proof fn lemma_executing_follows_a_found_command(
    state: StateView,
    event: EventView,
    sample_rate: u32,
)
    ensures
        step_of(state, event, sample_rate).state is ExecingCommand ==> state is ExecingCommand
            || finds_command(state, event),
        finds_command(state, event) ==> step_of(state, event, sample_rate).state
            is ExecingCommand,
        state is SearchingForCommand && event is Commands && !finds_command(state, event)
            ==> step_of(state, event, sample_rate).state == fresh_idle(sample_rate),
{
}

/// The window after the audio events were taken in, one after the other.
pub open spec fn window_after(samples: Seq<i32>, capacity: nat, audio: Seq<Seq<Seq<i32>>>) -> Seq<
    i32,
>
    decreases audio.len(),
{
    if audio.len() == 0 {
        samples
    } else {
        heard(window_after(samples, capacity, audio.drop_last()), capacity, audio.last())
    }
}

/// The loudness readings that a listening phase takes while the audio events
/// arrive: one after each event, over the window as it then stands.
pub open spec fn readings_of(
    samples: Seq<i32>,
    capacity: nat,
    window_size: nat,
    audio: Seq<Seq<Seq<i32>>>,
) -> Seq<nat>
    decreases audio.len(),
{
    if audio.len() == 0 {
        Seq::empty()
    } else {
        readings_of(samples, capacity, window_size, audio.drop_last()).push(
            loudness_of(window_after(samples, capacity, audio), window_size),
        )
    }
}

/// The phase that the session is in once it has stepped on each of the audio
/// events in turn.
pub open spec fn after_audio(state: StateView, audio: Seq<Seq<Seq<i32>>>, sample_rate: u32) -> StateView
    decreases audio.len(),
{
    if audio.len() == 0 {
        state
    } else {
        step_of(
            after_audio(state, audio.drop_last(), sample_rate),
            EventView::Audio { chunks: audio.last() },
            sample_rate,
        ).state
    }
}

/// The actions that the session asks for as it steps on each of the audio
/// events in turn.
pub open spec fn actions_on_audio(state: StateView, audio: Seq<Seq<Seq<i32>>>, sample_rate: u32) -> Seq<
    ActionView,
>
    decreases audio.len(),
{
    if audio.len() == 0 {
        Seq::empty()
    } else {
        actions_on_audio(state, audio.drop_last(), sample_rate).push(
            step_of(
                after_audio(state, audio.drop_last(), sample_rate),
                EventView::Audio { chunks: audio.last() },
                sample_rate,
            ).action,
        )
    }
}

/// How often the actions ask for recognition.
pub open spec fn transcriptions(actions: Seq<ActionView>) -> nat
    decreases actions.len(),
{
    if actions.len() == 0 {
        0
    } else {
        transcriptions(actions.drop_last()) + if actions.last() is Transcribe {
            1nat
        } else {
            0nat
        }
    }
}

/// Audio alone keeps the session in the idle phase, where the latch follows
/// the loudness readings, and recognition is asked for once for every end of
/// speech among them.
pub proof fn lemma_idle_follows_readings(
    samples: Seq<i32>,
    capacity: nat,
    latched: bool,
    window_size: nat,
    audio: Seq<Seq<Seq<i32>>>,
    sample_rate: u32,
)
    ensures
        after_audio(
            StateView::Idle { samples, capacity, latched, window_size },
            audio,
            sample_rate,
        ) == (StateView::Idle {
            samples: window_after(samples, capacity, audio),
            capacity,
            latched: latch_after_all(
                latched,
                readings_of(samples, capacity, window_size, audio),
                ACTIVATION_THRESHOLD as nat,
            ),
            window_size,
        }),
        transcriptions(
            actions_on_audio(
                StateView::Idle { samples, capacity, latched, window_size },
                audio,
                sample_rate,
            ),
        ) == occurrences(
            events_of(
                latched,
                readings_of(samples, capacity, window_size, audio),
                ACTIVATION_THRESHOLD as nat,
            ),
            VoiceEvent::EndOfSpeech,
        ),
    decreases audio.len(),
{
    if audio.len() > 0 {
        let start = StateView::Idle { samples, capacity, latched, window_size };
        let readings = readings_of(samples, capacity, window_size, audio);
        lemma_idle_follows_readings(
            samples,
            capacity,
            latched,
            window_size,
            audio.drop_last(),
            sample_rate,
        );
        assert(readings.drop_last() =~= readings_of(
            samples,
            capacity,
            window_size,
            audio.drop_last(),
        ));
        let actions = actions_on_audio(start, audio, sample_rate);
        assert(actions.drop_last() =~= actions_on_audio(start, audio.drop_last(), sample_rate));
        let events = events_of(latched, readings, ACTIVATION_THRESHOLD as nat);
        assert(events.drop_last() =~= events_of(
            latched,
            readings.drop_last(),
            ACTIVATION_THRESHOLD as nat,
        ));
    }
}

/// While the session is idle with an open latch, audio whose loudness
/// readings cross the threshold upward once and downward once makes it ask
/// for recognition exactly once, however the audio is cut into events.
pub proof fn lemma_one_crossing_one_transcription(
    samples: Seq<i32>,
    capacity: nat,
    window_size: nat,
    audio: Seq<Seq<Seq<i32>>>,
    sample_rate: u32,
    rise: int,
    fall: int,
)
    requires
        crosses_once(
            readings_of(samples, capacity, window_size, audio),
            ACTIVATION_THRESHOLD as nat,
            rise,
            fall,
        ),
    ensures
        transcriptions(
            actions_on_audio(
                StateView::Idle { samples, capacity, latched: false, window_size },
                audio,
                sample_rate,
            ),
        ) == 1,
{
    lemma_idle_follows_readings(samples, capacity, false, window_size, audio, sample_rate);
    lemma_single_crossing(
        readings_of(samples, capacity, window_size, audio),
        ACTIVATION_THRESHOLD as nat,
        rise,
        fall,
    );
}

} // verus!
