//! One transcription, from the path the user picked to the transcript.
//!
//! The session decides; whoever drives it does the work. Each [`Reply`] names what to do next,
//! and what came of it goes back in as an [`Event`].
use crate::envelope::{speech_begins, speech_begins_once, values};
use crate::level::{is_nan_pattern, rank_of_pattern, Level};
use crate::binary::{signed_value, LEAD_32};
use crate::seconds::{centiseconds, shifted_centiseconds, speech_start_secs, Seconds};
use crate::text::{to_chars, to_text};
use crate::transcript::{
    degenerate_loop, first_repeat, looks_looped, share_of, spoken, RepeatShare, Segment, Transcript,
};
use vstd::prelude::*;
use vstd::slice::slice_subrange;

verus! {

/// What a user is told when the transcriber died.
pub const SERVER_DIED: &'static str = "vibe-server process died during transcription";

/// Below this peak there is nothing a speech model can work with.
pub const SILENCE_PEAK_DB: i32 = -50;

/// Longest part of a looped line worth quoting.
pub const PREVIEW_CHARS: usize = 40;

/// Why a command failed.
#[derive(Debug, Clone)]
pub struct CommandError {
    pub code: String,
    pub message: String,
}

impl View for CommandError {
    type V = (Seq<char>, Seq<char>);

    open spec fn view(&self) -> Self::V {
        (self.code@, self.message@)
    }
}

/// What the session waits for.
#[derive(Debug)]
pub enum Stage {
    /// Whether the path leads to a file.
    Path,
    /// The loudness envelope.
    Envelope,
    /// A copy of the recording from this time on.
    Trimming(Seconds),
    /// The peak level.
    Peak,
    /// Whether the transcriber runs.
    Server,
    /// The transcriber's stream.
    Opening,
    /// The next event on the stream.
    Streaming,
    /// How the transcriber died, after a stream that just stopped.
    Truncated,
    /// How the transcriber died, after this failure.
    Broken(CommandError),
    /// What the transcriber printed last, to add to this failure.
    Explaining(CommandError),
    /// Nothing more.
    Over,
}

/// What came of the last action.
#[derive(Debug)]
pub enum Event {
    /// Whether the path exists, and is a file.
    Path { exists: bool, is_file: bool },
    /// The loudness envelope, where it could be measured.
    Envelope(Option<Vec<Level>>),
    /// The path of the trimmed copy, where trimming worked.
    Trimmed(Option<String>),
    /// The bit pattern of the peak, where it could be measured, and how to show it.
    Peak { peak: Option<u32>, shown: String },
    /// Whether the transcriber runs.
    Server { running: bool },
    /// The stream is open.
    Opened,
    /// The transcriber is this far.
    Progress,
    /// The transcriber heard this.
    Heard { start: Seconds, end: Seconds, text: String, speaker: Option<i32> },
    /// The transcriber is done.
    Finished,
    /// The transcriber gave up.
    Refused { code: Option<String>, message: String },
    /// Talking to the transcriber failed: what the transcriber itself said of it, if anything, and
    /// what to say otherwise.
    Failed { answer: Option<CommandError>, otherwise: CommandError },
    /// The stream has no more events.
    Ended,
    /// How the transcriber died, if it did.
    Death(Option<String>),
    /// What the transcriber printed last.
    Stderr(String),
}

/// What to do next.
#[derive(Debug)]
pub enum Action {
    /// Measure the loudness envelope of the recording.
    MeasureEnvelope,
    /// Copy the recording from this time on.
    Trim(Seconds),
    /// Measure the peak of the recording.
    MeasurePeak,
    /// See whether the transcriber runs.
    FindServer,
    /// Have the transcriber read [`Session::source`].
    OpenStream,
    /// Wait for the next event on the stream.
    Await,
    /// Show how far the transcriber is, then wait on.
    ShowProgress,
    /// Show the last segment, then wait on.
    ShowSegment,
    /// Find out how the transcriber died, if it did.
    AskDeath,
    /// Fetch what the transcriber printed last.
    AskStderr,
    /// Hand over the transcript.
    Deliver,
    /// Report this failure.
    Fail(CommandError),
    /// The event was not one that the session waits for.
    Ignore,
}

/// What to do next, and whether to take down the progress bar first.
#[derive(Debug)]
pub struct Reply {
    pub clear_progress: bool,
    pub action: Action,
}

/// A transcription under way.
#[derive(Debug)]
pub struct Session {
    pub stage: Stage,
    /// The recording.
    pub path: String,
    /// The trimmed copy, where there is one.
    pub trimmed: Option<String>,
    /// What the copy is short of the recording.
    pub skipped: Seconds,
    /// What was heard so far.
    pub segments: Vec<Segment>,
    /// Whether the transcriber said that it is done.
    pub completed: bool,
}

/// Where speech begins, if there is a lead-in worth skipping.
pub open spec fn speech_start(levels: Seq<Level>) -> Option<int> {
    if exists|s: int| speech_begins(values(levels), s) {
        Some(choose|s: int| speech_begins(values(levels), s))
    } else {
        None
    }
}

/// Whether a peak is too low for speech. Only a level that was read can be.
pub open spec fn is_silent(peak: Option<u32>) -> bool {
    match peak {
        Some(bits) => !is_nan_pattern(bits) && signed_value(LEAD_32 as nat, rank_of_pattern(bits))
            < SILENCE_PEAK_DB * crate::level::decibel(),
        None => false,
    }
}

/// Whether `after` differs from `before` in its stage only.
pub open spec fn moves(before: Session, after: Session, stage: Stage) -> bool {
    after == (Session { stage, ..before })
}

/// Whether the reply is a failure with this code and message, and the session is over.
pub open spec fn fails(
    before: Session,
    after: Session,
    reply: Reply,
    clear: bool,
    error: (Seq<char>, Seq<char>),
) -> bool {
    &&& moves(before, after, Stage::Over)
    &&& reply.clear_progress == clear
    &&& reply.action matches Action::Fail(e)
    &&& e@ == error
}

/// Whether the reply asks for this action, and the session moves on to this stage.
pub open spec fn asks(
    before: Session,
    after: Session,
    reply: Reply,
    clear: bool,
    stage: Stage,
    action: Action,
) -> bool {
    &&& moves(before, after, stage)
    &&& reply == (Reply { clear_progress: clear, action })
}

/// What follows a failure to talk to the transcriber: what the transcriber said of it, or else a
/// search for how it died.
pub open spec fn breaks(
    before: Session,
    after: Session,
    reply: Reply,
    clear: bool,
    answer: Option<CommandError>,
    otherwise: CommandError,
) -> bool {
    match answer {
        Some(e) => fails(before, after, reply, clear, e@),
        None => asks(before, after, reply, clear, Stage::Broken(otherwise), Action::AskDeath),
    }
}

/// The segment that was heard, at its place in the recording.
pub open spec fn heard(
    start: Seconds,
    end: Seconds,
    text: String,
    speaker: Option<i32>,
    skipped: Seconds,
) -> Segment {
    Segment {
        start: shifted_centiseconds(start, skipped) as i64,
        stop: shifted_centiseconds(end, skipped) as i64,
        text,
        speaker,
    }
}

/// What one event on the stream leads to.
pub open spec fn streams(before: Session, event: Event, after: Session, reply: Reply) -> bool {
    match event {
        Event::Progress => asks(
            before,
            after,
            reply,
            false,
            Stage::Streaming,
            Action::ShowProgress,
        ),
        Event::Heard { start, end, text, speaker } => {
            &&& reply == (Reply { clear_progress: false, action: Action::ShowSegment })
            &&& after.segments@ == before.segments@.push(
                heard(start, end, text, speaker, before.skipped),
            )
            &&& after == (Session { segments: after.segments, ..before })
        },
        Event::Finished => {
            &&& reply == (Reply { clear_progress: false, action: Action::Await })
            &&& after == (Session { completed: true, ..before })
        },
        Event::Refused { code, message } => fails(
            before,
            after,
            reply,
            true,
            (
                match code {
                    Some(c) => c@,
                    None => "internal_error"@,
                },
                message@,
            ),
        ),
        Event::Failed { answer, otherwise } => breaks(
            before,
            after,
            reply,
            true,
            answer,
            otherwise,
        ),
        _ => ignores(before, after, reply),
    }
}

/// Whether nothing happens.
pub open spec fn ignores(before: Session, after: Session, reply: Reply) -> bool {
    &&& after == before
    &&& reply == (Reply { clear_progress: false, action: Action::Ignore })
}

/// Whether an event is one that comes over the stream.
pub open spec fn on_stream(event: Event) -> bool {
    event is Progress || event is Heard || event is Finished || event is Refused || event is Failed
}

/// What an event leads to. `aborted` tells whether the user has called the transcription off.
pub open spec fn step_of(
    before: Session,
    event: Event,
    aborted: bool,
    after: Session,
    reply: Reply,
) -> bool {
    match (before.stage, event) {
        (Stage::Path, Event::Path { exists, is_file }) => if !exists {
            fails(
                before,
                after,
                reply,
                false,
                ("invalid_request"@, "Audio file not found: "@ + before.path@),
            )
        } else if !is_file {
            fails(
                before,
                after,
                reply,
                false,
                ("invalid_request"@, "Path is not a file: "@ + before.path@),
            )
        } else {
            asks(before, after, reply, false, Stage::Envelope, Action::MeasureEnvelope)
        },
        (Stage::Envelope, Event::Envelope(levels)) => match levels {
            Some(list) if speech_start(list@) is Some => {
                &&& after.stage matches Stage::Trimming(t)
                &&& t.starts_window(speech_start(list@)->0)
                &&& asks(before, after, reply, false, Stage::Trimming(t), Action::Trim(t))
            },
            _ => asks(before, after, reply, false, Stage::Peak, Action::MeasurePeak),
        },
        (Stage::Trimming(t), Event::Trimmed(copy)) => {
            &&& reply == (Reply { clear_progress: false, action: Action::MeasurePeak })
            &&& after == (Session {
                stage: Stage::Peak,
                trimmed: copy,
                skipped: if copy is Some {
                    t
                } else {
                    Seconds { bits: 0 }
                },
                ..before
            })
        },
        (Stage::Peak, Event::Peak { peak, shown }) => if is_silent(peak) {
            fails(
                before,
                after,
                reply,
                false,
                (
                    "silent_audio"@,
                    "No audible speech in this file (peak "@ + shown@
                        + " dBFS). Check the input device and recording level, then record again."@,
                ),
            )
        } else {
            asks(before, after, reply, false, Stage::Server, Action::FindServer)
        },
        (Stage::Server, Event::Server { running }) => if running {
            asks(before, after, reply, false, Stage::Opening, Action::OpenStream)
        } else {
            fails(before, after, reply, false, ("no_model"@, "Please load model first"@))
        },
        (Stage::Opening, Event::Opened) => asks(
            before,
            after,
            reply,
            false,
            Stage::Streaming,
            Action::Await,
        ),
        (Stage::Opening, Event::Failed { answer, otherwise }) => breaks(
            before,
            after,
            reply,
            false,
            answer,
            otherwise,
        ),
        (Stage::Streaming, e) => if aborted && (on_stream(e) || e is Ended) {
            asks(before, after, reply, true, Stage::Over, Action::Deliver)
        } else if e is Ended {
            if before.completed {
                asks(before, after, reply, true, Stage::Over, Action::Deliver)
            } else {
                asks(before, after, reply, true, Stage::Truncated, Action::AskDeath)
            }
        } else {
            streams(before, e, after, reply)
        },
        (Stage::Truncated, Event::Death(report)) => fails(
            before,
            after,
            reply,
            false,
            (
                "internal_error"@,
                match report {
                    Some(m) => m@,
                    None => "vibe-server transcription stream ended before completion"@,
                },
            ),
        ),
        (Stage::Broken(e), Event::Death(report)) => match report {
            Some(m) => fails(before, after, reply, false, ("internal_error"@, m@)),
            None => asks(before, after, reply, false, Stage::Explaining(e), Action::AskStderr),
        },
        (Stage::Explaining(e), Event::Stderr(printed)) => fails(
            before,
            after,
            reply,
            false,
            (
                e.code@,
                if printed@.len() == 0 {
                    e.message@
                } else {
                    e.message@ + "\n\nvibe-server stderr: "@ + printed@
                },
            ),
        ),
        _ => ignores(before, after, reply),
    }
}

/// An error with this code and message.
fn error(code: &str, message: String) -> (r: CommandError)
    ensures
        r@ == (code@, message@),
{
    CommandError { code: code.to_string(), message }
}

/// A failure, before the progress bar was put up.
fn failure(e: CommandError) -> (r: Reply)
    ensures
        r == (Reply { clear_progress: false, action: Action::Fail(e) }),
{
    Reply { clear_progress: false, action: Action::Fail(e) }
}

/// A reply that leaves the progress bar alone.
fn go(action: Action) -> (r: Reply)
    ensures
        r == (Reply { clear_progress: false, action }),
{
    Reply { clear_progress: false, action }
}

/// Whether a peak is too low for speech.
fn silent(peak: Option<u32>) -> (r: bool)
    ensures
        r == is_silent(peak),
{
    match peak {
        Some(bits) => match Level::from_bits(bits) {
            Some(level) => !level.at_least(Level::of_db(SILENCE_PEAK_DB)),
            None => false,
        },
        None => false,
    }
}

/// The first [`PREVIEW_CHARS`] characters of a line.
pub open spec fn shortened(line: Seq<char>) -> Seq<char> {
    if line.len() > PREVIEW_CHARS {
        line.take(PREVIEW_CHARS as int)
    } else {
        line
    }
}

/// The beginning of a line.
fn preview(line: &str) -> (r: String)
    ensures
        r@ == shortened(line@),
{
    let chars: Vec<char> = to_chars(line);
    if chars.len() > PREVIEW_CHARS {
        let head: &[char] = slice_subrange(chars.as_slice(), 0, PREVIEW_CHARS);
        assert(head@ =~= line@.take(PREVIEW_CHARS as int));
        to_text(head)
    } else {
        line.to_string()
    }
}

impl Session {
    /// A session that has done nothing yet.
    pub open spec fn is_new(self, path: String) -> bool {
        &&& self.stage is Path
        &&& self.path == path
        &&& self.trimmed is None
        &&& self.skipped.bits == 0
        &&& self.segments@.len() == 0
        &&& !self.completed
    }

    /// What holds of a session at every stage: nothing is skipped without a trimmed copy, and
    /// nothing is heard before the stream is open.
    pub open spec fn wf(self) -> bool {
        &&& self.trimmed is None ==> self.skipped.bits == 0
        &&& self.stage is Path || self.stage is Envelope || self.stage is Trimming ==> self.trimmed
            is None
        &&& self.stage is Path || self.stage is Envelope || self.stage is Trimming
            || self.stage is Peak || self.stage is Server || self.stage is Opening
            ==> self.segments@.len() == 0 && !self.completed
    }

    /// Starts on the recording at `path`. The first thing to find out is whether it is a file.
    pub fn new(path: String) -> (r: Session)
        ensures
            r.is_new(path),
            r.wf(),
            r.stage is Path,
            r.path == path,
            r.trimmed is None,
            r.skipped.bits == 0,
            r.segments@.len() == 0,
            !r.completed,
    {
        Session {
            stage: Stage::Path,
            path,
            trimmed: None,
            skipped: Seconds { bits: 0 },
            segments: Vec::new(),
            completed: false,
        }
    }

    /// What the transcriber reads: the trimmed copy, where there is one.
    pub fn source(&self) -> (r: &str)
        ensures
            r@ == match self.trimmed {
                Some(copy) => copy@,
                None => self.path@,
            },
    {
        match &self.trimmed {
            Some(copy) => copy.as_str(),
            None => self.path.as_str(),
        }
    }

    /// Whether the path leads to a file.
    fn on_path(self, exists: bool, is_file: bool) -> (r: (Session, Reply))
        requires
            self.stage is Path,
        ensures
            step_of(self, Event::Path { exists, is_file }, false, r.0, r.1),
    {
        if !exists {
            let m: String = "Audio file not found: ".to_string().concat(self.path.as_str());
            (Session { stage: Stage::Over, ..self }, failure(error("invalid_request", m)))
        } else if !is_file {
            let m: String = "Path is not a file: ".to_string().concat(self.path.as_str());
            (Session { stage: Stage::Over, ..self }, failure(error("invalid_request", m)))
        } else {
            (Session { stage: Stage::Envelope, ..self }, go(Action::MeasureEnvelope))
        }
    }

    /// Where speech begins.
    fn on_envelope(self, levels: Option<Vec<Level>>) -> (r: (Session, Reply))
        requires
            self.stage is Envelope,
        ensures
            step_of(self, Event::Envelope(levels), false, r.0, r.1),
    {
        let start: Option<Seconds> = match &levels {
            Some(list) => {
                let t: Option<Seconds> = speech_start_secs(list.as_slice());
                proof {
                    if t is Some {
                        let v = values(list@);
                        let s = choose|s: int| #[trigger]
                            speech_begins(v, s) && (t->0).starts_window(s);
                        let c = choose|s: int| speech_begins(v, s);
                        speech_begins_once(v, s, c);
                    }
                }
                t
            },
            None => None,
        };
        match start {
            Some(t) => (Session { stage: Stage::Trimming(t), ..self }, go(Action::Trim(t))),
            None => (Session { stage: Stage::Peak, ..self }, go(Action::MeasurePeak)),
        }
    }

    /// The level at its loudest.
    fn on_peak(self, peak: Option<u32>, shown: String) -> (r: (Session, Reply))
        requires
            self.stage is Peak,
        ensures
            step_of(self, Event::Peak { peak, shown }, false, r.0, r.1),
    {
        if silent(peak) {
            let mut m: String = "No audible speech in this file (peak ".to_string();
            m.append(shown.as_str());
            m.append(" dBFS). Check the input device and recording level, then record again.");
            (Session { stage: Stage::Over, ..self }, failure(error("silent_audio", m)))
        } else {
            (Session { stage: Stage::Server, ..self }, go(Action::FindServer))
        }
    }

    /// A failure to talk to the transcriber.
    fn on_break(
        self,
        clear: bool,
        answer: Option<CommandError>,
        otherwise: CommandError,
    ) -> (r: (Session, Reply))
        ensures
            breaks(self, r.0, r.1, clear, answer, otherwise),
    {
        match answer {
            Some(e) => (
                Session { stage: Stage::Over, ..self },
                Reply { clear_progress: clear, action: Action::Fail(e) },
            ),
            None => (
                Session { stage: Stage::Broken(otherwise), ..self },
                Reply { clear_progress: clear, action: Action::AskDeath },
            ),
        }
    }

    /// An event on the stream.
    fn on_stream(self, event: Event) -> (r: (Session, Reply))
        requires
            self.stage is Streaming,
        ensures
            streams(self, event, r.0, r.1),
    {
        match event {
            Event::Progress => (self, go(Action::ShowProgress)),
            Event::Heard { start, end, text, speaker } => {
                let segment: Segment = Segment {
                    start: centiseconds(start, self.skipped),
                    stop: centiseconds(end, self.skipped),
                    text,
                    speaker,
                };
                let mut segments: Vec<Segment> = self.segments;
                segments.push(segment);
                (Session { segments, ..self }, go(Action::ShowSegment))
            },
            Event::Finished => (Session { completed: true, ..self }, go(Action::Await)),
            Event::Refused { code, message } => {
                let e: CommandError = match code {
                    Some(c) => CommandError { code: c, message },
                    None => error("internal_error", message),
                };
                (
                    Session { stage: Stage::Over, ..self },
                    Reply { clear_progress: true, action: Action::Fail(e) },
                )
            },
            Event::Failed { answer, otherwise } => self.on_break(true, answer, otherwise),
            _ => (self, go(Action::Ignore)),
        }
    }

    /// How the transcriber died.
    fn on_death(self, report: Option<String>) -> (r: (Session, Reply))
        ensures
            step_of(self, Event::Death(report), false, r.0, r.1),
    {
        match self.stage {
            Stage::Truncated => {
                let m: String = match report {
                    Some(m) => m,
                    None => "vibe-server transcription stream ended before completion".to_string(),
                };
                (Session { stage: Stage::Over, ..self }, failure(error("internal_error", m)))
            },
            Stage::Broken(e) => match report {
                Some(m) => (
                    Session { stage: Stage::Over, ..self },
                    failure(error("internal_error", m)),
                ),
                None => (Session { stage: Stage::Explaining(e), ..self }, go(Action::AskStderr)),
            },
            stage => (Session { stage, ..self }, go(Action::Ignore)),
        }
    }

    /// What the transcriber printed last.
    fn on_stderr(self, printed: String) -> (r: (Session, Reply))
        ensures
            step_of(self, Event::Stderr(printed), false, r.0, r.1),
    {
        match self.stage {
            Stage::Explaining(mut e) => {
                if !printed.as_str().is_empty() {
                    e.message.append("\n\nvibe-server stderr: ");
                    e.message.append(printed.as_str());
                }
                (Session { stage: Stage::Over, ..self }, failure(e))
            },
            stage => (Session { stage, ..self }, go(Action::Ignore)),
        }
    }

    /// Takes in what came of the last action, and says what to do next.
    pub fn step(self, event: Event, aborted: bool) -> (r: (Session, Reply))
        ensures
            step_of(self, event, aborted, r.0, r.1),
            self.wf() ==> r.0.wf(),
    {
        let streaming: bool = matches!(self.stage, Stage::Streaming);
        if streaming {
            let over: bool = match &event {
                Event::Ended => aborted || self.completed,
                Event::Progress => aborted,
                Event::Heard { .. } => aborted,
                Event::Finished => aborted,
                Event::Refused { .. } => aborted,
                Event::Failed { .. } => aborted,
                _ => false,
            };
            if over {
                return (
                    Session { stage: Stage::Over, ..self },
                    Reply { clear_progress: true, action: Action::Deliver },
                );
            }
            return match event {
                Event::Ended => (
                    Session { stage: Stage::Truncated, ..self },
                    Reply { clear_progress: true, action: Action::AskDeath },
                ),
                e => self.on_stream(e),
            };
        }
        match event {
            Event::Path { exists, is_file } => {
                if matches!(self.stage, Stage::Path) {
                    self.on_path(exists, is_file)
                } else {
                    (self, go(Action::Ignore))
                }
            },
            Event::Envelope(levels) => {
                if matches!(self.stage, Stage::Envelope) {
                    self.on_envelope(levels)
                } else {
                    (self, go(Action::Ignore))
                }
            },
            Event::Trimmed(copy) => match self.stage {
                Stage::Trimming(t) => {
                    let skipped: Seconds = if copy.is_some() {
                        t
                    } else {
                        Seconds { bits: 0 }
                    };
                    (
                        Session { stage: Stage::Peak, trimmed: copy, skipped, ..self },
                        go(Action::MeasurePeak),
                    )
                },
                stage => (Session { stage, ..self }, go(Action::Ignore)),
            },
            Event::Peak { peak, shown } => {
                if matches!(self.stage, Stage::Peak) {
                    self.on_peak(peak, shown)
                } else {
                    (self, go(Action::Ignore))
                }
            },
            Event::Server { running } => {
                if !matches!(self.stage, Stage::Server) {
                    (self, go(Action::Ignore))
                } else if running {
                    (Session { stage: Stage::Opening, ..self }, go(Action::OpenStream))
                } else {
                    (
                        Session { stage: Stage::Over, ..self },
                        failure(error("no_model", "Please load model first".to_string())),
                    )
                }
            },
            Event::Opened => {
                if matches!(self.stage, Stage::Opening) {
                    (Session { stage: Stage::Streaming, ..self }, go(Action::Await))
                } else {
                    (self, go(Action::Ignore))
                }
            },
            Event::Failed { answer, otherwise } => {
                if matches!(self.stage, Stage::Opening) {
                    self.on_break(false, answer, otherwise)
                } else {
                    (self, go(Action::Ignore))
                }
            },
            Event::Death(report) => self.on_death(report),
            Event::Stderr(printed) => self.on_stderr(printed),
            _ => (self, go(Action::Ignore)),
        }
    }

    /// What to warn of: the looped line, cut short, and how much of the transcript it took.
    pub fn loop_warning(&self) -> (r: Option<(String, RepeatShare)>)
        ensures
            r is Some <==> looks_looped(spoken(self.segments@)),
            r matches Some((quote, share)) ==> share == share_of(spoken(self.segments@))
                && exists|i: int| #[trigger]
                first_repeat(spoken(self.segments@), i) && quote@ == shortened(
                    spoken(self.segments@)[i],
                ),
    {
        match degenerate_loop(self.segments.as_slice()) {
            Some((line, share)) => Some((preview(line.as_str()), share)),
            None => None,
        }
    }

    /// The transcript of everything heard, looped or not.
    pub fn finish(self, processing_time_sec: u64) -> (r: Transcript)
        ensures
            r.processing_time_sec == processing_time_sec,
            r.segments == self.segments,
    {
        Transcript { processing_time_sec, segments: self.segments }
    }
}

} // verus!
