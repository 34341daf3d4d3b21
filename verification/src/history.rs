//! What holds over a whole transcription, turn by turn.
use crate::seconds::Seconds;
use crate::session::{
    fails, heard, on_stream, step_of, CommandError, Event, Reply, Session, Stage,
};
use crate::transcript::Segment;
use vstd::prelude::*;

verus! {

/// One event, and what the session made of it.
pub ghost struct Turn {
    pub before: Session,
    pub event: Event,
    pub aborted: bool,
    pub after: Session,
    pub reply: Reply,
}

impl Turn {
    /// Whether the session takes this turn.
    pub open spec fn valid(self) -> bool {
        step_of(self.before, self.event, self.aborted, self.after, self.reply)
    }

    /// Whether this turn adds a segment.
    pub open spec fn hears(self) -> bool {
        self.before.stage is Streaming && !self.aborted && self.event is Heard
    }
}

/// Whether the turns follow one another.
pub open spec fn course(turns: Seq<Turn>) -> bool {
    &&& forall|i: int| 0 <= i < turns.len() ==> (#[trigger] turns[i]).valid()
    &&& forall|i: int, j: int|
        0 <= i && j == i + 1 && j < turns.len() ==> (#[trigger] turns[i]).after == (
        #[trigger] turns[j]).before
}

/// Whether the turns follow one another from the start of a transcription.
pub open spec fn course_from_new(turns: Seq<Turn>, path: String) -> bool {
    &&& course(turns)
    &&& turns.len() > 0
    &&& turns[0].before.is_new(path)
}

/// The segments heard over some turns, in order, each at its place in the recording.
pub open spec fn heard_over(turns: Seq<Turn>) -> Seq<Segment>
    decreases turns.len(),
{
    if turns.len() == 0 {
        Seq::empty()
    } else {
        let t = turns.last();
        let earlier = heard_over(turns.drop_last());
        match t.event {
            Event::Heard { start, end, text, speaker } if t.hears() => earlier.push(
                heard(start, end, text, speaker, t.before.skipped),
            ),
            _ => earlier,
        }
    }
}

/// Whether a stage comes after the head of the recording was dealt with.
pub open spec fn past_trimming(stage: Stage) -> bool {
    !(stage is Path) && !(stage is Envelope) && !(stage is Trimming)
}

proof fn lemma_shorter_course(turns: Seq<Turn>)
    requires
        course(turns),
        turns.len() > 0,
    ensures
        course(turns.drop_last()),
        turns.len() > 1 ==> turns.drop_last().last().after == turns.last().before,
{
    let shorter = turns.drop_last();
    assert forall|i: int| 0 <= i < shorter.len() implies (#[trigger] shorter[i]).valid() by {
        assert(turns[i].valid());
    }
    assert forall|i: int, j: int| 0 <= i && j == i + 1 && j < shorter.len() implies (
    #[trigger] shorter[i]).after == (#[trigger] shorter[j]).before by {
        assert(turns[i].after == turns[j].before);
    }
    if turns.len() > 1 {
        assert(turns[turns.len() - 2].after == turns[turns.len() - 1].before);
    }
}

/// The transcript is what was heard: every segment that came in while the stream was read is in
/// it, in order, and nothing else is. Turns that add nothing lose nothing.
pub proof fn the_transcript_is_what_was_heard(turns: Seq<Turn>, path: String)
    requires
        course_from_new(turns, path),
    ensures
        turns.last().after.segments@ == heard_over(turns),
    decreases turns.len(),
{
    let t = turns.last();
    let shorter = turns.drop_last();
    assert(t.valid());
    lemma_shorter_course(turns);
    if turns.len() > 1 {
        the_transcript_is_what_was_heard(shorter, path);
    } else {
        assert(heard_over(shorter) == Seq::<Segment>::empty());
    }
    assert(t.before.segments@ == heard_over(shorter));
}

/// A session stays well-formed, whatever comes in.
pub proof fn a_session_stays_well_formed(turns: Seq<Turn>, path: String)
    requires
        course_from_new(turns, path),
    ensures
        turns.last().after.wf(),
    decreases turns.len(),
{
    assert(turns.last().valid());
    lemma_shorter_course(turns);
    if turns.len() > 1 {
        a_session_stays_well_formed(turns.drop_last(), path);
    }
}

/// Once the stream is read, what was skipped no longer changes: all segments of a transcript are
/// shifted by the same time.
pub proof fn all_segments_are_shifted_alike(turns: Seq<Turn>, i: int)
    requires
        course(turns),
        0 <= i < turns.len(),
        past_trimming(turns[i].before.stage),
    ensures
        past_trimming(turns.last().after.stage),
        turns.last().after.skipped == turns[i].before.skipped,
        turns.last().after.trimmed == turns[i].before.trimmed,
    decreases turns.len(),
{
    assert(turns.last().valid());
    lemma_shorter_course(turns);
    if i < turns.len() - 1 {
        assert(turns.drop_last()[i] == turns[i]);
        all_segments_are_shifted_alike(turns.drop_last(), i);
    }
}

/// The recording stays the one that was asked for.
pub proof fn the_recording_stays_the_same(turns: Seq<Turn>, path: String)
    requires
        course_from_new(turns, path),
    ensures
        turns.last().after.path == path,
    decreases turns.len(),
{
    assert(turns.last().valid());
    lemma_shorter_course(turns);
    if turns.len() > 1 {
        the_recording_stays_the_same(turns.drop_last(), path);
    }
}

/// A transcript is handed over only when the transcriber said that it is done, or the user called
/// the transcription off; and it is handed over whole.
pub proof fn only_a_complete_transcript_is_delivered(turn: Turn)
    requires
        turn.valid(),
        turn.reply.action is Deliver,
    ensures
        turn.before.stage is Streaming,
        turn.aborted || (turn.event is Ended && turn.before.completed),
        turn.after.stage is Over,
        turn.after.segments == turn.before.segments,
{
}

/// A transcription that is done is handed over when the stream ends, looped or not.
pub proof fn a_complete_transcript_is_delivered(turn: Turn)
    requires
        turn.valid(),
        turn.before.stage is Streaming,
        turn.before.completed,
        turn.event is Ended,
    ensures
        turn.reply.action is Deliver,
        turn.after.segments == turn.before.segments,
{
}

/// When the user calls the transcription off, whatever comes next on the stream, what was heard
/// until then is handed over.
pub proof fn calling_off_keeps_what_was_heard(turn: Turn)
    requires
        turn.valid(),
        turn.before.stage is Streaming,
        turn.aborted,
        on_stream(turn.event) || turn.event is Ended,
    ensures
        turn.reply.action is Deliver,
        turn.reply.clear_progress,
        turn.after.segments == turn.before.segments,
{
}

/// A failure ends the session.
pub proof fn a_failure_is_final(turn: Turn)
    requires
        turn.valid(),
        turn.reply.action is Fail,
    ensures
        turn.after.stage is Over,
{
}

/// Nothing follows the end.
pub proof fn nothing_follows_the_end(turn: Turn)
    requires
        turn.valid(),
        turn.before.stage is Over,
    ensures
        turn.after == turn.before,
        turn.reply.action is Ignore,
{
}

/// A peak that could not be measured is unknown, never silence.
pub proof fn an_unknown_peak_is_not_silence(turn: Turn, shown: String)
    requires
        turn.valid(),
        turn.before.stage is Peak,
        turn.event == (Event::Peak { peak: None, shown }),
    ensures
        turn.reply.action is FindServer,
        turn.after.stage is Server,
{
}

/// Trimming is an optimisation: when it fails, the recording itself is transcribed and no time is
/// shifted.
pub proof fn a_failed_trim_is_no_failure(turn: Turn)
    requires
        turn.valid(),
        turn.before.stage is Trimming,
        turn.event == Event::Trimmed(None),
    ensures
        turn.reply.action is MeasurePeak,
        turn.after.trimmed is None,
        turn.after.skipped == (Seconds { bits: 0 }),
{
}

/// What was skipped is what was cut off: the time by which segments are shifted is the time from
/// which the copy was taken.
pub proof fn what_was_cut_off_is_added_back(turn: Turn, t: Seconds, copy: String)
    requires
        turn.valid(),
        turn.before.stage == Stage::Trimming(t),
        turn.event == Event::Trimmed(Some(copy)),
    ensures
        turn.reply.action is MeasurePeak,
        turn.after.trimmed == Some(copy),
        turn.after.skipped == t,
{
}

/// A stream that just stops is reported as a failure, with how the transcriber died where that is
/// known.
pub proof fn a_truncated_stream_is_a_failure(stop: Turn, death: Turn, report: Option<String>)
    requires
        course(seq![stop, death]),
        stop.before.stage is Streaming,
        !stop.before.completed,
        !stop.aborted,
        stop.event is Ended,
        death.event == Event::Death(report),
    ensures
        stop.reply.action is AskDeath,
        fails(
            death.before,
            death.after,
            death.reply,
            false,
            (
                "internal_error"@,
                match report {
                    Some(m) => m@,
                    None => "vibe-server transcription stream ended before completion"@,
                },
            ),
        ),
{
    let turns = seq![stop, death];
    assert(turns[0].valid() && turns[1].valid());
    assert(turns[0].after == turns[1].before);
}

/// What the user is told of a failure to talk to the transcriber that the transcriber itself did
/// not explain: how it died; and if it did not, the failure with what the transcriber printed
/// last.
pub open spec fn explanation(
    otherwise: CommandError,
    report: Option<String>,
    printed: String,
) -> (Seq<char>, Seq<char>) {
    match report {
        Some(m) => ("internal_error"@, m@),
        None => (
            otherwise.code@,
            if printed@.len() == 0 {
                otherwise.message@
            } else {
                otherwise.message@ + "\n\nvibe-server stderr: "@ + printed@
            },
        ),
    }
}

/// An unexplained failure to talk to the transcriber is looked into before it is reported: first
/// how the transcriber died, then, if it did not, what it printed last.
pub proof fn an_unexplained_failure_is_looked_into(
    failure: Turn,
    death: Turn,
    last: Turn,
    otherwise: CommandError,
    report: Option<String>,
    printed: String,
)
    requires
        course(seq![failure, death, last]),
        failure.before.stage is Opening || (failure.before.stage is Streaming && !failure.aborted),
        failure.event == (Event::Failed { answer: None, otherwise }),
        death.event == Event::Death(report),
        last.event == Event::Stderr(printed),
    ensures
        failure.reply.action is AskDeath,
        report is Some ==> fails(
            death.before,
            death.after,
            death.reply,
            false,
            explanation(otherwise, report, printed),
        ),
        report is None ==> death.reply.action is AskStderr && fails(
            last.before,
            last.after,
            last.reply,
            false,
            explanation(otherwise, report, printed),
        ),
{
    let turns = seq![failure, death, last];
    assert(turns[0].valid() && turns[1].valid() && turns[2].valid());
    assert(turns[0].after == turns[1].before);
    assert(turns[1].after == turns[2].before);
}

/// What the transcriber itself says of a failure is passed on as it is.
pub proof fn the_transcribers_own_answer_is_passed_on(
    turn: Turn,
    answer: CommandError,
    otherwise: CommandError,
)
    requires
        turn.valid(),
        turn.before.stage is Opening || (turn.before.stage is Streaming && !turn.aborted),
        turn.event == (Event::Failed { answer: Some(answer), otherwise }),
    ensures
        fails(
            turn.before,
            turn.after,
            turn.reply,
            turn.before.stage is Streaming,
            answer@,
        ),
{
}

} // verus!
