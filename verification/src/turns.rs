//! What each event leads to, field by field.
use crate::binary::{signed_ranks_are_ordered_like_values, signed_value};
use crate::envelope::{speech_begins, speech_begins_once, values};
use crate::history::Turn;
use crate::level::{is_nan_pattern, rank_of_pattern, Level};
use crate::seconds::{shifted_centiseconds, window_start_of, Seconds};
use crate::session::{shortened, CommandError, Event, Stage};
use vstd::arithmetic::power2::*;
use vstd::prelude::*;

verus! {

/// A path that leads nowhere is refused, and so is one that leads to something else than a file;
/// a file is measured.
pub proof fn what_a_path_leads_to(turn: Turn, exists: bool, is_file: bool)
    requires
        turn.valid(),
        turn.before.stage is Path,
        turn.event == (Event::Path { exists, is_file }),
    ensures
        turn.after.path == turn.before.path,
        turn.after.trimmed == turn.before.trimmed,
        turn.after.skipped == turn.before.skipped,
        turn.after.segments == turn.before.segments,
        turn.after.completed == turn.before.completed,
        !exists ==> turn.after.stage is Over,
        !exists ==> turn.reply.clear_progress == false,
        !exists ==> turn.reply.action is Fail,
        !exists ==> turn.reply.action->Fail_0.code@ == "invalid_request"@,
        !exists ==> turn.reply.action->Fail_0.message@
            == "Audio file not found: "@ + turn.before.path@,
        exists && !is_file ==> turn.after.stage is Over,
        exists && !is_file ==> turn.reply.clear_progress == false,
        exists && !is_file ==> turn.reply.action is Fail,
        exists && !is_file ==> turn.reply.action->Fail_0.code@ == "invalid_request"@,
        exists && !is_file ==> turn.reply.action->Fail_0.message@
            == "Path is not a file: "@ + turn.before.path@,
        exists && is_file ==> turn.after.stage is Envelope,
        exists && is_file ==> turn.reply.action is MeasureEnvelope,
        exists && is_file ==> turn.reply.clear_progress == false,
{
}

/// Where speech begins after a lead-in, the recording is trimmed from there.
pub proof fn a_lead_in_is_trimmed(turn: Turn, levels: Vec<Level>, start: int, i: int)
    requires
        turn.valid(),
        turn.before.stage is Envelope,
        turn.event == Event::Envelope(Some(levels)),
        speech_begins(values(levels@), start),
    ensures
        turn.after.path == turn.before.path,
        turn.after.trimmed == turn.before.trimmed,
        turn.after.skipped == turn.before.skipped,
        turn.after.segments == turn.before.segments,
        turn.after.completed == turn.before.completed,
        turn.after.stage is Trimming,
        turn.reply.action is Trim,
        turn.reply.clear_progress == false,
        turn.reply.action->Trim_0 == turn.after.stage->Trimming_0,
        turn.reply.action->Trim_0.bits < 0x7ff0_0000_0000_0000,
        turn.reply.action->Trim_0.value() == window_start_of(start),
        0 <= i < levels@.len() ==> values(levels@)[i] == levels@[i].value(),
{
    let v = values(levels@);
    let c = choose|c: int| speech_begins(v, c);
    assert(speech_begins(v, c));
    speech_begins_once(v, start, c);
}

/// Where no speech begins after a lead-in, and where the envelope is not known, nothing is
/// trimmed.
pub proof fn without_a_lead_in_nothing_is_trimmed(turn: Turn, levels: Option<Vec<Level>>)
    requires
        turn.valid(),
        turn.before.stage is Envelope,
        turn.event == Event::Envelope(levels),
        levels matches Some(list) ==> forall|s: int| !speech_begins(values(list@), s),
    ensures
        turn.after.path == turn.before.path,
        turn.after.trimmed == turn.before.trimmed,
        turn.after.skipped == turn.before.skipped,
        turn.after.segments == turn.before.segments,
        turn.after.completed == turn.before.completed,
        turn.after.stage is Peak,
        turn.reply.action is MeasurePeak,
        turn.reply.clear_progress == false,
{
}

/// A trimmed copy is used in place of the recording, and what it is short of is remembered; without
/// a copy nothing is skipped.
pub proof fn what_trimming_leads_to(turn: Turn, t: Seconds, copy: Option<String>)
    requires
        turn.valid(),
        turn.before.stage == Stage::Trimming(t),
        turn.event == Event::Trimmed(copy),
    ensures
        turn.after.path == turn.before.path,
        turn.after.segments == turn.before.segments,
        turn.after.completed == turn.before.completed,
        turn.after.stage is Peak,
        turn.reply.action is MeasurePeak,
        turn.reply.clear_progress == false,
        turn.after.trimmed == copy,
        copy is Some ==> turn.after.skipped == t,
        copy is None ==> turn.after.skipped.bits == 0,
{
}

/// A recording is refused as silent exactly when its peak is a level below -50 decibels: a number
/// with a sign, beyond the pattern of -50.
pub proof fn a_peak_is_refused_exactly_below_fifty(turn: Turn, bits: u32, shown: String)
    requires
        turn.valid(),
        turn.before.stage is Peak,
        turn.event == (Event::Peak { peak: Some(bits), shown }),
    ensures
        turn.after.path == turn.before.path,
        turn.after.trimmed == turn.before.trimmed,
        turn.after.skipped == turn.before.skipped,
        turn.after.segments == turn.before.segments,
        turn.after.completed == turn.before.completed,
        0xc248_0000 < bits <= 0xff80_0000 ==> turn.after.stage is Over,
        0xc248_0000 < bits <= 0xff80_0000 ==> turn.reply.clear_progress == false,
        0xc248_0000 < bits <= 0xff80_0000 ==> turn.reply.action is Fail,
        0xc248_0000 < bits <= 0xff80_0000 ==> turn.reply.action->Fail_0.code@ == "silent_audio"@,
        0xc248_0000 < bits <= 0xff80_0000 ==> turn.reply.action->Fail_0.message@
            == "No audible speech in this file (peak "@ + shown@
            + " dBFS). Check the input device and recording level, then record again."@,
        !(0xc248_0000 < bits <= 0xff80_0000) ==> turn.after.stage is Server,
        !(0xc248_0000 < bits <= 0xff80_0000) ==> turn.reply.action is FindServer,
        !(0xc248_0000 < bits <= 0xff80_0000) ==> turn.reply.clear_progress == false,
{
    lemma_fifty();
    signed_ranks_are_ordered_like_values(0x80_0000, rank_of_pattern(bits), -0x4248_0000);
}

/// The same, by the value of the peak.
pub proof fn a_peak_is_refused_exactly_below_its_value(turn: Turn, bits: u32, shown: String)
    requires
        turn.valid(),
        turn.before.stage is Peak,
        turn.event == (Event::Peak { peak: Some(bits), shown }),
    ensures
        turn.reply.action is Fail <==> !is_nan_pattern(bits) && signed_value(
            0x80_0000,
            rank_of_pattern(bits),
        ) < -50 * pow2(149),
        turn.reply.action is Fail || turn.reply.action is FindServer,
{
}

/// A peak louder than one that is let through is let through too.
pub proof fn a_louder_peak_is_let_through(
    quiet: Turn,
    loud: Turn,
    low: u32,
    high: u32,
    shown: String,
    other: String,
)
    requires
        quiet.valid(),
        loud.valid(),
        quiet.before.stage is Peak,
        loud.before.stage is Peak,
        quiet.event == (Event::Peak { peak: Some(low), shown }),
        loud.event == (Event::Peak { peak: Some(high), shown: other }),
        !is_nan_pattern(low),
        !is_nan_pattern(high),
        signed_value(0x80_0000, rank_of_pattern(low)) <= signed_value(
            0x80_0000,
            rank_of_pattern(high),
        ),
        quiet.reply.action is FindServer,
    ensures
        loud.reply.action is FindServer,
{
}

/// The pattern of -50 decibels.
proof fn lemma_fifty()
    ensures
        signed_value(0x80_0000, -0x4248_0000) == -50 * pow2(149),
{
    lemma2_to64();
    lemma_pow2_adds(18, 131);
    assert(0x4248_0000int / 0x80_0000 == 132 && 0x4248_0000int % 0x80_0000 == 0x48_0000);
    let p = pow2(131);
    assert(0xc8_0000 * p == 50 * (0x4_0000 * p)) by (nonlinear_arith);
}

/// A peak that could not be measured is let through.
pub proof fn an_unmeasured_peak_is_let_through(turn: Turn, shown: String)
    requires
        turn.valid(),
        turn.before.stage is Peak,
        turn.event == (Event::Peak { peak: None, shown }),
    ensures
        turn.after.path == turn.before.path,
        turn.after.trimmed == turn.before.trimmed,
        turn.after.skipped == turn.before.skipped,
        turn.after.segments == turn.before.segments,
        turn.after.completed == turn.before.completed,
        turn.after.stage is Server,
        turn.reply.action is FindServer,
        turn.reply.clear_progress == false,
{
}

/// Without a transcriber there is no model; with one, its stream is opened.
pub proof fn what_looking_for_the_transcriber_leads_to(turn: Turn, running: bool)
    requires
        turn.valid(),
        turn.before.stage is Server,
        turn.event == (Event::Server { running }),
    ensures
        turn.after.path == turn.before.path,
        turn.after.trimmed == turn.before.trimmed,
        turn.after.skipped == turn.before.skipped,
        turn.after.segments == turn.before.segments,
        turn.after.completed == turn.before.completed,
        running ==> turn.after.stage is Opening,
        running ==> turn.reply.action is OpenStream,
        running ==> turn.reply.clear_progress == false,
        !running ==> turn.after.stage is Over,
        !running ==> turn.reply.clear_progress == false,
        !running ==> turn.reply.action is Fail,
        !running ==> turn.reply.action->Fail_0.code@ == "no_model"@,
        !running ==> turn.reply.action->Fail_0.message@ == "Please load model first"@,
{
}

/// An open stream is read.
pub proof fn an_open_stream_is_read(turn: Turn)
    requires
        turn.valid(),
        turn.before.stage is Opening,
        turn.event is Opened,
    ensures
        turn.after.path == turn.before.path,
        turn.after.trimmed == turn.before.trimmed,
        turn.after.skipped == turn.before.skipped,
        turn.after.segments == turn.before.segments,
        turn.after.completed == turn.before.completed,
        turn.after.stage is Streaming,
        turn.reply.action is Await,
        turn.reply.clear_progress == false,
{
}

/// What the transcriber says of a failure is told as it is; otherwise it is asked how the
/// transcriber died. The progress bar is taken down if the stream was being read.
pub proof fn what_a_failure_leads_to(
    turn: Turn,
    answer: Option<CommandError>,
    otherwise: CommandError,
)
    requires
        turn.valid(),
        turn.before.stage is Opening || (turn.before.stage is Streaming && !turn.aborted),
        turn.event == (Event::Failed { answer, otherwise }),
    ensures
        turn.after.path == turn.before.path,
        turn.after.trimmed == turn.before.trimmed,
        turn.after.skipped == turn.before.skipped,
        turn.after.segments == turn.before.segments,
        turn.after.completed == turn.before.completed,
        answer is Some ==> turn.after.stage is Over,
        answer is Some ==> turn.reply.clear_progress == (turn.before.stage is Streaming),
        answer is Some ==> turn.reply.action is Fail,
        answer is Some ==> turn.reply.action->Fail_0.code@ == answer->0.code@,
        answer is Some ==> turn.reply.action->Fail_0.message@ == answer->0.message@,
        answer is None ==> turn.after.stage == Stage::Broken(otherwise),
        answer is None ==> turn.reply.action is AskDeath,
        answer is None ==> turn.reply.clear_progress == (turn.before.stage is Streaming),
{
}

/// A segment that is heard is added to the end, with both its times shifted by what was skipped, and
/// with its own text and speaker, whoever speaks.
pub proof fn a_heard_segment_is_added_at_its_place(
    turn: Turn,
    start: Seconds,
    end: Seconds,
    text: String,
    speaker: Option<i32>,
)
    requires
        turn.valid(),
        turn.before.stage is Streaming,
        !turn.aborted,
        turn.event == (Event::Heard { start, end, text, speaker }),
    ensures
        turn.after.path == turn.before.path,
        turn.after.trimmed == turn.before.trimmed,
        turn.after.skipped == turn.before.skipped,
        turn.after.completed == turn.before.completed,
        turn.after.stage is Streaming,
        turn.reply.action is ShowSegment,
        turn.reply.clear_progress == false,
        turn.after.segments@.len() == turn.before.segments@.len() + 1,
        turn.after.segments@.drop_last() == turn.before.segments@,
        turn.after.segments@.last().start == shifted_centiseconds(start, turn.before.skipped),
        turn.after.segments@.last().stop == shifted_centiseconds(end, turn.before.skipped),
        turn.after.segments@.last().text == text,
        turn.after.segments@.last().speaker == speaker,
{
    assert(turn.after.segments@.drop_last() =~= turn.before.segments@);
}

/// Progress is shown, and changes nothing.
pub proof fn progress_is_shown(turn: Turn)
    requires
        turn.valid(),
        turn.before.stage is Streaming,
        !turn.aborted,
        turn.event is Progress,
    ensures
        turn.after.path == turn.before.path,
        turn.after.trimmed == turn.before.trimmed,
        turn.after.skipped == turn.before.skipped,
        turn.after.segments == turn.before.segments,
        turn.after.completed == turn.before.completed,
        turn.after.stage is Streaming,
        turn.reply.action is ShowProgress,
        turn.reply.clear_progress == false,
{
}

/// That the transcriber is done is remembered until the stream ends.
pub proof fn being_done_is_remembered(turn: Turn)
    requires
        turn.valid(),
        turn.before.stage is Streaming,
        !turn.aborted,
        turn.event is Finished,
    ensures
        turn.after.path == turn.before.path,
        turn.after.trimmed == turn.before.trimmed,
        turn.after.skipped == turn.before.skipped,
        turn.after.segments == turn.before.segments,
        turn.after.stage is Streaming,
        turn.reply.action is Await,
        turn.reply.clear_progress == false,
        turn.after.completed,
{
}

/// What the transcriber refuses is told with its code, or as an internal error.
pub proof fn a_refusal_is_told(turn: Turn, code: Option<String>, message: String)
    requires
        turn.valid(),
        turn.before.stage is Streaming,
        !turn.aborted,
        turn.event == (Event::Refused { code, message }),
    ensures
        turn.after.path == turn.before.path,
        turn.after.trimmed == turn.before.trimmed,
        turn.after.skipped == turn.before.skipped,
        turn.after.segments == turn.before.segments,
        turn.after.completed == turn.before.completed,
        turn.after.stage is Over,
        turn.reply.clear_progress,
        turn.reply.action is Fail,
        code is Some ==> turn.reply.action->Fail_0.code@ == code->0@,
        code is None ==> turn.reply.action->Fail_0.code@ == "internal_error"@,
        turn.reply.action->Fail_0.message@ == message@,
{
}

/// When the user has called the transcription off, whatever comes over the stream ends it.
pub proof fn calling_off_ends_it(turn: Turn)
    requires
        turn.valid(),
        turn.before.stage is Streaming,
        turn.aborted,
        turn.event is Progress || turn.event is Heard || turn.event is Finished || turn.event is Refused
            || turn.event is Failed || turn.event is Ended,
    ensures
        turn.after.path == turn.before.path,
        turn.after.trimmed == turn.before.trimmed,
        turn.after.skipped == turn.before.skipped,
        turn.after.segments == turn.before.segments,
        turn.after.completed == turn.before.completed,
        turn.after.stage is Over,
        turn.reply.action is Deliver,
        turn.reply.clear_progress == true,
{
}

/// A stream that ends is handed over if the transcriber was done; otherwise it is asked how the
/// transcriber died.
pub proof fn what_the_end_of_the_stream_leads_to(turn: Turn)
    requires
        turn.valid(),
        turn.before.stage is Streaming,
        !turn.aborted,
        turn.event is Ended,
    ensures
        turn.after.path == turn.before.path,
        turn.after.trimmed == turn.before.trimmed,
        turn.after.skipped == turn.before.skipped,
        turn.after.segments == turn.before.segments,
        turn.after.completed == turn.before.completed,
        turn.before.completed ==> turn.after.stage is Over,
        turn.before.completed ==> turn.reply.action is Deliver,
        turn.before.completed ==> turn.reply.clear_progress == true,
        !turn.before.completed ==> turn.after.stage is Truncated,
        !turn.before.completed ==> turn.reply.action is AskDeath,
        !turn.before.completed ==> turn.reply.clear_progress == true,
{
}

/// A stream that just stopped is told with how the transcriber died, or as having ended early.
pub proof fn a_stopped_stream_is_told(turn: Turn, report: Option<String>)
    requires
        turn.valid(),
        turn.before.stage is Truncated,
        turn.event == Event::Death(report),
    ensures
        turn.after.path == turn.before.path,
        turn.after.trimmed == turn.before.trimmed,
        turn.after.skipped == turn.before.skipped,
        turn.after.segments == turn.before.segments,
        turn.after.completed == turn.before.completed,
        turn.after.stage is Over,
        !turn.reply.clear_progress,
        turn.reply.action is Fail,
        turn.reply.action->Fail_0.code@ == "internal_error"@,
        report is Some ==> turn.reply.action->Fail_0.message@ == report->0@,
        report is None ==> turn.reply.action->Fail_0.message@
            == "vibe-server transcription stream ended before completion"@,
{
}

/// A failure is told with how the transcriber died; if it did not, what it printed last is asked for.
pub proof fn what_a_death_report_leads_to(turn: Turn, error: CommandError, report: Option<String>)
    requires
        turn.valid(),
        turn.before.stage == Stage::Broken(error),
        turn.event == Event::Death(report),
    ensures
        turn.after.path == turn.before.path,
        turn.after.trimmed == turn.before.trimmed,
        turn.after.skipped == turn.before.skipped,
        turn.after.segments == turn.before.segments,
        turn.after.completed == turn.before.completed,
        report is Some ==> turn.after.stage is Over,
        report is Some ==> turn.reply.clear_progress == false,
        report is Some ==> turn.reply.action is Fail,
        report is Some ==> turn.reply.action->Fail_0.code@ == "internal_error"@,
        report is Some ==> turn.reply.action->Fail_0.message@ == report->0@,
        report is None ==> turn.after.stage == Stage::Explaining(error),
        report is None ==> turn.reply.action is AskStderr,
        report is None ==> !turn.reply.clear_progress,
{
}

/// A failure is told with what the transcriber printed last, if it printed anything.
pub proof fn a_failure_is_told_with_what_was_printed(
    turn: Turn,
    error: CommandError,
    printed: String,
)
    requires
        turn.valid(),
        turn.before.stage == Stage::Explaining(error),
        turn.event == Event::Stderr(printed),
    ensures
        turn.after.path == turn.before.path,
        turn.after.trimmed == turn.before.trimmed,
        turn.after.skipped == turn.before.skipped,
        turn.after.segments == turn.before.segments,
        turn.after.completed == turn.before.completed,
        turn.after.stage is Over,
        !turn.reply.clear_progress,
        turn.reply.action is Fail,
        turn.reply.action->Fail_0.code@ == error.code@,
        printed@.len() == 0 ==> turn.reply.action->Fail_0.message@ == error.message@,
        printed@.len() > 0 ==> turn.reply.action->Fail_0.message@ == error.message@
            + "\n\nvibe-server stderr: "@ + printed@,
{
}

/// Every other event is ignored.
pub proof fn every_other_event_is_ignored(turn: Turn)
    requires
        turn.valid(),
        !(turn.before.stage is Path && turn.event is Path),
        !(turn.before.stage is Envelope && turn.event is Envelope),
        !(turn.before.stage is Trimming && turn.event is Trimmed),
        !(turn.before.stage is Peak && turn.event is Peak),
        !(turn.before.stage is Server && turn.event is Server),
        !(turn.before.stage is Opening && (turn.event is Opened || turn.event is Failed)),
        !(turn.before.stage is Streaming && (turn.event is Progress || turn.event is Heard
            || turn.event is Finished || turn.event is Refused || turn.event is Failed
            || turn.event is Ended)),
        !((turn.before.stage is Truncated || turn.before.stage is Broken) && turn.event is Death),
        !(turn.before.stage is Explaining && turn.event is Stderr),
    ensures
        turn.after == turn.before,
        turn.reply.action is Ignore,
        !turn.reply.clear_progress,
{
}

/// A quoted line is cut after forty characters, and only then.
pub proof fn a_quote_is_cut_after_forty_characters(line: Seq<char>)
    ensures
        line.len() <= 40 ==> shortened(line) == line,
        line.len() > 40 ==> shortened(line) == line.take(40),
{
}

} // verus!
