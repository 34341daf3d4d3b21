use vibe_core::level::Level;
use vibe_core::seconds::Seconds;
use vibe_core::session::{Action, CommandError, Event, Reply, Session, Stage, PREVIEW_CHARS, SERVER_DIED};

fn secs(t: f64) -> Seconds {
    Seconds { bits: t.to_bits() }
}

fn error(code: &str, message: &str) -> CommandError {
    CommandError { code: code.to_string(), message: message.to_string() }
}

fn is_file() -> Event {
    Event::Path { exists: true, is_file: true }
}

fn peak(value: Option<f32>) -> Event {
    Event::Peak {
        peak: value.map(f32::to_bits),
        shown: value.map(|v| format!("{v:.1}")).unwrap_or_default(),
    }
}

fn heard(start: f64, end: f64, text: &str) -> Event {
    Event::Heard { start: secs(start), end: secs(end), text: text.to_string(), speaker: None }
}

/// An envelope with a quiet head of this many windows.
fn lead_in(windows: usize) -> Event {
    let level = |x: f32| Level::from_bits(x.to_bits()).unwrap();
    Event::Envelope(Some((0..40 + windows).map(|i| level(if i < windows { -60.0 } else { -20.0 })).collect()))
}

/// Feeds events to a session, and gives the last reply.
fn feed(mut session: Session, events: Vec<Event>) -> (Session, Reply) {
    let mut last = Reply { clear_progress: false, action: Action::Ignore };
    for event in events {
        let (next, reply) = session.step(event, false);
        session = next;
        last = reply;
    }
    (session, last)
}

fn failed(reply: Reply) -> (String, String) {
    match reply.action {
        Action::Fail(e) => (e.code, e.message),
        other => panic!("no failure: {other:?}"),
    }
}

fn new() -> Session {
    Session::new("talk.mp3".to_string())
}

/// A session that reads the stream of an untrimmed recording.
fn streaming() -> Session {
    let (session, reply) = feed(
        new(),
        vec![is_file(), Event::Envelope(None), peak(Some(-3.0)), Event::Server { running: true }, Event::Opened],
    );
    assert!(matches!(reply.action, Action::Await));
    session
}

#[test]
fn a_missing_file_is_refused() {
    let (session, reply) = new().step(Event::Path { exists: false, is_file: false }, false);
    assert!(!reply.clear_progress);
    assert_eq!(failed(reply), ("invalid_request".to_string(), "Audio file not found: talk.mp3".to_string()));
    assert!(matches!(session.stage, Stage::Over));
}

#[test]
fn a_folder_is_refused() {
    let (_, reply) = new().step(Event::Path { exists: true, is_file: false }, false);
    assert_eq!(failed(reply), ("invalid_request".to_string(), "Path is not a file: talk.mp3".to_string()));
}

#[test]
fn silence_is_refused() {
    let (_, reply) = feed(new(), vec![is_file(), Event::Envelope(None), peak(Some(-91.0))]);
    assert_eq!(
        failed(reply),
        (
            "silent_audio".to_string(),
            "No audible speech in this file (peak -91.0 dBFS). Check the input device and recording level, then record again."
                .to_string()
        )
    );
}

#[test]
fn the_gate_is_at_fifty_decibels() {
    let answer = |value: Option<f32>| feed(new(), vec![is_file(), Event::Envelope(None), peak(value)]).1.action;
    assert!(matches!(answer(Some(-50.0)), Action::FindServer));
    assert!(matches!(answer(Some(-49.9)), Action::FindServer));
    assert!(matches!(answer(Some(f32::from_bits((-50.0f32).to_bits() + 1))), Action::Fail(_)));
    assert!(matches!(answer(Some(f32::NEG_INFINITY)), Action::Fail(_)));
    assert!(matches!(answer(Some(-41.6)), Action::FindServer));
}

#[test]
fn an_unknown_peak_is_not_silent() {
    for value in [None, Some(f32::NAN)] {
        let (_, reply) = feed(new(), vec![is_file(), Event::Envelope(None), peak(value)]);
        assert!(matches!(reply.action, Action::FindServer));
    }
}

#[test]
fn without_a_transcriber_there_is_no_model() {
    let (_, reply) = feed(
        new(),
        vec![is_file(), Event::Envelope(None), peak(None), Event::Server { running: false }],
    );
    assert_eq!(failed(reply), ("no_model".to_string(), "Please load model first".to_string()));
}

#[test]
fn a_lead_in_is_trimmed_and_added_back() {
    let (session, reply) = feed(new(), vec![is_file(), lead_in(70)]);
    assert!(matches!(reply.action, Action::Trim(t) if t == secs(700.0)));
    let (session, reply) = session.step(Event::Trimmed(Some("/tmp/x-from700s.mp3".to_string())), false);
    assert!(matches!(reply.action, Action::MeasurePeak));
    assert_eq!(session.source(), "/tmp/x-from700s.mp3");
    assert_eq!(session.skipped, secs(700.0));
    let (session, reply) = feed(
        session,
        vec![
            peak(Some(-3.0)),
            Event::Server { running: true },
            Event::Opened,
            heard(0.0, 4.68, "first"),
            Event::Progress,
            heard(4.68, 6661.0, "last"),
            Event::Finished,
            Event::Ended,
        ],
    );
    assert!(matches!(reply.action, Action::Deliver));
    assert!(reply.clear_progress);
    let transcript = session.finish(9);
    assert_eq!(transcript.processing_time_sec, 9);
    let places: Vec<(i64, i64, &str)> =
        transcript.segments.iter().map(|s| (s.start, s.stop, s.text.as_str())).collect();
    assert_eq!(places, vec![(70_000, 70_468, "first"), (70_468, 736_100, "last")]);
}

#[test]
fn a_failed_trim_leaves_the_recording_as_it_is() {
    let (session, reply) = feed(new(), vec![is_file(), lead_in(70), Event::Trimmed(None)]);
    assert!(matches!(reply.action, Action::MeasurePeak));
    assert_eq!(session.source(), "talk.mp3");
    let (session, _) = feed(
        session,
        vec![peak(None), Event::Server { running: true }, Event::Opened, heard(4.68, 5.0, "a")],
    );
    assert_eq!(session.segments[0].start, 468);
}

#[test]
fn a_recording_without_a_lead_in_is_not_trimmed() {
    for envelope in [Event::Envelope(None), Event::Envelope(Some(vec![])), lead_in(0), lead_in(5)] {
        let (session, reply) = feed(new(), vec![is_file(), envelope]);
        assert!(matches!(reply.action, Action::MeasurePeak));
        assert_eq!(session.source(), "talk.mp3");
        assert_eq!(session.skipped, secs(0.0));
    }
}

#[test]
fn progress_and_segments_are_shown() {
    let (session, reply) = streaming().step(Event::Progress, false);
    assert!(matches!(reply.action, Action::ShowProgress));
    let (session, reply) = session.step(
        Event::Heard { start: secs(1.0), end: secs(2.5), text: "hi".to_string(), speaker: Some(2) },
        false,
    );
    assert!(matches!(reply.action, Action::ShowSegment));
    let segment = session.segments.last().unwrap();
    assert_eq!((segment.start, segment.stop, segment.text.as_str(), segment.speaker), (100, 250, "hi", Some(2)));
    let (session, reply) = session.step(Event::Finished, false);
    assert!(matches!(reply.action, Action::Await));
    assert!(session.completed);
}

#[test]
fn the_transcribers_error_is_passed_on() {
    let refusal = |code: Option<&str>| {
        let event = Event::Refused { code: code.map(String::from), message: "out of memory".to_string() };
        let (_, reply) = streaming().step(event, false);
        assert!(reply.clear_progress);
        failed(reply)
    };
    assert_eq!(refusal(Some("oom")), ("oom".to_string(), "out of memory".to_string()));
    assert_eq!(refusal(None), ("internal_error".to_string(), "out of memory".to_string()));
}

#[test]
fn an_answer_of_the_transcriber_explains_a_failure() {
    let failure = || Event::Failed { answer: Some(error("busy", "try later")), otherwise: error("x", "y") };
    let (_, reply) = streaming().step(failure(), false);
    assert!(reply.clear_progress);
    assert_eq!(failed(reply), ("busy".to_string(), "try later".to_string()));
    let (opening, _) = feed(
        new(),
        vec![is_file(), Event::Envelope(None), peak(None), Event::Server { running: true }],
    );
    let (_, reply) = opening.step(failure(), false);
    assert!(!reply.clear_progress);
    assert_eq!(failed(reply), ("busy".to_string(), "try later".to_string()));
}

#[test]
fn a_death_explains_a_failure() {
    let failure = Event::Failed { answer: None, otherwise: error("x", "y") };
    let (session, reply) = streaming().step(failure, false);
    assert!(matches!(reply.action, Action::AskDeath));
    let (_, reply) = session.step(Event::Death(Some(format!("{SERVER_DIED} (signal 9)"))), false);
    assert_eq!(
        failed(reply),
        ("internal_error".to_string(), "vibe-server process died during transcription (signal 9)".to_string())
    );
}

#[test]
fn what_was_printed_last_is_added_to_a_failure() {
    let told = |printed: &str| {
        let failure = Event::Failed { answer: None, otherwise: error("network", "connection reset") };
        let (session, reply) = feed(streaming(), vec![failure, Event::Death(None)]);
        assert!(matches!(reply.action, Action::AskStderr));
        failed(session.step(Event::Stderr(printed.to_string()), false).1)
    };
    assert_eq!(told(""), ("network".to_string(), "connection reset".to_string()));
    assert_eq!(
        told("ggml: abort"),
        ("network".to_string(), "connection reset\n\nvibe-server stderr: ggml: abort".to_string())
    );
}

#[test]
fn a_stream_that_just_stops_is_a_failure() {
    let stopped = |report: Option<&str>| {
        let (session, reply) = streaming().step(Event::Ended, false);
        assert!(reply.clear_progress);
        assert!(matches!(reply.action, Action::AskDeath));
        failed(session.step(Event::Death(report.map(String::from)), false).1)
    };
    assert_eq!(stopped(Some("exit code 1")), ("internal_error".to_string(), "exit code 1".to_string()));
    assert_eq!(
        stopped(None),
        ("internal_error".to_string(), "vibe-server transcription stream ended before completion".to_string())
    );
}

#[test]
fn calling_off_delivers_what_was_heard() {
    for event in [Event::Ended, Event::Progress, heard(1.0, 2.0, "lost"), Event::Finished] {
        let (session, _) = feed(streaming(), vec![heard(0.0, 1.0, "kept")]);
        let (session, reply) = session.step(event, true);
        assert!(matches!(reply.action, Action::Deliver));
        assert!(reply.clear_progress);
        assert_eq!(session.finish(0).segments.len(), 1);
    }
    let failure = Event::Failed { answer: None, otherwise: error("x", "y") };
    assert!(matches!(streaming().step(failure, true).1.action, Action::Deliver));
    let refusal = Event::Refused { code: None, message: String::new() };
    assert!(matches!(streaming().step(refusal, true).1.action, Action::Deliver));
}

#[test]
fn calling_off_before_the_stream_changes_nothing() {
    let (session, reply) = new().step(is_file(), true);
    assert!(matches!(reply.action, Action::MeasureEnvelope));
    assert!(matches!(session.stage, Stage::Envelope));
}

#[test]
fn unexpected_events_are_ignored() {
    let (session, reply) = new().step(Event::Ended, false);
    assert!(matches!(reply.action, Action::Ignore));
    assert!(matches!(session.stage, Stage::Path));
    let (session, reply) = streaming().step(is_file(), true);
    assert!(matches!(reply.action, Action::Ignore));
    assert!(matches!(session.stage, Stage::Streaming));
    let (over, _) = new().step(Event::Path { exists: false, is_file: false }, false);
    for event in [is_file(), Event::Opened, Event::Ended, Event::Death(None), Event::Stderr("x".to_string())] {
        let (again, reply) = new().step(Event::Path { exists: false, is_file: false }, false).0.step(event, false);
        assert!(matches!(reply.action, Action::Ignore));
        assert!(matches!(again.stage, Stage::Over));
    }
    assert!(matches!(over.stage, Stage::Over));
}

#[test]
fn a_looped_transcript_is_warned_of_and_delivered() {
    let line = "x".repeat(60);
    let mut events: Vec<Event> = (0..12).map(|i| heard(i as f64, i as f64 + 1.0, &line)).collect();
    events.extend([Event::Finished, Event::Ended]);
    let (session, reply) = feed(streaming(), events);
    assert!(matches!(reply.action, Action::Deliver));
    let (quote, share) = session.loop_warning().unwrap();
    assert_eq!(quote, "x".repeat(PREVIEW_CHARS));
    assert_eq!((share.repeats, share.pairs), (11, 11));
    assert_eq!(session.finish(1).segments.len(), 12);
}

#[test]
fn a_short_looped_line_is_quoted_whole() {
    let events: Vec<Event> = (0..10).map(|i| heard(i as f64, i as f64, " 打赏支持 ")).collect();
    let (session, _) = feed(streaming(), events);
    assert_eq!(session.loop_warning().unwrap().0, "打赏支持");
    assert!(streaming().loop_warning().is_none());
}
