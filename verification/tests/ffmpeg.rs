use vibe_core::ffmpeg::{
    envelope_command, merge_command, merge_outcome, normalize_command, normalize_outcome, trim_command, trim_outcome,
    volume_command, FfmpegError, FfmpegOptions, LOUDNORM_ARGS,
};
use vibe_core::search::{executable_name, search_next, search_start, Finding, Place, Search};

#[test]
fn loudness_is_normalized_unless_told_otherwise() {
    let options = FfmpegOptions::default();
    assert!(options.normalize_loudness);
    assert!(options.custom_command.is_none());
}

#[test]
fn re_encoding_takes_its_arguments_in_order() {
    let args = normalize_command(true, Some("in.mp3"), Some("out.wav"), None).unwrap();
    assert_eq!(
        args,
        vec![
            "-i", "in.mp3", "-ar", "16000", "-ac", "1", "-c:a", "pcm_s16le", "out.wav", "-hide_banner", "-y", "-loglevel",
            "error",
        ]
    );
}

#[test]
fn additional_arguments_come_before_the_output() {
    assert_eq!(LOUDNORM_ARGS, ["-af", "loudnorm=I=-16:TP=-1.5:LRA=11"]);
    let more = LOUDNORM_ARGS.iter().map(|a| a.to_string()).collect();
    let args = normalize_command(true, Some("a"), Some("b"), Some(more)).unwrap();
    assert_eq!(args.len(), 15);
    assert_eq!(&args[7..11], &["pcm_s16le", "-af", "loudnorm=I=-16:TP=-1.5:LRA=11", "b"]);
}

#[test]
fn a_copy_starts_where_it_is_told_to() {
    let args = trim_command(true, Some("in.m4a"), Some("out.m4a"), "700").unwrap();
    assert_eq!(
        args,
        vec!["-hide_banner", "-loglevel", "error", "-ss", "700", "-i", "in.m4a", "-c", "copy", "-y", "out.m4a"]
    );
}

#[test]
fn two_recordings_are_summed_and_capped() {
    let args = merge_command(true, Some("a.wav"), Some("b.wav"), Some("c.wav")).unwrap();
    assert_eq!(
        args,
        vec![
            "-i",
            "a.wav",
            "-i",
            "b.wav",
            "-filter_complex",
            "amix=inputs=2:duration=longest:dropout_transition=0:normalize=0,alimiter=limit=0.97",
            "c.wav",
            "-hide_banner",
            "-y",
            "-loglevel",
            "error",
        ]
    );
}

#[test]
fn measuring_writes_no_file() {
    assert_eq!(
        volume_command(true, Some("a.wav")).unwrap(),
        vec!["-hide_banner", "-i", "a.wav", "-af", "volumedetect", "-f", "null", "-"]
    );
    let envelope = envelope_command(true, Some("a.wav")).unwrap();
    assert_eq!(&envelope[..4], &["-hide_banner", "-i", "a.wav", "-af"]);
    assert_eq!(
        envelope[4],
        "aresample=16000,asetnsamples=n=160000,astats=metadata=1:reset=1,ametadata=print:key=lavfi.astats.Overall.RMS_level"
    );
    assert_eq!(&envelope[5..], &["-f", "null", "-"]);
}

#[test]
fn without_ffmpeg_there_is_no_command() {
    assert!(matches!(normalize_command(false, Some("a"), Some("b"), None), Err(FfmpegError::NotFound)));
    assert!(matches!(normalize_command(false, None, None, None), Err(FfmpegError::NotFound)));
    assert!(matches!(trim_command(false, Some("a"), Some("b"), "1"), Err(FfmpegError::NotFound)));
    assert!(matches!(merge_command(false, Some("a"), Some("b"), Some("c")), Err(FfmpegError::NotFound)));
    assert!(volume_command(false, Some("a")).is_none());
    assert!(envelope_command(false, Some("a")).is_none());
}

#[test]
fn a_path_that_is_no_text_gives_no_command() {
    assert!(matches!(normalize_command(true, None, Some("b"), None), Err(FfmpegError::PathNotText)));
    assert!(matches!(normalize_command(true, Some("a"), None, None), Err(FfmpegError::PathNotText)));
    assert!(matches!(trim_command(true, Some("a"), None, "1"), Err(FfmpegError::PathNotText)));
    assert!(matches!(merge_command(true, Some("a"), None, Some("c")), Err(FfmpegError::PathNotText)));
    assert!(matches!(merge_command(true, Some("a"), Some("b"), None), Err(FfmpegError::PathNotText)));
    assert!(volume_command(true, None).is_none());
    assert!(envelope_command(true, None).is_none());
}

#[test]
fn every_error_has_its_message() {
    assert_eq!(FfmpegError::NotFound.message(), "ffmpeg not found");
    assert_eq!(FfmpegError::PathNotText.message(), "tostr");
    let failed = normalize_outcome(false, "\"boom\"".to_string(), "[\"-i\"]".to_string(), true).unwrap_err();
    assert_eq!(failed.message(), "unable to convert file: \"boom\" args: [\"-i\"]");
    let missing = normalize_outcome(true, String::new(), String::new(), false).unwrap_err();
    assert_eq!(missing.message(), "seems like ffmpeg failed for some reason. output not exists");
    let merge = merge_outcome(false).unwrap_err();
    assert_eq!(merge.message(), "unable to merge files");
    let trim = trim_outcome(true, false, "700".to_string(), "a.mp3".to_string()).unwrap_err();
    assert_eq!(trim.message(), "failed to trim 700s from a.mp3");
}

#[test]
fn success_needs_the_output() {
    assert!(normalize_outcome(true, String::new(), String::new(), true).is_ok());
    assert!(trim_outcome(true, true, String::new(), String::new()).is_ok());
    assert!(trim_outcome(false, true, String::new(), String::new()).is_err());
    assert!(merge_outcome(true).is_ok());
}

fn search(on_path: Finding, working: Finding, program: Finding, resources: Finding, bundled: bool) -> Search {
    let mut step = search_start();
    while let Search::Look(place) = step {
        let finding = match place {
            Place::OnPath => on_path,
            Place::WorkingFolder => working,
            Place::ProgramFolder => program,
            Place::Resources => resources,
        };
        step = search_next(place, finding, bundled);
    }
    step
}

#[test]
fn the_first_place_with_ffmpeg_is_used() {
    let (yes, no) = (Finding::Present, Finding::Absent);
    assert_eq!(search(yes, yes, yes, yes, true), Search::Found(Place::OnPath));
    assert_eq!(search(no, yes, yes, yes, true), Search::Found(Place::WorkingFolder));
    assert_eq!(search(no, no, yes, yes, true), Search::Found(Place::ProgramFolder));
    assert_eq!(search(no, no, no, yes, true), Search::Found(Place::Resources));
    assert_eq!(search(no, no, no, yes, false), Search::Missing);
    assert_eq!(search(no, no, no, no, true), Search::Missing);
}

#[test]
fn an_unknown_place_ends_the_search() {
    let (yes, no, unknown) = (Finding::Present, Finding::Absent, Finding::Unknown);
    assert_eq!(search(unknown, yes, yes, yes, true), Search::Found(Place::WorkingFolder));
    assert_eq!(search(no, unknown, yes, yes, true), Search::Missing);
    assert_eq!(search(no, no, unknown, yes, true), Search::Missing);
}

#[test]
fn the_executable_is_named_for_the_system() {
    assert_eq!(executable_name(true), "ffmpeg.exe");
    assert_eq!(executable_name(false), "ffmpeg");
}
