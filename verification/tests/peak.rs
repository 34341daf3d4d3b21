use vibe_core::report::volume_fields;
use vibe_core::session::SILENCE_PEAK_DB;

/// What ffmpeg's volumedetect prints. The two lines differ by 18.0 dB.
const REAL_OUTPUT: &str = "[Parsed_volumedetect_0 @ 0x6000036e40c0] mean_volume: -60.1 dB\n[Parsed_volumedetect_0 @ 0x6000036e40c0] max_volume: -42.1 dB";

const SILENCE_PEAK_DBFS: f32 = SILENCE_PEAK_DB as f32;

fn parse_max_volume(report: &str) -> Option<f32> {
    vibe_core::report::parse_max_volume(report, |t: &str| t.parse::<f32>().ok())
}

#[test]
fn the_peak_is_read_from_real_ffmpeg_output() {
    assert_eq!(parse_max_volume(REAL_OUTPUT), Some(-42.1));
}

#[test]
fn mean_volume_is_not_mistaken_for_the_peak() {
    assert_eq!(parse_max_volume(REAL_OUTPUT), Some(-42.1));
    assert_ne!(parse_max_volume(REAL_OUTPUT), Some(-60.1));
}

#[test]
fn output_without_the_line_is_unknown_not_silent() {
    assert_eq!(parse_max_volume("ffmpeg version 8.0\nnothing useful here"), None);
    assert_eq!(parse_max_volume(""), None);
}

#[test]
fn a_loud_file_is_above_the_gate() {
    let loud = "[Parsed_volumedetect_0 @ 0x0] max_volume: 0.0 dB";
    assert!(parse_max_volume(loud).unwrap() > SILENCE_PEAK_DBFS);
}

#[test]
fn quiet_speech_stays_above_the_gate() {
    let quiet = "[Parsed_volumedetect_0 @ 0x0] max_volume: -41.6 dB";
    assert!(parse_max_volume(quiet).unwrap() > SILENCE_PEAK_DBFS);
}

#[test]
fn an_unreadable_line_gives_way_to_the_next() {
    let report = "max_volume: loud dB\nmax_volume: -3.0\nx max_volume:\t-7.5  dB \r\nmax_volume: -1.0 dB";
    assert_eq!(volume_fields(report), vec!["loud", "-7.5", "-1.0"]);
    assert_eq!(parse_max_volume(report), Some(-7.5));
}

#[test]
fn only_the_first_field_of_a_line_counts() {
    assert_eq!(volume_fields("max_volume: -3.0 dB max_volume: -4.0 dB"), vec!["-3.0"]);
    assert!(volume_fields("max_volume:-3.0dB").is_empty());
    assert!(volume_fields("max_volume: dB").is_empty());
    assert_eq!(volume_fields("max_volume: -3.0 dB dB"), vec!["-3.0 dB"]);
}

/// Reports of every kind: without the line, with it, without its unit, without a number, ending
/// inside a line, and ending in half a line break.
const REPORTS: [&str; 9] = [
    "",
    "\n",
    REAL_OUTPUT,
    "max_volume: -3.5 dB\r",
    "max_volume: -3.5 dB\r\n",
    "max_volume: -3.5",
    "max_volume: loud dB",
    "nothing useful here\nmax_volume: -7.0 dB\nmax_volume: -8.0 dB",
    "max_volume: -9.0 dB \r\nx",
];

#[test]
fn the_peak_of_joined_reports_is_the_first_that_can_be_read() {
    for a in REPORTS {
        for b in REPORTS {
            let joined = format!("{a}\n{b}");
            assert_eq!(parse_max_volume(&joined), parse_max_volume(a).or(parse_max_volume(b)), "{joined:?}");
            let mut fields = volume_fields(a);
            fields.extend(volume_fields(b));
            assert_eq!(volume_fields(&joined), fields, "{joined:?}");
        }
    }
    assert_eq!(parse_max_volume(&format!("{}\n{}", REPORTS[3], REAL_OUTPUT)), Some(-3.5));
}

#[test]
fn a_line_without_a_readable_peak_changes_nothing() {
    for line in ["", "max_volume: loud dB", "max_volume: -3.5", "max_volume: dB", "mean_volume: -60.1 dB"] {
        for a in REPORTS {
            let (with, without) = (format!("{a}\n{line}\n{REAL_OUTPUT}"), format!("{a}\n{REAL_OUTPUT}"));
            assert_eq!(parse_max_volume(&with), parse_max_volume(&without), "{with:?}");
        }
    }
}
