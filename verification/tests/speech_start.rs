use vibe_core::envelope::{median, speech_start_window as start_window, ENVELOPE_WINDOW_SECS};
use vibe_core::level::Level;
use vibe_core::report::{envelope_level, rms_fields};

/// The first 130 windows (21 minutes) of a real 2h03m interview. The conversation starts at 11:40;
/// before that the room sits near -43 dB with a few short spikes that must not be mistaken for
/// speech.
const REAL_ENVELOPE: [f32; 130] = [
    -37.7, -43.4, -43.2, -42.9, -43.7, -44.0, -42.9, -38.8, -43.5, -43.5, -43.6, -40.4, -44.0, -43.8, -43.9, -40.4, -40.8,
    -44.0, -44.2, -44.0, -44.2, -44.4, -44.1, -44.0, -43.7, -43.7, -43.9, -32.0, -42.0, -42.0, -43.5, -36.4, -43.5, -43.3,
    -37.4, -41.1, -43.8, -43.6, -25.0, -27.5, -42.6, -43.9, -41.0, -42.3, -44.0, -44.3, -43.7, -44.1, -44.0, -43.7, -43.6,
    -44.0, -43.8, -43.7, -43.7, -43.9, -43.8, -44.0, -44.0, -43.9, -43.4, -43.2, -44.2, -44.2, -44.0, -43.6, -44.3, -44.3,
    -44.0, -35.3, -21.9, -22.6, -18.5, -20.9, -23.6, -19.5, -20.7, -20.7, -28.7, -29.4, -27.9, -21.3, -17.9, -19.2, -23.1,
    -27.8, -28.4, -28.2, -27.5, -29.2, -29.1, -26.8, -28.9, -24.3, -19.3, -19.8, -31.1, -28.9, -30.0, -22.8, -27.5, -17.8,
    -26.8, -22.4, -26.4, -29.1, -29.0, -29.2, -30.6, -21.5, -27.7, -29.4, -19.3, -19.5, -20.4, -21.7, -21.3, -31.6, -29.4,
    -26.2, -30.4, -29.9, -31.3, -28.7, -27.7, -20.9, -20.3, -28.0, -26.5, -28.3,
];

fn to_levels(values: &[f32]) -> Vec<Level> {
    values.iter().map(|v| Level::from_bits(v.to_bits()).unwrap()).collect()
}

fn speech_start_window(values: &[f32]) -> Option<usize> {
    start_window(&to_levels(values))
}

fn parse_rms_levels(report: &str) -> Vec<f32> {
    vibe_core::report::parse_rms_levels(report, |t: &str| t.parse::<f32>().ok().map(f32::to_bits))
        .into_iter()
        .map(|level| f32::from_bits(level.to_bits()))
        .collect()
}

#[test]
fn the_lead_in_of_a_real_recording_is_found() {
    let start = speech_start_window(&REAL_ENVELOPE).expect("an 11-minute lead-in must be found");
    let secs = (start as f64) * (ENVELOPE_WINDOW_SECS as f64);
    assert!(
        (690.0..=720.0).contains(&secs),
        "expected the 11:30-12:00 transition, got {secs}s"
    );
}

#[test]
fn a_spike_in_the_lead_in_is_not_speech() {
    let start = speech_start_window(&REAL_ENVELOPE).unwrap();
    assert!((start as f64) * (ENVELOPE_WINDOW_SECS as f64) > 400.0, "stopped at an isolated spike");
}

#[test]
fn a_recording_that_starts_talking_is_left_alone() {
    let levels: Vec<f32> = (0..200).map(|i| -25.0 + ((i % 7) as f32)).collect();
    assert_eq!(speech_start_window(&levels), None);
}

#[test]
fn a_head_that_is_merely_a_little_quieter_is_not_cut() {
    let mut levels: Vec<f32> = (0..12).map(|i| if i % 2 == 0 { -38.0 } else { -41.0 }).collect();
    levels.extend(std::iter::repeat_n(-30.0, 188));

    assert_eq!(
        speech_start_window(&levels),
        None,
        "a head only ~9 dB down is speech, not silence"
    );
}

#[test]
fn a_short_file_is_never_trimmed() {
    let levels: Vec<f32> = (0..8).map(|i| if i < 2 { -60.0 } else { -20.0 }).collect();
    assert_eq!(speech_start_window(&levels), None);
}

#[test]
fn inf_windows_read_as_silence_not_as_parse_failure() {
    let out = "lavfi.astats.Overall.RMS_level=-inf\nlavfi.astats.Overall.RMS_level=-28.8";
    assert_eq!(parse_rms_levels(out), vec![-120.0, -28.8]);
}

#[test]
fn every_window_has_a_level() {
    let out = "frame:0 pts:0\r\nlavfi.astats.Overall.RMS_level=  -31.5 \r\nnoise\nRMS_level=nan\nRMS_level=inf\nRMS_level=\nRMS_level=x RMS_level=-3";
    assert_eq!(rms_fields(out), vec!["-31.5", "nan", "inf", "", "x"]);
    assert_eq!(parse_rms_levels(out), vec![-31.5, -120.0, -120.0, -120.0, -120.0]);
    assert!(parse_rms_levels("").is_empty());
}

#[test]
fn a_window_without_a_finite_level_is_quiet() {
    let quiet = (-120.0f32).to_bits();
    assert_eq!(envelope_level(None).to_bits(), quiet);
    assert_eq!(envelope_level(Some(f32::NAN.to_bits())).to_bits(), quiet);
    assert_eq!(envelope_level(Some(f32::INFINITY.to_bits())).to_bits(), quiet);
    assert_eq!(envelope_level(Some(f32::NEG_INFINITY.to_bits())).to_bits(), quiet);
    assert_eq!(envelope_level(Some((-28.8f32).to_bits())).to_bits(), (-28.8f32).to_bits());
}

/// The same decision, on the processor's own arithmetic.
fn native(levels: &[f32]) -> Option<usize> {
    if levels.len() < 12 {
        return None;
    }
    let sort = |part: &[f32]| {
        let mut sorted = part.to_vec();
        sorted.sort_by(|a, b| a.partial_cmp(b).unwrap());
        sorted
    };
    let threshold = sort(levels)[levels.len() * 3 / 4] - 10.0;
    let start = levels.windows(6).position(|run| run.iter().all(|level| *level >= threshold))?;
    if start < 6 {
        return None;
    }
    (sort(&levels[..start])[start / 2] <= threshold - 5.0).then_some(start)
}

#[test]
fn the_decision_agrees_with_the_processor() {
    let mut state: u32 = 0x1234_5679;
    let mut next = || {
        state ^= state << 13;
        state ^= state >> 17;
        state ^= state << 5;
        state
    };
    let (mut cut, mut kept) = (0, 0);
    for _ in 0..600 {
        let len = (next() % 60) as usize;
        let head = (next() % 30) as usize;
        let levels: Vec<f32> = (0..len)
            .map(|i| {
                let noise = (next() % 200) as f32 / 10.0;
                if i < head { -50.0 + noise } else { -20.0 - noise / 2.0 }
            })
            .collect();
        let expected = native(&levels);
        if expected.is_some() { cut += 1 } else { kept += 1 }
        assert_eq!(speech_start_window(&levels), expected, "{levels:?}");
    }
    assert!(cut > 20 && kept > 20, "{cut} {kept}");
}

#[test]
fn the_shortest_head_that_is_cut_lasts_a_minute() {
    let levels = |head: usize| -> Vec<f32> { (0..40).map(|i| if i < head { -60.0 } else { -20.0 }).collect() };
    assert_eq!(speech_start_window(&levels(5)), None);
    assert_eq!(speech_start_window(&levels(6)), Some(6));
}

#[test]
fn a_run_must_last_a_minute() {
    let mut levels: Vec<f32> = vec![-60.0; 20];
    levels.extend([-20.0; 5]);
    levels.extend([-60.0; 2]);
    levels.extend([-20.0; 20]);
    assert_eq!(speech_start_window(&levels), Some(27));
}

#[test]
fn the_head_must_be_five_decibels_under_the_threshold() {
    let levels = |head: f32| -> Vec<f32> { (0..60).map(|i| if i < 10 { head } else { -30.0 }).collect() };
    assert_eq!(speech_start_window(&levels(-45.0)), Some(10));
    assert_eq!(speech_start_window(&levels(-44.9)), None);
}

#[test]
fn the_median_of_an_even_number_is_the_upper_one() {
    let middle = |values: &[f32]| f32::from_bits(median(&to_levels(values)).to_bits());
    assert_eq!(middle(&[-3.0, -1.0, -2.0]), -2.0);
    assert_eq!(middle(&[-4.0, -1.0, -3.0, -2.0]), -2.0);
    assert_eq!(middle(&[]), f32::NEG_INFINITY);
}

#[test]
fn levels_agree_with_the_processor() {
    let mut all: Vec<f32> = vec![
        0.0, 0.1, 9.999_999, 10.0, 10.000_001, 1e-45, f32::MIN_POSITIVE, 1.5e8, 3.4e38, f32::MAX, f32::INFINITY, -0.1, -41.6,
        -120.0, -1e-45, f32::MIN, f32::NEG_INFINITY,
    ];
    let mut state: u32 = 0x2545_f491;
    for _ in 0..20_000 {
        state ^= state << 13;
        state ^= state >> 17;
        state ^= state << 5;
        for bits in [state, state & 0x83ff_ffff | 0x4000_0000] {
            if !f32::from_bits(bits).is_nan() {
                all.push(f32::from_bits(bits));
            }
        }
    }
    for pair in all.windows(2) {
        let (x, y) = (pair[0], pair[1]);
        let (a, b) = (Level::from_bits(x.to_bits()).unwrap(), Level::from_bits(y.to_bits()).unwrap());
        assert_eq!(a.at_least(b), x >= y, "{x} {y}");
        assert_eq!(a.is_finite(), x.is_finite(), "{x}");
        for db in [5, 10, -7, 50, 0, 16_777_215] {
            let lowered = f32::from_bits(a.lowered_by(db).to_bits());
            assert_eq!(lowered, x - (db as f32), "{x} {db}");
        }
    }
    for db in [-16_777_215, -120, -50, -1, 0, 1, 3, 16_777_215] {
        assert_eq!(Level::of_db(db).to_bits(), (db as f32).to_bits());
    }
    assert_eq!(Level::silent().to_bits(), f32::NEG_INFINITY.to_bits());
    assert!(Level::from_bits(f32::NAN.to_bits()).is_none());
}

#[test]
fn no_minute_of_sound_is_cut_off() {
    let start = speech_start_window(&REAL_ENVELOPE).unwrap();
    assert_eq!(start, 69);
    let mut sorted = REAL_ENVELOPE.to_vec();
    sorted.sort_by(|a, b| a.partial_cmp(b).unwrap());
    let threshold = sorted[130 * 3 / 4] - 10.0;
    for earlier in 0..start {
        assert!(REAL_ENVELOPE[earlier..earlier + 6].iter().any(|level| *level < threshold));
    }
}

#[test]
fn the_levels_of_joined_reports_are_joined() {
    let reports = [
        "",
        "\n",
        "RMS_level=-28.8",
        "RMS_level=-28.8\r",
        "RMS_level=-inf\r\nRMS_level=x RMS_level=-3\n",
        "noise\nlavfi.astats.Overall.RMS_level=-31.5 \nRMS_level=nan",
        "RMS_level=",
    ];
    for a in reports {
        for b in reports {
            let joined = format!("{a}\n{b}");
            let mut levels = parse_rms_levels(a);
            levels.extend(parse_rms_levels(b));
            assert_eq!(parse_rms_levels(&joined), levels, "{joined:?}");
        }
    }
    assert_eq!(parse_rms_levels("RMS_level=-28.8\r\nRMS_level=-1"), vec![-28.8, -1.0]);
}

#[test]
fn no_marked_line_is_dropped_and_every_level_is_finite() {
    let out = "RMS_level=-inf\nRMS_level\nRMS_level=inf\n=RMS_level=\nRMS_level=1e99\nRMS_level=-5 dB\nlevel=-3";
    let levels = parse_rms_levels(out);
    assert_eq!(levels.len(), out.lines().filter(|line| line.contains("RMS_level=")).count());
    assert_eq!(levels, vec![-120.0; 5]);
    assert!(levels.iter().all(|level| level.is_finite()));
}
