use vibe_core::names::{
    decimal, get_local_time, random_string, spelled, temp_folder_name, todays_temp_folder_name, trimmed_file_name,
};
use vibe_core::seconds::Seconds;

fn secs(t: f64) -> Seconds {
    Seconds { bits: t.to_bits() }
}

fn digits_at(text: &str, from: usize, to: usize) -> u32 {
    text[from..to].parse().unwrap()
}

#[test]
fn the_local_time_spells_date_and_time() {
    let t = get_local_time();
    assert_eq!(t.len(), "2025-03-09 17-05-00".len());
    assert_eq!((&t[4..5], &t[7..8], &t[10..11], &t[13..14], &t[16..17]), ("-", "-", " ", "-", "-"));
    assert!(digits_at(&t, 0, 4) >= 2024);
    assert!((1..=12).contains(&digits_at(&t, 5, 7)));
    assert!((1..=31).contains(&digits_at(&t, 8, 10)));
    assert!(digits_at(&t, 11, 13) < 24);
    assert!(digits_at(&t, 14, 16) < 60);
    assert!(digits_at(&t, 17, 19) < 60);
}

#[test]
fn the_local_time_is_the_clocks() {
    let before = chrono::Local::now().format("%Y-%m-%d %H-%M-%S").to_string();
    let t = get_local_time();
    let after = chrono::Local::now().format("%Y-%m-%d %H-%M-%S").to_string();
    assert!(before <= t && t <= after);
}

#[test]
fn the_temporary_folder_is_named_after_the_day() {
    assert_eq!(temp_folder_name("2025-03-09"), "vibe_temp_2025-03-09");
    let before = chrono::Local::now().format("vibe_temp_%Y-%m-%d").to_string();
    let name = todays_temp_folder_name();
    let after = chrono::Local::now().format("vibe_temp_%Y-%m-%d").to_string();
    assert!(before <= name && name <= after);
}

#[test]
fn random_strings_have_letters_and_digits_only() {
    for length in [0, 1, 10, 500] {
        let s = random_string(length);
        assert_eq!(s.chars().count(), length);
        assert!(s.chars().all(|c| c.is_ascii_alphanumeric()));
    }
}

#[test]
fn random_strings_differ() {
    assert_ne!(random_string(40), random_string(40));
}

#[test]
fn bytes_are_spelled_as_characters() {
    assert_eq!(spelled(b"aZ09"), "aZ09");
    assert_eq!(spelled(&[0xe9]), "é");
    assert_eq!(spelled(&[]), "");
}

#[test]
fn numbers_are_written_in_decimal() {
    for n in [0, 7, 10, 99, 100, 700, 1_000_000_007, u64::MAX] {
        assert_eq!(decimal(n), n.to_string());
    }
}

#[test]
fn a_trimmed_copy_is_named_after_what_was_skipped() {
    assert_eq!(trimmed_file_name("aB3", secs(700.0), Some("mp3")), "aB3-from700s.mp3");
    assert_eq!(trimmed_file_name("aB3", secs(60.9), None), "aB3-from60s.wav");
    assert_eq!(trimmed_file_name("", secs(0.0), Some("")), "-from0s.");
}
