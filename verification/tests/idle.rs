use resurfacer::config::IdleDetectionConfig;
use resurfacer::idle_check::{banner, header, Reading};
use resurfacer::idle_detector::{
    foreground_is_fullscreen, foreground_pid, last_input_elapsed_ms, IdleDetector, Sample,
    WindowRect,
};

const SECOND: u64 = 1_000_000_000;

fn settings() -> IdleDetectionConfig {
    IdleDetectionConfig {
        presence_threshold_seconds: 120,
        debounce_seconds: 8,
        heavy_process_denylist: vec!["obs64.exe".to_string()],
    }
}

fn sample(last_input_ms: u64, fullscreen: bool, foreground: Option<&str>) -> Sample {
    Sample { last_input_ms, fullscreen, foreground: foreground.map(|n| n.to_string()) }
}

fn free() -> Sample {
    sample(0, false, None)
}

fn away() -> Sample {
    sample(120_000, false, None)
}

#[test]
fn a_free_moment_is_announced_once_after_the_debounce_span() {
    let mut d = IdleDetector::new(settings());
    let fired: Vec<u64> = (0..20).filter(|s| d.poll_at(&free(), s * SECOND)).collect();
    assert_eq!(fired, vec![8]);
    assert!(d.is_free_moment_active());
    assert_eq!(d.debounce_elapsed(), None);
}

#[test]
fn a_blocked_poll_starts_the_span_over() {
    let mut d = IdleDetector::new(settings());
    let mut fired = vec![];
    for s in 0..40 {
        let now = if s == 5 || s == 20 { away() } else { free() };
        if d.poll_at(&now, s * SECOND) {
            fired.push(s);
        }
        assert_eq!(d.is_free_moment_active(), (14..20).contains(&s) || s >= 29);
    }
    assert_eq!(fired, vec![14, 29]);
}

#[test]
fn the_span_counts_from_the_first_free_poll() {
    let mut d = IdleDetector::new(settings());
    assert!(!d.poll_at(&free(), 100 * SECOND));
    assert_eq!(d.debounce_elapsed_at(103 * SECOND), Some(3 * SECOND));
    assert!(d.debounce_elapsed().is_some());
    assert!(!d.poll_at(&free(), 108 * SECOND - 1));
    assert!(d.poll_at(&free(), 108 * SECOND));
    assert_eq!(d.debounce_elapsed_at(109 * SECOND), None);
}

#[test]
fn the_clock_goes_on_between_polls() {
    let mut d = IdleDetector::new(settings());
    assert!(!d.poll(&free()));
    let first = d.debounce_elapsed().unwrap();
    let start = std::time::Instant::now();
    while start.elapsed().as_millis() < 20 {}
    let later = d.debounce_elapsed().unwrap();
    assert!(later - first >= 20_000_000);
    assert!(later < 5 * SECOND);
}

#[test]
fn without_a_debounce_span_the_second_poll_announces() {
    let mut d = IdleDetector::new(IdleDetectionConfig { debounce_seconds: 0, ..settings() });
    assert!(!d.poll(&free()));
    assert!(d.poll(&free()));
    assert!(!d.poll(&free()));
    assert!(!d.poll(&away()));
    assert!(!d.is_free_moment_active());
}

#[test]
fn a_user_is_present_below_the_threshold() {
    let d = IdleDetector::new(settings());
    assert!(d.is_user_present(&sample(119_999, false, None)));
    assert!(!d.is_user_present(&sample(120_000, false, None)));
}

#[test]
fn heavy_apps_block() {
    let d = IdleDetector::new(settings());
    assert!(d.is_heavy_app_foreground(&sample(0, true, None)));
    assert!(d.is_heavy_app_foreground(&sample(0, false, Some("OBS64.EXE"))));
    assert!(!d.is_heavy_app_foreground(&sample(0, false, Some("notepad.exe"))));
    assert!(!d.is_heavy_app_foreground(&sample(0, false, None)));
    // an unknown process has the empty name
    let odd = IdleDetector::new(IdleDetectionConfig {
        heavy_process_denylist: vec!["".to_string()],
        ..settings()
    });
    assert!(odd.is_heavy_app_foreground(&sample(0, false, Some(""))));
    assert!(!odd.is_heavy_app_foreground(&sample(0, false, None)));
}

#[test]
fn diagnostics_tell_what_was_sampled() {
    let d = IdleDetector::new(settings());
    assert_eq!(d.diagnostics(&sample(5, true, Some("a"))), (5, "a".to_string(), true));
    assert_eq!(d.diagnostics(&sample(6, false, None)), (6, String::new(), false));
}

#[test]
fn the_last_input_is_counted_in_milliseconds() {
    assert_eq!(last_input_elapsed_ms(Some(100), 350), 250);
    assert_eq!(last_input_elapsed_ms(Some(400), 350), 0);
    assert_eq!(last_input_elapsed_ms(None, 350), 0);
}

#[test]
fn a_window_that_covers_the_screen_is_fullscreen() {
    let rect = |l: i32, t: i32, r: i32, b: i32| Some(WindowRect { left: l, top: t, right: r, bottom: b });
    assert!(foreground_is_fullscreen(rect(0, 0, 1920, 1080), 1920, 1080));
    assert!(foreground_is_fullscreen(rect(-8, -8, 1928, 1088), 1920, 1080));
    assert!(!foreground_is_fullscreen(rect(0, 0, 1919, 1080), 1920, 1080));
    assert!(!foreground_is_fullscreen(rect(0, 0, 1920, 1079), 1920, 1080));
    assert!(!foreground_is_fullscreen(None, 1920, 1080));
}

#[test]
fn no_window_or_process_means_no_pid() {
    assert_eq!(foreground_pid(0, 7), None);
    assert_eq!(foreground_pid(5, 0), None);
    assert_eq!(foreground_pid(5, 7), Some(7));
}

fn reading(fired: bool, input_ms: u64, process: &str, fullscreen: bool, debounce: Option<&str>) -> Reading {
    Reading {
        fired,
        input_ms,
        process: process.to_string(),
        fullscreen,
        debounce: debounce.map(|d| d.to_string()),
    }
}

#[test]
fn each_poll_has_a_note() {
    let c = settings();
    assert_eq!(reading(true, 999_999, "", true, None).note_text(&c), "*** FREE MOMENT ***");
    assert_eq!(reading(false, 120_000, "", true, None).note_text(&c), "user away");
    assert_eq!(reading(false, 0, "obs64.exe", true, None).note_text(&c), "fullscreen");
    assert_eq!(reading(false, 0, "Obs64.exe", false, None).note_text(&c), "denylist");
    assert_eq!(reading(false, 0, "x", false, None).note_text(&c), "");
}

#[test]
fn each_poll_has_a_line() {
    let c = settings();
    let line = reading(false, 0, "", false, Some("3")).status_line_at("12:34:56", &c);
    let wanted = format!(
        "[{}]  {:<7}  {:<6}  {:<22}  {:<11}  {}",
        "12:34:56", true, false, "-", "3/8s", ""
    );
    assert_eq!(line, wanted);
    let line = reading(true, 120_000, "a-process-with-a-very-long-name.exe", true, None)
        .status_line_at("00:00:00", &c);
    let wanted = format!(
        "[{}]  {:<7}  {:<6}  {:<22}  {:<11}  {}",
        "00:00:00", false, true, "a-process-with-a-very-long-name.exe", "-", "*** FREE MOMENT ***"
    );
    assert_eq!(line, wanted);
}

#[test]
fn a_line_is_headed_by_the_time_of_day() {
    let line = reading(false, 0, "x", false, None).status_line(&settings());
    let time: Vec<char> = line.chars().skip(1).take(8).collect();
    for (i, c) in time.iter().enumerate() {
        assert!(if i == 2 || i == 5 { *c == ':' } else { c.is_ascii_digit() });
    }
    assert!(line.starts_with("["));
    assert!(line[9..].starts_with("]  true   "));
}

#[test]
fn the_table_has_a_head() {
    assert_eq!(
        banner(&settings()),
        "idle_check - 1 s poll  |  debounce: 8 s  |  Ctrl+C to exit"
    );
    let wanted = format!(
        "{:<10}  {:<7}  {:<6}  {:<22}  {:<11}  {}",
        "time", "present", "fullsc", "foreground", "debounce", "note"
    );
    assert_eq!(header(), wanted);
}
