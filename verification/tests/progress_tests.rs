use asset_describer::config::{FileProcessingConfig, MonitorConfig};
use asset_describer::error::ImageAnalysisError;
use asset_describer::progress::{decimal, padded, ProgressLayout, SimpleProgress};

#[test]
fn new_progress_starts_at_zero_without_message() {
    let p = SimpleProgress::new(10, "all done");
    assert_eq!(
        p,
        SimpleProgress {
            total: 10,
            current: 0,
            current_message: String::new(),
            finish_message: "all done".to_string(),
        }
    );
}

#[test]
fn set_message_replaces_the_message_only() {
    let mut p = SimpleProgress::new(10, "all done");
    p.set_message("first");
    p.set_message("second");
    assert_eq!(p.current_message, "second");
    assert_eq!(p.current, 0);
    assert_eq!(p.total, 10);
    assert_eq!(p.finish_message, "all done");
}

#[test]
fn inc_counts_one_step() {
    let mut p = SimpleProgress::new(3, "done");
    p.inc();
    p.inc();
    assert_eq!(p.current, 2);
    assert_eq!(p.current_message, "");
}

#[test]
fn set_message_and_inc_does_both() {
    let mut p = SimpleProgress::new(3, "done");
    p.set_message_and_inc("photo.jpg");
    assert_eq!(p.current, 1);
    assert_eq!(p.current_message, "photo.jpg");
}

#[test]
fn eta_scales_the_pace_so_far() {
    let mut p = SimpleProgress::new(10, "done");
    assert_eq!(p.eta(120), 0);
    p.inc();
    assert_eq!(p.eta(7), 63);
    p.inc();
    p.inc();
    assert_eq!(p.eta(10), 23);
    p.current = 10;
    assert_eq!(p.eta(99), 0);
}

#[test]
fn layout_follows_percent_and_message() {
    let mut p = SimpleProgress::new(10, "done");
    assert_eq!(p.layout(0), ProgressLayout::Bare);
    assert_eq!(p.layout(99), ProgressLayout::Bare);
    assert_eq!(p.layout(100), ProgressLayout::Finished);
    p.set_message("working");
    assert_eq!(p.layout(50), ProgressLayout::WithMessage);
    assert_eq!(p.layout(100), ProgressLayout::Finished);
    assert_eq!(p.layout(255), ProgressLayout::Finished);
}

#[test]
fn error_copy_is_equal() {
    let errors = [
        ImageAnalysisError::EmptyInput,
        ImageAnalysisError::TransportError { detail: "refused".to_string() },
        ImageAnalysisError::RequestTimeout,
        ImageAnalysisError::ServerError { status: 502, body: "bad gateway".to_string() },
        ImageAnalysisError::MalformedResponse,
        ImageAnalysisError::EmptyResponse,
        ImageAnalysisError::NoHostsReachable,
        ImageAnalysisError::AssetNotFound,
        ImageAnalysisError::StoreError { detail: "closed".to_string() },
    ];
    for e in errors.iter() {
        assert_eq!(&e.copied(), e);
    }
}

#[test]
fn configs_hold_their_fields() {
    let file = FileProcessingConfig {
        file_write_timeout: 1,
        file_check_interval: 2,
        ignore_existing: true,
        ollama_hosts: vec!["http://a".to_string()],
        unavailable_duration: 3,
        request_timeout: 4,
    };
    assert_eq!(file.clone().ollama_hosts, vec!["http://a".to_string()]);
    assert_eq!(file.request_timeout, 4);
    let monitor = MonitorConfig {
        file_write_timeout: 1,
        file_check_interval: 2,
        event_cooldown: 3,
        timeout: 4,
        lang: "en".to_string(),
        ignore_existing: false,
        ollama_hosts: vec![],
        unavailable_duration: 5,
    };
    assert_eq!(monitor.clone().lang, "en");
    assert_eq!(monitor.unavailable_duration, 5);
}

#[test]
fn decimal_writes_numbers_without_leading_zeros() {
    assert_eq!(decimal(0), "0");
    assert_eq!(decimal(7), "7");
    assert_eq!(decimal(10), "10");
    assert_eq!(decimal(1_000_000), "1000000");
    assert_eq!(decimal(9_876_543_210), "9876543210");
    assert_eq!(decimal(u64::MAX), "18446744073709551615");
}

#[test]
fn padded_fills_from_the_left() {
    assert_eq!(padded("7".to_string(), 3), "  7");
    assert_eq!(padded("42".to_string(), 3), " 42");
    assert_eq!(padded("100".to_string(), 3), "100");
    assert_eq!(padded("1234".to_string(), 3), "1234");
    assert_eq!(padded(String::new(), 2), "  ");
}

#[test]
fn render_shows_the_progress_line_alone_without_message() {
    let mut p = SimpleProgress::new(10, "all done");
    p.current = 3;
    assert_eq!(p.render(30, 7), vec!["[ 30%] 3/10 (7s, ETA: 16s)".to_string()]);
    let fresh = SimpleProgress::new(10, "all done");
    assert_eq!(fresh.render(0, 0), vec!["[  0%] 0/10 (0s, ETA: 0s)".to_string()]);
}

#[test]
fn render_shows_the_message_under_the_progress_line() {
    let mut p = SimpleProgress::new(200, "all done");
    p.current = 50;
    p.set_message("photo.jpg");
    assert_eq!(
        p.render(25, 100),
        vec!["[ 25%] 50/200 (100s, ETA: 300s)".to_string(), "   photo.jpg".to_string()]
    );
}

#[test]
fn render_closes_with_the_finish_message() {
    let mut p = SimpleProgress::new(10, "all done");
    p.current = 10;
    p.set_message("last.jpg");
    assert_eq!(p.render(100, 12), vec!["[100%] 10/10 (12s)".to_string(), "   all done".to_string()]);
}

#[test]
fn render_agrees_with_the_formatting_macros() {
    let mut p = SimpleProgress::new(1234, "done");
    for (current, percent, elapsed) in [(1u64, 0u8, 5u64), (617, 50, 61), (1233, 99, 3600)] {
        p.current = current;
        let eta = elapsed * (1234 - current) / current;
        assert_eq!(
            p.render(percent, elapsed),
            vec![format!("[{:3}%] {}/{} ({}s, ETA: {}s)", percent, current, 1234, elapsed, eta)]
        );
    }
    p.current = 1234;
    assert_eq!(
        p.render(100, 7200),
        vec![format!("[{:3}%] {}/{} ({}s)", 100, 1234, 1234, 7200), format!("   {}", "done")]
    );
}
