use cutter::progress::{progress_line, should_report, status_line, threshold};

#[test]
fn threshold_is_a_quarter_percent_between_one_and_twenty_five() {
    assert_eq!(threshold(0), 1);
    assert_eq!(threshold(1), 1);
    assert_eq!(threshold(3), 1);
    assert_eq!(threshold(4), 1);
    assert_eq!(threshold(7), 1);
    assert_eq!(threshold(8), 2);
    assert_eq!(threshold(10), 2);
    assert_eq!(threshold(24), 6);
    assert_eq!(threshold(25), 6);
    assert_eq!(threshold(99), 24);
    assert_eq!(threshold(100), 25);
    assert_eq!(threshold(101), 25);
    assert_eq!(threshold(1000), 25);
    assert_eq!(threshold(u32::MAX), 25);
}

#[test]
fn threshold_follows_the_formula() {
    for total in 0u32..500 {
        let want = (total * 25 / 100).clamp(1, 25);
        assert_eq!(threshold(total), want);
    }
}

#[test]
fn reports_come_at_start_end_and_every_threshold() {
    assert!(should_report(0, 1000, false));
    assert!(should_report(1000, 1000, false));
    assert!(should_report(25, 1000, false));
    assert!(should_report(50, 1000, false));
    assert!(!should_report(1, 1000, false));
    assert!(!should_report(26, 1000, false));
    assert!(!should_report(999, 1000, false));
    assert!(should_report(2, 10, false));
    assert!(!should_report(3, 10, false));
    assert!(should_report(10, 10, false));
}

#[test]
fn small_batches_report_every_update() {
    for total in 0u32..8 {
        for current in 0..=total {
            assert!(should_report(current, total, false));
        }
    }
    assert!(should_report(0, 0, false));
    assert!(should_report(0, 1, false));
    assert!(should_report(1, 1, false));
}

#[test]
fn verbose_reports_everything() {
    for current in 0u32..200 {
        assert!(should_report(current, 1000, true));
    }
}

#[test]
fn huge_batches_do_not_overflow() {
    assert!(should_report(0, u32::MAX, false));
    assert!(should_report(u32::MAX, u32::MAX, false));
    assert!(should_report(4294967275, u32::MAX, false));
    assert!(!should_report(4294967276, u32::MAX, false));
}

#[test]
fn status_line_names_label_and_counts() {
    assert_eq!(status_line("Processing", 3, 12), "Processing 3/12");
    assert_eq!(status_line("Downloaded", 0, 0), "Downloaded 0/0");
    assert_eq!(status_line("", 4294967295, 1), " 4294967295/1");
}

#[test]
fn progress_line_is_the_status_line_when_reported() {
    assert_eq!(progress_line(0, 1000, "Uploaded", false), Some("Uploaded 0/1000".to_owned()));
    assert_eq!(progress_line(1, 1000, "Uploaded", false), None);
    assert_eq!(progress_line(1, 1000, "Uploaded", true), Some("Uploaded 1/1000".to_owned()));
    assert_eq!(progress_line(75, 1000, "Uploaded", false), Some("Uploaded 75/1000".to_owned()));
}
