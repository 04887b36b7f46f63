use media_clipper::error::ClipError;
use media_clipper::time::{str_to_u8, validate_start_end, VideoTime};

#[test]
fn normalization_carries_seconds_into_minutes() {
    let t = VideoTime::new(0, 0, 90);
    assert_eq!(t.hours, 0);
    assert_eq!(t.minutes, 1);
    assert_eq!(t.seconds, 30);
}

#[test]
fn normalization_carries_minutes_into_hours() {
    let t = VideoTime::new(0, 90, 0);
    assert_eq!(t.hours, 1);
    assert_eq!(t.minutes, 30);
    assert_eq!(t.seconds, 0);
}

#[test]
fn normalization_preserves_total_seconds() {
    let t = VideoTime::new(1, 75, 75);
    assert_eq!(t.seconds(), 3600 + 75 * 60 + 75);
    assert!(t.minutes < 60);
    assert!(t.seconds < 60);
}

#[test]
fn normalization_of_extremes_does_not_overflow() {
    let t = VideoTime::new(255, 255, 255);
    assert_eq!(t.seconds(), 255 * 3600 + 255 * 60 + 255);
}

#[test]
fn str_to_u8_accepts_empty_as_zero() {
    assert_eq!(str_to_u8("").unwrap(), 0);
}

#[test]
fn str_to_u8_parses_digits() {
    assert_eq!(str_to_u8("0").unwrap(), 0);
    assert_eq!(str_to_u8("42").unwrap(), 42);
    assert_eq!(str_to_u8("255").unwrap(), 255);
}

#[test]
fn str_to_u8_rejects_non_numeric() {
    assert!(matches!(str_to_u8("abc"), Err(ClipError::InvalidTimeNumber)));
    assert!(matches!(str_to_u8("1a"), Err(ClipError::InvalidTimeNumber)));
    assert!(matches!(str_to_u8("-1"), Err(ClipError::InvalidTimeNumber)));
    assert!(matches!(str_to_u8(" 1"), Err(ClipError::InvalidTimeNumber)));
}

#[test]
fn str_to_u8_rejects_overflow() {
    assert!(matches!(str_to_u8("256"), Err(ClipError::InvalidTimeNumber)));
    assert!(matches!(str_to_u8("1000"), Err(ClipError::InvalidTimeNumber)));
}

#[test]
fn valid_range_returns_normalized_times() {
    let (start, end) = validate_start_end(600, "0", "1", "90", "", "4", "0").unwrap();
    // 1 minute 90 seconds normalizes to 2 minutes 30 seconds
    assert_eq!(start.minutes, 2);
    assert_eq!(start.seconds, 30);
    assert_eq!(start.seconds() + 90, end.seconds());
}

#[test]
fn start_must_precede_end() {
    let r = validate_start_end(600, "0", "2", "0", "0", "1", "0");
    assert!(matches!(r, Err(ClipError::StartNotBeforeEnd)));
    let equal = validate_start_end(600, "0", "2", "0", "0", "2", "0");
    assert!(matches!(equal, Err(ClipError::StartNotBeforeEnd)));
}

#[test]
fn duration_bound_is_inclusive() {
    // exactly 600 seconds is accepted
    let ok = validate_start_end(600, "", "", "", "", "10", "0");
    assert!(ok.is_ok());
    // 601 seconds is one too many
    let too_long = validate_start_end(600, "", "", "", "", "10", "1");
    assert!(matches!(
        too_long,
        Err(ClipError::DurationTooLong { max_seconds: 600 })
    ));
}

#[test]
fn non_numeric_field_rejects_whole_range() {
    let r = validate_start_end(600, "zero", "0", "0", "0", "1", "0");
    assert!(matches!(r, Err(ClipError::InvalidTimeNumber)));
}

#[test]
fn empty_fields_count_as_zero() {
    let (start, end) = validate_start_end(600, "", "", "", "", "", "30").unwrap();
    assert_eq!(start.seconds(), 0);
    assert_eq!(end.seconds(), 30);
}

#[test]
fn time_code_is_zero_padded() {
    let t = VideoTime::new(1, 2, 3);
    assert_eq!(t.time_code(), "1:02:03");
    let u = VideoTime::new(0, 59, 59);
    assert_eq!(u.time_code(), "0:59:59");
    let v = VideoTime::new(12, 0, 90);
    assert_eq!(v.time_code(), "12:01:30");
}

#[test]
fn error_messages_match_their_cause() {
    assert_eq!(
        ClipError::StartNotBeforeEnd.message(),
        "start time should be before end time"
    );
    assert_eq!(
        ClipError::DurationTooLong { max_seconds: 600 }.message(),
        "clip duration should not exceed 600 seconds"
    );
    assert_eq!(
        ClipError::QueueFull { max_queue_size: 4 }.message(),
        "maximum job queue size has been reached: 4"
    );
    assert_eq!(
        ClipError::DuplicateJob {
            file_name: "a.mp4".to_string()
        }
        .message(),
        "there is already a pending job called a.mp4"
    );
    assert_eq!(
        ClipError::RefreshInProgress.message(),
        "file indexing forbidden: another indexing is already in progress"
    );
}
