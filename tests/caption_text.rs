use fbmeta::caption::{combine, Comment};
use fbmeta::civil::CivilTime;
use fbmeta::error::MetaError;

fn at(secs: i64) -> CivilTime {
    CivilTime::from_epoch_seconds(secs).unwrap()
}

fn comment(text: Option<&str>, author: &str, secs: i64) -> Comment {
    Comment {
        timestamp: at(secs),
        text: text.map(|t| t.to_string()),
        author: author.to_string(),
    }
}

#[test]
fn description_and_comment_are_joined() {
    let comments = vec![comment(Some("Nice!"), "Bob", 1577934245)];
    let r = combine(&Some("Hello".to_string()), &comments);
    assert_eq!(r, "Hello\n\"Nice!\" -Bob (2020-01-02 03:04:05 AM)");
}

#[test]
fn nothing_to_say_gives_empty_caption() {
    let comments = vec![comment(None, "Bob", 0), comment(None, "Ann", 86400)];
    assert_eq!(combine(&None, &comments), "");
    assert_eq!(combine(&None, &Vec::new()), "");
}

#[test]
fn comments_keep_source_order_and_drop_textless() {
    let comments = vec![
        comment(Some("second"), "Zed", 1577934245),
        comment(None, "Ghost", 0),
        comment(Some("first"), "Amy", 0),
    ];
    let r = combine(&None, &comments);
    assert_eq!(
        r,
        "\"second\" -Zed (2020-01-02 03:04:05 AM)\n\"first\" -Amy (1970-01-01 12:00:00 AM)"
    );
}

#[test]
fn empty_description_still_takes_a_line() {
    let comments = vec![comment(Some("x"), "B", 0)];
    let r = combine(&Some(String::new()), &comments);
    assert_eq!(r, "\n\"x\" -B (1970-01-01 12:00:00 AM)");
}

#[test]
fn description_alone() {
    assert_eq!(combine(&Some("Été à Paris".to_string()), &Vec::new()), "Été à Paris");
}

#[test]
fn epoch_start_fields() {
    let t = at(0);
    assert_eq!(
        t,
        CivilTime { year: 1970, month: 1, day: 1, hour: 0, minute: 0, second: 0 }
    );
}

#[test]
fn epoch_seconds_to_calendar() {
    let t = at(1577934245);
    assert_eq!(
        t,
        CivilTime { year: 2020, month: 1, day: 2, hour: 3, minute: 4, second: 5 }
    );
    let leap = at(951825600);
    assert_eq!(
        leap,
        CivilTime { year: 2000, month: 2, day: 29, hour: 12, minute: 0, second: 0 }
    );
}

#[test]
fn negative_seconds_before_epoch() {
    let t = at(-1);
    assert_eq!(
        t,
        CivilTime { year: 1969, month: 12, day: 31, hour: 23, minute: 59, second: 59 }
    );
}

#[test]
fn window_edges() {
    let first = at(-62167219200);
    assert_eq!(
        first,
        CivilTime { year: 0, month: 1, day: 1, hour: 0, minute: 0, second: 0 }
    );
    let last = at(253402300799);
    assert_eq!(
        last,
        CivilTime { year: 9999, month: 12, day: 31, hour: 23, minute: 59, second: 59 }
    );
}

#[test]
fn outside_four_digit_years_is_refused() {
    assert_eq!(
        CivilTime::from_epoch_seconds(253402300800),
        Err(MetaError::TimestampOutOfRange)
    );
    assert_eq!(
        CivilTime::from_epoch_seconds(-62167219201),
        Err(MetaError::TimestampOutOfRange)
    );
    assert_eq!(
        CivilTime::from_epoch_seconds(i64::MAX),
        Err(MetaError::TimestampOutOfRange)
    );
}

#[test]
fn exif_date_format() {
    assert_eq!(at(1577934245).exif_string(), "2020:01:02 03:04:05");
    assert_eq!(at(0).exif_string(), "1970:01:01 00:00:00");
}

#[test]
fn twelve_hour_display() {
    assert_eq!(at(0).display_string(), "1970-01-01 12:00:00 AM");
    assert_eq!(at(43200).display_string(), "1970-01-01 12:00:00 PM");
    assert_eq!(at(46800 + 61).display_string(), "1970-01-01 01:01:01 PM");
    assert_eq!(at(86399).display_string(), "1970-01-01 11:59:59 PM");
}
