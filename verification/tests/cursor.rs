use memvid::cursor::{parse_timeline_cursor, timeline_cursor_from_entry, TimelineEntryOutput};

fn entry(timestamp: i64, frame_id: u64) -> TimelineEntryOutput {
    TimelineEntryOutput {
        frame_id,
        timestamp,
        preview: String::new(),
        uri: None,
        child_frames: Vec::new(),
    }
}

#[test]
fn cursor_of_entry_is_timestamp_colon_id() {
    assert_eq!(timeline_cursor_from_entry(&entry(1700000000, 42)), "1700000000:42");
    assert_eq!(timeline_cursor_from_entry(&entry(-5, 0)), "-5:0");
    assert_eq!(
        timeline_cursor_from_entry(&entry(i64::MIN, u64::MAX)),
        "-9223372036854775808:18446744073709551615"
    );
}

#[test]
fn cursor_parses_back() {
    assert_eq!(parse_timeline_cursor("1700000000:42"), Ok((1700000000, 42)));
    assert_eq!(parse_timeline_cursor("-5:0"), Ok((-5, 0)));
    assert_eq!(parse_timeline_cursor("+7:+8"), Ok((7, 8)));
    assert_eq!(
        parse_timeline_cursor("-9223372036854775808:18446744073709551615"),
        Ok((i64::MIN, u64::MAX))
    );
}

#[test]
fn cursor_errors_name_the_part() {
    assert_eq!(parse_timeline_cursor("bad-cursor"), Err("invalid cursor timestamp".to_string()));
    assert_eq!(parse_timeline_cursor("12"), Err("invalid cursor format".to_string()));
    assert_eq!(parse_timeline_cursor("12:"), Err("invalid cursor frame_id".to_string()));
    assert_eq!(parse_timeline_cursor("12:-3"), Err("invalid cursor frame_id".to_string()));
    assert_eq!(parse_timeline_cursor("12:3:4"), Err("invalid cursor frame_id".to_string()));
    assert_eq!(parse_timeline_cursor(":3"), Err("invalid cursor timestamp".to_string()));
    assert_eq!(
        parse_timeline_cursor("9223372036854775808:1"),
        Err("invalid cursor timestamp".to_string())
    );
    assert_eq!(
        parse_timeline_cursor("1:18446744073709551616"),
        Err("invalid cursor frame_id".to_string())
    );
}
