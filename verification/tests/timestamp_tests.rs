use xmltv_guide::timestamp::parse_timestamp;

#[test]
fn parses_positive_offset() {
    let t = parse_timestamp("20240115203000 +0200").expect("should parse");
    assert_eq!(t.utc_secs, 1705343400);
    assert_eq!(t.offset_minutes, 120);
}

#[test]
fn parses_negative_offset_and_leap_day() {
    let t = parse_timestamp("20000229235959 -0530").expect("should parse");
    assert_eq!(t.utc_secs, 951888599);
    assert_eq!(t.offset_minutes, -330);
}

#[test]
fn parses_epoch() {
    let t = parse_timestamp("19700101000000 +0000").expect("should parse");
    assert_eq!(t.utc_secs, 0);
    assert_eq!(t.offset_minutes, 0);
}

#[test]
fn offset_changes_instant() {
    let utc = parse_timestamp("20240115203000 +0000").unwrap();
    let east = parse_timestamp("20240115203000 +0200").unwrap();
    assert_eq!(utc.utc_secs - east.utc_secs, 2 * 3600);
}

#[test]
fn rejects_wrong_length() {
    assert!(parse_timestamp("2024011520300 +0200").is_none());
    assert!(parse_timestamp("").is_none());
    assert!(parse_timestamp("20240115203000 +02000").is_none());
}

#[test]
fn rejects_bad_month_and_day() {
    assert!(parse_timestamp("20241315203000 +0200").is_none());
    assert!(parse_timestamp("20240015203000 +0200").is_none());
    assert!(parse_timestamp("20240230203000 +0200").is_none());
    assert!(parse_timestamp("19000229000000 +0000").is_none());
    assert!(parse_timestamp("20000229000000 +0000").is_some());
}

#[test]
fn rejects_bad_time_fields() {
    assert!(parse_timestamp("20240115243000 +0200").is_none());
    assert!(parse_timestamp("20240115206000 +0200").is_none());
    assert!(parse_timestamp("20240115203060 +0200").is_none());
}

#[test]
fn rejects_bad_shape() {
    assert!(parse_timestamp("20240115203000_+0200").is_none());
    assert!(parse_timestamp("20240115203000 *0200").is_none());
    assert!(parse_timestamp("2024011520300a +0200").is_none());
    assert!(parse_timestamp("20240115203000 +02a0").is_none());
}

#[test]
fn rejects_bad_offset_fields() {
    assert!(parse_timestamp("20240115203000 +2400").is_none());
    assert!(parse_timestamp("20240115203000 +0260").is_none());
}
