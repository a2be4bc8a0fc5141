use rsstygen::source::{feed_directory, FtpSettings, Instruction};
use rsstygen::text::{bytes_le, decimal_string, str_eq, str_le};
use rsstygen::time::{Timestamp, RFC2822_MAX_LOCAL_SECS, RFC2822_MIN_LOCAL_SECS};

fn at(secs: i64) -> Timestamp {
    Timestamp { secs, nanos: 0, offset: 0 }
}

#[test]
fn parse_reads_utc_date_time() {
    assert_eq!(
        Timestamp::parse("2024-05-01T00:00:00Z"),
        Some(Timestamp { secs: 1714521600, nanos: 0, offset: 0 })
    );
}

#[test]
fn parse_keeps_offset_and_fraction() {
    assert_eq!(
        Timestamp::parse("2003-07-01T10:52:37.25+02:00"),
        Some(Timestamp { secs: 1057049557, nanos: 250_000_000, offset: 7200 })
    );
}

#[test]
fn parse_rejects_what_is_no_date() {
    assert_eq!(Timestamp::parse(""), None);
    assert_eq!(Timestamp::parse("yesterday"), None);
    assert_eq!(Timestamp::parse("2024-05-01"), None);
    assert_eq!(Timestamp::parse("2024-05-01T00:00:00Z trailing"), None);
}

#[test]
fn rfc2822_of_known_instants() {
    assert_eq!(
        Timestamp { secs: 1057049557, nanos: 0, offset: 7200 }.to_rfc2822(),
        Some(String::from("Tue, 1 Jul 2003 10:52:37 +0200"))
    );
    assert_eq!(at(1714521600).to_rfc2822(), Some(String::from("Wed, 1 May 2024 00:00:00 +0000")));
    assert_eq!(at(0).to_rfc2822(), Some(String::from("Thu, 1 Jan 1970 00:00:00 +0000")));
}

#[test]
fn rfc2822_covers_years_0_to_9999() {
    let first = at(RFC2822_MIN_LOCAL_SECS).to_rfc2822().unwrap();
    assert!(first.contains("1 Jan 0000 00:00:00 +0000"));
    assert_eq!(
        at(RFC2822_MAX_LOCAL_SECS).to_rfc2822(),
        Some(String::from("Fri, 31 Dec 9999 23:59:59 +0000"))
    );
    assert_eq!(at(RFC2822_MIN_LOCAL_SECS - 1).to_rfc2822(), None);
    assert_eq!(at(RFC2822_MAX_LOCAL_SECS + 1).to_rfc2822(), None);
}

#[test]
fn rfc2822_year_is_taken_in_local_time() {
    let late = Timestamp { secs: RFC2822_MAX_LOCAL_SECS, nanos: 0, offset: 3600 };
    assert_eq!(late.to_rfc2822(), None);
    let early = Timestamp { secs: RFC2822_MIN_LOCAL_SECS - 3600, nanos: 0, offset: 3600 };
    assert!(early.to_rfc2822().unwrap().contains("1 Jan 0000 00:00:00 +0100"));
    assert_eq!(Timestamp { secs: i64::MAX, nanos: 0, offset: i32::MAX }.to_rfc2822(), None);
    assert_eq!(Timestamp { secs: i64::MIN, nanos: 0, offset: i32::MIN }.to_rfc2822(), None);
}

#[test]
fn rfc2822_refuses_numbers_that_form_no_date_time() {
    assert_eq!(Timestamp { secs: 0, nanos: 0, offset: 86_400 }.to_rfc2822(), None);
    assert_eq!(Timestamp { secs: 0, nanos: 2_000_000_000, offset: 0 }.to_rfc2822(), None);
    assert_eq!(Timestamp { secs: 0, nanos: 1_500_000_000, offset: 0 }.to_rfc2822(), None);
}

#[test]
fn instants_compare_by_seconds_then_nanos() {
    let a = Timestamp { secs: 5, nanos: 10, offset: 0 };
    let b = Timestamp { secs: 5, nanos: 11, offset: -3600 };
    let c = Timestamp { secs: 6, nanos: 0, offset: 7200 };
    assert!(a.is_at_or_before(&a));
    assert!(a.is_at_or_before(&b));
    assert!(!b.is_at_or_before(&a));
    assert!(b.is_at_or_before(&c));
    assert!(!c.is_at_or_before(&a));
}

#[test]
fn strings_order_lexicographically() {
    assert!(str_le("", ""));
    assert!(str_le("", "a"));
    assert!(!str_le("a", ""));
    assert!(str_le("Ch1", "Ch2"));
    assert!(!str_le("Ch2", "Ch1"));
    assert!(str_le("Ch1", "Ch10"));
    assert!(str_le("Ch10", "Ch2"));
    assert!(str_le("Z", "a"));
    assert!(str_le("z", "\u{e9}"));
    assert!(bytes_le(&[1, 2], &[1, 2]));
    assert!(!bytes_le(&[1, 3], &[1, 2, 9]));
}

#[test]
fn string_equality() {
    assert!(str_eq("", ""));
    assert!(str_eq("Foo", "Foo"));
    assert!(!str_eq("Foo", "Fo"));
    assert!(!str_eq("Foo", "foo"));
}

#[test]
fn decimal_strings() {
    assert_eq!(decimal_string(0), "0");
    assert_eq!(decimal_string(7), "7");
    assert_eq!(decimal_string(10), "10");
    assert_eq!(decimal_string(12345), "12345");
    assert_eq!(decimal_string(9_876_543_210), "9876543210");
    assert_eq!(decimal_string(usize::MAX), usize::MAX.to_string());
}

#[test]
fn feed_file_and_directory_names() {
    let source = Instruction {
        title: String::from("Foo"),
        url: String::from("http://x"),
        list_node: String::from("ul.chapters"),
        js_script: String::from("return []"),
    };
    assert_eq!(source.feed_file_name(), "Foo.rss");
    assert_eq!(feed_directory(), "rsstygen-rssfiles");
}

#[test]
fn ftp_address_joins_host_and_port() {
    let settings = FtpSettings {
        host: String::from("ftp.example.org"),
        port: 21,
        username: String::from("u"),
        password: String::from("p"),
        target_path: String::from("/feeds"),
    };
    assert_eq!(settings.address(), "ftp.example.org:21");
    let high = FtpSettings { port: 65535, ..settings };
    assert_eq!(high.address(), "ftp.example.org:65535");
}
