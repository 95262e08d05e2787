use sentry_cli::event::{
    attach_lines, attach_logfile, get_sdk_info, keep_latest, line_breadcrumb, record_breadcrumb, Breadcrumb, LogRecord,
    Timestamp, MAX_BREADCRUMBS,
};
use sentry_cli::stamp::stamp_fits;

const FALLBACK: Timestamp = Timestamp { secs: 7, nanos: 8 };

fn checked(line: &str, with_component: bool) -> Breadcrumb {
    assert!(stamp_fits(line));
    line_breadcrumb(line, with_component, FALLBACK)
}

#[test]
fn line_with_a_zone() {
    let crumb = checked("2015-05-13 17:39:16 +0200: Repaired 'Library'", false);
    assert_eq!(crumb.timestamp, Timestamp { secs: 1431531556, nanos: 0 });
    assert_eq!(crumb.message, "Repaired 'Library'");
    assert_eq!(crumb.category, "log");
}

#[test]
fn line_with_a_frame_and_a_component() {
    let line = "[2018.10.29-16.56.37:542][  0]LogInit: Selected Device Profile: [WindowsNoEditor]";
    let crumb = checked(line, true);
    assert_eq!(crumb.timestamp, Timestamp { secs: 1540832197, nanos: 0 });
    assert_eq!(crumb.message, "Selected Device Profile: [WindowsNoEditor]");
    assert_eq!(crumb.category, "LogInit");
}

#[test]
fn line_with_local_time() {
    let crumb = checked("Tue Nov 21 00:30:05 2017 More stuff here", false);
    assert_eq!(crumb.message, "More stuff here");
    assert!(crumb.timestamp != FALLBACK);
}

#[test]
fn line_without_timestamp() {
    let crumb = checked("<kernel> en0: Received EAPOL packet", true);
    assert_eq!(crumb.timestamp, FALLBACK);
    assert_eq!(crumb.message, "Received EAPOL packet");
    assert_eq!(crumb.category, "<kernel> en0");
    let crumb = checked("(nothing to see)", true);
    assert_eq!(crumb.message, "(nothing to see)");
    assert_eq!(crumb.category, "log");
    assert_eq!(checked("", true).message, "");
    let crumb = checked(": no component", true);
    assert_eq!((crumb.category.as_str(), crumb.message.as_str()), ("log", ": no component"));
    let crumb = checked("a:b", true);
    assert_eq!((crumb.category.as_str(), crumb.message.as_str()), ("a", "b"));
}

#[test]
fn breadcrumb_of_a_record() {
    let record = |timestamp, component: Option<&str>| LogRecord {
        timestamp,
        message: "c: m".to_owned(),
        component: component.map(str::to_owned),
        component_message: "m".to_owned(),
    };
    let time = Timestamp { secs: -1, nanos: 0 };
    let crumb = record_breadcrumb(record(Some(time), Some("c")), true, FALLBACK);
    assert_eq!((crumb.timestamp, crumb.message.as_str(), crumb.category.as_str()), (time, "m", "c"));
    let crumb = record_breadcrumb(record(None, Some("c")), false, FALLBACK);
    assert_eq!((crumb.timestamp, crumb.message.as_str(), crumb.category.as_str()), (FALLBACK, "c: m", "log"));
    let crumb = record_breadcrumb(record(None, None), true, FALLBACK);
    assert_eq!((crumb.message.as_str(), crumb.category.as_str()), ("m", "log"));
}

#[test]
fn numbers_that_are_too_large() {
    let large = [
        "4294967296:00:00 x",
        "[0:4294967296:0] x",
        "0:0:99999999999999999999\tx",
        "Nov 4294967296 21:56:01 x",
        "[Mon Nov 4294967296 21:56:01.5] x",
        "Nov  4294967296 21:56:01 2017 x",
        "Nov  4294967296, 2017 21:56:01 x",
        "Tue Nov 21 00:30:05 2147483648 x",
        "[2018.10.29-4294967296.56.37:542][  0]x",
        "[2018.10.29-1.2.4294967296:542][12]x",
    ];
    for line in large {
        assert!(!stamp_fits(line), "{line}");
    }
}

#[test]
fn numbers_that_fit_or_are_no_part_of_a_date() {
    let fine = [
        "4294967295:00:00 x",
        "99999999999999999999 x",
        "99999999999:1 x",
        "99999999999:1:1",
        "Nov 4294967295 21:56:01 x",
        "Nov 4294967296 x",
        "Nov  4294967296 21:56:01 x",
        "Foo 4294967296 21:56:01 x",
        "Nov 20 21:56:01 4294967296 x",
        "Tue Nov 21 00:30:05 2147483647 x",
        "00000000000000000001:2:3 x",
        "[2018.13.29-4294967296.56.37:542][  0]x",
        "2018.10.29-4294967296.56.37:542][  0]x",
        "at 4294967296:0:0 x",
    ];
    for line in fine {
        let crumb = checked(line, false);
        assert!(line.ends_with(&crumb.message));
    }
}

#[test]
fn latest_breadcrumbs_are_kept() {
    let lines: Vec<String> = (0..MAX_BREADCRUMBS).map(|i| format!("line {i}")).collect();
    let mut crumbs = vec![checked("(first)", false), checked("(second)", false)];
    attach_logfile(&mut crumbs, &lines[..98].to_vec(), false, FALLBACK);
    assert_eq!(crumbs.len(), 100);
    assert_eq!(crumbs[0].message, "(first)");
    attach_logfile(&mut crumbs, &lines[98..].to_vec(), false, FALLBACK);
    assert_eq!(crumbs.len(), 100);
    assert_eq!(crumbs[0].message, "line 0");
    assert_eq!(crumbs[99].message, "line 99");
}

#[test]
fn keeping_the_latest_of_a_few_keeps_all() {
    let mut items = vec![1, 2, 3];
    keep_latest(&mut items);
    assert_eq!(items, [1, 2, 3]);
    let mut items: Vec<usize> = (0..250).collect();
    keep_latest(&mut items);
    assert_eq!(items, (150..250).collect::<Vec<usize>>());
}

#[test]
fn sdk_info_names_the_program() {
    let info = get_sdk_info("sentry-cli", "1.0");
    assert_eq!((info.name.as_str(), info.version.as_str()), ("sentry-cli", "1.0"));
    assert!(info.integrations.is_empty() && info.packages.is_empty());
}

#[test]
fn day_that_exists_in_some_years_only() {
    let line = "[Wed Feb 29 00:00:00.25 2017] text";
    let crumb = checked(line, false);
    assert!(crumb.message == line || crumb.message == "2017] text");
    let crumb = checked("24:00:00 text", false);
    assert_eq!((crumb.message.as_str(), crumb.timestamp), ("24:00:00 text", FALLBACK));
    let crumb = checked("Nov 31 21:56:01 text", false);
    assert_eq!(crumb.message, "Nov 31 21:56:01 text");
    assert_eq!(crumb.timestamp, FALLBACK);
}

#[test]
fn lines_with_a_year() {
    for (line, in_utc) in [
        ("Mon Oct  5 11:40:10 2015\ttext", 1444045210i64),
        ("[Sun Feb 25 06:11:12.043123448 2018] text", 1519539072),
        ("Tue Nov 21 00:30:05 2017 text", 1511224205),
        ("Jan 03, 2016 22:29:55 text", 1451860195),
        ("Jan 3 2016 22:29:55.5] text", 1451860195),
    ] {
        let crumb = checked(line, false);
        assert_eq!(crumb.message, "text");
        assert_eq!(crumb.timestamp.nanos, 0);
        assert!((crumb.timestamp.secs - in_utc).abs() < 86400);
    }
}

#[test]
fn line_with_a_zone_is_read_the_same_way_again() {
    let line = "[2022-09-14 11:13:24 -0130] LogShaderCompilers: Display";
    let first = checked(line, true);
    let second = checked(line, true);
    assert_eq!(first.timestamp, second.timestamp);
    assert_eq!((first.message, first.category), (second.message, second.category));
}

#[test]
fn only_the_latest_of_many_lines_count() {
    let lines: Vec<String> = (0..300).map(|i| format!("line {i}")).collect();
    let mut all = vec![checked("(first)", false)];
    attach_logfile(&mut all, &lines, false, FALLBACK);
    let mut portion = Vec::new();
    attach_logfile(&mut portion, &lines, false, FALLBACK);
    let mut items = vec![checked("(first)", false)];
    items.extend(portion);
    keep_latest(&mut items);
    let texts = |crumbs: &[Breadcrumb]| crumbs.iter().map(|c| c.message.clone()).collect::<Vec<_>>();
    assert_eq!(texts(&all), texts(&items));
    assert_eq!(all[0].message, "line 200");
}

#[test]
fn lines_can_be_attached_without_dropping_any() {
    let lines: Vec<String> = (0..150).map(|i| format!("line {i}")).collect();
    let mut crumbs = vec![checked("(first)", false)];
    attach_lines(&mut crumbs, &lines, false, FALLBACK);
    assert_eq!(crumbs.len(), 151);
    assert_eq!(crumbs[0].message, "(first)");
    assert_eq!(crumbs[150].message, "line 149");
    assert_eq!(crumbs[150].timestamp, FALLBACK);
}
