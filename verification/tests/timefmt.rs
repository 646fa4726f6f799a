use ruplicity::time_utils::{to_pretty, to_pretty_utc, Format};
use ruplicity::timefmt::{parse_time_str, TimeDisplay, Timespec};

fn tm(y: i32, mon: i32, d: i32, h: i32, min: i32, s: i32) -> time::Tm {
    time::Tm {
        tm_sec: s,
        tm_min: min,
        tm_hour: h,
        tm_mday: d,
        tm_mon: mon - 1,
        tm_year: y - 1900,
        tm_wday: 0,
        tm_yday: d,
        tm_isdst: 0,
        tm_utcoff: 0,
        tm_nsec: 0,
    }
}

fn this_year() -> i32 {
    time::now_utc().tm_year
}

fn move_to_this_year(mut t: time::Tm) -> time::Tm {
    t.tm_year = this_year();
    t
}

fn to_ts(t: time::Tm) -> Timespec {
    let ts = t.to_timespec();
    Timespec { sec: ts.sec, nsec: ts.nsec }
}

#[test]
fn timefmt_parse() {
    let t = parse_time_str("19881211t152000z").unwrap();
    let tm = time::at_utc(time::Timespec::new(t.sec, t.nsec));
    assert_eq!(tm.tm_year, 88);
    assert_eq!(tm.tm_mon, 11); // month in [0 - 11]
    assert_eq!(tm.tm_mday, 11);
    assert_eq!(tm.tm_hour, 15);
    assert_eq!(tm.tm_min, 20);
    assert_eq!(tm.tm_sec, 0);
}

#[test]
fn timefmt_display_utc() {
    let t = move_to_this_year(tm(1988, 12, 11, 15, 20, 0));
    assert_eq!(to_ts(t).into_utc_display().to_display_string(), "Dec 11 15:20");
}

#[test]
fn timefmt_display_past_year() {
    let t = tm(1988, 12, 11, 15, 20, 0);
    assert_eq!(to_ts(t).into_utc_display().to_display_string(), "Dec 11  1988");
}

#[test]
fn timefmt_parse_display_past_year() {
    let t = parse_time_str("19881211t152000z").unwrap();
    assert_eq!(t.into_utc_display().to_display_string(), "Dec 11  1988");
}

#[test]
fn time_utils_parse() {
    let t = ruplicity::time_utils::parse_time_str("19881211t152000z").unwrap();
    let tm = time::at_utc(time::Timespec::new(t.sec, t.nsec));
    assert_eq!(tm.tm_year, 88);
    assert_eq!(tm.tm_mon, 11); // month in [0 - 11]
    assert_eq!(tm.tm_mday, 11);
    assert_eq!(tm.tm_hour, 15);
    assert_eq!(tm.tm_min, 20);
    assert_eq!(tm.tm_sec, 0);
}

#[test]
fn time_utils_display_utc() {
    let t = move_to_this_year(tm(1988, 12, 11, 15, 20, 0));
    assert_eq!(to_pretty_utc(to_ts(t)).to_display_string(), "Dec 11 15:20");
}

#[test]
fn time_utils_display_past_year() {
    let t = tm(1988, 12, 11, 15, 20, 0);
    assert_eq!(to_pretty_utc(to_ts(t)).to_display_string(), "Dec 11  1988");
}

#[test]
fn time_utils_parse_display_past_year() {
    let t = ruplicity::time_utils::parse_time_str("19881211t152000z").unwrap();
    assert_eq!(to_pretty_utc(t).to_display_string(), "Dec 11  1988");
}

#[test]
fn pretty_text_in_given_year() {
    let t = to_ts(tm(1988, 12, 11, 15, 20, 0));
    let d = t.into_utc_display();
    assert_eq!(d.text_in_year(88), "Dec 11 15:20");
    assert_eq!(d.text_in_year(89), "Dec 11  1988");
}

#[test]
fn pretty_with_format() {
    let t = to_ts(tm(1988, 12, 11, 15, 20, 0));
    assert_eq!(to_pretty(t, Format::Utc).to_display_string(), "Dec 11  1988");
    // the local time zone decides the text; only its shape is fixed
    let local = to_pretty(t, Format::Local).to_display_string();
    assert!(local.starts_with("Dec 1"));
}

#[test]
fn parse_rejects_bad_timestamps() {
    assert_eq!(parse_time_str("invalid"), None);
    assert_eq!(parse_time_str("19881311t152000z"), None);
}

#[test]
fn parse_gives_exact_seconds() {
    assert_eq!(parse_time_str("19700101t000000z"), Some(Timespec { sec: 0, nsec: 0 }));
    assert_eq!(parse_time_str("20150617t182545z"), Some(Timespec { sec: 1434565545, nsec: 0 }));
}

#[test]
fn pretty_text_pads_and_signs() {
    let t = Timespec { sec: 378420, nsec: 0 };
    let d = t.into_utc_display();
    assert_eq!(d.text_in_year(70), "Jan 05 09:07");
    assert_eq!(d.text_in_year(71), "Jan 05  1970");
    let before_year_zero = Timespec { sec: -62198755200, nsec: 0 };
    assert_eq!(before_year_zero.into_utc_display().text_in_year(70), "Jan 01  -1");
}
