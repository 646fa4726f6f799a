use time::{at_utc, strftime, strptime, Tm};

#[test]
fn time_crate() {
    // parse
    let tm = strptime("20150617t182545z", "%Y%m%dt%H%M%S%Z").unwrap();
    // format
    assert_eq!(strftime("%a %d/%m/%Y %H:%M:%S", &tm).unwrap(),
               "Sun 17/06/2015 18:25:45");
    assert_eq!(format!("{}", tm.rfc3339()), "2015-06-17T18:25:45Z");
    // store in Timespec and restore in Tm
    let ts = tm.to_timespec();
    let tm1 = at_utc(ts);
    // the week day and the year day are not restored identically,
    // so compare the formatted times
    let format_fn = |tm: &Tm| format!("{}", tm.rfc3339());
    assert_eq!(format_fn(&tm), format_fn(&tm1));
}

#[test]
fn time_test() {
    // parse
    let tm = strptime("20150617t182545Z", "%Y%m%dt%H%M%S%Z").unwrap();
    // format
    assert_eq!(strftime("%a %d/%m/%Y %H:%M:%S", &tm).unwrap(), "Sun 17/06/2015 18:25:45");
    assert_eq!(format!("{}", tm.rfc3339()), "2015-06-17T18:25:45Z");
    // store in Timespec and restore in Tm
    let ts = tm.to_timespec();
    let tm1 = at_utc(ts);
    let format_fn = |tm: &Tm| format!("{}", tm.rfc3339());
    assert_eq!(format_fn(&tm), format_fn(&tm1));
}
