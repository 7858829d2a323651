use day_series::clock::{Days, MAX_DAY};
use day_series::period::{Period, TickFormat};

#[test]
fn default_period_is_all_time() {
    assert_eq!(Period::default(), Period::AllTime);
}

#[test]
fn lower_bound_reaches_back_by_the_period() {
    let now = Days(4_000);
    assert_eq!(Period::AllTime.lower_bound(now), Days(0));
    assert_eq!(Period::LastYear.lower_bound(now), Days(3_635));
    assert_eq!(Period::LastMonth.lower_bound(now), Days(3_970));
    assert_eq!(Period::LastWeek.lower_bound(now), Days(3_993));
}

#[test]
fn lower_bound_stops_at_day_zero() {
    assert_eq!(Period::LastYear.lower_bound(Days(364)), Days(0));
    assert_eq!(Period::LastYear.lower_bound(Days(365)), Days(0));
    assert_eq!(Period::LastYear.lower_bound(Days(366)), Days(1));
    assert_eq!(Period::LastMonth.lower_bound(Days(29)), Days(0));
    assert_eq!(Period::LastMonth.lower_bound(Days(31)), Days(1));
    assert_eq!(Period::LastWeek.lower_bound(Days(0)), Days(0));
    assert_eq!(Period::LastWeek.lower_bound(Days(8)), Days(1));
    assert_eq!(Period::AllTime.lower_bound(Days(u64::MAX)), Days(0));
    assert_eq!(Period::LastWeek.lower_bound(Days(u64::MAX)), Days(u64::MAX - 7));
}

#[test]
fn patterns_of_the_three_shapes() {
    assert_eq!(TickFormat::Date.pattern(), "%m/%d/%y");
    assert_eq!(TickFormat::MonthDay.pattern(), "%B %d");
    assert_eq!(TickFormat::Weekday.pattern(), "%A");
}

#[test]
fn tick_on_the_first_of_the_month() {
    assert_eq!(Period::AllTime.tick_format(1), Some(TickFormat::Date));
    assert_eq!(Period::LastYear.tick_format(1), Some(TickFormat::MonthDay));
    for dom in 2u32..=31 {
        assert_eq!(Period::AllTime.tick_format(dom), None);
        assert_eq!(Period::LastYear.tick_format(dom), None);
    }
}

#[test]
fn tick_every_seventh_day_of_the_month() {
    for dom in 1u32..=31 {
        let expected = if dom == 7 || dom == 14 || dom == 21 || dom == 28 {
            Some(TickFormat::MonthDay)
        } else {
            None
        };
        assert_eq!(Period::LastMonth.tick_format(dom), expected);
    }
}

#[test]
fn tick_every_day_of_the_week() {
    for dom in 1u32..=31 {
        assert_eq!(Period::LastWeek.tick_format(dom), Some(TickFormat::Weekday));
    }
}

#[test]
fn labels_of_the_first_day() {
    // Day 0 is Thursday, 1 January 2015.
    assert_eq!(Period::AllTime.label(Days(0)), Some("01/01/15".to_string()));
    assert_eq!(Period::LastYear.label(Days(0)), Some("January 01".to_string()));
    assert_eq!(Period::LastMonth.label(Days(0)), None);
    assert_eq!(Period::LastWeek.label(Days(0)), Some("Thursday".to_string()));
}

#[test]
fn labels_in_the_middle_of_a_month() {
    // Day 14 is Thursday, 15 January 2015.
    assert_eq!(Period::AllTime.label(Days(14)), None);
    assert_eq!(Period::LastYear.label(Days(14)), None);
    assert_eq!(Period::LastMonth.label(Days(14)), None);
    assert_eq!(Period::LastWeek.label(Days(14)), Some("Thursday".to_string()));
}

#[test]
fn labels_on_a_seventh_day() {
    // Day 6 is Wednesday, 7 January 2015; day 13 is the 14th.
    assert_eq!(Period::LastMonth.label(Days(6)), Some("January 07".to_string()));
    assert_eq!(Period::LastMonth.label(Days(13)), Some("January 14".to_string()));
    assert_eq!(Period::AllTime.label(Days(6)), None);
    assert_eq!(Period::LastWeek.label(Days(6)), Some("Wednesday".to_string()));
}

#[test]
fn labels_follow_the_calendar_across_a_leap_day() {
    // Day 424 is 29 February 2016, day 425 is 1 March 2016.
    assert_eq!(Period::AllTime.label(Days(424)), None);
    assert_eq!(Period::LastWeek.label(Days(424)), Some("Monday".to_string()));
    assert_eq!(Period::AllTime.label(Days(425)), Some("03/01/16".to_string()));
    assert_eq!(Period::LastYear.label(Days(425)), Some("March 01".to_string()));
}

#[test]
fn every_day_of_a_week_is_labelled() {
    let names = ["Thursday", "Friday", "Saturday", "Sunday", "Monday", "Tuesday", "Wednesday"];
    for d in 0u64..70 {
        let label = Period::LastWeek.label(Days(d)).unwrap();
        assert!(!label.is_empty());
        assert_eq!(label, names[(d % 7) as usize]);
    }
}

#[test]
fn all_time_labels_only_the_first_of_a_month() {
    // 2015 is not a leap year: the firsts of its months.
    let firsts = [0u64, 31, 59, 90, 120, 151, 181, 212, 243, 273, 304, 334];
    for d in 0u64..365 {
        let label = Period::AllTime.label(Days(d));
        assert_eq!(label.is_some(), firsts.contains(&d));
        if let Some(text) = label {
            assert_eq!(text.len(), 8);
            assert!(text.ends_with("/01/15"));
        }
    }
}

#[test]
fn tic_is_the_label_or_empty() {
    assert_eq!(Period::AllTime.tic(Days(0)), "01/01/15");
    assert_eq!(Period::AllTime.tic(Days(14)), "");
    assert_eq!(Period::LastYear.tic(Days(31)), "February 01");
    assert_eq!(Period::LastYear.tic(Days(32)), "");
    assert_eq!(Period::LastMonth.tic(Days(27)), "January 28");
    assert_eq!(Period::LastMonth.tic(Days(28)), "");
    assert_eq!(Period::LastWeek.tic(Days(3)), "Sunday");
}

#[test]
fn last_day_of_the_calendar_is_labelled() {
    assert_eq!(Period::AllTime.label(Days(MAX_DAY)), None);
    assert_eq!(Period::LastYear.label(Days(MAX_DAY)), None);
    assert!(Period::LastWeek.label(Days(MAX_DAY)).is_some());
    // 1 December of the last year, thirty days earlier.
    assert_eq!(Period::AllTime.label(Days(MAX_DAY - 30)), Some("12/01/42".to_string()));
    assert_eq!(Period::LastYear.label(Days(MAX_DAY - 30)), Some("December 01".to_string()));
}

#[test]
fn floor_is_withheld_for_all_time() {
    assert_eq!(Period::AllTime.shown_floor(17), None);
    assert_eq!(Period::LastYear.shown_floor(17), Some(17));
    assert_eq!(Period::LastMonth.shown_floor(0), Some(0));
    assert_eq!(Period::LastWeek.shown_floor(u64::MAX), Some(u64::MAX));
}
