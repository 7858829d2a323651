use day_series::clock::Days;
use day_series::error::Error;
use day_series::histogram::Histogram;
use day_series::ingest::{ingest, Event};
use day_series::period::Period;
use day_series::series::{build, decimal, Point, Window};

const EPOCH: i64 = 1_420_070_400;

fn on_day(day: i64) -> Event {
    Event { timestamp: EPOCH + day * 86_400, countable: true }
}

fn window(start: u64, end: u64) -> Window {
    Window { start: Days(start), end: Days(end) }
}

fn values(points: &[Point]) -> Vec<u64> {
    points.iter().map(|p| p.value).collect()
}

fn filled(horizon: usize, days: &[u64]) -> Histogram {
    let mut h = Histogram::new(horizon);
    for &d in days {
        h.increment(Days(d));
    }
    h
}

#[test]
fn two_streams_cumulative_over_forty_days() {
    let mut h = Histogram::new(40);
    ingest(&mut h, Days(0), &[on_day(5), on_day(5), on_day(10)]).unwrap();
    ingest(&mut h, Days(0), &[on_day(10), on_day(20), on_day(39)]).unwrap();
    assert_eq!(h.floor(Days(0)), 0);
    assert_eq!(h.floor(Days(5)), 0);
    let series = build(&h, window(0, 40), Period::AllTime, true).unwrap();
    assert_eq!(series.len(), 40);
    assert_eq!(series[39].value, 6);
    assert_eq!(series[9].value, 2);
    assert_eq!(series[4].value, 0);
    assert_eq!(series[5].value, 2);
    assert_eq!(series[10].value, 4);
    assert_eq!(series[19].value, 4);
    assert_eq!(series[20].value, 5);
    assert_eq!(series[38].value, 5);
}

#[test]
fn plain_series_shows_each_day_by_itself() {
    let h = filled(10, &[0, 0, 1, 4, 4, 4, 9]);
    let series = build(&h, window(0, 10), Period::LastWeek, false).unwrap();
    assert_eq!(values(&series), vec![2, 1, 0, 0, 3, 0, 0, 0, 0, 1]);
    let series = build(&h, window(3, 6), Period::LastWeek, false).unwrap();
    assert_eq!(values(&series), vec![0, 3, 0]);
}

#[test]
fn cumulative_series_starts_from_the_floor() {
    let h = filled(10, &[0, 0, 1, 4, 4, 4, 9]);
    assert_eq!(h.floor(Days(3)), 3);
    let series = build(&h, window(3, 10), Period::LastWeek, true).unwrap();
    assert_eq!(values(&series), vec![3, 6, 6, 6, 6, 6, 7]);
    let series = build(&h, window(0, 10), Period::LastWeek, true).unwrap();
    assert_eq!(values(&series), vec![2, 3, 3, 3, 6, 6, 6, 6, 6, 7]);
}

#[test]
fn cumulative_series_never_decreases() {
    let h = filled(40, &[39, 0, 17, 17, 3, 20, 20, 20, 1, 38]);
    for start in [0u64, 1, 4, 18, 39] {
        let series = build(&h, window(start, 40), Period::LastYear, true).unwrap();
        let v = values(&series);
        for pair in v.windows(2) {
            assert!(pair[0] <= pair[1]);
        }
        assert_eq!(*v.last().unwrap(), 10);
    }
}

#[test]
fn window_end_is_left_out() {
    let h = filled(40, &[5, 20, 39]);
    let series = build(&h, window(5, 39), Period::AllTime, true).unwrap();
    assert_eq!(series.len(), 34);
    assert_eq!(series[0].value, 1);
    assert_eq!(series[33].value, 2);
}

#[test]
fn empty_window_gives_an_empty_series() {
    let h = filled(40, &[5]);
    assert_eq!(build(&h, window(7, 7), Period::AllTime, true), Ok(vec![]));
    assert_eq!(build(&h, window(9, 3), Period::AllTime, false), Ok(vec![]));
    assert_eq!(build(&h, window(0, 0), Period::LastWeek, true), Ok(vec![]));
    // An empty window is no error even where it lies beyond the horizon.
    assert_eq!(build(&h, window(50, 50), Period::LastWeek, true), Ok(vec![]));
    assert_eq!(build(&h, window(60, 50), Period::LastWeek, false), Ok(vec![]));
    let none = Histogram::new(0);
    assert_eq!(build(&none, window(0, 0), Period::AllTime, true), Ok(vec![]));
}

#[test]
fn window_beyond_the_horizon_is_refused() {
    let h = filled(40, &[5]);
    assert_eq!(build(&h, window(0, 41), Period::AllTime, true), Err(Error::HistogramBounds));
    assert_eq!(build(&h, window(39, 41), Period::AllTime, false), Err(Error::HistogramBounds));
    assert_eq!(build(&h, window(40, 41), Period::LastWeek, false), Err(Error::HistogramBounds));
    assert!(build(&h, window(0, 40), Period::AllTime, true).is_ok());
}

#[test]
fn points_carry_the_labels_of_their_days() {
    let h = filled(40, &[0, 31]);
    let series = build(&h, window(0, 40), Period::AllTime, true).unwrap();
    for (i, p) in series.iter().enumerate() {
        assert_eq!(p.label, Period::AllTime.label(Days(i as u64)));
    }
    assert_eq!(series[0].label, Some("01/01/15".to_string()));
    assert_eq!(series[14].label, None);
    assert_eq!(series[31].label, Some("02/01/15".to_string()));

    let series = build(&h, window(28, 35), Period::LastWeek, false).unwrap();
    let labels: Vec<String> = series.iter().map(|p| p.label.clone().unwrap()).collect();
    assert_eq!(
        labels,
        vec!["Thursday", "Friday", "Saturday", "Sunday", "Monday", "Tuesday", "Wednesday"]
    );

    let series = build(&h, window(0, 31), Period::LastMonth, false).unwrap();
    let ticks: Vec<usize> = (0..31).filter(|&i| series[i].label.is_some()).collect();
    assert_eq!(ticks, vec![6, 13, 20, 27]);
    assert_eq!(series[20].label, Some("January 21".to_string()));
}

#[test]
fn window_starts_at_the_later_of_its_two_bounds() {
    assert_eq!(Window::new(Days(100), Days(35), Days(400)), window(100, 400));
    assert_eq!(Window::new(Days(20), Days(35), Days(400)), window(35, 400));
    assert_eq!(Window::new(Days(35), Days(35), Days(35)), window(35, 35));
    assert_eq!(Window::new(Days(0), Days(0), Days(0)), window(0, 0));
}

#[test]
fn window_length() {
    assert_eq!(window(5, 39).len(), 34);
    assert_eq!(window(5, 5).len(), 0);
    assert_eq!(window(9, 3).len(), 0);
    assert_eq!(window(0, u64::MAX).len(), u64::MAX);
    assert!(window(5, 5).is_empty());
    assert!(window(9, 3).is_empty());
    assert!(!window(5, 6).is_empty());
}

#[test]
fn decimal_digits() {
    assert_eq!(decimal(0), "0");
    assert_eq!(decimal(7), "7");
    assert_eq!(decimal(10), "10");
    assert_eq!(decimal(109), "109");
    assert_eq!(decimal(1_234_567_890), "1234567890");
    assert_eq!(decimal(u64::MAX), "18446744073709551615");
    for n in [0u64, 9, 10, 99, 100, 101, 65_535, 4_294_967_296] {
        assert_eq!(decimal(n), n.to_string());
    }
}

#[test]
fn lines_for_the_renderer() {
    let labelled = Point { label: Some("January 01".to_string()), value: 42 };
    assert_eq!(labelled.line(), "January 01,42");
    let bare = Point { label: None, value: 0 };
    assert_eq!(bare.line(), ",0");
    let h = filled(10, &[0, 0, 1]);
    let series = build(&h, window(0, 3), Period::LastWeek, true).unwrap();
    let lines: Vec<String> = series.iter().map(|p| p.line()).collect();
    assert_eq!(lines, vec!["Thursday,2", "Friday,3", "Saturday,3"]);
}
