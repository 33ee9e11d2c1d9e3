use gnui::config::border_sides;
use gnui::config::Border;
use gnui::config::Sides;
use gnui::config::Wrap;
use gnui::series::split_entry;
use gnui::series::ChartData;
use gnui::series::Series;
use gnui::series::SERIES_CAPACITY;

#[test]
fn chart_accumulates_three_points_in_order() {
    // One record per iteration, each read back as line 0 of the buffer.
    let mut data: ChartData<f64> = ChartData::new();
    for record in ["1.0", "2.0", "3.0"] {
        for (i, line) in record.lines().enumerate() {
            let (value, name) = split_entry(line);
            let value: f64 = value.parse().unwrap();
            data.record(i, name.into_iter().collect(), value);
        }
    }
    assert_eq!(data.lines().len(), 1);
    let s = &data.get(0).unwrap().series;
    assert_eq!(s.len(), 3);
    assert_eq!(s.value(0), 1.0);
    assert_eq!(s.value(1), 2.0);
    assert_eq!(s.value(2), 3.0);
}

#[test]
fn series_starts_empty() {
    let mut s: Series<u32> = Series::new();
    assert_eq!(s.len(), 0);
    s.push(7);
    assert_eq!(s.len(), 1);
    assert_eq!(s.value(0), 7);
}

#[test]
fn series_drops_the_oldest_past_capacity() {
    let mut s: Series<usize> = Series::new();
    for v in 0..SERIES_CAPACITY + 5 {
        s.push(v);
    }
    assert_eq!(s.len(), SERIES_CAPACITY);
    assert_eq!(s.value(0), 5);
    assert_eq!(s.value(SERIES_CAPACITY - 1), SERIES_CAPACITY + 4);
}

#[test]
fn borders_name_their_sides() {
    let none = Sides { top: false, right: false, bottom: false, left: false };
    assert_eq!(border_sides(&vec![]), none);
    assert_eq!(
        border_sides(&vec![Border::Top, Border::Left]),
        Sides { top: true, right: false, bottom: false, left: true }
    );
    assert_eq!(
        border_sides(&vec![Border::Bottom, Border::All]),
        Sides { top: true, right: true, bottom: true, left: true }
    );
}

#[test]
fn wrap_gives_trim_only_when_enabled() {
    assert_eq!(Wrap { wrap: true, trim: true }.trim_setting(), Some(true));
    assert_eq!(Wrap { wrap: true, trim: false }.trim_setting(), Some(false));
    assert_eq!(Wrap { wrap: false, trim: true }.trim_setting(), None);
}

#[test]
fn chart_data_keeps_a_series_per_line() {
    let mut data: ChartData<f64> = ChartData::new();
    assert!(data.lines().is_empty());
    data.record(1, "b".to_string(), 2.5);
    assert!(data.get(0).is_none());
    let line = data.get(1).unwrap();
    assert_eq!(line.name, "b");
    assert_eq!(line.series.len(), 1);
    assert_eq!(line.series.value(0), 2.5);

    data.record(0, "a".to_string(), 1.0);
    data.record(1, "renamed".to_string(), 3.5);
    let keys: Vec<usize> = data.lines().keys().copied().collect();
    assert_eq!(keys, vec![0, 1]);
    let first = data.get(0).unwrap();
    assert_eq!(first.name, "a");
    assert_eq!(first.series.len(), 1);
    assert_eq!(first.series.value(0), 1.0);
    let second = data.get(1).unwrap();
    assert_eq!(second.name, "renamed");
    assert_eq!(second.series.len(), 2);
    assert_eq!((second.series.value(0), second.series.value(1)), (2.5, 3.5));
}

#[test]
fn chart_series_stay_within_capacity() {
    let mut data: ChartData<usize> = ChartData::new();
    for v in 0..SERIES_CAPACITY + 3 {
        data.record(0, String::new(), v);
    }
    let s = &data.get(0).unwrap().series;
    assert_eq!(s.len(), SERIES_CAPACITY);
    assert_eq!(s.value(0), 3);
}

#[test]
fn entry_splits_at_the_first_tab() {
    let (value, name) = split_entry("1.5\tcpu\tload");
    assert_eq!(value, "1.5");
    assert_eq!(name.into_iter().collect::<String>(), "cpuload");
    let (value, name) = split_entry("42");
    assert_eq!(value, "42");
    assert!(name.is_empty());
    let (value, name) = split_entry("\tx");
    assert_eq!(value, "");
    assert_eq!(name, vec!['x']);
    let (value, name) = split_entry("");
    assert_eq!(value, "");
    assert!(name.is_empty());
}
