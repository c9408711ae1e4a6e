// Bar utilities: cutting a time window out of a series.

use backgambler::data::{bars_in_range, Bar};

fn bar_at(time: i64) -> Bar {
    Bar { sym: "test".into(), time, open: 1, close: 2, high: 3, low: 0, vol: 10 }
}

#[test]
fn bars_in_range_keeps_window_in_order() {
    let bars = vec![bar_at(1), bar_at(5), bar_at(3), bar_at(9), bar_at(7)];
    let cut = bars_in_range(&bars, 3, 7);
    let times: Vec<i64> = cut.iter().map(|b| b.time).collect();
    assert_eq!(times, vec![5, 3, 7]);

    assert_eq!(bars_in_range(&bars, 10, 20).len(), 0);
    assert_eq!(bars_in_range(&bars, 1, 9).len(), 5);
}
