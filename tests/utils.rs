use trace_spans::utils::{avg_min_max, AvgMingMax};

#[test]
fn avg_min_max_of_several_values() {
    let r = avg_min_max(&[4, 9, 1, 6]);
    assert_eq!(r, AvgMingMax { avg: 5, min: 1, max: 9, number: 4 });
}

#[test]
fn avg_min_max_rounds_down() {
    let r = avg_min_max(&[1, 2]);
    assert_eq!(r.avg, 1);
    assert_eq!(r.number, 2);
}

#[test]
fn avg_min_max_of_one_value() {
    let r = avg_min_max(&[7]);
    assert_eq!(r, AvgMingMax { avg: 7, min: 7, max: 7, number: 1 });
}

#[test]
fn avg_min_max_at_the_largest_sum() {
    let r = avg_min_max(&[u64::MAX - 1, 1]);
    assert_eq!(r.avg, u64::MAX / 2);
    assert_eq!(r.min, 1);
    assert_eq!(r.max, u64::MAX - 1);
}
