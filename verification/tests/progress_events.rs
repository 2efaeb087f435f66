use deploy_core::progress::progress_for;

#[test]
fn half_then_complete() {
    let first = progress_for(1, 2);
    assert_eq!(first.current, 1);
    assert_eq!(first.total, 2);
    assert_eq!(first.percent, 50);
    let last = progress_for(2, 2);
    assert_eq!(last.current, 2);
    assert_eq!(last.percent, 100);
}

#[test]
fn single_file_is_complete_at_once() {
    let only = progress_for(1, 1);
    assert_eq!(only.percent, 100);
}

#[test]
fn rounds_down_to_whole_percent() {
    assert_eq!(progress_for(1, 3).percent, 33);
    assert_eq!(progress_for(2, 3).percent, 66);
    assert_eq!(progress_for(3, 3).percent, 100);
}

#[test]
fn sequence_is_monotone_and_ends_at_hundred() {
    let total: u64 = 7;
    let mut last_percent: u8 = 0;
    for current in 1..=total {
        let p = progress_for(current, total);
        assert!(p.percent >= last_percent);
        if current < total {
            assert!(p.percent < 100);
        } else {
            assert_eq!(p.percent, 100);
        }
        last_percent = p.percent;
    }
}
