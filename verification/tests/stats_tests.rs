use bsp_dungeon::stats::summarize_runs;

#[test]
fn stats_of_a_shuffled_batch() {
    let times: Vec<u64> = vec![5, 1, 4, 2, 3];
    let stats = summarize_runs(&times);
    assert_eq!(stats.total, 15);
    assert_eq!(stats.mean, 3);
    assert_eq!(stats.median, 3);
    assert_eq!(stats.min, 1);
    assert_eq!(stats.max, 5);
}

#[test]
fn stats_of_an_even_batch() {
    let times: Vec<u64> = vec![4, 1];
    let stats = summarize_runs(&times);
    assert_eq!(stats.total, 5);
    assert_eq!(stats.mean, 2);
    // the median of an even batch is the upper middle entry
    assert_eq!(stats.median, 4);
    assert_eq!(stats.min, 1);
    assert_eq!(stats.max, 4);
}

#[test]
fn stats_of_a_single_run() {
    let times: Vec<u64> = vec![7];
    let stats = summarize_runs(&times);
    assert_eq!(stats.total, 7);
    assert_eq!(stats.mean, 7);
    assert_eq!(stats.median, 7);
    assert_eq!(stats.min, 7);
    assert_eq!(stats.max, 7);
}

#[test]
fn stats_of_equal_runs() {
    let times: Vec<u64> = vec![2, 2, 2];
    let stats = summarize_runs(&times);
    assert_eq!(stats.total, 6);
    assert_eq!(stats.mean, 2);
    assert_eq!(stats.median, 2);
    assert_eq!(stats.min, 2);
    assert_eq!(stats.max, 2);
}

#[test]
fn stats_of_large_times() {
    let times: Vec<u64> = vec![u64::MAX, u64::MAX];
    let stats = summarize_runs(&times);
    assert_eq!(stats.total, 2 * (u64::MAX as u128));
    assert_eq!(stats.mean, u64::MAX as u128);
    assert_eq!(stats.median, u64::MAX);
}
