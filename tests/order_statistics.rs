use report_throughput_latency::statistics::{Statistics, StatisticsError, sort_ascending};

#[test]
fn statistics_of_ten_values() {
    let values: Vec<u64> = vec![10, 20, 30, 40, 50, 60, 70, 80, 90, 100];
    let st = Statistics::of(&values).unwrap();
    assert_eq!(st.average, 55);
    assert_eq!(st.median, 60);
    assert_eq!(st._90th_percentile, 100);
    assert_eq!(st._99th_percentile, 100);
    assert_eq!(st.maximum_value, 100);
}

#[test]
fn statistics_sort_before_indexing() {
    let values: Vec<u64> = vec![100, 10, 90, 20, 80, 30, 70, 40, 60, 50];
    let st = Statistics::of(&values).unwrap();
    assert_eq!(st.average, 55);
    assert_eq!(st.median, 60);
    assert_eq!(st._90th_percentile, 100);
    assert_eq!(st.maximum_value, 100);
}

#[test]
fn statistics_of_empty_input_fail() {
    let values: Vec<u64> = Vec::new();
    assert_eq!(Statistics::of(&values), Err(StatisticsError::EmptyInput));
}

#[test]
fn statistics_of_one_value() {
    let st = Statistics::of(&vec![7]).unwrap();
    assert_eq!(
        st,
        Statistics { average: 7, median: 7, _90th_percentile: 7, _99th_percentile: 7, maximum_value: 7 }
    );
}

#[test]
fn statistics_average_rounds_down_and_does_not_overflow() {
    let st = Statistics::of(&vec![u64::MAX, u64::MAX, 1]).unwrap();
    assert_eq!(st.average, ((2 * (u64::MAX as u128) + 1) / 3) as u64);
    assert_eq!(st.median, u64::MAX);
    assert_eq!(st.maximum_value, u64::MAX);
}

#[test]
fn statistics_percentiles_of_two_hundred_values() {
    let values: Vec<u64> = (1..=200).collect();
    let st = Statistics::of(&values).unwrap();
    assert_eq!(st.median, 101);
    assert_eq!(st._90th_percentile, 181);
    assert_eq!(st._99th_percentile, 199);
    assert_eq!(st.maximum_value, 200);
    assert_eq!(st.average, 100);
}

#[test]
fn compute_reads_values_as_given() {
    let mut st = Statistics { average: 0, median: 0, _90th_percentile: 0, _99th_percentile: 0, maximum_value: 0 };
    st.compute(&vec![3, 1, 2]);
    assert_eq!(st.median, 1);
    assert_eq!(st.maximum_value, 2);
    assert_eq!(st.average, 2);
}

#[test]
fn sort_keeps_duplicates() {
    assert_eq!(sort_ascending(&vec![3, 1, 3, 2, 1]), vec![1, 1, 2, 3, 3]);
    assert_eq!(sort_ascending(&Vec::new()), Vec::<u64>::new());
}
