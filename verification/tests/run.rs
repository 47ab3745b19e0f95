use mapreduce::{
    collect_results, generate_data, map_data, map_partitions, partition_data,
    partition_data_in_two, partition_sizes, reduce_data, validate_arguments, ArgumentFault,
    MapReduceError,
};

#[test]
fn demonstration_pass_over_ten_elements() {
    let data = generate_data(10);
    let parts = partition_data_in_two(&data);
    assert_eq!(parts, vec![vec![0, 1, 2, 3, 4], vec![5, 6, 7, 8, 9]]);
    let sums = map_partitions(&parts);
    assert_eq!(sums, vec![10, 35]);
    assert_eq!(reduce_data(&sums), 45);
}

#[test]
fn general_pass_over_ten_elements_in_three_partitions() {
    assert_eq!(validate_arguments(3, 10), Ok(()));
    let data = generate_data(10);
    let parts = partition_data(3, &data).unwrap();
    assert_eq!(partition_sizes(&parts), vec![4, 3, 3]);
    assert_eq!(parts, vec![vec![0, 1, 2, 3], vec![4, 5, 6], vec![7, 8, 9]]);
    let sums = map_partitions(&parts);
    assert_eq!(sums, vec![6, 15, 24]);
    assert_eq!(reduce_data(&sums), 45);
}

#[test]
fn zero_partitions_are_an_invalid_argument() {
    assert_eq!(
        validate_arguments(0, 10),
        Err(MapReduceError::InvalidArgument(ArgumentFault::NoPartitions))
    );
    assert_eq!(
        validate_arguments(0, 0),
        Err(MapReduceError::InvalidArgument(ArgumentFault::NoPartitions))
    );
}

#[test]
fn fewer_elements_than_partitions_are_an_invalid_argument() {
    assert_eq!(
        validate_arguments(5, 3),
        Err(MapReduceError::InvalidArgument(ArgumentFault::TooFewElements))
    );
    assert_eq!(
        validate_arguments(1, 0),
        Err(MapReduceError::InvalidArgument(ArgumentFault::TooFewElements))
    );
}

#[test]
fn counts_that_allow_a_run_are_accepted() {
    assert_eq!(validate_arguments(1, 1), Ok(()));
    assert_eq!(validate_arguments(5, 5), Ok(()));
    assert_eq!(validate_arguments(2, 10), Ok(()));
    assert_eq!(validate_arguments(usize::MAX, usize::MAX), Ok(()));
}

#[test]
fn an_invalid_run_produces_no_sums() {
    let data = generate_data(3);
    let outcome = partition_data(5, &data).map(|parts| map_partitions(&parts));
    assert_eq!(outcome, Err(MapReduceError::InvalidArgument(ArgumentFault::TooFewElements)));
}

#[test]
fn map_partitions_keeps_partition_order() {
    let parts = vec![vec![9, 9], Vec::new(), vec![1], vec![2, 3, 4]];
    assert_eq!(map_partitions(&parts), vec![18, 0, 1, 9]);
    assert_eq!(map_partitions(&Vec::new()), Vec::<usize>::new());
}

#[test]
fn map_partitions_is_map_data_on_each_partition() {
    let data = generate_data(23);
    let parts = partition_data(5, &data).unwrap();
    let sums = map_partitions(&parts);
    assert_eq!(sums.len(), parts.len());
    for (part, sum) in parts.iter().zip(sums.iter()) {
        assert_eq!(map_data(part), *sum);
    }
}

#[test]
fn reduce_of_partial_sums_is_the_sum_of_the_whole() {
    for len in 1..30usize {
        let data: Vec<usize> = (0..len).map(|i| i * i + 1).collect();
        let whole = map_data(&data);
        for count in 1..=len {
            let parts = partition_data(count, &data).unwrap();
            assert_eq!(reduce_data(&map_partitions(&parts)), whole);
        }
        assert_eq!(reduce_data(&map_partitions(&partition_data_in_two(&data))), whole);
    }
}

#[test]
fn reduce_of_partial_sums_is_the_sum_of_the_whole_when_sums_wrap() {
    let data = vec![usize::MAX, 1, 5, usize::MAX, usize::MAX - 7, 12];
    let whole = map_data(&data);
    assert_eq!(whole, 8);
    for count in 1..=data.len() {
        let parts = partition_data(count, &data).unwrap();
        assert_eq!(reduce_data(&map_partitions(&parts)), whole);
    }
    let halves = partition_data_in_two(&data);
    assert_eq!(map_partitions(&halves), vec![5, 3]);
    assert_eq!(reduce_data(&map_partitions(&halves)), whole);
}

#[test]
fn repeated_runs_give_identical_results() {
    let mut seen: Vec<(Vec<usize>, usize)> = Vec::new();
    for _ in 0..5 {
        let data = generate_data(17);
        let parts = partition_data(4, &data).unwrap();
        let sums = map_partitions(&parts);
        let sum = reduce_data(&sums);
        seen.push((sums, sum));
    }
    assert_eq!(seen[0], (vec![10, 26, 42, 58], 136));
    for run in &seen {
        assert_eq!(*run, seen[0]);
    }
}

#[test]
fn collect_results_keeps_worker_order() {
    assert_eq!(collect_results(&vec![Some(10), Some(35)]), Ok(vec![10, 35]));
    assert_eq!(collect_results(&vec![Some(35), Some(10)]), Ok(vec![35, 10]));
    assert_eq!(collect_results(&vec![Some(6), Some(15), Some(24)]), Ok(vec![6, 15, 24]));
    assert_eq!(collect_results(&Vec::new()), Ok(Vec::new()));
}

#[test]
fn collect_results_fails_when_any_worker_failed() {
    assert_eq!(collect_results(&vec![None]), Err(MapReduceError::WorkerFailure));
    assert_eq!(collect_results(&vec![Some(10), None]), Err(MapReduceError::WorkerFailure));
    assert_eq!(collect_results(&vec![None, Some(35)]), Err(MapReduceError::WorkerFailure));
    assert_eq!(
        collect_results(&vec![Some(6), None, Some(24), None]),
        Err(MapReduceError::WorkerFailure)
    );
}

#[test]
fn collected_worker_sums_match_the_map_step() {
    let data = generate_data(10);
    let parts = partition_data(3, &data).unwrap();
    let outcomes: Vec<Option<usize>> = parts.iter().map(|part| Some(map_data(part))).collect();
    assert_eq!(collect_results(&outcomes), Ok(map_partitions(&parts)));
}
