use github_parser::batch::chunk_values;
use github_parser::batch::MAX_INSERTS_PER_QUERY;

#[test]
fn five_values_at_limit_two_give_three_batches() {
    let values: Vec<String> =
        ["a", "b", "c", "d", "e"].iter().map(|s| String::from(*s)).collect();
    let batches = chunk_values(values, 2);
    assert_eq!(batches.len(), 3);
    assert_eq!(batches[0].len(), 2);
    assert_eq!(batches[1].len(), 2);
    assert_eq!(batches[2].len(), 1);
}

#[test]
fn concatenating_batches_reproduces_the_input() {
    let values: Vec<u64> = (0..23).collect();
    let batches = chunk_values(values, 7);
    let flat: Vec<u64> = batches.into_iter().flatten().collect();
    let expected: Vec<u64> = (0..23).collect();
    assert_eq!(flat, expected);
}

#[test]
fn empty_input_gives_no_batches() {
    let values: Vec<u64> = vec![];
    let batches = chunk_values(values, 4);
    assert_eq!(batches.len(), 0);
}

#[test]
fn exact_multiple_gives_only_full_batches() {
    let values: Vec<u64> = (0..8).collect();
    let batches = chunk_values(values, 4);
    assert_eq!(batches.len(), 2);
    assert_eq!(batches[0].len(), 4);
    assert_eq!(batches[1].len(), 4);
}

#[test]
fn the_query_cap_is_the_documented_one() {
    assert_eq!(MAX_INSERTS_PER_QUERY, 512);
}

#[test]
fn input_shorter_than_the_limit_is_one_batch() {
    let values: Vec<u64> = vec![1, 2, 3];
    let batches = chunk_values(values, MAX_INSERTS_PER_QUERY);
    assert_eq!(batches.len(), 1);
    assert_eq!(batches[0], vec![1, 2, 3]);
}
