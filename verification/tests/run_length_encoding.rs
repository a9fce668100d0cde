use rlox::run_length_encoding::RunLengthEncoded;

fn collect(values: &RunLengthEncoded<i32>) -> Vec<&i32> {
    let mut items = Vec::new();
    let mut iterator = values.iter();
    while let Some(item) = iterator.next() {
        items.push(item);
    }
    items
}

#[test]
fn test_empty() {
    let values: RunLengthEncoded<i32> = RunLengthEncoded::new();
    assert_eq!(values.run_count(), 0);
}

#[test]
fn test_store_run() {
    let mut values = RunLengthEncoded::new();
    values.push(7);
    values.push(7);

    assert_eq!(values.run_count(), 1);
    assert_eq!(values.run(0).value, 7);
    assert_eq!(values.run(0).run_length, 2);
}

#[test]
fn test_store_complex() {
    let mut values = RunLengthEncoded::new();
    values.push(1);
    values.push(1);
    values.push(2);
    values.push(7);
    values.push(7);

    assert_eq!(values.run_count(), 3);
    assert_eq!(values.run(0).run_length, 2);
    assert_eq!(values.run(1).run_length, 1);
    assert_eq!(values.run(2).run_length, 2);
    assert_eq!(values.run(0).value, 1);
    assert_eq!(values.run(1).value, 2);
    assert_eq!(values.run(2).value, 7);
}

#[test]
fn test_iterate_empty() {
    let values = RunLengthEncoded::new();
    let iter_values: Vec<&i32> = collect(&values);

    assert_eq!(iter_values.len(), 0);
}

#[test]
fn test_iterate_single_item() {
    let mut values = RunLengthEncoded::new();
    values.push(7);
    let iter_values: Vec<&i32> = collect(&values);

    assert_eq!(iter_values.len(), 1);
    assert_eq!(iter_values[0], &7);
}

#[test]
fn test_iterate_run() {
    let mut values = RunLengthEncoded::new();
    values.push(7);
    values.push(7);
    let iter_values: Vec<&i32> = collect(&values);

    assert_eq!(iter_values.len(), 2);
    assert_eq!(iter_values[0], &7);
    assert_eq!(iter_values[1], &7);
}

#[test]
fn test_iterate_complex() {
    let mut values = RunLengthEncoded::new();
    values.push(1);
    values.push(1);
    values.push(2);
    values.push(7);
    values.push(7);
    let iter_values: Vec<&i32> = collect(&values);

    assert_eq!(iter_values.len(), 5);
    assert_eq!(iter_values[0], &1);
    assert_eq!(iter_values[1], &1);
    assert_eq!(iter_values[2], &2);
    assert_eq!(iter_values[3], &7);
    assert_eq!(iter_values[4], &7);
}

#[test]
fn test_push_run_extends_and_starts_runs() {
    let mut values = RunLengthEncoded::new();
    values.push_run(4, 3);
    values.push_run(4, 2);
    values.push_run(9, 1);

    assert_eq!(values.run_count(), 2);
    assert_eq!(values.run(0).run_length, 5);
    assert_eq!(values.len(), 6);
    assert_eq!(values.nth(4), 4);
    assert_eq!(values.nth(5), 9);
    assert_eq!(*values.get(0), 4);
}

#[test]
fn test_iterator_restarts() {
    let mut values = RunLengthEncoded::new();
    values.push_run(1, 2);
    values.push(2);
    let first = collect(&values);
    let second = collect(&values);
    assert_eq!(first, vec![&1, &1, &2]);
    assert_eq!(first, second);
}

#[test]
fn test_built_containers_are_valid_and_coalesced() {
    let mut values = RunLengthEncoded::new();
    assert!(values.is_valid());
    assert!(values.is_coalesced());
    for value in [3, 3, 3, 1, 1, 3, 2, 2] {
        values.push(value);
        assert!(values.is_valid());
        assert!(values.is_coalesced());
    }
    assert_eq!(values.run_count(), 4);
    assert_eq!(values.len(), 8);
}

#[test]
fn test_items_are_what_the_iterator_yields() {
    let mut values = RunLengthEncoded::new();
    assert!(values.items().is_empty());
    values.push_run(5, 3);
    values.push(6);
    values.push_run(5, 2);
    assert_eq!(values.items(), vec![&5, &5, &5, &6, &5, &5]);
    assert_eq!(values.items(), collect(&values));
    assert_eq!(values.items().len(), values.len());
}
