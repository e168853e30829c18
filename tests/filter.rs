use interview::{foo, get_random_ids_vector, idiomatic, idiomatic_with_reservation, in_place};

fn setup_sample_input_vector() -> Vec<u64> {
    vec![6, 6, 1, 2, 3, 6, 4, 5]
}

fn setup_large_input_vector() -> Vec<u64> {
    get_random_ids_vector(1_000_000)
}

fn all_variants(ids: &Vec<u64>, id: u64) -> Vec<Vec<u64>> {
    vec![
        foo(ids, id),
        idiomatic(ids, id),
        idiomatic_with_reservation(ids, id),
        in_place(ids.clone(), id),
    ]
}

#[test]
fn test_generate_random_ids_vector_length() {
    let length = 10;
    let ids = get_random_ids_vector(length);
    assert_eq!(
        ids.len(),
        length as usize,
        "Generated vector should have the correct length"
    );
}

#[test]
fn test_idiomatic() {
    let ids = setup_sample_input_vector();
    let id = 6;
    let result = idiomatic(&ids, id);
    assert_eq!(result, vec![1, 2, 3, 4, 5]);
}

#[test]
fn test_foo() {
    let ids = setup_sample_input_vector();
    let id = 6;
    let result = foo(&ids, id);
    assert_eq!(result, vec![1, 2, 3, 4, 5]);
}

#[test]
fn test_compare_foo_to_idiomatic() {
    let ids = setup_large_input_vector();
    let id = 6;
    let result_foo = foo(&ids, id);
    let result_idiomatic = idiomatic(&ids, id);
    assert_eq!(result_foo, result_idiomatic);
}

#[test]
fn test_compare_foo_to_idiomatic_sample_vector() {
    let ids = setup_sample_input_vector();
    let id = 6;
    let result_foo = foo(&ids, id);
    let result_idiomatic = idiomatic(&ids, id);
    assert_eq!(result_foo, result_idiomatic);
}

#[test]
fn sample_vector_gives_same_result_in_every_variant() {
    let ids = setup_sample_input_vector();
    for result in all_variants(&ids, 6) {
        assert_eq!(result, vec![1, 2, 3, 4, 5]);
    }
}

#[test]
fn reservation_and_in_place_on_sample_vector() {
    let ids = setup_sample_input_vector();
    assert_eq!(idiomatic_with_reservation(&ids, 6), vec![1, 2, 3, 4, 5]);
    assert_eq!(in_place(ids, 6), vec![1, 2, 3, 4, 5]);
}

#[test]
fn empty_input_gives_empty_output() {
    let ids: Vec<u64> = Vec::new();
    for result in all_variants(&ids, 6) {
        assert!(result.is_empty());
    }
}

#[test]
fn absent_target_leaves_input_unchanged() {
    let ids = vec![1, 2, 3, 2, 1];
    for result in all_variants(&ids, 6) {
        assert_eq!(result, ids);
    }
}

#[test]
fn all_elements_equal_to_target_gives_empty_output() {
    let ids = vec![6, 6, 6, 6];
    for result in all_variants(&ids, 6) {
        assert!(result.is_empty());
    }
}

#[test]
fn largest_values_are_filtered_like_others() {
    let ids = vec![u64::MAX, 0, u64::MAX, 1, u64::MAX];
    for result in all_variants(&ids, u64::MAX) {
        assert_eq!(result, vec![0, 1]);
    }
    for result in all_variants(&ids, 0) {
        assert_eq!(result, vec![u64::MAX, u64::MAX, 1, u64::MAX]);
    }
}

#[test]
fn result_holds_no_target_and_only_input_elements() {
    let ids = vec![3, 9, 3, 0, 7, 3, 9];
    for result in all_variants(&ids, 3) {
        assert!(result.iter().all(|e| *e != 3));
        assert!(result.iter().all(|e| ids.contains(e)));
    }
}

#[test]
fn result_keeps_counts_and_order_of_survivors() {
    let ids = vec![2, 5, 2, 8, 5, 5, 1, 2];
    for result in all_variants(&ids, 2) {
        assert_eq!(result, vec![5, 8, 5, 5, 1]);
        assert_eq!(result.iter().filter(|e| **e == 5).count(), 3);
    }
}

#[test]
fn filtering_twice_equals_filtering_once() {
    let ids = vec![4, 6, 4, 6, 6, 0];
    let once = foo(&ids, 6);
    assert_eq!(foo(&once, 6), once);
    assert_eq!(idiomatic(&once, 6), once);
    assert_eq!(idiomatic_with_reservation(&once, 6), once);
    assert_eq!(in_place(once.clone(), 6), once);
}

#[test]
fn variants_agree_on_random_input() {
    let ids = get_random_ids_vector(20_000);
    let expected = foo(&ids, 6);
    assert!(expected.iter().all(|e| *e != 6));
    for result in all_variants(&ids, 6) {
        assert_eq!(result, expected);
    }
}

#[test]
fn generated_ids_lie_between_zero_and_nine() {
    let ids = get_random_ids_vector(5_000);
    assert_eq!(ids.len(), 5_000);
    assert!(ids.iter().all(|e| *e <= 9));
}

#[test]
fn generating_zero_ids_gives_empty_vector() {
    assert!(get_random_ids_vector(0).is_empty());
}
