use project_utils::estimate::estimate_message_count_from_size;

#[test]
fn estimate_empty_file_is_one() {
    assert_eq!(estimate_message_count_from_size(0), 1);
}

#[test]
fn estimate_small_files_are_one() {
    assert_eq!(estimate_message_count_from_size(1), 1);
    assert_eq!(estimate_message_count_from_size(999), 1);
    assert_eq!(estimate_message_count_from_size(1000), 1);
}

#[test]
fn estimate_rounds_up() {
    assert_eq!(estimate_message_count_from_size(1001), 2);
    assert_eq!(estimate_message_count_from_size(5000), 5);
    assert_eq!(estimate_message_count_from_size(5001), 6);
}

#[test]
fn estimate_largest_size() {
    assert_eq!(
        estimate_message_count_from_size(u64::MAX),
        18_446_744_073_709_552usize
    );
}
