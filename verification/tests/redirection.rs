use nautilus_fuzzer::redirection::{fill_coverage_map, map_fits_guards, step_to_publish};

#[test]
fn guards_are_copied_as_low_bytes() {
    let mut map = vec![9u8; 5];
    let guards = [0i32, 1, 255, 256, -1];
    assert!(fill_coverage_map(&mut map, &guards));
    assert_eq!(map, vec![0, 1, 255, 0, 255]);
    let mut map = vec![0u8; 3];
    assert!(fill_coverage_map(&mut map, &[-256, 513, i32::MIN + 7]));
    assert_eq!(map, vec![0, 1, 7]);
}

#[test]
fn map_of_the_wrong_size_is_left_alone() {
    let mut map = vec![4u8, 5, 6];
    assert!(!fill_coverage_map(&mut map, &[1, 2]));
    assert_eq!(map, vec![4, 5, 6]);
    let mut empty: Vec<u8> = vec![];
    assert!(fill_coverage_map(&mut empty, &[]));
}

#[test]
fn only_a_nonzero_step_is_published() {
    assert_eq!(step_to_publish(5, 0), 5);
    assert_eq!(step_to_publish(5, 9), 9);
    assert_eq!(step_to_publish(0, 0), 0);
}

#[test]
fn map_fits_exactly_one_byte_per_guard() {
    assert!(map_fits_guards(4, 4));
    assert!(!map_fits_guards(4, 5));
    assert!(map_fits_guards(0, 0));
}
