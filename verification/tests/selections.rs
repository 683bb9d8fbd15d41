use gsync::selection::{select, Selection};

fn picked(answer: &str, count: usize) -> Vec<usize> {
    match select(answer, count) {
        Selection::Proceed(picked) => picked,
        other => panic!("{:?} picks nothing: {:?}", answer, other),
    }
}

fn is_invalid(answer: &str, count: usize) -> bool {
    matches!(select(answer, count), Selection::Invalid)
}

#[test]
fn yes_takes_every_entry() {
    assert_eq!(picked("y", 3), vec![0, 1, 2]);
    assert_eq!(picked("Y\n", 2), vec![0, 1]);
    assert_eq!(picked("  y  ", 1), vec![0]);
    assert_eq!(picked("y", 0), Vec::<usize>::new());
}

#[test]
fn no_takes_none() {
    assert!(matches!(select("n", 3), Selection::Cancelled));
    assert!(matches!(select("N\n", 3), Selection::Cancelled));
}

#[test]
fn numbers_pick_entries_counted_from_one() {
    assert_eq!(picked("1", 3), vec![0]);
    assert_eq!(picked("3 1\n", 3), vec![2, 0]);
    assert_eq!(picked("2 2", 3), vec![1, 1]);
    assert_eq!(picked("+2 002", 3), vec![1, 1]);
    assert_eq!(picked("12", 12), vec![11]);
}

#[test]
fn numbers_out_of_range_are_invalid() {
    assert!(is_invalid("0", 3));
    assert!(is_invalid("4", 3));
    assert!(is_invalid("1 4", 3));
    assert!(is_invalid("1", 0));
    assert!(is_invalid("99999999999999999999999999999999999999999", 3));
    assert!(is_invalid("18446744073709551617", usize::MAX));
}

#[test]
fn the_largest_number_is_read() {
    assert_eq!(picked("18446744073709551615", usize::MAX), vec![usize::MAX - 1]);
}

#[test]
fn what_is_no_number_is_invalid() {
    assert!(is_invalid("", 3));
    assert!(is_invalid("   ", 3));
    assert!(is_invalid("yes", 3));
    assert!(is_invalid("1,2", 3));
    assert!(is_invalid("1  2", 3));
    assert!(is_invalid("1\t2", 3));
    assert!(is_invalid("-1", 3));
    assert!(is_invalid("+", 3));
    assert!(is_invalid("1 y", 3));
    assert!(is_invalid("\u{661}", 3));
}
