use fmap::size_format::bytes_to_best_size;

#[test]
fn zero_bytes() {
    assert_eq!(bytes_to_best_size(0), "0.00 B");
}

#[test]
fn nine_hundred_bytes() {
    assert_eq!(bytes_to_best_size(900), "900.00 B");
}

#[test]
fn one_kilobyte() {
    assert_eq!(bytes_to_best_size(1024), "1.00 KB");
}

#[test]
fn one_and_a_half_kilobytes() {
    assert_eq!(bytes_to_best_size(1536), "1.50 KB");
}

#[test]
fn one_megabyte() {
    assert_eq!(bytes_to_best_size(1048576), "1.00 MB");
}

#[test]
fn just_below_one_kilobyte() {
    assert_eq!(bytes_to_best_size(1023), "1023.00 B");
}

#[test]
fn just_below_one_megabyte_rounds_within_kilobytes() {
    assert_eq!(bytes_to_best_size(1048575), "1024.00 KB");
}

#[test]
fn one_gigabyte() {
    assert_eq!(bytes_to_best_size(1073741824), "1.00 GB");
}

#[test]
fn one_terabyte() {
    assert_eq!(bytes_to_best_size(1099511627776), "1.00 TB");
}

#[test]
fn quarter_values_round_to_two_digits() {
    assert_eq!(bytes_to_best_size(1280), "1.25 KB");
    assert_eq!(bytes_to_best_size(1792), "1.75 KB");
}

#[test]
fn largest_count_stays_in_terabytes() {
    assert_eq!(bytes_to_best_size(u64::MAX), "16777216.00 TB");
}
