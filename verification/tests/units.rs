use multisignal::units::size;

#[test]
fn formats_like_finder() {
    assert_eq!(size(0), "Empty");
    assert_eq!(size(512), "512 bytes");
    assert_eq!(size(20_000), "20 KB");
    assert_eq!(size(1_500_000), "1.5 MB");
    assert_eq!(size(110_000_000), "110 MB");
    assert_eq!(size(2_340_000_000), "2.3 GB");
}

#[test]
fn round_numbers_have_no_trailing_zero() {
    assert_eq!(size(1_000_000), "1 MB");
    assert_eq!(size(9_960_000), "10 MB");
}

#[test]
fn never_shows_a_thousand_of_a_unit() {
    assert_eq!(size(999_999), "1 MB");
    assert_eq!(size(999_400), "999 KB");
}

#[test]
fn bytes_and_the_largest_unit() {
    assert_eq!(size(1), "1 bytes");
    assert_eq!(size(999), "999 bytes");
    assert_eq!(size(1_000), "1 KB");
    assert_eq!(size(5_000_000_000_000), "5000 GB");
    assert_eq!(size(u64::MAX), "18446744074 GB");
}

#[test]
fn one_decimal_below_ten() {
    assert_eq!(size(9_940_000), "9.9 MB");
    assert_eq!(size(1_250_000), "1.2 MB");
    assert_eq!(size(12_500), "12 KB");
    assert_eq!(size(9_950_000), "10 MB");
    assert_eq!(size(9_949_999), "9.9 MB");
    assert_eq!(size(13_500), "14 KB");
}

#[test]
fn halves_round_as_the_double_reads() {
    // 1.05 and 1.15 are not exact doubles: they read 1.0500000000000000444
    // and 1.149999999999999911, so both show as 1.1.
    assert_eq!(size(1_050_000), "1.1 MB");
    assert_eq!(size(1_150_000), "1.1 MB");
    // 1.25 is exact, and rounds to the even tenth.
    assert_eq!(size(1_250_000), "1.2 MB");
    assert_eq!(size(999_500), "1 MB");
    assert_eq!(size(999_499), "999 KB");
}

#[test]
fn huge_sizes_round_through_doubles() {
    assert_eq!(size(9_007_199_254_740_993), "9007199 GB");
    assert_eq!(size(10_000_000_000_500_000_001), "10000000000 GB");
    assert_eq!(size(1_000_000_000_000_000_000), "1000000000 GB");
}
