use phomogen::decimal::parse_percentage_thousandths;

fn read(text: &str) -> Option<u32> {
    let chars: Vec<char> = text.chars().collect();
    parse_percentage_thousandths(&chars)
}

#[test]
fn plain_decimals_read_as_thousandths() {
    assert_eq!(read("66.666"), Some(66_666));
    assert_eq!(read("12.5"), Some(12_500));
    assert_eq!(read("+100"), Some(100_000));
    assert_eq!(read(".5"), Some(500));
    assert_eq!(read("7."), Some(7_000));
    assert_eq!(read("0"), Some(0));
}

#[test]
fn exponents_and_trailing_zeros_read_exactly() {
    assert_eq!(read("1e2"), Some(100_000));
    assert_eq!(read("5E-1"), Some(500));
    assert_eq!(read("+.5e+1"), Some(5_000));
    assert_eq!(read("2.50000"), Some(2_500));
    assert_eq!(read("66.6660"), Some(66_666));
    assert_eq!(read("1000e-1"), Some(100_000));
    assert_eq!(read("100000000000000000000000000e-24"), Some(100_000));
    assert_eq!(read("0.000000000000000000000000000001e30"), Some(1_000));
    assert_eq!(read("0e99999999999999999999999999"), Some(0));
    assert_eq!(read("-0"), Some(0));
    assert_eq!(read("-0.000e7"), Some(0));
}

#[test]
fn numbers_that_are_no_percentage_in_thousandths_do_not_read() {
    assert_eq!(read("100.001"), None);
    assert_eq!(read("1e3"), None);
    assert_eq!(read("12.3456"), None);
    assert_eq!(read("1e-4"), None);
    assert_eq!(read("-5"), None);
    assert_eq!(read("1e99999999999999999999999999"), None);
    assert_eq!(read("1e-99999999999999999999999999"), None);
}

#[test]
fn malformed_numbers_do_not_read() {
    for text in ["", ".", "+", "-", "e5", "1e", "1e+", "1.2.3", "1,5", "inf", "NaN", "+-1", " 1", "0x10", "1e2.5"] {
        assert_eq!(read(text), None, "{text}");
    }
}
