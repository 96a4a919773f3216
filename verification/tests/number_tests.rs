use rtools::number::{decimal, parse_u64, parse_usize};

fn chars(s: &str) -> Vec<char> {
    s.chars().collect()
}

fn text(v: Vec<char>) -> String {
    v.into_iter().collect()
}

#[test]
fn decimal_text_of_numbers() {
    assert_eq!(text(decimal(0)), "0");
    assert_eq!(text(decimal(7)), "7");
    assert_eq!(text(decimal(10)), "10");
    assert_eq!(text(decimal(1705314600)), "1705314600");
    assert_eq!(text(decimal(u128::MAX)), u128::MAX.to_string());
}

#[test]
fn numbers_read_as_the_standard_library_reads_them() {
    for s in [
        "0", "1", "+1", "0009", "18446744073709551615", "18446744073709551616", "", "+", "-1",
        "++1", "1 ", " 1", "1_000", "12a", "٣",
    ] {
        assert_eq!(parse_u64(&chars(s)), s.parse::<u64>().ok(), "{:?}", s);
        assert_eq!(parse_usize(&chars(s)), s.parse::<usize>().ok(), "{:?}", s);
    }
}
