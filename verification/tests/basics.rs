use tallytail::civil::{is_date_after, is_moment_before, CivilDate, TimeOfDay};
use tallytail::decimal::{decimal_is_positive, decimal_zero, DecimalValue};
use tallytail::records::latest_record_files;
use tallytail::text::{char_is_whitespace, compare_text, i64_text, sort_directory_listing, to_ascii_uppercase, trim_str, u64_text, Precedence};
use tallytail::transactions::{
    new_remaining_quantity, parse_transaction_decimal, parse_transaction_time, DecimalField, TimeField,
    TransactionError,
};

#[test]
fn parses_and_compares_decimals() {
    let a = parse_transaction_decimal(DecimalField::Quantity, "2.50").unwrap();
    assert_eq!(a, DecimalValue { mantissa: 250, scale: 2 });
    assert_eq!(parse_transaction_decimal(DecimalField::SharePrice, " -0.1 ").unwrap(), DecimalValue { mantissa: -1, scale: 1 });
    assert_eq!(
        parse_transaction_decimal(DecimalField::OrderValue, "abc"),
        Err(TransactionError::InvalidDecimal(DecimalField::OrderValue))
    );
    assert!(decimal_is_positive(a));
    assert!(!decimal_is_positive(decimal_zero()));
    assert!(!decimal_is_positive(DecimalValue { mantissa: -1, scale: 1 }));
}

#[test]
fn subtracts_sold_quantities() {
    let sold = DecimalValue { mantissa: 25, scale: 1 };
    assert_eq!(new_remaining_quantity("10", sold).unwrap(), DecimalValue { mantissa: 75, scale: 1 });
    assert_eq!(new_remaining_quantity("ten", sold), Err(TransactionError::InvalidRemainingQuantity));
}

#[test]
fn parses_dates_and_times() {
    assert_eq!(
        parse_transaction_time(TimeField::Time, " 12:34:56 ").unwrap(),
        TimeOfDay { hour: 12, minute: 34, second: 56, subsec_nanosecond: 0 }
    );
    assert_eq!(parse_transaction_time(TimeField::BuyTime, "12:34"), Err(TransactionError::InvalidTime(TimeField::BuyTime)));
    let names: Vec<String> = ["2026-02-30.ron", "2026-07-06.ron"].iter().map(|s| s.to_string()).collect();
    assert_eq!(latest_record_files(&names, 5), vec!["2026-07-06.ron".to_string()]);
    let d = CivilDate { year: 2026, month: 7, day: 6 };
    let later = CivilDate { year: 2026, month: 7, day: 7 };
    assert!(is_date_after(later, d));
    assert!(!is_date_after(d, d));
    let noon = TimeOfDay { hour: 12, minute: 0, second: 0, subsec_nanosecond: 0 };
    let one = TimeOfDay { hour: 13, minute: 0, second: 0, subsec_nanosecond: 0 };
    assert!(is_moment_before(d, one, later, noon));
    assert!(is_moment_before(d, noon, d, one));
    assert!(!is_moment_before(d, one, d, noon));
}

#[test]
fn orders_and_prints_texts() {
    assert_eq!(compare_text("Apple", "Apples"), Precedence::Before);
    assert_eq!(compare_text("b", "a"), Precedence::After);
    assert_eq!(compare_text("", ""), Precedence::Same);
    assert_eq!(compare_text("Z", "a"), Precedence::Before);
    assert_eq!(i64_text(-42), "-42");
    assert_eq!(i64_text(i64::MIN), "-9223372036854775808");
    assert_eq!(u64_text(0), "0");
    assert_eq!(u64_text(1234567), "1234567");
    assert_eq!(trim_str("\t a b \n"), "a b");
    assert_eq!(to_ascii_uppercase("us03ä"), "US03ä");
}

#[test]
fn trims_unicode_whitespace() {
    assert_eq!(trim_str("\u{3000}\u{a0}Fonds\u{2009}A\u{85}\u{202f}"), "Fonds\u{2009}A");
    assert_eq!(trim_str("\u{200b}x"), "\u{200b}x");
}

#[test]
fn sorts_directory_listings_by_path() {
    let names: Vec<String> = ["b.ron", "2026", "a-b", "a", "Z", "ä"].iter().map(|s| s.to_string()).collect();
    let sorted = sort_directory_listing(names.clone());
    let mut expected = names;
    expected.sort();
    assert_eq!(sorted, expected);
    assert_eq!(sorted, vec!["2026", "Z", "a", "a-b", "b.ron", "ä"]);
}

#[test]
fn whitespace_is_what_std_calls_whitespace() {
    for code in 0u32..=0x10ffff {
        if let Some(c) = char::from_u32(code) {
            assert_eq!(char_is_whitespace(c), c.is_whitespace(), "U+{code:04X}");
        }
    }
}
