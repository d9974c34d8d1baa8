use tallytail::isin::{
    is_valid_isin, normalize_isin, parse_transaction_asset_isins, IsinError, IsinListError,
};

#[test]
fn accepts_valid_isin_with_check_digit() {
    assert!(is_valid_isin("US0378331005"));
}

#[test]
fn rejects_invalid_isin_check_digit() {
    assert!(!is_valid_isin("US0378331006"));
}

#[test]
fn parses_transaction_asset_isin_list() {
    let isins = parse_transaction_asset_isins(vec![
        "us0378331005\nUS5949181045".to_string(),
        "US0378331005; US0231351067".to_string(),
    ])
    .unwrap();

    assert_eq!(isins, vec!["US0378331005", "US5949181045", "US0231351067"]);
}

#[test]
fn rejects_empty_transaction_asset_isin_list() {
    let err = parse_transaction_asset_isins(vec![" \n , ; ".to_string()])
        .unwrap_err()
        .message();

    assert!(err.contains("At least one ISIN"));
}

#[test]
fn accepts_isins_with_letters_in_the_middle() {
    // Letters in the body expand into two digits for the Luhn check.
    assert!(is_valid_isin("GB00B03MLX29"));
    assert!(is_valid_isin("DE000BAY0017"));
    assert!(!is_valid_isin("DE000BAY0018"));
}

#[test]
fn rejects_isins_with_wrong_layout() {
    assert!(!is_valid_isin(""));
    assert!(!is_valid_isin("US037833100"));
    assert!(!is_valid_isin("US03783310055"));
    assert!(!is_valid_isin("1S0378331005"));
    assert!(!is_valid_isin("US037833100A"));
    assert!(!is_valid_isin("us0378331005"));
    assert!(!is_valid_isin("US03783-1005"));
}

#[test]
fn normalizes_isin_text() {
    assert_eq!(normalize_isin("  us0378331005 \t").unwrap(), "US0378331005");
    assert_eq!(normalize_isin("US0378331006"), Err(IsinError::Invalid));
    assert_eq!(normalize_isin(" "), Err(IsinError::Invalid));
}

#[test]
fn rejects_isin_list_with_an_invalid_token() {
    let err = parse_transaction_asset_isins(vec![
        "US0378331005,US0378331006".to_string(),
    ])
    .unwrap_err();
    assert_eq!(err, IsinListError::InvalidIsin);
    assert!(err.message().contains("valid 12-character ISIN"));
}

#[test]
fn isin_list_drops_later_duplicates() {
    let isins = parse_transaction_asset_isins(vec![
        "US0231351067;us0231351067".to_string(),
        String::new(),
        ",,US0378331005".to_string(),
    ])
    .unwrap();
    assert_eq!(isins, vec!["US0231351067", "US0378331005"]);
}

#[test]
fn only_one_check_digit_completes_an_isin() {
    let valid: Vec<char> = ('0'..='9').filter(|c| is_valid_isin(&format!("US037833100{c}"))).collect();
    assert_eq!(valid, vec!['5']);
    let valid: Vec<char> = ('0'..='9').filter(|c| is_valid_isin(&format!("DE000716460{c}"))).collect();
    assert_eq!(valid.len(), 1);
}
