use tallytail::assets::{
    validate_category_name,
    reference_type_to_str, str_to_reference_type, AllocationPositionInput, AllocationRecordInput, AppError,
    AssetInput, AssetReference, AssetReferenceType, CategoryValue,
};
use tallytail::civil::CivilDate;

#[test]
fn reference_types_read_back() {
    for t in [AssetReferenceType::Iban, AssetReferenceType::Isin, AssetReferenceType::Ticker] {
        assert_eq!(str_to_reference_type(reference_type_to_str(t)), Some(t));
    }
    assert_eq!(reference_type_to_str(AssetReferenceType::Ticker), "TICKER");
    assert_eq!(str_to_reference_type("isin"), None);
}

#[test]
fn asset_references_are_trimmed_and_not_empty() {
    let r = AssetReference::new(AssetReferenceType::Isin, "  US0378331005 ".to_string()).unwrap();
    assert_eq!(r.value, "US0378331005");
    assert_eq!(AssetReference::new(AssetReferenceType::Iban, "   ".to_string()).err().unwrap(), "Reference value must not be empty");
}

#[test]
fn category_values_need_a_category_and_a_name() {
    let v = CategoryValue::new(3, " Tech ".to_string()).unwrap();
    assert_eq!((v.id, v.asset_category_id, v.name.as_str()), (0, 3, "Tech"));
    assert_eq!(CategoryValue::new(0, "Tech".to_string()).err().unwrap(), "Category id must be greater than 0");
    assert_eq!(CategoryValue::new(3, " ".to_string()).err().unwrap(), "Category value name must not be empty");
}

#[test]
fn allocation_records_need_positive_positions() {
    let date = CivilDate { year: 2026, month: 7, day: 6 };
    let ok = AllocationRecordInput::new(date, vec![AllocationPositionInput { asset_id: 1, amount: 5 }]).unwrap();
    assert_eq!(ok.positions.len(), 1);
    assert_eq!(AllocationRecordInput::new(date, vec![]).err().unwrap(), "At least one position must be added");
    assert!(AllocationRecordInput::new(date, vec![AllocationPositionInput { asset_id: 1, amount: 0 }]).is_err());
}

#[test]
fn app_errors_have_a_prefix() {
    assert_eq!(AppError::Validation("bad".to_string()).message(), "Validation error: bad");
    assert_eq!(AppError::Storage("down".to_string()).message(), "Storage error: down");
    let input = AssetInput::default();
    assert!(input.name.is_empty() && input.reference_value.is_empty());
    assert_eq!(input.reference_type, AssetReferenceType::Isin);
}

#[test]
fn reference_type_names_read_back() {
    for t in [AssetReferenceType::Iban, AssetReferenceType::Isin, AssetReferenceType::Ticker] {
        assert_eq!(AssetReferenceType::from_name(t.name()), Some(t));
    }
    assert_eq!(AssetReferenceType::Isin.name(), "Isin");
    assert_eq!(AssetReferenceType::from_name("ISIN"), None);
}

#[test]
fn category_names_are_trimmed_and_must_not_be_blank() {
    assert_eq!(validate_category_name("  Region ").ok(), Some("Region".to_string()));
    match validate_category_name(" \t ") {
        Err(AppError::Validation(m)) => assert_eq!(m, "Category name must not be empty"),
        other => panic!("unexpected {other:?}"),
    }
}
