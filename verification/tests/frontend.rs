use tallytail::assets::{AllocationPositionInput, AssetReferenceType, ReferenceType};
use tallytail::desktop::{
    allocation_diagram_category_selected_text, asset_name_for_position, chosen_category_values, collect_allocation_positions,
    domain_reference_type_label, no_positive_positions_notice, saved_message,
    parse_i64, reference_type_label, selected_category_name_for_value, CategoryItem, PositionInputError,
    PositionItem, PositionListItem,
};
use tallytail::display::{
    configure_categories_message, page_button_selected, Page,
    format_decimal_for_display, format_time_to_second, format_updated_at, sell_quantities_to_send,
    transaction_asset_matches_query, transaction_asset_suggestion_label, transaction_asset_suggestions,
    signed_quantity_label, trunc_str, value_or_unknown, PendingRequests,
};
use tallytail::transactions::TransactionType;
use tallytail::ledger::TransactionAsset;
use tallytail::records::{check_record_format_version, get_alloc_diagram_data, latest_record_files, GetAllocDiagramDataArgs, ALLOCATION_RECORD_FORMAT_VERSION};
use tallytail::web::{request_url, AccessPolicy, WebBackend, WebRequestError};

fn asset(isin: &str, symbol: Option<&str>, name: Option<&str>) -> TransactionAsset {
    TransactionAsset {
        id: 1,
        isin: isin.to_string(),
        symbol: symbol.map(|s| s.to_string()),
        name: name.map(|n| n.to_string()),
        exchange: None,
        quote_type: None,
        updated_at_date: None,
        updated_at_time: None,
    }
}

#[test]
fn truncates_long_texts() {
    assert_eq!(trunc_str("Apple", 10), "Apple");
    assert_eq!(trunc_str("Apple", 5), "Apple");
    assert_eq!(trunc_str("International Business Machines", 13), "International...");
    assert_eq!(trunc_str("Äpfel und Birnen", 5), "Äpfel...");
}

#[test]
fn shows_a_dash_for_missing_values() {
    assert_eq!(value_or_unknown(Some("Apple")), "Apple");
    assert_eq!(value_or_unknown(Some("  ")), "-");
    assert_eq!(value_or_unknown(None), "-");
}

#[test]
fn formats_the_update_moment() {
    assert_eq!(format_updated_at(Some("2026-07-06"), Some("21:30:15.123")), "2026-07-06 21:30");
    assert_eq!(format_updated_at(Some("2026-07-06"), Some(" ")), "2026-07-06");
    assert_eq!(format_updated_at(None, Some("9:05")), "9:05");
    assert_eq!(format_updated_at(Some(""), None), "?");
}

#[test]
fn formats_decimals_for_display() {
    assert_eq!(format_decimal_for_display("12.5000"), "12.5");
    assert_eq!(format_decimal_for_display("12.000"), "12");
    assert_eq!(format_decimal_for_display("7"), "7");
    assert_eq!(format_decimal_for_display("0.123456789012"), "0.123456789");
    assert_eq!(format_decimal_for_display("1.000000000001"), "1");
    assert_eq!(format_decimal_for_display("-3.10"), "-3.1");
}

#[test]
fn formats_times_to_the_second() {
    assert_eq!(format_time_to_second(9, 5, 0), "09:05:00");
    assert_eq!(format_time_to_second(23, 59, 59), "23:59:59");
}

#[test]
fn matches_assets_by_isin_symbol_or_name() {
    let a = asset("US0378331005", Some("AAPL"), Some("Apple Inc."));
    assert!(transaction_asset_matches_query(&a, "us03"));
    assert!(transaction_asset_matches_query(&a, "aap"));
    assert!(transaction_asset_matches_query(&a, "inc."));
    assert!(!transaction_asset_matches_query(&a, "msft"));
}

#[test]
fn suggests_at_most_six_matching_assets() {
    let mut assets = Vec::new();
    for i in 0..8 {
        assets.push(asset(&format!("US00000000{i}"), None, Some("Fund")));
    }
    assets.insert(2, asset("DE0007164600", Some("SAP"), Some("SAP SE")));
    assert_eq!(transaction_asset_suggestions(&assets, "  "), Vec::<usize>::new());
    assert_eq!(transaction_asset_suggestions(&assets, " FUND "), vec![0, 1, 3, 4, 5, 6]);
    assert_eq!(transaction_asset_suggestions(&assets, "sap"), vec![2]);
}

#[test]
fn labels_suggestions() {
    assert_eq!(transaction_asset_suggestion_label(&asset("US0378331005", Some("AAPL"), Some("Apple"))), "Apple (AAPL) - US0378331005");
    assert_eq!(transaction_asset_suggestion_label(&asset("US0378331005", Some("AAPL"), None)), "AAPL - US0378331005");
    assert_eq!(transaction_asset_suggestion_label(&asset("US0378331005", None, None)), "US0378331005 - US0378331005");
}

#[test]
fn counts_pending_requests() {
    let mut pending = PendingRequests::new();
    pending.increment();
    pending.increment();
    assert!(pending.decrement());
    assert_eq!(pending.get(), 1);
    assert!(pending.decrement());
    assert!(!pending.decrement());
    assert_eq!(pending.get(), 0);
}

#[test]
fn keeps_only_typed_sell_quantities() {
    let entries = vec![(1, "1.5".to_string()), (2, "  ".to_string()), (3, "".to_string()), (4, "2".to_string())];
    assert_eq!(sell_quantities_to_send(&entries), vec![(1, "1.5".to_string()), (4, "2".to_string())]);
}

#[test]
fn parses_integers_like_std() {
    for text in ["0", "42", "-17", "+8", "9223372036854775807", "-9223372036854775808", "0007"] {
        assert_eq!(parse_i64(text), text.parse::<i64>().ok(), "{text}");
    }
    for text in ["", "-", "+", " 1", "1 ", "1.5", "9223372036854775808", "-9223372036854775809", "99999999999999999999999", "--1"] {
        assert_eq!(parse_i64(text), None, "{text}");
        assert!(text.parse::<i64>().is_err());
    }
}

#[test]
fn collects_allocation_positions_from_the_form() {
    let mut rows = vec![
        PositionItem::for_asset(1, "Apple", "US0378331005"),
        PositionItem::for_asset(2, "Cash", "DE00"),
        PositionItem::for_asset(3, "Bonds", "X"),
    ];
    assert_eq!(rows[0].label, "Apple (US0378331005)");
    rows[0].amount_input = " 100 ".to_string();
    rows[2].amount_input = "50".to_string();
    assert_eq!(
        collect_allocation_positions(&rows).unwrap(),
        vec![AllocationPositionInput { asset_id: 1, amount: 100 }, AllocationPositionInput { asset_id: 3, amount: 50 }]
    );
    rows[1].amount_input = "ten".to_string();
    let err = collect_allocation_positions(&rows).err().unwrap();
    assert_eq!(err.message(), "Invalid amount for asset 'Cash (DE00)'");
    rows[1].amount_input = "0".to_string();
    match collect_allocation_positions(&rows).err().unwrap() {
        PositionInputError::AmountNotPositive(label) => assert_eq!(label, "Cash (DE00)"),
        other => panic!("unexpected {other:?}"),
    }
    let list_row = PositionListItem::for_asset(7, "Gold", "XAU");
    assert_eq!(list_row.label, "Gold (XAU)");
    assert!(list_row.amount_input.is_empty());
}

#[test]
fn names_the_selected_category() {
    let categories = vec![
        CategoryItem { id: 1, name: "Region".to_string() },
        CategoryItem { id: 2, name: "Sector".to_string() },
    ];
    assert_eq!(allocation_diagram_category_selected_text(&categories, Some(2)), "Sector");
    assert_eq!(allocation_diagram_category_selected_text(&categories, Some(3)), "Position");
    assert_eq!(allocation_diagram_category_selected_text(&categories, None), "Position");
    assert_eq!(selected_category_name_for_value(&categories, Some(1)), "Region");
    assert_eq!(selected_category_name_for_value(&categories, None), "Select...");
}

#[test]
fn labels_reference_types() {
    assert_eq!(reference_type_label(AssetReferenceType::Ticker), "Ticker");
    assert_eq!(reference_type_label(AssetReferenceType::Iban), "IBAN");
    assert_eq!(domain_reference_type_label(ReferenceType::Isin), "ISIN");
}

#[test]
fn picks_the_latest_record_files() {
    let names: Vec<String> = ["2026-07-01.ron", "notes.txt", "2026-07-03.ron", ".ron", "2026-13-01.ron", "2026-07-02.ron", "2026-07-04.RON", "2026-06-30.ron"]
        .iter()
        .map(|s| s.to_string())
        .collect();
    assert_eq!(latest_record_files(&names, 3), vec!["2026-07-03.ron".to_string(), "2026-07-02.ron".to_string(), "2026-07-01.ron".to_string()]);
    assert_eq!(latest_record_files(&names, 10).len(), 4);
    assert!(latest_record_files(&names, 0).is_empty());
    let args = GetAllocDiagramDataArgs { category_id: 1, days: 1 };
    assert_eq!(get_alloc_diagram_data(args, &names), vec!["2026-07-03.ron".to_string()]);
}

#[test]
fn refuses_records_of_another_format_version() {
    assert!(check_record_format_version(1).is_ok());
    let err = check_record_format_version(2).err().unwrap();
    assert_eq!(err.found, 2);
    let message = err.message("allocation_records/2026-07-06.ron");
    assert!(message.contains("format version"));
    assert_eq!(message, "allocation record 'allocation_records/2026-07-06.ron' has format version 2, but supported version is 1");
}

#[test]
fn rejects_allocation_record_with_unsupported_format_version() {
    let err = check_record_format_version(ALLOCATION_RECORD_FORMAT_VERSION + 1).err().unwrap();
    let message = err.message("allocation_records/2026-07-06.ron");
    assert!(message.contains("format version"));
}

#[test]
fn web_requests_go_to_the_right_back_end() {
    assert_eq!(request_url("localhost", "8080", "http://localhost:8080", "unlock"), "http://127.0.0.1:3000/unlock");
    assert_eq!(request_url("127.0.0.1", "3000", "http://127.0.0.1:3000", "get_assets"), "http://127.0.0.1:3000/get_assets");
    assert_eq!(request_url("tallytail.fly.dev", "", "https://tallytail.fly.dev", "get_assets"), "https://tallytail.fly.dev/get_assets");
}

#[test]
fn protected_requests_need_an_unlock() {
    let mut backend = WebBackend::new();
    assert_eq!(backend.request_token(AccessPolicy::Public).unwrap(), None);
    let err = backend.request_token(AccessPolicy::Token).err().unwrap();
    assert_eq!(err, WebRequestError::UnlockRequired);
    assert_eq!(err.message(), "Unlock required");
    backend.store_access_token("abc123".to_string());
    assert_eq!(backend.request_token(AccessPolicy::Token).unwrap().as_deref(), Some("abc123"));
}

#[test]
fn marks_the_menu_button_of_the_shown_page() {
    assert!(page_button_selected(Page::AddAsset, Page::AddAsset));
    assert!(page_button_selected(Page::LogSellTransaction, Page::Transactions));
    assert!(page_button_selected(Page::LogBuyTransaction, Page::Transactions));
    assert!(page_button_selected(Page::ImportTransactionAssets, Page::TransactionAssets));
    assert!(!page_button_selected(Page::Transactions, Page::TransactionAssets));
    assert!(!page_button_selected(Page::MainMenu, Page::AddAsset));
}

#[test]
fn reports_how_the_categories_were_saved() {
    assert_eq!(configure_categories_message(None), "All saved");
    assert_eq!(configure_categories_message(Some("UNIQUE constraint failed")), "Partial save. First error: UNIQUE constraint failed");
}

#[test]
fn listed_transactions_show_signed_quantities() {
    assert_eq!(signed_quantity_label(TransactionType::Buy, "2.5"), "+2.5");
    assert_eq!(signed_quantity_label(TransactionType::Sell, "3"), "-3");
}

#[test]
fn desktop_forms_report_what_they_saved_and_what_is_missing() {
    assert_eq!(saved_message("Asset", "  Fund A "), "Asset 'Fund A' was saved.");
    assert_eq!(saved_message("Allocation record", "2026-07-06"), "Allocation record '2026-07-06' was saved.");
    assert_eq!(chosen_category_values(&vec![(1, Some(10)), (2, Some(20))]), Ok(vec![10, 20]));
    assert_eq!(
        chosen_category_values(&vec![(1, Some(10)), (2, None)]),
        Err("All category values must be set".to_string())
    );
    let positions = vec![
        AllocationPositionInput { asset_id: 1, amount: 5 },
        AllocationPositionInput { asset_id: 2, amount: -5 },
    ];
    assert_eq!(
        no_positive_positions_notice(&positions).as_deref(),
        Some("The latest allocation record contains no positive positions.")
    );
    assert_eq!(no_positive_positions_notice(&vec![AllocationPositionInput { asset_id: 1, amount: 1 }]), None);
    let names = vec![(1, "Fund".to_string()), (2, "Bond".to_string())];
    assert_eq!(asset_name_for_position(&names, 2), "Bond");
    assert_eq!(asset_name_for_position(&names, 3), "Unknown asset");
}
