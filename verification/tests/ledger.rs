use tallytail::ledger::{
    import_rows, import_transaction_assets, list_transaction_assets, list_transactions, transaction_asset_lookup,
    ImportTransactionAssetsInput, ListError, QuoteFields, TransactionAsset, TransactionRow,
};
use tallytail::isin::IsinListError;
use tallytail::transactions::TransactionType;

fn row(date: &str, kind: &str) -> TransactionRow {
    TransactionRow {
        date: date.to_string(),
        time: "12:00:00".to_string(),
        transaction_type: kind.to_string(),
        asset_name: Some("Apple".to_string()),
        isin: "US0378331005".to_string(),
        quantity: "1".to_string(),
        share_price: "100".to_string(),
        order_value: "100".to_string(),
        currency: "USD".to_string(),
    }
}

fn asset(id: i64, isin: &str, name: Option<&str>) -> TransactionAsset {
    TransactionAsset {
        id,
        isin: isin.to_string(),
        symbol: None,
        name: name.map(|n| n.to_string()),
        exchange: None,
        quote_type: None,
        updated_at_date: None,
        updated_at_time: None,
    }
}

#[test]
fn lists_transactions_with_their_types() {
    let rows = vec![row("2026-01-03", "Sell"), row("2026-01-02", "Buy")];
    let listed = list_transactions(rows).unwrap();
    assert_eq!(listed.len(), 2);
    assert_eq!(listed[0].transaction_type, TransactionType::Sell);
    assert_eq!(listed[1].transaction_type, TransactionType::Buy);
    assert_eq!(listed[0].date, "2026-01-03");
    assert_eq!(listed[1].asset_name.as_deref(), Some("Apple"));
}

#[test]
fn rejects_an_unknown_transaction_type() {
    let rows = vec![row("2026-01-03", "Buy"), row("2026-01-02", "buy"), row("2026-01-01", "Gift")];
    let err = list_transactions(rows).err().unwrap();
    match &err {
        ListError::InvalidTransactionType(t) => assert_eq!(t, "buy"),
    }
    assert_eq!(err.message(), "Invalid transaction type: buy");
}

#[test]
fn transaction_type_code_reads_back() {
    for t in [TransactionType::Buy, TransactionType::Sell] {
        assert_eq!(TransactionType::parse(t.code()), Some(t));
    }
}

#[test]
fn lists_transaction_assets_by_name_then_isin() {
    let assets = vec![
        asset(1, "US5949181045", Some("Microsoft")),
        asset(2, "US0378331005", Some("Apple")),
        asset(3, "DE0007164600", None),
        asset(4, "DE0005557508", Some("Apple")),
        asset(5, "AT0000937503", None),
    ];
    let listed = list_transaction_assets(assets);
    let ids: Vec<i64> = listed.iter().map(|a| a.id).collect();
    assert_eq!(ids, vec![5, 3, 4, 2, 1]);
}

#[test]
fn listing_keeps_the_order_of_equal_keys() {
    let assets = vec![asset(1, "US0378331005", Some("A")), asset(2, "US0378331005", Some("A")), asset(3, "US0378331005", None)];
    let ids: Vec<i64> = list_transaction_assets(assets).iter().map(|a| a.id).collect();
    assert_eq!(ids, vec![3, 1, 2]);
}

#[test]
fn import_asks_for_each_isin_once() {
    let input = ImportTransactionAssetsInput { isins: vec!["us0378331005, US5949181045".to_string(), "US0378331005".to_string()] };
    assert_eq!(import_transaction_assets(input).unwrap(), vec!["US0378331005".to_string(), "US5949181045".to_string()]);
    let empty = ImportTransactionAssetsInput { isins: vec![" ; ".to_string()] };
    assert_eq!(import_transaction_assets(empty), Err(IsinListError::NoIsin));
}

#[test]
fn lookup_keeps_trimmed_quote_fields_with_fallbacks() {
    let quote = QuoteFields {
        symbol: Some(" AAPL ".to_string()),
        longname: Some("   ".to_string()),
        shortname: Some("Apple Inc.".to_string()),
        exch_disp: None,
        exchange: Some("NMS".to_string()),
        quote_type: Some("".to_string()),
    };
    let lookup = transaction_asset_lookup("US0378331005".to_string(), &quote, "2026-07-06".to_string(), "21:30:00".to_string());
    assert_eq!(lookup.isin, "US0378331005");
    assert_eq!(lookup.symbol.as_deref(), Some("AAPL"));
    assert_eq!(lookup.name.as_deref(), Some("Apple Inc."));
    assert_eq!(lookup.exchange.as_deref(), Some("NMS"));
    assert_eq!(lookup.quote_type, None);
    assert_eq!(lookup.updated_at_date, "2026-07-06");
}

#[test]
fn lookup_prefers_long_name_and_displayed_exchange() {
    let quote = QuoteFields {
        symbol: None,
        longname: Some("Apple Inc. Common Stock".to_string()),
        shortname: Some("Apple".to_string()),
        exch_disp: Some("NASDAQ".to_string()),
        exchange: Some("NMS".to_string()),
        quote_type: Some("EQUITY".to_string()),
    };
    let lookup = transaction_asset_lookup("US0378331005".to_string(), &quote, "d".to_string(), "t".to_string());
    assert_eq!(lookup.name.as_deref(), Some("Apple Inc. Common Stock"));
    assert_eq!(lookup.exchange.as_deref(), Some("NASDAQ"));
    assert_eq!(lookup.quote_type.as_deref(), Some("EQUITY"));
    assert_eq!(lookup.symbol, None);
}

#[test]
fn import_writes_all_rows_or_none() {
    let quote = QuoteFields {
        symbol: Some(" AAPL ".to_string()),
        longname: None,
        shortname: Some("Apple".to_string()),
        exch_disp: None,
        exchange: Some("NMS".to_string()),
        quote_type: Some("EQUITY".to_string()),
    };
    let a = transaction_asset_lookup("US0378331005".to_string(), &quote, "2026-07-06".to_string(), "10:00:00".to_string());
    let b = transaction_asset_lookup("US5949181045".to_string(), &quote, "2026-07-06".to_string(), "10:00:01".to_string());
    let rows = import_rows(vec![Ok(a), Ok(b)]).unwrap();
    assert_eq!(rows.iter().map(|r| r.isin.as_str()).collect::<Vec<_>>(), vec!["US0378331005", "US5949181045"]);
    assert_eq!(rows[0].symbol.as_deref(), Some("AAPL"));
    let c = transaction_asset_lookup("US0378331005".to_string(), &quote, "2026-07-06".to_string(), "10:00:00".to_string());
    assert_eq!(import_rows(vec![Ok(c), Err("search failed".to_string())]).err(), Some("search failed".to_string()));
    assert!(import_rows(Vec::new()).unwrap().is_empty());
}
