use tallytail::portfolio::{
    list_portfolio_isin_items, list_portfolio_overview_items, open_portfolio_items, PortfolioError,
    QueriedPortfolioItem,
};

fn lot(id: i64, name: Option<&str>, isin: &str, quantity: &str, share_price: &str, currency: &str) -> QueriedPortfolioItem {
    QueriedPortfolioItem {
        id,
        buy_date: "2026-01-02".to_string(),
        buy_time: "10:00:00".to_string(),
        asset_name: name.map(|n| n.to_string()),
        isin: isin.to_string(),
        quantity: quantity.to_string(),
        share_price: share_price.to_string(),
        order_value: "0".to_string(),
        currency: currency.to_string(),
    }
}

#[test]
fn open_items_skip_sold_and_unreadable_lots() {
    let rows = vec![
        lot(1, Some("Apple"), "US0378331005", "2", "100", "USD"),
        lot(2, Some("Apple"), "US0378331005", "0", "100", "USD"),
        lot(3, Some("Apple"), "US0378331005", "abc", "100", "USD"),
        lot(4, Some("Apple"), "US0378331005", "-1", "100", "USD"),
        lot(5, Some("Apple"), "US0378331005", "0.5", "100", "USD"),
    ];
    let open = open_portfolio_items(&rows);
    let ids: Vec<i64> = open.iter().map(|r| r.id).collect();
    assert_eq!(ids, vec![1, 5]);
}

#[test]
fn overview_sums_lots_per_asset_and_currency() {
    let rows = vec![
        lot(1, Some("Microsoft"), "US5949181045", "1", "300", "USD"),
        lot(2, Some("Apple"), "US0378331005", "2", "100", "USD"),
        lot(3, Some("Apple"), "US0378331005", "2", "200.00", "USD"),
        lot(4, Some("Apple"), "US0378331005", "1", "90", "EUR"),
        lot(5, None, "DE0007164600", "3", "10", "EUR"),
    ];
    let items = list_portfolio_overview_items(rows).unwrap();
    let keys: Vec<(Option<String>, String, String)> = items
        .iter()
        .map(|p| (p.asset_name.clone(), p.isin.clone(), p.currency.clone()))
        .collect();
    assert_eq!(
        keys,
        vec![
            (None, "DE0007164600".to_string(), "EUR".to_string()),
            (Some("Apple".to_string()), "US0378331005".to_string(), "EUR".to_string()),
            (Some("Apple".to_string()), "US0378331005".to_string(), "USD".to_string()),
            (Some("Microsoft".to_string()), "US5949181045".to_string(), "USD".to_string()),
        ]
    );
    let apple_usd = &items[2];
    assert_eq!(apple_usd.quantity, "4");
    assert_eq!(apple_usd.total_value, "600");
    assert_eq!(apple_usd.average_share_price, "150");
    assert_eq!(items[0].total_value, "30");
    assert_eq!(items[0].average_share_price, "10");
}

#[test]
fn overview_normalizes_decimal_texts() {
    let rows = vec![lot(1, Some("Fund"), "IE00B4L5Y983", "1.50", "2.000", "EUR")];
    let items = list_portfolio_overview_items(rows).unwrap();
    assert_eq!(items[0].quantity, "1.5");
    assert_eq!(items[0].total_value, "3");
    assert_eq!(items[0].average_share_price, "2");
}

#[test]
fn overview_reports_an_invalid_share_price_with_the_item_id() {
    let rows = vec![
        lot(1, Some("Apple"), "US0378331005", "1", "100", "USD"),
        lot(7, Some("Apple"), "US0378331005", "1", "cheap", "USD"),
    ];
    let err = list_portfolio_overview_items(rows).err().unwrap();
    assert_eq!(err, PortfolioError::InvalidSharePrice(7));
    assert_eq!(err.message(), "Invalid share price for portfolio item 7");
}

#[test]
fn overview_of_no_lots_is_empty() {
    let rows = vec![lot(1, Some("Apple"), "US0378331005", "0", "100", "USD")];
    assert!(list_portfolio_overview_items(rows).unwrap().is_empty());
}

#[test]
fn overview_error_messages() {
    assert_eq!(PortfolioError::InvalidRemainingQuantity(-3).message(), "Invalid remaining quantity for portfolio item -3");
    assert_eq!(PortfolioError::QuantityNotPositive.message(), "Portfolio position quantity must be greater than 0");
    assert_eq!(PortfolioError::ItemValueTooLarge.message(), "Portfolio item value is too large");
}

#[test]
fn isin_items_list_the_open_lots_of_one_isin() {
    let rows = vec![
        lot(1, Some("Apple"), "US0378331005", "2", "100", "USD"),
        lot(2, Some("Microsoft"), "US5949181045", "1", "300", "USD"),
        lot(3, Some("Apple"), "US0378331005", "0", "100", "USD"),
        lot(4, Some("Apple"), "US0378331005", "1.5", "110", "USD"),
    ];
    let items = list_portfolio_isin_items(" us0378331005 ".to_string(), rows).unwrap();
    let ids: Vec<i64> = items.iter().map(|i| i.portfolio_item_id).collect();
    assert_eq!(ids, vec![1, 4]);
    assert_eq!(items[1].quantity, "1.5");
    assert_eq!(items[1].share_price, "110");
}

#[test]
fn isin_items_reject_an_invalid_isin() {
    let rows = vec![lot(1, Some("Apple"), "US0378331005", "2", "100", "USD")];
    let err = list_portfolio_isin_items("US0378331006".to_string(), rows).err().unwrap();
    assert_eq!(err.message(), "ISIN must be a valid 12-character ISIN");
}
