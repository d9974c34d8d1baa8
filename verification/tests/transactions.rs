use tallytail::civil::CivilDate;
use tallytail::decimal::DecimalValue;
use tallytail::transactions::{
    check_sell_item, new_remaining_quantity, validate_log_buy_transaction_input,
    validate_log_sell_transaction_input, Currency, LogBuyTransactionInput, LogSellTransactionInput,
    SellItemError, TimeField, TransactionError, TransactionType,
};

fn civil(date: jiff::civil::Date) -> CivilDate {
    CivilDate { year: date.year(), month: date.month(), day: date.day() }
}

fn today() -> CivilDate {
    civil(jiff::Zoned::now().date())
}

fn tomorrow(date: CivilDate) -> CivilDate {
    let d = jiff::civil::Date::new(date.year, date.month, date.day).unwrap();
    civil(d.tomorrow().unwrap())
}

fn valid_log_buy_transaction_input() -> LogBuyTransactionInput {
    LogBuyTransactionInput {
        currency: Currency::Eur,
        date: today(),
        time: "12:34:56".to_string(),
        client_today: today(),
        isin: "US0378331005".to_string(),
        quantity: "2.5".to_string(),
        share_price: "100.00".to_string(),
        order_value: "250.00".to_string(),
    }
}

fn valid_log_sell_transaction_input() -> LogSellTransactionInput {
    LogSellTransactionInput {
        currency: Currency::Eur,
        date: today(),
        time: "12:34:56".to_string(),
        client_today: today(),
        isin: "US0378331005".to_string(),
        portfolio_item_id_to_quantity: vec![(1, "1.5".to_string())],
        share_price: "100.00".to_string(),
        order_value: "149.99".to_string(),
    }
}

#[test]
fn accepts_transaction_date_on_client_today() {
    let mut input = valid_log_buy_transaction_input();
    input.client_today = input.date;

    validate_log_buy_transaction_input(input).unwrap();
}

#[test]
fn rejects_future_transaction_date() {
    let mut input = valid_log_buy_transaction_input();
    input.date = tomorrow(input.client_today);

    let err = validate_log_buy_transaction_input(input).unwrap_err().message();

    assert!(err.contains("future"));
}

#[test]
fn rejects_buy_order_value_below_quantity_times_share_price() {
    let mut input = valid_log_buy_transaction_input();
    input.order_value = "249.99".to_string();

    let err = validate_log_buy_transaction_input(input).unwrap_err().message();

    assert!(err.contains("quantity * share price"));
}

#[test]
fn rejects_quantity_less_than_or_equal_to_zero() {
    for quantity in ["0", "-1"] {
        let mut input = valid_log_buy_transaction_input();
        input.quantity = quantity.to_string();

        let err = validate_log_buy_transaction_input(input).unwrap_err().message();

        assert!(err.contains("Quantity must be greater than 0"));
    }
}

#[test]
fn rejects_share_price_less_than_or_equal_to_zero() {
    for share_price in ["0", "-1"] {
        let mut input = valid_log_buy_transaction_input();
        input.share_price = share_price.to_string();

        let err = validate_log_buy_transaction_input(input).unwrap_err().message();

        assert!(err.contains("Share price must be greater than 0"));
    }
}

#[test]
fn rejects_invalid_quantity_decimal_format() {
    let mut input = valid_log_buy_transaction_input();
    input.quantity = "not-a-decimal".to_string();

    let err = validate_log_buy_transaction_input(input).unwrap_err().message();

    assert!(err.contains("Quantity must be a valid decimal number"));
}

#[test]
fn rejects_invalid_share_price_decimal_format() {
    let mut input = valid_log_buy_transaction_input();
    input.share_price = "not-a-decimal".to_string();

    let err = validate_log_buy_transaction_input(input).unwrap_err().message();

    assert!(err.contains("Share price must be a valid decimal number"));
}

#[test]
fn rejects_invalid_order_value_decimal_format() {
    let mut input = valid_log_buy_transaction_input();
    input.order_value = "not-a-decimal".to_string();

    let err = validate_log_buy_transaction_input(input).unwrap_err().message();

    assert!(err.contains("Order value must be a valid decimal number"));
}

#[test]
fn rejects_invalid_buy_transaction_time_format() {
    let mut input = valid_log_buy_transaction_input();
    input.time = "12:34".to_string();

    let err = validate_log_buy_transaction_input(input).unwrap_err().message();

    assert!(err.contains("HH:MM:SS"));
}

#[test]
fn accepts_valid_sell_transaction_input() {
    validate_log_sell_transaction_input(valid_log_sell_transaction_input()).unwrap();
}

#[test]
fn rejects_sell_transaction_without_quantities() {
    let mut input = valid_log_sell_transaction_input();
    input.portfolio_item_id_to_quantity.clear();

    let err = validate_log_sell_transaction_input(input).unwrap_err().message();

    assert!(err.contains("At least one sell quantity"));
}

#[test]
fn rejects_sell_transaction_future_date() {
    let mut input = valid_log_sell_transaction_input();
    input.date = tomorrow(input.client_today);

    let err = validate_log_sell_transaction_input(input).unwrap_err().message();

    assert!(err.contains("future"));
}

#[test]
fn rejects_sell_transaction_invalid_quantity_decimal_format() {
    let mut input = valid_log_sell_transaction_input();
    input.portfolio_item_id_to_quantity = vec![(1, "not-a-decimal".to_string())];

    let err = validate_log_sell_transaction_input(input).unwrap_err().message();

    assert!(err.contains("Quantity must be a valid decimal number"));
}

#[test]
fn rejects_sell_transaction_quantity_less_than_or_equal_to_zero() {
    for quantity in ["0", "-1"] {
        let mut input = valid_log_sell_transaction_input();
        input.portfolio_item_id_to_quantity = vec![(1, quantity.to_string())];

        let err = validate_log_sell_transaction_input(input).unwrap_err().message();

        assert!(err.contains("Quantity must be greater than 0"));
    }
}

#[test]
fn rejects_sell_transaction_share_price_less_than_or_equal_to_zero() {
    for share_price in ["0", "-1"] {
        let mut input = valid_log_sell_transaction_input();
        input.share_price = share_price.to_string();

        let err = validate_log_sell_transaction_input(input).unwrap_err().message();

        assert!(err.contains("Share price must be greater than 0"));
    }
}

#[test]
fn rejects_sell_transaction_order_value_less_than_or_equal_to_zero() {
    for order_value in ["0", "-1"] {
        let mut input = valid_log_sell_transaction_input();
        input.order_value = order_value.to_string();

        let err = validate_log_sell_transaction_input(input).unwrap_err().message();

        assert!(err.contains("Order value must be greater than 0"));
    }
}

#[test]
fn rejects_sell_transaction_invalid_share_price_decimal_format() {
    let mut input = valid_log_sell_transaction_input();
    input.share_price = "not-a-decimal".to_string();

    let err = validate_log_sell_transaction_input(input).unwrap_err().message();

    assert!(err.contains("Share price must be a valid decimal number"));
}

#[test]
fn rejects_sell_transaction_invalid_order_value_decimal_format() {
    let mut input = valid_log_sell_transaction_input();
    input.order_value = "not-a-decimal".to_string();

    let err = validate_log_sell_transaction_input(input).unwrap_err().message();

    assert!(err.contains("Order value must be a valid decimal number"));
}

#[test]
fn rejects_invalid_sell_transaction_time_format() {
    let mut input = valid_log_sell_transaction_input();
    input.time = "12:34".to_string();

    let err = validate_log_sell_transaction_input(input).unwrap_err().message();

    assert!(err.contains("HH:MM:SS"));
}

#[test]
fn rejects_sell_transaction_order_value_above_quantity_times_share_price() {
    let mut input = valid_log_sell_transaction_input();
    input.order_value = "150.01".to_string();

    let err = validate_log_sell_transaction_input(input).unwrap_err().message();

    assert!(err.contains("quantity * share price"));
}

#[test]
fn validated_buy_keeps_normalized_values() {
    let mut input = valid_log_buy_transaction_input();
    input.isin = " us0378331005 ".to_string();
    input.quantity = " 2.5 ".to_string();
    let t = validate_log_buy_transaction_input(input).unwrap();
    assert_eq!(t.transaction_type, TransactionType::Buy);
    assert_eq!(t.isin, "US0378331005");
    assert_eq!(t.quantity, DecimalValue { mantissa: 25, scale: 1 });
    assert_eq!(t.share_price, DecimalValue { mantissa: 10000, scale: 2 });
    assert_eq!(t.order_value, DecimalValue { mantissa: 25000, scale: 2 });
    assert_eq!((t.time.hour, t.time.minute, t.time.second), (12, 34, 56));
}

#[test]
fn rejects_buy_with_invalid_isin() {
    let mut input = valid_log_buy_transaction_input();
    input.isin = "US0378331006".to_string();
    assert_eq!(validate_log_buy_transaction_input(input).unwrap_err(), TransactionError::InvalidIsin);
}

#[test]
fn sell_adds_up_the_quantities_of_all_items() {
    let mut input = valid_log_sell_transaction_input();
    input.portfolio_item_id_to_quantity = vec![(3, "1".to_string()), (1, "0.5".to_string())];
    input.order_value = "150".to_string();
    let s = validate_log_sell_transaction_input(input).unwrap();
    assert_eq!(s.transaction.transaction_type, TransactionType::Sell);
    assert_eq!(s.transaction.quantity, DecimalValue { mantissa: 15, scale: 1 });
    assert_eq!(s.portfolio_item_id_to_quantity.len(), 2);
    assert_eq!(s.portfolio_item_id_to_quantity[&1], DecimalValue { mantissa: 5, scale: 1 });
}

#[test]
fn checks_sold_portfolio_items() {
    let mut input = valid_log_sell_transaction_input();
    input.date = CivilDate { year: 2026, month: 3, day: 10 };
    input.client_today = input.date;
    let s = validate_log_sell_transaction_input(input).unwrap();
    let q = DecimalValue { mantissa: 15, scale: 1 };
    assert_eq!(check_sell_item(7, &s.transaction, q, 7, "2", "2026-03-01", "09:00:00"), Ok(()));
    assert_eq!(
        check_sell_item(7, &s.transaction, q, 8, "2", "2026-03-01", "09:00:00"),
        Err(SellItemError::Transaction(TransactionError::ItemOfOtherIsin))
    );
    assert_eq!(
        check_sell_item(7, &s.transaction, q, 7, "2", "2026-03-10", "13:00:00"),
        Err(SellItemError::Transaction(TransactionError::SellBeforeBuy))
    );
    assert_eq!(
        check_sell_item(7, &s.transaction, q, 7, "1.4", "2026-03-01", "09:00:00"),
        Err(SellItemError::Transaction(TransactionError::SellQuantityExceedsRemaining))
    );
    assert_eq!(
        check_sell_item(7, &s.transaction, q, 7, "x", "2026-03-01", "09:00:00"),
        Err(SellItemError::Transaction(TransactionError::InvalidRemainingQuantity))
    );
    let jiff_error = jiff::civil::Date::strptime("%Y-%m-%d", "2026-13-01").unwrap_err().to_string();
    let err = check_sell_item(7, &s.transaction, q, 7, "2", "2026-13-01", "09:00:00").err().unwrap();
    assert_eq!(err, SellItemError::InvalidBuyDate(jiff_error.clone()));
    assert_eq!(err.message(), jiff_error);
    assert_eq!(
        check_sell_item(7, &s.transaction, q, 7, "2", "2026-03-01", "9h"),
        Err(SellItemError::Transaction(TransactionError::InvalidTime(TimeField::BuyTime)))
    );
    assert_eq!(new_remaining_quantity("2", q), Ok(DecimalValue { mantissa: 5, scale: 1 }));
    assert_eq!(new_remaining_quantity("?", q), Err(TransactionError::InvalidRemainingQuantity));
}

#[test]
fn reports_decimal_overflow() {
    let mut input = valid_log_buy_transaction_input();
    input.quantity = "79228162514264337593543950335".to_string();
    input.share_price = "2".to_string();
    assert_eq!(validate_log_buy_transaction_input(input).unwrap_err(), TransactionError::TradeValueTooLarge);

    let mut sale = valid_log_sell_transaction_input();
    sale.portfolio_item_id_to_quantity = vec![
        (1, "79228162514264337593543950335".to_string()),
        (2, "79228162514264337593543950335".to_string()),
    ];
    assert_eq!(validate_log_sell_transaction_input(sale).unwrap_err(), TransactionError::TotalQuantityTooLarge);

    let q = DecimalValue { mantissa: 1, scale: 0 };
    assert_eq!(
        new_remaining_quantity("-79228162514264337593543950335", q),
        Err(TransactionError::RemainingQuantityTooSmall)
    );
}

#[test]
fn transaction_error_messages() {
    assert_eq!(TransactionError::FutureDate.message(), "Transaction date must not be in the future");
    assert_eq!(
        TransactionError::InvalidTime(tallytail::transactions::TimeField::BuyTime).message(),
        "Buy time must be a valid time in HH:MM:SS format"
    );
    assert_eq!(
        TransactionError::InvalidDecimal(tallytail::transactions::DecimalField::SharePrice).message(),
        "Share price must be a valid decimal number"
    );
    assert_eq!(TransactionError::SellBeforeBuy.message(), "Sell time must not be before buy time");
    assert_eq!(Currency::Usd.code(), "USD");
}

#[test]
fn starts_empty_transaction_forms() {
    let today = CivilDate { year: 2026, month: 7, day: 6 };
    let buy = LogBuyTransactionInput::starting(today, "09:05:00".to_string());
    assert_eq!(buy.currency, Currency::Eur);
    assert_eq!(buy.date, today);
    assert_eq!(buy.time, "09:05:00");
    assert!(buy.isin.is_empty() && buy.quantity.is_empty());
    let sell = LogSellTransactionInput::starting(today, "23:59:59".to_string());
    assert!(sell.portfolio_item_id_to_quantity.is_empty());
    assert_eq!(sell.client_today, today);
}
