//! Buy and sell transactions: validating what the user logs, checking a sale
//! against the portfolio items it sells from.
use vstd::prelude::*;
use std::collections::BTreeMap;
use crate::civil::{
    date_after, is_date_after, is_moment_before, moment_before, parse_date_ymd, parse_time_hms,
    time_parts, jiff_date_strptime_ymd, jiff_time_strptime_hms, CivilDate, TimeOfDay,
};
use crate::decimal::{
    decimal_checked_add, decimal_checked_mul, decimal_checked_sub, decimal_is_positive, decimal_less,
    decimal_lt, decimal_parts, decimal_positive, decimal_zero, parse_decimal, rust_decimal_checked_add,
    rust_decimal_checked_mul, rust_decimal_checked_sub, rust_decimal_from_str, valid_decimal, DecimalValue,
};
use crate::isin::{normal_isin_text, normalize_isin, valid_isin};
use crate::text::{trim, trim_str};

verus! {

broadcast use vstd::laws_cmp::group_laws_cmp;

/// The currency of a transaction.
#[derive(Debug, Clone, Copy, PartialEq, Eq, Structural)]
pub enum Currency {
    Eur,
    Usd,
}

impl Currency {
    /// The code of the currency: `EUR` or `USD`.
    pub fn code(&self) -> (r: &'static str)
        ensures
            r@ == match self {
                Currency::Eur => "EUR"@,
                Currency::Usd => "USD"@,
            },
    {
        match self {
            Currency::Eur => "EUR",
            Currency::Usd => "USD",
        }
    }
}

/// The direction of a transaction.
#[derive(Debug, Clone, Copy, PartialEq, Eq, Structural)]
pub enum TransactionType {
    Buy,
    Sell,
}

/// The text that stands for a transaction type in the database.
pub open spec fn transaction_type_text(t: TransactionType) -> Seq<char> {
    match t {
        TransactionType::Buy => "Buy"@,
        TransactionType::Sell => "Sell"@,
    }
}

impl TransactionType {
    /// The text that stands for the type in the database.
    pub fn code(&self) -> (r: &'static str)
        ensures
            r@ == transaction_type_text(*self),
    {
        match self {
            TransactionType::Buy => "Buy",
            TransactionType::Sell => "Sell",
        }
    }

    /// The transaction type that `s` stands for in the database.
    pub fn parse(s: &str) -> (r: Option<TransactionType>)
        ensures
            match r {
                Some(t) => transaction_type_text(t) == s@,
                None => forall|t: TransactionType| transaction_type_text(t) != s@,
            },
    {
        if crate::text::str_eq(s, "Buy") {
            Some(TransactionType::Buy)
        } else if crate::text::str_eq(s, "Sell") {
            Some(TransactionType::Sell)
        } else {
            assert forall|t: TransactionType| transaction_type_text(t) != s@ by {
                match t {
                    TransactionType::Buy => {},
                    TransactionType::Sell => {},
                }
            }
            None
        }
    }
}

/// The decimal fields of a transaction, for error messages.
#[derive(Debug, Clone, Copy, PartialEq, Eq, Structural)]
pub enum DecimalField {
    Quantity,
    SharePrice,
    OrderValue,
}

/// The time fields of a transaction, for error messages.
#[derive(Debug, Clone, Copy, PartialEq, Eq, Structural)]
pub enum TimeField {
    Time,
    BuyTime,
}

/// The errors of logging a transaction.
#[derive(Debug, Clone, Copy, PartialEq, Eq, Structural)]
pub enum TransactionError {
    FutureDate,
    InvalidTime(TimeField),
    InvalidIsin,
    InvalidDecimal(DecimalField),
    QuantityNotPositive,
    SharePriceNotPositive,
    OrderValueNotPositive,
    TradeValueTooLarge,
    OrderValueBelowTradeValue,
    OrderValueAboveTradeValue,
    TotalQuantityTooLarge,
    NoSellQuantity,
    ItemOfOtherIsin,
    SellBeforeBuy,
    InvalidRemainingQuantity,
    SellQuantityExceedsRemaining,
    RemainingQuantityTooSmall,
}

/// The text of an error of logging a transaction.
pub open spec fn transaction_error_text(e: TransactionError) -> Seq<char> {
    match e {
        TransactionError::FutureDate => "Transaction date must not be in the future"@,
        TransactionError::InvalidTime(field) => (match field {
            TimeField::Time => "Time"@,
            TimeField::BuyTime => "Buy time"@,
        }) + " must be a valid time in HH:MM:SS format"@,
        TransactionError::InvalidIsin => "ISIN must be a valid 12-character ISIN"@,
        TransactionError::InvalidDecimal(field) => (match field {
            DecimalField::Quantity => "Quantity"@,
            DecimalField::SharePrice => "Share price"@,
            DecimalField::OrderValue => "Order value"@,
        }) + " must be a valid decimal number"@,
        TransactionError::QuantityNotPositive => "Quantity must be greater than 0"@,
        TransactionError::SharePriceNotPositive => "Share price must be greater than 0"@,
        TransactionError::OrderValueNotPositive => "Order value must be greater than 0"@,
        TransactionError::TradeValueTooLarge => "Quantity * share price is too large"@,
        TransactionError::OrderValueBelowTradeValue => "Order value must be greater than or equal to quantity * share price"@,
        TransactionError::OrderValueAboveTradeValue => "Order value must be less than or equal to quantity * share price"@,
        TransactionError::TotalQuantityTooLarge => "Total quantity is too large"@,
        TransactionError::NoSellQuantity => "At least one sell quantity is required"@,
        TransactionError::ItemOfOtherIsin => "Portfolio item does not belong to ISIN"@,
        TransactionError::SellBeforeBuy => "Sell time must not be before buy time"@,
        TransactionError::InvalidRemainingQuantity => "Invalid remaining quantity for portfolio item"@,
        TransactionError::SellQuantityExceedsRemaining => "Sell quantity exceeds remaining quantity"@,
        TransactionError::RemainingQuantityTooSmall => "Remaining quantity is too small"@,
    }
}

impl TransactionError {
    /// The text of the error.
    pub fn message(&self) -> (r: String)
        ensures
            r@ == transaction_error_text(*self),
    {
        let mut m = String::new();
        match self {
            TransactionError::FutureDate => m.append("Transaction date must not be in the future"),
            TransactionError::InvalidTime(field) => {
                match field {
                    TimeField::Time => m.append("Time"),
                    TimeField::BuyTime => m.append("Buy time"),
                }
                m.append(" must be a valid time in HH:MM:SS format");
            },
            TransactionError::InvalidIsin => m.append("ISIN must be a valid 12-character ISIN"),
            TransactionError::InvalidDecimal(field) => {
                match field {
                    DecimalField::Quantity => m.append("Quantity"),
                    DecimalField::SharePrice => m.append("Share price"),
                    DecimalField::OrderValue => m.append("Order value"),
                }
                m.append(" must be a valid decimal number");
            },
            TransactionError::QuantityNotPositive => m.append("Quantity must be greater than 0"),
            TransactionError::SharePriceNotPositive => m.append("Share price must be greater than 0"),
            TransactionError::OrderValueNotPositive => m.append("Order value must be greater than 0"),
            TransactionError::TradeValueTooLarge => m.append("Quantity * share price is too large"),
            TransactionError::OrderValueBelowTradeValue => m.append(
                "Order value must be greater than or equal to quantity * share price",
            ),
            TransactionError::OrderValueAboveTradeValue => m.append(
                "Order value must be less than or equal to quantity * share price",
            ),
            TransactionError::TotalQuantityTooLarge => m.append("Total quantity is too large"),
            TransactionError::NoSellQuantity => m.append("At least one sell quantity is required"),
            TransactionError::ItemOfOtherIsin => m.append("Portfolio item does not belong to ISIN"),
            TransactionError::SellBeforeBuy => m.append("Sell time must not be before buy time"),
            TransactionError::InvalidRemainingQuantity => m.append("Invalid remaining quantity for portfolio item"),
            TransactionError::SellQuantityExceedsRemaining => m.append("Sell quantity exceeds remaining quantity"),
            TransactionError::RemainingQuantityTooSmall => m.append("Remaining quantity is too small"),
        }
        m
    }
}

/// A validated transaction.
#[derive(Debug, Clone)]
pub struct Transaction {
    pub transaction_type: TransactionType,
    pub currency: Currency,
    pub date: CivilDate,
    pub time: TimeOfDay,
    pub isin: String,
    pub quantity: DecimalValue,
    pub share_price: DecimalValue,
    pub order_value: DecimalValue,
}

/// A validated transaction, with its ISIN as text.
pub struct TransactionView {
    pub transaction_type: TransactionType,
    pub currency: Currency,
    pub date: CivilDate,
    pub time: TimeOfDay,
    pub isin: Seq<char>,
    pub quantity: DecimalValue,
    pub share_price: DecimalValue,
    pub order_value: DecimalValue,
}

impl View for Transaction {
    type V = TransactionView;

    open spec fn view(&self) -> TransactionView {
        TransactionView {
            transaction_type: self.transaction_type,
            currency: self.currency,
            date: self.date,
            time: self.time,
            isin: self.isin@,
            quantity: self.quantity,
            share_price: self.share_price,
            order_value: self.order_value,
        }
    }
}

/// A validated sale: the transaction and the quantity sold of each portfolio item.
#[derive(Debug)]
pub struct SellTransaction {
    pub transaction: Transaction,
    pub portfolio_item_id_to_quantity: BTreeMap<i64, DecimalValue>,
}

/// What the user logs for a purchase.
#[derive(Debug, Clone)]
pub struct LogBuyTransactionInput {
    pub currency: Currency,
    pub isin: String,
    pub quantity: String,
    pub share_price: String,
    pub order_value: String,
    pub date: CivilDate,
    pub time: String,
    pub client_today: CivilDate,
}

/// What the user logs for a sale: the quantity sold of each portfolio item.
#[derive(Debug, Clone)]
pub struct LogSellTransactionInput {
    pub currency: Currency,
    pub isin: String,
    pub portfolio_item_id_to_quantity: Vec<(i64, String)>,
    pub share_price: String,
    pub order_value: String,
    pub date: CivilDate,
    pub time: String,
    pub client_today: CivilDate,
}

/// The decimal that the trimmed `s` stands for.
pub open spec fn decimal_input(s: Seq<char>) -> Option<DecimalValue> {
    decimal_parts(rust_decimal_from_str(trim(s)))
}

/// The time that the trimmed `s` stands for.
pub open spec fn time_input(s: Seq<char>) -> Option<TimeOfDay> {
    time_parts(jiff_time_strptime_hms(trim(s)))
}

/// The product of two decimals, as `rust_decimal` computes it.
pub open spec fn decimal_mul(a: DecimalValue, b: DecimalValue) -> Option<DecimalValue> {
    decimal_parts(rust_decimal_checked_mul(a.mantissa, a.scale, b.mantissa, b.scale))
}

/// The sum of two decimals, as `rust_decimal` computes it.
pub open spec fn decimal_add(a: DecimalValue, b: DecimalValue) -> Option<DecimalValue> {
    decimal_parts(rust_decimal_checked_add(a.mantissa, a.scale, b.mantissa, b.scale))
}

/// The result of validating a purchase.
pub open spec fn validated_buy(input: LogBuyTransactionInput) -> Result<TransactionView, TransactionError> {
    if date_after(input.date, input.client_today) {
        Err(TransactionError::FutureDate)
    } else if time_input(input.time@) is None {
        Err(TransactionError::InvalidTime(TimeField::Time))
    } else if !valid_isin(normal_isin_text(input.isin@)) {
        Err(TransactionError::InvalidIsin)
    } else if decimal_input(input.quantity@) is None {
        Err(TransactionError::InvalidDecimal(DecimalField::Quantity))
    } else if decimal_input(input.share_price@) is None {
        Err(TransactionError::InvalidDecimal(DecimalField::SharePrice))
    } else if decimal_input(input.order_value@) is None {
        Err(TransactionError::InvalidDecimal(DecimalField::OrderValue))
    } else {
        let q = decimal_input(input.quantity@).unwrap();
        let p = decimal_input(input.share_price@).unwrap();
        let o = decimal_input(input.order_value@).unwrap();
        if !decimal_positive(q) {
            Err(TransactionError::QuantityNotPositive)
        } else if !decimal_positive(p) {
            Err(TransactionError::SharePriceNotPositive)
        } else if decimal_mul(q, p) is None {
            Err(TransactionError::TradeValueTooLarge)
        } else if decimal_less(o, decimal_mul(q, p).unwrap()) {
            Err(TransactionError::OrderValueBelowTradeValue)
        } else {
            Ok(TransactionView {
                transaction_type: TransactionType::Buy,
                currency: input.currency,
                date: input.date,
                time: time_input(input.time@).unwrap(),
                isin: normal_isin_text(input.isin@),
                quantity: q,
                share_price: p,
                order_value: o,
            })
        }
    }
}

/// The total and the quantity of each item of the sale `items`, read in order:
/// each quantity must be a positive decimal, and their sum must not overflow.
/// A later entry of an item replaces an earlier one, which still counts in
/// the total.
pub open spec fn sell_quantities(items: Seq<(i64, String)>) -> Result<(DecimalValue, Map<i64, DecimalValue>), TransactionError>
    decreases items.len(),
{
    if items.len() == 0 {
        Ok((DecimalValue { mantissa: 0, scale: 0 }, Map::empty()))
    } else {
        match sell_quantities(items.drop_last()) {
            Err(e) => Err(e),
            Ok((total, m)) => {
                let (id, text) = items.last();
                match decimal_input(text@) {
                    None => Err(TransactionError::InvalidDecimal(DecimalField::Quantity)),
                    Some(q) => if !decimal_positive(q) {
                        Err(TransactionError::QuantityNotPositive)
                    } else {
                        match decimal_add(total, q) {
                            None => Err(TransactionError::TotalQuantityTooLarge),
                            Some(t) => Ok((t, m.insert(id, q))),
                        }
                    },
                }
            },
        }
    }
}

/// The result of validating a sale: the transaction and the quantity of each item.
pub open spec fn validated_sell(input: LogSellTransactionInput) -> Result<(TransactionView, Map<i64, DecimalValue>), TransactionError> {
    if date_after(input.date, input.client_today) {
        Err(TransactionError::FutureDate)
    } else if time_input(input.time@) is None {
        Err(TransactionError::InvalidTime(TimeField::Time))
    } else if !valid_isin(normal_isin_text(input.isin@)) {
        Err(TransactionError::InvalidIsin)
    } else if decimal_input(input.share_price@) is None {
        Err(TransactionError::InvalidDecimal(DecimalField::SharePrice))
    } else if decimal_input(input.order_value@) is None {
        Err(TransactionError::InvalidDecimal(DecimalField::OrderValue))
    } else {
        let p = decimal_input(input.share_price@).unwrap();
        let o = decimal_input(input.order_value@).unwrap();
        if !decimal_positive(p) {
            Err(TransactionError::SharePriceNotPositive)
        } else if !decimal_positive(o) {
            Err(TransactionError::OrderValueNotPositive)
        } else {
            match sell_quantities(input.portfolio_item_id_to_quantity@) {
                Err(e) => Err(e),
                Ok((total, m)) => if input.portfolio_item_id_to_quantity@.len() == 0 {
                    Err(TransactionError::NoSellQuantity)
                } else if decimal_mul(total, p) is None {
                    Err(TransactionError::TradeValueTooLarge)
                } else if decimal_less(decimal_mul(total, p).unwrap(), o) {
                    Err(TransactionError::OrderValueAboveTradeValue)
                } else {
                    Ok((TransactionView {
                        transaction_type: TransactionType::Sell,
                        currency: input.currency,
                        date: input.date,
                        time: time_input(input.time@).unwrap(),
                        isin: normal_isin_text(input.isin@),
                        quantity: total,
                        share_price: p,
                        order_value: o,
                    }, m))
                },
            }
        }
    }
}

/// The decimal that the trimmed `input` stands for; the error names `field`.
pub fn parse_transaction_decimal(field: DecimalField, input: &str) -> (r: Result<DecimalValue, TransactionError>)
    ensures
        match r {
            Ok(d) => decimal_input(input@) == Some(d) && valid_decimal(d),
            Err(e) => decimal_input(input@) is None && e == TransactionError::InvalidDecimal(field),
        },
{
    let trimmed = trim_str(input);
    match parse_decimal(trimmed.as_str()) {
        Some(d) => Ok(d),
        None => Err(TransactionError::InvalidDecimal(field)),
    }
}

/// The time of day that the trimmed `input` stands for (`HH:MM:SS`); the error
/// names `field`.
pub fn parse_transaction_time(field: TimeField, input: &str) -> (r: Result<TimeOfDay, TransactionError>)
    ensures
        match r {
            Ok(t) => time_input(input@) == Some(t),
            Err(e) => time_input(input@) is None && e == TransactionError::InvalidTime(field),
        },
{
    let trimmed = trim_str(input);
    match parse_time_hms(trimmed.as_str()) {
        Some(t) => Ok(t),
        None => Err(TransactionError::InvalidTime(field)),
    }
}

/// Fails when the transaction date lies after the client's today.
pub fn validate_transaction_date(date: CivilDate, client_today: CivilDate) -> (r: Result<(), TransactionError>)
    ensures
        r is Err <==> date_after(date, client_today),
        r is Err ==> r == Err::<(), TransactionError>(TransactionError::FutureDate),
{
    if is_date_after(date, client_today) {
        return Err(TransactionError::FutureDate);
    }
    Ok(())
}

/// Validates a purchase: a date not after the client's today, a time
/// `HH:MM:SS`, a valid ISIN, positive quantity and share price, and an order
/// value of at least quantity times share price.
pub fn validate_log_buy_transaction_input(input: LogBuyTransactionInput) -> (r: Result<Transaction, TransactionError>)
    ensures
        match r {
            Ok(t) => validated_buy(input) == Ok::<TransactionView, TransactionError>(t@),
            Err(e) => validated_buy(input) == Err::<TransactionView, TransactionError>(e),
        },
        r matches Ok(t) ==> {
            &&& t.transaction_type == TransactionType::Buy
            &&& t.currency == input.currency
            &&& t.date == input.date
            &&& time_input(input.time@) == Some(t.time)
            &&& t.isin@ == normal_isin_text(input.isin@)
            &&& decimal_input(input.quantity@) == Some(t.quantity)
            &&& decimal_input(input.share_price@) == Some(t.share_price)
            &&& decimal_input(input.order_value@) == Some(t.order_value)
        },
{
    proof {
        lemma_validated_buy_keeps_logged_fields(input);
    }
    validate_transaction_date(input.date, input.client_today)?;
    let time = parse_transaction_time(TimeField::Time, input.time.as_str())?;
    let isin = match normalize_isin(input.isin.as_str()) {
        Ok(isin) => isin,
        Err(_) => {
            return Err(TransactionError::InvalidIsin);
        },
    };
    let quantity = parse_transaction_decimal(DecimalField::Quantity, input.quantity.as_str())?;
    let share_price = parse_transaction_decimal(DecimalField::SharePrice, input.share_price.as_str())?;
    let order_value = parse_transaction_decimal(DecimalField::OrderValue, input.order_value.as_str())?;
    if !decimal_is_positive(quantity) {
        return Err(TransactionError::QuantityNotPositive);
    }
    if !decimal_is_positive(share_price) {
        return Err(TransactionError::SharePriceNotPositive);
    }
    let trade_value = match decimal_checked_mul(quantity, share_price) {
        Some(v) => v,
        None => {
            return Err(TransactionError::TradeValueTooLarge);
        },
    };
    if decimal_lt(order_value, trade_value) {
        return Err(TransactionError::OrderValueBelowTradeValue);
    }
    Ok(Transaction {
        transaction_type: TransactionType::Buy,
        currency: input.currency,
        date: input.date,
        time,
        isin,
        quantity,
        share_price,
        order_value,
    })
}

proof fn lemma_sell_quantities_prefix_err(items: Seq<(i64, String)>, k: int, e: TransactionError)
    requires
        0 <= k <= items.len(),
        sell_quantities(items.take(k)) == Err::<(DecimalValue, Map<i64, DecimalValue>), TransactionError>(e),
    ensures
        sell_quantities(items) == Err::<(DecimalValue, Map<i64, DecimalValue>), TransactionError>(e),
    decreases items.len() - k,
{
    if k < items.len() {
        assert(items.take(k + 1).drop_last() =~= items.take(k));
        lemma_sell_quantities_prefix_err(items, k + 1, e);
    } else {
        assert(items.take(k) =~= items);
    }
}

/// No portfolio item id occurs twice in `s` (the entries of a map by item id).
pub open spec fn distinct_item_ids<V>(s: Seq<(i64, V)>) -> bool {
    forall|i: int, j: int| 0 <= i < j < s.len() ==> (#[trigger] s[i]).0 != (#[trigger] s[j]).0
}

/// Validates a sale: a date not after the client's today, a time `HH:MM:SS`, a
/// valid ISIN, positive share price and order value, at least one item with a
/// positive quantity, and an order value of at most the total quantity times
/// the share price.
pub fn validate_log_sell_transaction_input(input: LogSellTransactionInput) -> (r: Result<SellTransaction, TransactionError>)
    requires
        distinct_item_ids(input.portfolio_item_id_to_quantity@),
    ensures
        match r {
            Ok(s) => validated_sell(input) == Ok::<(TransactionView, Map<i64, DecimalValue>), TransactionError>(
                (s.transaction@, s.portfolio_item_id_to_quantity@),
            ),
            Err(e) => validated_sell(input) == Err::<(TransactionView, Map<i64, DecimalValue>), TransactionError>(e),
        },
        r matches Ok(s) ==> {
            &&& s.transaction.transaction_type == TransactionType::Sell
            &&& s.transaction.currency == input.currency
            &&& s.transaction.date == input.date
            &&& time_input(input.time@) == Some(s.transaction.time)
            &&& s.transaction.isin@ == normal_isin_text(input.isin@)
            &&& decimal_input(input.share_price@) == Some(s.transaction.share_price)
            &&& decimal_input(input.order_value@) == Some(s.transaction.order_value)
            &&& forall|i: int| 0 <= i < input.portfolio_item_id_to_quantity@.len()
                ==> s.portfolio_item_id_to_quantity@.contains_key(#[trigger] input.portfolio_item_id_to_quantity@[i].0)
                && decimal_input(input.portfolio_item_id_to_quantity@[i].1@)
                    == Some(s.portfolio_item_id_to_quantity@[input.portfolio_item_id_to_quantity@[i].0])
            &&& forall|id: i64| #[trigger] s.portfolio_item_id_to_quantity@.contains_key(id) ==> exists|i: int|
                0 <= i < input.portfolio_item_id_to_quantity@.len() && input.portfolio_item_id_to_quantity@[i].0 == id
        },
{
    proof {
        lemma_validated_sell_keeps_logged_fields(input);
    }
    validate_transaction_date(input.date, input.client_today)?;
    let time = parse_transaction_time(TimeField::Time, input.time.as_str())?;
    let isin = match normalize_isin(input.isin.as_str()) {
        Ok(isin) => isin,
        Err(_) => {
            return Err(TransactionError::InvalidIsin);
        },
    };
    let share_price = parse_transaction_decimal(DecimalField::SharePrice, input.share_price.as_str())?;
    let order_value = parse_transaction_decimal(DecimalField::OrderValue, input.order_value.as_str())?;
    if !decimal_is_positive(share_price) {
        return Err(TransactionError::SharePriceNotPositive);
    }
    if !decimal_is_positive(order_value) {
        return Err(TransactionError::OrderValueNotPositive);
    }
    let ghost items = input.portfolio_item_id_to_quantity@;
    let mut total_quantity = decimal_zero();
    let mut quantities: BTreeMap<i64, DecimalValue> = BTreeMap::new();
    let mut i: usize = 0;
    while i < input.portfolio_item_id_to_quantity.len()
        invariant
            i <= items.len(),
            items == input.portfolio_item_id_to_quantity@,
            valid_decimal(total_quantity),
            !date_after(input.date, input.client_today),
            time_input(input.time@) == Some(time),
            valid_isin(normal_isin_text(input.isin@)),
            isin@ == normal_isin_text(input.isin@),
            decimal_input(input.share_price@) == Some(share_price),
            decimal_input(input.order_value@) == Some(order_value),
            valid_decimal(share_price),
            valid_decimal(order_value),
            decimal_positive(share_price),
            decimal_positive(order_value),
            sell_quantities(items.take(i as int)) == Ok::<(DecimalValue, Map<i64, DecimalValue>), TransactionError>(
                (total_quantity, quantities@),
            ),
        decreases items.len() - i,
    {
        assert(items.take(i + 1).drop_last() =~= items.take(i as int));
        assert(items.take(i + 1).last() == items[i as int]);
        let id = input.portfolio_item_id_to_quantity[i].0;
        let quantity = match parse_transaction_decimal(
            DecimalField::Quantity,
            input.portfolio_item_id_to_quantity[i].1.as_str(),
        ) {
            Ok(q) => q,
            Err(e) => {
                proof {
                    lemma_sell_quantities_prefix_err(items, i + 1, e);
                }
                return Err(e);
            },
        };
        if !decimal_is_positive(quantity) {
            proof {
                lemma_sell_quantities_prefix_err(items, i + 1, TransactionError::QuantityNotPositive);
            }
            return Err(TransactionError::QuantityNotPositive);
        }
        total_quantity = match decimal_checked_add(total_quantity, quantity) {
            Some(t) => t,
            None => {
                proof {
                    lemma_sell_quantities_prefix_err(items, i + 1, TransactionError::TotalQuantityTooLarge);
                }
                return Err(TransactionError::TotalQuantityTooLarge);
            },
        };
        quantities.insert(id, quantity);
        i += 1;
    }
    assert(items.take(i as int) =~= items);
    if input.portfolio_item_id_to_quantity.len() == 0 {
        return Err(TransactionError::NoSellQuantity);
    }
    let trade_value = match decimal_checked_mul(total_quantity, share_price) {
        Some(v) => v,
        None => {
            return Err(TransactionError::TradeValueTooLarge);
        },
    };
    if decimal_lt(trade_value, order_value) {
        return Err(TransactionError::OrderValueAboveTradeValue);
    }
    Ok(SellTransaction {
        transaction: Transaction {
            transaction_type: TransactionType::Sell,
            currency: input.currency,
            date: input.date,
            time,
            isin,
            quantity: total_quantity,
            share_price,
            order_value,
        },
        portfolio_item_id_to_quantity: quantities,
    })
}


/// The errors of checking one portfolio item of a sale.
#[derive(Debug, Clone, PartialEq, Eq)]
pub enum SellItemError {
    /// An error of logging a transaction.
    Transaction(TransactionError),
    /// The stored buy date is no date: the text of `jiff`'s error.
    InvalidBuyDate(String),
}

impl SellItemError {
    /// The text of the error.
    pub fn message(&self) -> (r: String)
        ensures
            r@ == match self {
                SellItemError::Transaction(e) => transaction_error_text(*e),
                SellItemError::InvalidBuyDate(m) => m@,
            },
    {
        match self {
            SellItemError::Transaction(e) => e.message(),
            SellItemError::InvalidBuyDate(m) => m.clone(),
        }
    }
}

/// The result of checking a portfolio item of the sold ISIN, bought on
/// `buy_date`: it must have been bought no later than the sale, and must hold
/// at least the quantity sold.
pub open spec fn sell_item_check(
    sell_date: CivilDate,
    sell_time: TimeOfDay,
    quantity: DecimalValue,
    remaining_quantity: Seq<char>,
    buy_date: CivilDate,
    buy_time: Seq<char>,
) -> Result<(), TransactionError> {
    if time_input(buy_time) is None {
        Err(TransactionError::InvalidTime(TimeField::BuyTime))
    } else if moment_before(sell_date, sell_time, buy_date, time_input(buy_time).unwrap()) {
        Err(TransactionError::SellBeforeBuy)
    } else if decimal_parts(rust_decimal_from_str(remaining_quantity)) is None {
        Err(TransactionError::InvalidRemainingQuantity)
    } else if decimal_less(decimal_parts(rust_decimal_from_str(remaining_quantity)).unwrap(), quantity) {
        Err(TransactionError::SellQuantityExceedsRemaining)
    } else {
        Ok(())
    }
}

/// Checks one portfolio item that a sale sells `quantity` of, given what the
/// database holds of it: the asset it belongs to (it must be the sold one),
/// its remaining quantity, and the date and time it was bought (a stored date
/// that is no date fails with `jiff`'s error text).
pub fn check_sell_item(
    asset_id: i64,
    sell: &Transaction,
    quantity: DecimalValue,
    item_asset_id: i64,
    remaining_quantity: &str,
    buy_date: &str,
    buy_time: &str,
) -> (r: Result<(), SellItemError>)
    requires
        valid_decimal(quantity),
    ensures
        if item_asset_id != asset_id {
            r == Err::<(), SellItemError>(SellItemError::Transaction(TransactionError::ItemOfOtherIsin))
        } else {
            match jiff_date_strptime_ymd(buy_date@) {
                Err(text) => r matches Err(SellItemError::InvalidBuyDate(m)) && m@ == text,
                Ok(_) => match sell_item_check(
                    sell.date,
                    sell.time,
                    quantity,
                    remaining_quantity@,
                    crate::civil::date_parts(jiff_date_strptime_ymd(buy_date@)).unwrap(),
                    buy_time@,
                ) {
                    Ok(_) => r is Ok,
                    Err(e) => r == Err::<(), SellItemError>(SellItemError::Transaction(e)),
                },
            }
        },
{
    if item_asset_id != asset_id {
        return Err(SellItemError::Transaction(TransactionError::ItemOfOtherIsin));
    }
    let buy_date = match parse_date_ymd(buy_date) {
        Ok(d) => d,
        Err(text) => {
            return Err(SellItemError::InvalidBuyDate(text));
        },
    };
    let buy_time = match parse_transaction_time(TimeField::BuyTime, buy_time) {
        Ok(t) => t,
        Err(e) => {
            return Err(SellItemError::Transaction(e));
        },
    };
    if is_moment_before(sell.date, sell.time, buy_date, buy_time) {
        return Err(SellItemError::Transaction(TransactionError::SellBeforeBuy));
    }
    let remaining = match parse_decimal(remaining_quantity) {
        Some(d) => d,
        None => {
            return Err(SellItemError::Transaction(TransactionError::InvalidRemainingQuantity));
        },
    };
    if decimal_lt(remaining, quantity) {
        return Err(SellItemError::Transaction(TransactionError::SellQuantityExceedsRemaining));
    }
    Ok(())
}

/// The remaining quantity of a portfolio item after `quantity` of it is sold.
pub fn new_remaining_quantity(remaining_quantity: &str, quantity: DecimalValue) -> (r: Result<DecimalValue, TransactionError>)
    requires
        valid_decimal(quantity),
    ensures
        match decimal_parts(rust_decimal_from_str(remaining_quantity@)) {
            None => r == Err::<DecimalValue, TransactionError>(TransactionError::InvalidRemainingQuantity),
            Some(rem) => match decimal_parts(rust_decimal_checked_sub(rem.mantissa, rem.scale, quantity.mantissa, quantity.scale)) {
                None => r == Err::<DecimalValue, TransactionError>(TransactionError::RemainingQuantityTooSmall),
                Some(d) => r == Ok::<DecimalValue, TransactionError>(d) && valid_decimal(d),
            },
        },
{
    let remaining = match parse_decimal(remaining_quantity) {
        Some(d) => d,
        None => {
            return Err(TransactionError::InvalidRemainingQuantity);
        },
    };
    match decimal_checked_sub(remaining, quantity) {
        Some(d) => Ok(d),
        None => Err(TransactionError::RemainingQuantityTooSmall),
    }
}


/// A purchase that passes validation is not dated after the client's today,
/// has a valid ISIN, a quantity and share price greater than 0, and an order
/// value of at least quantity times share price.
pub proof fn lemma_validated_buy_covers_trade_value(input: LogBuyTransactionInput)
    requires
        validated_buy(input) is Ok,
    ensures
        ({
            let t = validated_buy(input)->Ok_0;
            &&& t.transaction_type == TransactionType::Buy
            &&& !date_after(t.date, input.client_today)
            &&& valid_isin(t.isin)
            &&& decimal_positive(t.quantity)
            &&& decimal_positive(t.share_price)
            &&& decimal_mul(t.quantity, t.share_price) is Some
            &&& !decimal_less(t.order_value, decimal_mul(t.quantity, t.share_price)->Some_0)
        }),
{
}

/// The quantities of a sale that are read without error are all greater than 0.
proof fn lemma_sell_quantities_positive(items: Seq<(i64, String)>)
    requires
        sell_quantities(items) is Ok,
    ensures
        forall|id: i64| #[trigger] sell_quantities(items)->Ok_0.1.contains_key(id)
            ==> decimal_positive(sell_quantities(items)->Ok_0.1[id]),
        items.len() > 0 ==> sell_quantities(items)->Ok_0.1.contains_key(items.last().0),
    decreases items.len(),
{
    if items.len() > 0 {
        lemma_sell_quantities_positive(items.drop_last());
    }
}

/// A sale that passes validation is not dated after the client's today, has
/// a valid ISIN, a share price and order value greater than 0, at least one
/// sold item, each with a quantity greater than 0, and an order value of at
/// most the total quantity times the share price.
pub proof fn lemma_validated_sell_within_trade_value(input: LogSellTransactionInput)
    requires
        validated_sell(input) is Ok,
    ensures
        ({
            let (t, quantities) = validated_sell(input)->Ok_0;
            &&& t.transaction_type == TransactionType::Sell
            &&& !date_after(t.date, input.client_today)
            &&& valid_isin(t.isin)
            &&& decimal_positive(t.share_price)
            &&& decimal_positive(t.order_value)
            &&& exists|id: i64| quantities.contains_key(id)
            &&& forall|id: i64| #[trigger] quantities.contains_key(id) ==> decimal_positive(quantities[id])
            &&& decimal_mul(t.quantity, t.share_price) is Some
            &&& !decimal_less(decimal_mul(t.quantity, t.share_price)->Some_0, t.order_value)
        }),
{
    lemma_sell_quantities_positive(input.portfolio_item_id_to_quantity@);
    let quantities = validated_sell(input)->Ok_0.1;
    let items = input.portfolio_item_id_to_quantity@;
    assert(quantities.contains_key(items.last().0));
}


/// A validated purchase records what was logged: a buy in the logged
/// currency, on the logged date, at the logged time, of the logged ISIN in
/// normal form, with the quantity, share price and order value that the
/// logged texts stand for.
pub proof fn lemma_validated_buy_keeps_logged_fields(input: LogBuyTransactionInput)
    ensures
        validated_buy(input) matches Ok(t) ==> {
            &&& t.transaction_type == TransactionType::Buy
            &&& t.currency == input.currency
            &&& t.date == input.date
            &&& time_input(input.time@) == Some(t.time)
            &&& t.isin == normal_isin_text(input.isin@)
            &&& decimal_input(input.quantity@) == Some(t.quantity)
            &&& decimal_input(input.share_price@) == Some(t.share_price)
            &&& decimal_input(input.order_value@) == Some(t.order_value)
        },
{
}

proof fn lemma_sell_quantities_of_items(items: Seq<(i64, String)>)
    requires
        distinct_item_ids(items),
    ensures
        sell_quantities(items) matches Ok((total, m)) ==> {
            &&& forall|i: int| 0 <= i < items.len() ==> m.contains_key(#[trigger] items[i].0)
                && decimal_input(items[i].1@) == Some(m[items[i].0])
            &&& forall|id: i64| #[trigger] m.contains_key(id) ==> exists|i: int| 0 <= i < items.len() && items[i].0 == id
        },
    decreases items.len(),
{
    if items.len() > 0 {
        let prev = items.drop_last();
        assert(distinct_item_ids(prev)) by {
            assert forall|i: int, j: int| 0 <= i < j < prev.len() implies (#[trigger] prev[i]).0 != (#[trigger] prev[j]).0 by {
                assert(prev[i] == items[i] && prev[j] == items[j]);
            }
        }
        lemma_sell_quantities_of_items(prev);
        if let Ok((total, m)) = sell_quantities(items) {
            let last = items.last();
            assert(items[items.len() - 1] == last);
            let (t0, m0) = sell_quantities(prev)->Ok_0;
            assert(m == m0.insert(last.0, decimal_input(last.1@).unwrap()));
            assert forall|i: int| 0 <= i < items.len() implies m.contains_key(#[trigger] items[i].0)
                && decimal_input(items[i].1@) == Some(m[items[i].0]) by {
                if i < prev.len() {
                    assert(items[i] == prev[i]);
                    assert(items[i].0 != last.0);
                }
            }
            assert forall|id: i64| #[trigger] m.contains_key(id) implies exists|i: int| 0 <= i < items.len() && items[i].0 == id by {
                if id == last.0 {
                    assert(items[items.len() - 1].0 == id);
                } else {
                    assert(m0.contains_key(id));
                    let i = choose|i: int| 0 <= i < prev.len() && prev[i].0 == id;
                    assert(items[i] == prev[i]);
                }
            }
        }
    }
}

/// A validated sale records what was logged: a sale in the logged currency,
/// on the logged date, at the logged time, of the logged ISIN in normal form,
/// at the share price and order value that the logged texts stand for; and it
/// sells of each listed portfolio item exactly the quantity typed for it, and
/// of no other item.
pub proof fn lemma_validated_sell_keeps_logged_fields(input: LogSellTransactionInput)
    requires
        distinct_item_ids(input.portfolio_item_id_to_quantity@),
    ensures
        validated_sell(input) matches Ok((t, m)) ==> {
            &&& t.transaction_type == TransactionType::Sell
            &&& t.currency == input.currency
            &&& t.date == input.date
            &&& time_input(input.time@) == Some(t.time)
            &&& t.isin == normal_isin_text(input.isin@)
            &&& decimal_input(input.share_price@) == Some(t.share_price)
            &&& decimal_input(input.order_value@) == Some(t.order_value)
            &&& forall|i: int| 0 <= i < input.portfolio_item_id_to_quantity@.len()
                ==> m.contains_key(#[trigger] input.portfolio_item_id_to_quantity@[i].0)
                && decimal_input(input.portfolio_item_id_to_quantity@[i].1@) == Some(m[input.portfolio_item_id_to_quantity@[i].0])
            &&& forall|id: i64| #[trigger] m.contains_key(id) ==> exists|i: int|
                0 <= i < input.portfolio_item_id_to_quantity@.len() && input.portfolio_item_id_to_quantity@[i].0 == id
        },
{
    lemma_sell_quantities_of_items(input.portfolio_item_id_to_quantity@);
}

impl LogBuyTransactionInput {
    /// The empty purchase form of `today`, at `time` (the current time to the
    /// second), in euros.
    pub fn starting(today: CivilDate, time: String) -> (r: Self)
        ensures
            r.currency == Currency::Eur,
            r.date == today,
            r.client_today == today,
            r.time@ == time@,
            r.isin@.len() == 0,
            r.quantity@.len() == 0,
            r.share_price@.len() == 0,
            r.order_value@.len() == 0,
    {
        LogBuyTransactionInput {
            currency: Currency::Eur,
            isin: String::new(),
            quantity: String::new(),
            share_price: String::new(),
            order_value: String::new(),
            date: today,
            time,
            client_today: today,
        }
    }
}

impl LogSellTransactionInput {
    /// The empty sale form of `today`, at `time` (the current time to the
    /// second), in euros.
    pub fn starting(today: CivilDate, time: String) -> (r: Self)
        ensures
            r.currency == Currency::Eur,
            r.date == today,
            r.client_today == today,
            r.time@ == time@,
            r.isin@.len() == 0,
            r.portfolio_item_id_to_quantity@.len() == 0,
            r.share_price@.len() == 0,
            r.order_value@.len() == 0,
    {
        LogSellTransactionInput {
            currency: Currency::Eur,
            isin: String::new(),
            portfolio_item_id_to_quantity: Vec::new(),
            share_price: String::new(),
            order_value: String::new(),
            date: today,
            time,
            client_today: today,
        }
    }
}

} // verus!
