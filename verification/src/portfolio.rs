//! The open portfolio: the buy lots that still hold shares, the lots of one
//! ISIN, and the positions that sum the lots per asset and currency.
use vstd::prelude::*;
use crate::decimal::{
    decimal_checked_add, decimal_checked_div, decimal_checked_mul, decimal_is_positive,
    decimal_normalized_string, decimal_parts, decimal_positive, decimal_zero, parse_decimal,
    rust_decimal_checked_add, rust_decimal_checked_div, rust_decimal_checked_mul,
    rust_decimal_from_str, rust_decimal_normalized_text, valid_decimal, DecimalValue,
};
use crate::isin::{normal_isin_text, normalize_isin, valid_isin, IsinError};
use crate::text::{
    compare_text, lemma_text_less_irreflexive, lemma_text_less_total, lemma_text_less_transitive,
    str_eq, text_less, Precedence,
};

verus! {

/// A portfolio item, that is a buy lot, as the database lists it: the lot's id,
/// the date and time of the purchase, the asset's name and ISIN, the quantity
/// that the lot still holds, the share price and order value of the purchase,
/// and the currency.
#[derive(Debug, Clone)]
pub struct QueriedPortfolioItem {
    pub id: i64,
    pub buy_date: String,
    pub buy_time: String,
    pub asset_name: Option<String>,
    pub isin: String,
    pub quantity: String,
    pub share_price: String,
    pub order_value: String,
    pub currency: String,
}

/// A portfolio item with its texts as character sequences.
pub struct PortfolioItemView {
    pub id: i64,
    pub buy_date: Seq<char>,
    pub buy_time: Seq<char>,
    pub asset_name: Option<Seq<char>>,
    pub isin: Seq<char>,
    pub quantity: Seq<char>,
    pub share_price: Seq<char>,
    pub order_value: Seq<char>,
    pub currency: Seq<char>,
}

/// An optional text as an optional character sequence.
pub open spec fn opt_text(o: Option<String>) -> Option<Seq<char>> {
    match o {
        Some(s) => Some(s@),
        None => None,
    }
}

impl View for QueriedPortfolioItem {
    type V = PortfolioItemView;

    open spec fn view(&self) -> PortfolioItemView {
        PortfolioItemView {
            id: self.id,
            buy_date: self.buy_date@,
            buy_time: self.buy_time@,
            asset_name: opt_text(self.asset_name),
            isin: self.isin@,
            quantity: self.quantity@,
            share_price: self.share_price@,
            order_value: self.order_value@,
            currency: self.currency@,
        }
    }
}

/// The views of a list of portfolio items.
pub open spec fn item_views(v: Seq<QueriedPortfolioItem>) -> Seq<PortfolioItemView> {
    v.map_values(|r: QueriedPortfolioItem| r@)
}

/// The item still holds shares: its remaining quantity is a decimal greater
/// than zero.
pub open spec fn holds_shares(item: PortfolioItemView) -> bool {
    match decimal_parts(rust_decimal_from_str(item.quantity)) {
        Some(q) => decimal_positive(q),
        None => false,
    }
}

/// The items that still hold shares, in their order.
pub open spec fn open_items(items: Seq<PortfolioItemView>) -> Seq<PortfolioItemView>
    decreases items.len(),
{
    if items.len() == 0 {
        Seq::empty()
    } else {
        let rest = open_items(items.drop_last());
        if holds_shares(items.last()) {
            rest.push(items.last())
        } else {
            rest
        }
    }
}

/// A copy of an optional text.
pub(crate) fn clone_opt_text(o: &Option<String>) -> (r: Option<String>)
    ensures
        r == *o,
{
    match o {
        Some(s) => Some(s.clone()),
        None => None,
    }
}

/// A copy of a portfolio item.
fn clone_item(item: &QueriedPortfolioItem) -> (r: QueriedPortfolioItem)
    ensures
        r == *item,
{
    QueriedPortfolioItem {
        id: item.id,
        buy_date: item.buy_date.clone(),
        buy_time: item.buy_time.clone(),
        asset_name: clone_opt_text(&item.asset_name),
        isin: item.isin.clone(),
        quantity: item.quantity.clone(),
        share_price: item.share_price.clone(),
        order_value: item.order_value.clone(),
        currency: item.currency.clone(),
    }
}

/// The items of `rows` whose remaining quantity is a decimal greater than
/// zero, in their order: the lots that are still open.
pub fn open_portfolio_items(rows: &Vec<QueriedPortfolioItem>) -> (r: Vec<QueriedPortfolioItem>)
    ensures
        item_views(r@) == open_items(item_views(rows@)),
{
    let mut out: Vec<QueriedPortfolioItem> = Vec::new();
    let mut i: usize = 0;
    while i < rows.len()
        invariant
            i <= rows.len(),
            item_views(out@) == open_items(item_views(rows@.take(i as int))),
        decreases rows.len() - i,
    {
        let ghost prefix = rows@.take(i as int + 1);
        assert(prefix.drop_last() =~= rows@.take(i as int));
        assert(item_views(prefix).drop_last() =~= item_views(prefix.drop_last()));
        let keep = match parse_decimal(rows[i].quantity.as_str()) {
            Some(q) => decimal_is_positive(q),
            None => false,
        };
        if keep {
            let ghost before = out@;
            out.push(clone_item(&rows[i]));
            assert(item_views(out@) =~= item_views(before).push(rows@[i as int]@));
        }
        i += 1;
    }
    assert(rows@.take(rows.len() as int) =~= rows@);
    out
}

/// A lot of one ISIN, as the sale of shares offers it.
#[derive(Debug, Clone)]
pub struct PortfolioIsinItem {
    pub portfolio_item_id: i64,
    pub buy_date: String,
    pub buy_time: String,
    pub quantity: String,
    pub share_price: String,
    pub order_value: String,
    pub currency: String,
}

/// A lot of one ISIN with its texts as character sequences.
pub struct PortfolioIsinView {
    pub portfolio_item_id: i64,
    pub buy_date: Seq<char>,
    pub buy_time: Seq<char>,
    pub quantity: Seq<char>,
    pub share_price: Seq<char>,
    pub order_value: Seq<char>,
    pub currency: Seq<char>,
}

impl View for PortfolioIsinItem {
    type V = PortfolioIsinView;

    open spec fn view(&self) -> PortfolioIsinView {
        PortfolioIsinView {
            portfolio_item_id: self.portfolio_item_id,
            buy_date: self.buy_date@,
            buy_time: self.buy_time@,
            quantity: self.quantity@,
            share_price: self.share_price@,
            order_value: self.order_value@,
            currency: self.currency@,
        }
    }
}

/// The views of a list of lots of one ISIN.
pub open spec fn isin_item_views(v: Seq<PortfolioIsinItem>) -> Seq<PortfolioIsinView> {
    v.map_values(|r: PortfolioIsinItem| r@)
}

/// A portfolio item as a lot of its ISIN.
pub open spec fn as_isin_item(item: PortfolioItemView) -> PortfolioIsinView {
    PortfolioIsinView {
        portfolio_item_id: item.id,
        buy_date: item.buy_date,
        buy_time: item.buy_time,
        quantity: item.quantity,
        share_price: item.share_price,
        order_value: item.order_value,
        currency: item.currency,
    }
}

/// The items of ISIN `isin`, in their order, as lots of that ISIN.
pub open spec fn items_of_isin(items: Seq<PortfolioItemView>, isin: Seq<char>) -> Seq<PortfolioIsinView>
    decreases items.len(),
{
    if items.len() == 0 {
        Seq::empty()
    } else {
        let rest = items_of_isin(items.drop_last(), isin);
        if items.last().isin == isin {
            rest.push(as_isin_item(items.last()))
        } else {
            rest
        }
    }
}

/// The open lots of the ISIN that `isin` gives, trimmed and in upper case, in
/// the order of `rows`; an error if that is no valid ISIN.
pub fn list_portfolio_isin_items(isin: String, rows: Vec<QueriedPortfolioItem>) -> (r: Result<Vec<PortfolioIsinItem>, IsinError>)
    ensures
        match r {
            Ok(items) => {
                &&& valid_isin(normal_isin_text(isin@))
                &&& isin_item_views(items@) == items_of_isin(open_items(item_views(rows@)), normal_isin_text(isin@))
            },
            Err(_) => !valid_isin(normal_isin_text(isin@)),
        },
        r matches Ok(items) ==> forall|j: int| 0 <= j < items.len()
            ==> lot_from_open_item((#[trigger] items@[j])@, item_views(rows@), normal_isin_text(isin@)),
{
    let ghost n = normal_isin_text(isin@);
    let isin = normalize_isin(isin.as_str())?;
    let open = open_portfolio_items(&rows);
    let ghost all = item_views(open@);
    let mut out: Vec<PortfolioIsinItem> = Vec::new();
    let mut i: usize = 0;
    while i < open.len()
        invariant
            i <= open.len(),
            all == item_views(open@),
            isin_item_views(out@) == items_of_isin(all.take(i as int), isin@),
        decreases open.len() - i,
    {
        assert(all.take(i as int + 1).drop_last() =~= all.take(i as int));
        assert(all.take(i as int + 1).last() == open@[i as int]@);
        if str_eq(open[i].isin.as_str(), isin.as_str()) {
            let item = &open[i];
            let lot = PortfolioIsinItem {
                portfolio_item_id: item.id,
                buy_date: item.buy_date.clone(),
                buy_time: item.buy_time.clone(),
                quantity: item.quantity.clone(),
                share_price: item.share_price.clone(),
                order_value: item.order_value.clone(),
                currency: item.currency.clone(),
            };
            let ghost before = out@;
            out.push(lot);
            assert(isin_item_views(out@) =~= isin_item_views(before).push(as_isin_item(all[i as int])));
        }
        i += 1;
    }
    assert(all.take(open.len() as int) =~= all);
    proof {
        let views = item_views(rows@);
        assert forall|j: int| 0 <= j < out.len() implies lot_from_open_item((#[trigger] out@[j])@, views, n) by {
            assert(isin_item_views(out@)[j] == out@[j]@);
            lemma_isin_items_are_open_lots(views, isin@, j);
        }
    }
    Ok(out)
}


/// What a position is summed by: the asset's name, its ISIN and the currency.
pub struct PositionKey {
    pub asset_name: Option<Seq<char>>,
    pub isin: Seq<char>,
    pub currency: Seq<char>,
}

/// An absent name comes before every name; names go in the order of texts.
pub open spec fn name_less(a: Option<Seq<char>>, b: Option<Seq<char>>) -> bool {
    match (a, b) {
        (None, Some(_)) => true,
        (Some(x), Some(y)) => text_less(x, y),
        _ => false,
    }
}

/// The order of positions: by name, then ISIN, then currency.
pub open spec fn key_less(a: PositionKey, b: PositionKey) -> bool {
    ||| name_less(a.asset_name, b.asset_name)
    ||| a.asset_name == b.asset_name && text_less(a.isin, b.isin)
    ||| a.asset_name == b.asset_name && a.isin == b.isin && text_less(a.currency, b.currency)
}

/// No position key comes before itself.
pub proof fn lemma_key_less_irreflexive(a: PositionKey)
    ensures
        !key_less(a, a),
{
    lemma_text_less_irreflexive(a.isin);
    lemma_text_less_irreflexive(a.currency);
    if let Some(x) = a.asset_name {
        lemma_text_less_irreflexive(x);
    }
}

/// The order of position keys is transitive.
pub proof fn lemma_key_less_transitive(a: PositionKey, b: PositionKey, c: PositionKey)
    requires
        key_less(a, b),
        key_less(b, c),
    ensures
        key_less(a, c),
{
    if let (Some(x), Some(y), Some(z)) = (a.asset_name, b.asset_name, c.asset_name) {
        if text_less(x, y) && text_less(y, z) {
            lemma_text_less_transitive(x, y, z);
        }
    }
    if a.asset_name == b.asset_name && b.asset_name == c.asset_name {
        if text_less(a.isin, b.isin) && text_less(b.isin, c.isin) {
            lemma_text_less_transitive(a.isin, b.isin, c.isin);
        }
        if text_less(a.currency, b.currency) && text_less(b.currency, c.currency) {
            lemma_text_less_transitive(a.currency, b.currency, c.currency);
        }
    }
}

/// Of two different position keys, one comes before the other.
pub proof fn lemma_key_less_total(a: PositionKey, b: PositionKey)
    ensures
        a == b || key_less(a, b) || key_less(b, a),
{
    lemma_text_less_total(a.isin, b.isin);
    lemma_text_less_total(a.currency, b.currency);
    if let (Some(x), Some(y)) = (a.asset_name, b.asset_name) {
        lemma_text_less_total(x, y);
    }
}

/// The key of the position that an item belongs to.
pub open spec fn item_key(item: PortfolioItemView) -> PositionKey {
    PositionKey { asset_name: item.asset_name, isin: item.isin, currency: item.currency }
}

/// The errors of summing the open lots into positions.
#[derive(Debug, Clone, Copy, PartialEq, Eq, Structural)]
pub enum PortfolioError {
    InvalidRemainingQuantity(i64),
    InvalidSharePrice(i64),
    ItemValueTooLarge,
    QuantityTooLarge,
    TotalValueTooLarge,
    QuantityNotPositive,
}

impl PortfolioError {
    /// The text of the error, with the id of the portfolio item where it has one.
    pub fn message(&self) -> (r: String)
        ensures
            r@ == match self {
                PortfolioError::InvalidRemainingQuantity(id) => "Invalid remaining quantity for portfolio item "@ + crate::text::int_text(*id as int),
                PortfolioError::InvalidSharePrice(id) => "Invalid share price for portfolio item "@ + crate::text::int_text(*id as int),
                PortfolioError::ItemValueTooLarge => "Portfolio item value is too large"@,
                PortfolioError::QuantityTooLarge => "Portfolio position quantity is too large"@,
                PortfolioError::TotalValueTooLarge => "Portfolio position total value is too large"@,
                PortfolioError::QuantityNotPositive => "Portfolio position quantity must be greater than 0"@,
            },
    {
        let mut m = String::new();
        match self {
            PortfolioError::InvalidRemainingQuantity(id) => {
                m.append("Invalid remaining quantity for portfolio item ");
                m.append(crate::text::i64_text(*id).as_str());
            },
            PortfolioError::InvalidSharePrice(id) => {
                m.append("Invalid share price for portfolio item ");
                m.append(crate::text::i64_text(*id).as_str());
            },
            PortfolioError::ItemValueTooLarge => m.append("Portfolio item value is too large"),
            PortfolioError::QuantityTooLarge => m.append("Portfolio position quantity is too large"),
            PortfolioError::TotalValueTooLarge => m.append("Portfolio position total value is too large"),
            PortfolioError::QuantityNotPositive => m.append("Portfolio position quantity must be greater than 0"),
        }
        m
    }
}

/// The quantity and total value of each position.
pub type PositionSums = Map<PositionKey, (DecimalValue, DecimalValue)>;

/// Zero, as `Decimal::ZERO` holds it.
pub open spec fn zero_decimal() -> DecimalValue {
    DecimalValue { mantissa: 0, scale: 0 }
}

/// The sums after adding one lot: its quantity is added to the quantity of
/// its position and its value, quantity times share price, to the total value.
pub open spec fn add_lot(m: PositionSums, item: PortfolioItemView) -> Result<PositionSums, PortfolioError> {
    match decimal_parts(rust_decimal_from_str(item.quantity)) {
        None => Err(PortfolioError::InvalidRemainingQuantity(item.id)),
        Some(q) => match decimal_parts(rust_decimal_from_str(item.share_price)) {
            None => Err(PortfolioError::InvalidSharePrice(item.id)),
            Some(p) => match decimal_parts(rust_decimal_checked_mul(q.mantissa, q.scale, p.mantissa, p.scale)) {
                None => Err(PortfolioError::ItemValueTooLarge),
                Some(v) => {
                    let k = item_key(item);
                    let sums = if m.contains_key(k) { m[k] } else { (zero_decimal(), zero_decimal()) };
                    match decimal_parts(rust_decimal_checked_add(sums.0.mantissa, sums.0.scale, q.mantissa, q.scale)) {
                        None => Err(PortfolioError::QuantityTooLarge),
                        Some(q1) => match decimal_parts(rust_decimal_checked_add(sums.1.mantissa, sums.1.scale, v.mantissa, v.scale)) {
                            None => Err(PortfolioError::TotalValueTooLarge),
                            Some(v1) => Ok(m.insert(k, (q1, v1))),
                        },
                    }
                },
            },
        },
    }
}

/// The sums of all positions after the lots of `items`, in order; the error
/// of the first lot that fails.
pub open spec fn position_sums(items: Seq<PortfolioItemView>) -> Result<PositionSums, PortfolioError>
    decreases items.len(),
{
    if items.len() == 0 {
        Ok(Map::empty())
    } else {
        match position_sums(items.drop_last()) {
            Ok(m) => add_lot(m, items.last()),
            Err(e) => Err(e),
        }
    }
}

/// A position of the portfolio overview: quantity, average share price and
/// total value, as normalised decimal texts.
#[derive(Debug, Clone)]
pub struct PortfolioOverviewItem {
    pub asset_name: Option<String>,
    pub isin: String,
    pub quantity: String,
    pub average_share_price: String,
    pub total_value: String,
    pub currency: String,
}

/// A position of the overview with its texts as character sequences.
pub struct PortfolioOverviewView {
    pub asset_name: Option<Seq<char>>,
    pub isin: Seq<char>,
    pub quantity: Seq<char>,
    pub average_share_price: Seq<char>,
    pub total_value: Seq<char>,
    pub currency: Seq<char>,
}

impl View for PortfolioOverviewItem {
    type V = PortfolioOverviewView;

    open spec fn view(&self) -> PortfolioOverviewView {
        PortfolioOverviewView {
            asset_name: opt_text(self.asset_name),
            isin: self.isin@,
            quantity: self.quantity@,
            average_share_price: self.average_share_price@,
            total_value: self.total_value@,
            currency: self.currency@,
        }
    }
}

/// The views of the positions of an overview.
pub open spec fn overview_views(v: Seq<PortfolioOverviewItem>) -> Seq<PortfolioOverviewView> {
    v.map_values(|r: PortfolioOverviewItem| r@)
}

/// The key of a position of the overview.
pub open spec fn overview_key(o: PortfolioOverviewView) -> PositionKey {
    PositionKey { asset_name: o.asset_name, isin: o.isin, currency: o.currency }
}

/// The average share price of a position: total value divided by quantity.
pub open spec fn average_price(sums: (DecimalValue, DecimalValue)) -> Option<DecimalValue> {
    decimal_parts(rust_decimal_checked_div(sums.1.mantissa, sums.1.scale, sums.0.mantissa, sums.0.scale))
}

/// The normalised text of a decimal.
pub open spec fn decimal_text(d: DecimalValue) -> Seq<char> {
    rust_decimal_normalized_text(d.mantissa, d.scale)
}

/// `o` shows the position whose sums are `sums`.
pub open spec fn shows_position(o: PortfolioOverviewView, sums: (DecimalValue, DecimalValue)) -> bool {
    match average_price(sums) {
        Some(a) => {
            &&& o.quantity == decimal_text(sums.0)
            &&& o.average_share_price == decimal_text(a)
            &&& o.total_value == decimal_text(sums.1)
        },
        None => false,
    }
}

/// `items` are the positions of `m`, one for each key, in the order of keys.
pub open spec fn overview_of(m: PositionSums, items: Seq<PortfolioOverviewView>) -> bool {
    &&& forall|i: int, j: int| 0 <= i < j < items.len() ==> key_less(overview_key(#[trigger] items[i]), overview_key(#[trigger] items[j]))
    &&& forall|i: int| 0 <= i < items.len() ==> m.contains_key(overview_key(#[trigger] items[i]))
    &&& forall|i: int| 0 <= i < items.len() ==> shows_position(#[trigger] items[i], m[overview_key(items[i])])
    &&& forall|k: PositionKey| #[trigger] m.contains_key(k) ==> exists|i: int| 0 <= i < items.len() && overview_key(#[trigger] items[i]) == k
}

/// Some position of `m` has no average share price.
pub open spec fn some_average_fails(m: PositionSums) -> bool {
    exists|k: PositionKey| #[trigger] m.contains_key(k) && average_price(m[k]) is None
}

/// A position while the lots are summed.
struct Position {
    asset_name: Option<String>,
    isin: String,
    currency: String,
    quantity: DecimalValue,
    total_value: DecimalValue,
}

impl Position {
    spec fn key(&self) -> PositionKey {
        PositionKey { asset_name: opt_text(self.asset_name), isin: self.isin@, currency: self.currency@ }
    }

    spec fn sums(&self) -> (DecimalValue, DecimalValue) {
        (self.quantity, self.total_value)
    }
}

/// `g` holds the positions of `m`, one for each key, in the order of keys, with
/// valid decimals.
spec fn holds_sums(g: Seq<Position>, m: PositionSums) -> bool {
    &&& forall|i: int, j: int| 0 <= i < j < g.len() ==> key_less(#[trigger] g[i].key(), #[trigger] g[j].key())
    &&& forall|i: int| 0 <= i < g.len() ==> m.contains_key(#[trigger] g[i].key())
    &&& forall|i: int| 0 <= i < g.len() ==> m[#[trigger] g[i].key()] == g[i].sums()
    &&& forall|i: int| 0 <= i < g.len() ==> valid_decimal(#[trigger] g[i].quantity) && valid_decimal(g[i].total_value)
    &&& forall|k: PositionKey| #[trigger] m.contains_key(k) ==> exists|i: int| 0 <= i < g.len() && #[trigger] g[i].key() == k
}

/// Compares two optional names in the order of `name_less`.
fn compare_names(a: &Option<String>, b: &Option<String>) -> (r: Precedence)
    ensures
        r == Precedence::Before <==> name_less(opt_text(*a), opt_text(*b)),
        r == Precedence::Same <==> opt_text(*a) == opt_text(*b),
        r == Precedence::After <==> name_less(opt_text(*b), opt_text(*a)),
{
    match (a, b) {
        (None, None) => Precedence::Same,
        (None, Some(_)) => Precedence::Before,
        (Some(_), None) => Precedence::After,
        (Some(x), Some(y)) => compare_text(x.as_str(), y.as_str()),
    }
}

/// Compares the key of a position with that of an item.
fn compare_position(p: &Position, item: &QueriedPortfolioItem) -> (r: Precedence)
    ensures
        r == Precedence::Before <==> key_less(p.key(), item_key(item@)),
        r == Precedence::Same <==> p.key() == item_key(item@),
        r == Precedence::After <==> key_less(item_key(item@), p.key()),
{
    proof {
        lemma_key_less_irreflexive(p.key());
        lemma_key_less_total(p.key(), item_key(item@));
        if key_less(p.key(), item_key(item@)) && key_less(item_key(item@), p.key()) {
            lemma_key_less_transitive(p.key(), item_key(item@), p.key());
        }
    }
    match compare_names(&p.asset_name, &item.asset_name) {
        Precedence::Same => match compare_text(p.isin.as_str(), item.isin.as_str()) {
            Precedence::Same => compare_text(p.currency.as_str(), item.currency.as_str()),
            other => other,
        },
        other => other,
    }
}

/// Adds one lot to the positions `g`, in the way of `add_lot`.
fn add_lot_to(g: &mut Vec<Position>, item: &QueriedPortfolioItem, Ghost(m): Ghost<PositionSums>) -> (r: Result<(), PortfolioError>)
    requires
        holds_sums(old(g)@, m),
    ensures
        match add_lot(m, item@) {
            Ok(m2) => r is Ok && holds_sums(final(g)@, m2),
            Err(e) => r == Err::<(), PortfolioError>(e),
        },
{
    let q = match parse_decimal(item.quantity.as_str()) {
        Some(q) => q,
        None => return Err(PortfolioError::InvalidRemainingQuantity(item.id)),
    };
    let p = match parse_decimal(item.share_price.as_str()) {
        Some(p) => p,
        None => return Err(PortfolioError::InvalidSharePrice(item.id)),
    };
    let v = match decimal_checked_mul(q, p) {
        Some(v) => v,
        None => return Err(PortfolioError::ItemValueTooLarge),
    };
    let ghost k = item_key(item@);
    // find the first position whose key is not before the item's
    let mut at: usize = 0;
    while at < g.len() && compare_position(&g[at], item) == Precedence::Before
        invariant
            at <= g.len(),
            holds_sums(g@, m),
            k == item_key(item@),
            forall|j: int| 0 <= j < at ==> key_less(#[trigger] g@[j].key(), k),
        decreases g.len() - at,
    {
        at += 1;
    }
    if at < g.len() && compare_position(&g[at], item) == Precedence::Same {
        let q1 = match decimal_checked_add(g[at].quantity, q) {
            Some(q1) => q1,
            None => return Err(PortfolioError::QuantityTooLarge),
        };
        let v1 = match decimal_checked_add(g[at].total_value, v) {
            Some(v1) => v1,
            None => return Err(PortfolioError::TotalValueTooLarge),
        };
        let updated = Position {
            asset_name: clone_opt_text(&g[at].asset_name),
            isin: g[at].isin.clone(),
            currency: g[at].currency.clone(),
            quantity: q1,
            total_value: v1,
        };
        let ghost before = g@;
        g.set(at, updated);
        proof {
            let m2 = m.insert(k, (q1, v1));
            assert forall|i: int| 0 <= i < g@.len() && i != at implies #[trigger] g@[i].key() != k by {
                if i < at {
                    lemma_key_less_irreflexive(k);
                } else {
                    assert(key_less(before[at as int].key(), before[i].key()));
                    lemma_key_less_irreflexive(k);
                }
            }
            assert forall|kk: PositionKey| #[trigger] m2.contains_key(kk) implies exists|i: int| 0 <= i < g@.len() && #[trigger] g@[i].key() == kk by {
                if kk == k {
                    assert(g@[at as int].key() == kk);
                } else {
                    let i = choose|i: int| 0 <= i < before.len() && #[trigger] before[i].key() == kk;
                    assert(g@[i].key() == kk);
                }
            }
            assert(holds_sums(g@, m2));
        }
        Ok(())
    } else {
        let ghost before = g@;
        proof {
            lemma_key_less_irreflexive(k);
            // every position from `at` on comes after the item
            assert forall|i: int| at <= i < before.len() implies key_less(k, #[trigger] before[i].key()) by {
                lemma_key_less_total(before[at as int].key(), k);
                if i > at {
                    lemma_key_less_transitive(k, before[at as int].key(), before[i].key());
                }
            }
            assert forall|i: int| 0 <= i < before.len() implies #[trigger] before[i].key() != k by {
                if i >= at {
                    assert(key_less(k, before[i].key()));
                }
            }
            assert(!m.contains_key(k));
        }
        let z = decimal_zero();
        let q1 = match decimal_checked_add(z, q) {
            Some(q1) => q1,
            None => return Err(PortfolioError::QuantityTooLarge),
        };
        let v1 = match decimal_checked_add(z, v) {
            Some(v1) => v1,
            None => return Err(PortfolioError::TotalValueTooLarge),
        };
        let fresh = Position {
            asset_name: clone_opt_text(&item.asset_name),
            isin: item.isin.clone(),
            currency: item.currency.clone(),
            quantity: q1,
            total_value: v1,
        };
        assert(fresh.key() == k);
        g.insert(at, fresh);
        proof {
            let m2 = m.insert(k, (q1, v1));
            assert forall|i: int| 0 <= i < g@.len() implies #[trigger] g@[i] == (if i < at { before[i] } else if i == at { fresh } else { before[i - 1] }) by {}
            assert forall|i: int, j: int| 0 <= i < j < g@.len() implies key_less(#[trigger] g@[i].key(), #[trigger] g@[j].key()) by {
                assert(g@[i] == (if i < at { before[i] } else if i == at { fresh } else { before[i - 1] }));
                assert(g@[j] == (if j < at { before[j] } else if j == at { fresh } else { before[j - 1] }));
            }
            assert forall|i: int| 0 <= i < g@.len() implies m2.contains_key(#[trigger] g@[i].key()) && m2[g@[i].key()] == g@[i].sums() by {
                assert(g@[i] == (if i < at { before[i] } else if i == at { fresh } else { before[i - 1] }));
            }
            assert forall|i: int| 0 <= i < g@.len() implies valid_decimal(#[trigger] g@[i].quantity) && valid_decimal(g@[i].total_value) by {
                assert(g@[i] == (if i < at { before[i] } else if i == at { fresh } else { before[i - 1] }));
            }
            assert forall|kk: PositionKey| #[trigger] m2.contains_key(kk) implies exists|i: int| 0 <= i < g@.len() && #[trigger] g@[i].key() == kk by {
                if kk == k {
                    assert(g@[at as int].key() == kk);
                } else {
                    let i = choose|i: int| 0 <= i < before.len() && #[trigger] before[i].key() == kk;
                    if i < at {
                        assert(g@[i].key() == kk);
                    } else {
                        assert(g@[i + 1].key() == kk);
                    }
                }
            }
            assert(holds_sums(g@, m2));
        }
        Ok(())
    }
}


/// Once summing the lots fails, it fails with that error for every longer list.
proof fn lemma_position_sums_err(items: Seq<PortfolioItemView>, n: int)
    requires
        0 <= n <= items.len(),
        position_sums(items.take(n)) is Err,
    ensures
        position_sums(items) == position_sums(items.take(n)),
    decreases items.len() - n,
{
    if n < items.len() {
        assert(items.take(n + 1).drop_last() =~= items.take(n));
        lemma_position_sums_err(items, n + 1);
    } else {
        assert(items.take(n) =~= items);
    }
}

/// The portfolio overview: the open lots of `rows` summed per asset name, ISIN
/// and currency, one position per key in the order of keys, each with its
/// quantity, average share price and total value as normalised decimal texts.
/// Fails with the error of the first lot that cannot be summed, and when some
/// position has no average share price.
pub fn list_portfolio_overview_items(rows: Vec<QueriedPortfolioItem>) -> (r: Result<Vec<PortfolioOverviewItem>, PortfolioError>)
    ensures
        match position_sums(open_items(item_views(rows@))) {
            Ok(m) => match r {
                Ok(positions) => !some_average_fails(m) && overview_of(m, overview_views(positions@)),
                Err(e) => some_average_fails(m) && e == PortfolioError::QuantityNotPositive,
            },
            Err(e) => r == Err::<Vec<PortfolioOverviewItem>, PortfolioError>(e),
        },
{
    let open = open_portfolio_items(&rows);
    let ghost items = item_views(open@);
    let mut g: Vec<Position> = Vec::new();
    let ghost mut m: PositionSums = Map::empty();
    let mut i: usize = 0;
    while i < open.len()
        invariant
            i <= open.len(),
            items == item_views(open@),
            items == open_items(item_views(rows@)),
            position_sums(items.take(i as int)) == Ok::<PositionSums, PortfolioError>(m),
            holds_sums(g@, m),
        decreases open.len() - i,
    {
        assert(items.take(i as int + 1).drop_last() =~= items.take(i as int));
        assert(items.take(i as int + 1).last() == open@[i as int]@);
        match add_lot_to(&mut g, &open[i], Ghost(m)) {
            Ok(()) => {
                proof {
                    m = add_lot(m, open@[i as int]@)->Ok_0;
                }
            },
            Err(e) => {
                proof {
                    lemma_position_sums_err(items, i as int + 1);
                }
                return Err(e);
            },
        }
        i += 1;
    }
    assert(items.take(open.len() as int) =~= items);
    let mut out: Vec<PortfolioOverviewItem> = Vec::new();
    let mut j: usize = 0;
    while j < g.len()
        invariant
            j <= g.len(),
            out.len() == j,
            items == open_items(item_views(rows@)),
            position_sums(items) == Ok::<PositionSums, PortfolioError>(m),
            holds_sums(g@, m),
            forall|t: int| 0 <= t < j ==> overview_key(#[trigger] out@[t]@) == g@[t].key(),
            forall|t: int| 0 <= t < j ==> shows_position(#[trigger] out@[t]@, g@[t].sums()),
        decreases g.len() - j,
    {
        let average = match decimal_checked_div(g[j].total_value, g[j].quantity) {
            Some(a) => a,
            None => {
                assert(m.contains_key(g@[j as int].key()) && average_price(m[g@[j as int].key()]) is None);
                return Err(PortfolioError::QuantityNotPositive);
            },
        };
        let position = PortfolioOverviewItem {
            asset_name: clone_opt_text(&g[j].asset_name),
            isin: g[j].isin.clone(),
            quantity: decimal_normalized_string(g[j].quantity),
            average_share_price: decimal_normalized_string(average),
            total_value: decimal_normalized_string(g[j].total_value),
            currency: g[j].currency.clone(),
        };
        out.push(position);
        j += 1;
    }
    proof {
        let v = overview_views(out@);
        assert forall|t: int| 0 <= t < v.len() implies overview_key(#[trigger] v[t]) == g@[t].key() && shows_position(v[t], m[g@[t].key()]) by {
            assert(v[t] == out@[t]@);
        }
        assert forall|a: int, b: int| 0 <= a < b < v.len() implies key_less(overview_key(#[trigger] v[a]), overview_key(#[trigger] v[b])) by {
            assert(v[a] == out@[a]@);
            assert(v[b] == out@[b]@);
        }
        assert forall|k: PositionKey| #[trigger] m.contains_key(k) implies exists|t: int| 0 <= t < v.len() && overview_key(#[trigger] v[t]) == k by {
            let t = choose|t: int| 0 <= t < g@.len() && #[trigger] g@[t].key() == k;
            assert(overview_key(v[t]) == k);
        }
        assert(overview_of(m, v));
        assert(!some_average_fails(m)) by {
            assert forall|k: PositionKey| #[trigger] m.contains_key(k) implies average_price(m[k]) is Some by {
                let t = choose|t: int| 0 <= t < v.len() && overview_key(#[trigger] v[t]) == k;
                assert(shows_position(v[t], m[k]));
            }
        }
    }
    Ok(out)
}


/// The positions are those of the lots: the sums have a key exactly for each
/// asset name, ISIN and currency that some lot has.
pub proof fn lemma_position_sums_keys(items: Seq<PortfolioItemView>, k: PositionKey)
    requires
        position_sums(items) is Ok,
    ensures
        position_sums(items)->Ok_0.contains_key(k) <==> exists|i: int| 0 <= i < items.len() && item_key(#[trigger] items[i]) == k,
    decreases items.len(),
{
    if items.len() > 0 {
        let prev = items.drop_last();
        assert(position_sums(prev) is Ok);
        lemma_position_sums_keys(prev, k);
        let m = position_sums(prev)->Ok_0;
        let m2 = position_sums(items)->Ok_0;
        assert(m2 == m.insert(item_key(items.last()), m2[item_key(items.last())]));
        if m2.contains_key(k) {
            if k == item_key(items.last()) {
                assert(item_key(items[items.len() - 1]) == k);
            } else {
                let i = choose|i: int| 0 <= i < prev.len() && item_key(#[trigger] prev[i]) == k;
                assert(items[i] == prev[i]);
            }
        }
        if exists|i: int| 0 <= i < items.len() && item_key(#[trigger] items[i]) == k {
            let i = choose|i: int| 0 <= i < items.len() && item_key(#[trigger] items[i]) == k;
            if i < prev.len() {
                assert(prev[i] == items[i]);
            }
        }
    }
}

/// Every lot listed for an ISIN is an open lot of that ISIN: it still holds
/// shares, has that ISIN, and carries the item's id, buy date and time,
/// quantity, share price, order value and currency.
pub proof fn lemma_isin_items_are_open_lots(items: Seq<PortfolioItemView>, isin: Seq<char>, j: int)
    requires
        0 <= j < items_of_isin(open_items(items), isin).len(),
    ensures
        exists|i: int| 0 <= i < items.len() && holds_shares(#[trigger] items[i]) && items[i].isin == isin
            && as_isin_item(items[i]) == items_of_isin(open_items(items), isin)[j]
            && lot_of_item(items_of_isin(open_items(items), isin)[j], items[i]),
    decreases items.len(),
{
    lemma_open_items_hold_shares(items);
    lemma_items_of_isin_source(open_items(items), isin, j);
    let o = open_items(items);
    let k = choose|k: int| 0 <= k < o.len() && o[k].isin == isin && as_isin_item(#[trigger] o[k]) == items_of_isin(o, isin)[j]
        && lot_of_item(items_of_isin(o, isin)[j], o[k]);
    let i = choose|i: int| 0 <= i < items.len() && #[trigger] items[i] == o[k];
    assert(holds_shares(items[i]));
}

/// `lot` is listed from an item of `items` that still holds shares and has
/// ISIN `isin`, and carries that item's fields.
pub open spec fn lot_from_open_item(lot: PortfolioIsinView, items: Seq<PortfolioItemView>, isin: Seq<char>) -> bool {
    exists|i: int| 0 <= i < items.len() && holds_shares(#[trigger] items[i]) && items[i].isin == isin
        && lot_of_item(lot, items[i])
}

/// `lot` carries the fields of `item`: its id, buy date and time, quantity,
/// share price, order value and currency.
pub open spec fn lot_of_item(lot: PortfolioIsinView, item: PortfolioItemView) -> bool {
    &&& lot.portfolio_item_id == item.id
    &&& lot.buy_date == item.buy_date
    &&& lot.buy_time == item.buy_time
    &&& lot.quantity == item.quantity
    &&& lot.share_price == item.share_price
    &&& lot.order_value == item.order_value
    &&& lot.currency == item.currency
}

proof fn lemma_open_items_hold_shares(items: Seq<PortfolioItemView>)
    ensures
        forall|k: int| 0 <= k < open_items(items).len() ==> holds_shares(#[trigger] open_items(items)[k])
            && exists|i: int| 0 <= i < items.len() && #[trigger] items[i] == open_items(items)[k],
    decreases items.len(),
{
    if items.len() > 0 {
        let prev = items.drop_last();
        lemma_open_items_hold_shares(prev);
        let o = open_items(items);
        assert forall|k: int| 0 <= k < o.len() implies holds_shares(#[trigger] o[k])
            && exists|i: int| 0 <= i < items.len() && #[trigger] items[i] == o[k] by {
            if k < open_items(prev).len() {
                assert(o[k] == open_items(prev)[k]);
                let i = choose|i: int| 0 <= i < prev.len() && #[trigger] prev[i] == open_items(prev)[k];
                assert(items[i] == prev[i]);
            } else {
                assert(o[k] == items.last());
                assert(items[items.len() - 1] == o[k]);
            }
        }
    }
}

proof fn lemma_items_of_isin_source(items: Seq<PortfolioItemView>, isin: Seq<char>, j: int)
    requires
        0 <= j < items_of_isin(items, isin).len(),
    ensures
        exists|k: int| 0 <= k < items.len() && items[k].isin == isin && as_isin_item(#[trigger] items[k]) == items_of_isin(items, isin)[j]
            && lot_of_item(items_of_isin(items, isin)[j], items[k]),
    decreases items.len(),
{
    let prev = items.drop_last();
    if j < items_of_isin(prev, isin).len() {
        lemma_items_of_isin_source(prev, isin, j);
        let k = choose|k: int| 0 <= k < prev.len() && prev[k].isin == isin && as_isin_item(#[trigger] prev[k]) == items_of_isin(prev, isin)[j]
            && lot_of_item(items_of_isin(prev, isin)[j], prev[k]);
        assert(items[k] == prev[k]);
    } else {
        assert(items[items.len() - 1] == items.last());
    }
}

} // verus!
