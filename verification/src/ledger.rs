//! The ledger's lists: the logged transactions with their types read back, the
//! transaction assets in display order, and what an ISIN import asks for and
//! keeps of a quote.
use vstd::prelude::*;
use crate::isin::{parse_transaction_asset_isins, parsed_isin_list, IsinListError};
use crate::portfolio::opt_text;
use crate::text::{
    compare_text, lemma_text_less_irreflexive, lemma_text_less_total, lemma_text_less_transitive,
    text_less, trim, Precedence,
};
use crate::transactions::{transaction_type_text, TransactionType};

verus! {

/// A transaction as the database lists it, its type still as text.
#[derive(Debug, Clone)]
pub struct TransactionRow {
    pub date: String,
    pub time: String,
    pub transaction_type: String,
    pub asset_name: Option<String>,
    pub isin: String,
    pub quantity: String,
    pub share_price: String,
    pub order_value: String,
    pub currency: String,
}

/// A transaction row with its texts as character sequences.
pub struct TransactionRowView {
    pub date: Seq<char>,
    pub time: Seq<char>,
    pub transaction_type: Seq<char>,
    pub asset_name: Option<Seq<char>>,
    pub isin: Seq<char>,
    pub quantity: Seq<char>,
    pub share_price: Seq<char>,
    pub order_value: Seq<char>,
    pub currency: Seq<char>,
}

impl View for TransactionRow {
    type V = TransactionRowView;

    open spec fn view(&self) -> TransactionRowView {
        TransactionRowView {
            date: self.date@,
            time: self.time@,
            transaction_type: self.transaction_type@,
            asset_name: opt_text(self.asset_name),
            isin: self.isin@,
            quantity: self.quantity@,
            share_price: self.share_price@,
            order_value: self.order_value@,
            currency: self.currency@,
        }
    }
}

/// A logged transaction as the transactions page lists it.
#[derive(Debug, Clone)]
pub struct ListedTransaction {
    pub date: String,
    pub time: String,
    pub transaction_type: TransactionType,
    pub asset_name: Option<String>,
    pub isin: String,
    pub quantity: String,
    pub share_price: String,
    pub order_value: String,
    pub currency: String,
}

/// A listed transaction with its texts as character sequences.
pub struct ListedTransactionView {
    pub date: Seq<char>,
    pub time: Seq<char>,
    pub transaction_type: TransactionType,
    pub asset_name: Option<Seq<char>>,
    pub isin: Seq<char>,
    pub quantity: Seq<char>,
    pub share_price: Seq<char>,
    pub order_value: Seq<char>,
    pub currency: Seq<char>,
}

impl View for ListedTransaction {
    type V = ListedTransactionView;

    open spec fn view(&self) -> ListedTransactionView {
        ListedTransactionView {
            date: self.date@,
            time: self.time@,
            transaction_type: self.transaction_type,
            asset_name: opt_text(self.asset_name),
            isin: self.isin@,
            quantity: self.quantity@,
            share_price: self.share_price@,
            order_value: self.order_value@,
            currency: self.currency@,
        }
    }
}

/// The views of a list of rows.
pub open spec fn row_views(v: Seq<TransactionRow>) -> Seq<TransactionRowView> {
    v.map_values(|r: TransactionRow| r@)
}

/// The views of a list of listed transactions.
pub open spec fn listed_views(v: Seq<ListedTransaction>) -> Seq<ListedTransactionView> {
    v.map_values(|t: ListedTransaction| t@)
}

/// The transaction type that a text stands for.
pub open spec fn type_of_text(s: Seq<char>) -> Option<TransactionType> {
    if s == transaction_type_text(TransactionType::Buy) {
        Some(TransactionType::Buy)
    } else if s == transaction_type_text(TransactionType::Sell) {
        Some(TransactionType::Sell)
    } else {
        None
    }
}

/// A row as a listed transaction of type `t`.
pub open spec fn listed_row(row: TransactionRowView, t: TransactionType) -> ListedTransactionView {
    ListedTransactionView {
        date: row.date,
        time: row.time,
        transaction_type: t,
        asset_name: row.asset_name,
        isin: row.isin,
        quantity: row.quantity,
        share_price: row.share_price,
        order_value: row.order_value,
        currency: row.currency,
    }
}

/// The rows as listed transactions, in order; the type text of the first row
/// whose type is neither `Buy` nor `Sell`.
pub open spec fn listed_transactions(rows: Seq<TransactionRowView>) -> Result<Seq<ListedTransactionView>, Seq<char>>
    decreases rows.len(),
{
    if rows.len() == 0 {
        Ok(Seq::empty())
    } else {
        match listed_transactions(rows.drop_last()) {
            Ok(done) => match type_of_text(rows.last().transaction_type) {
                Some(t) => Ok(done.push(listed_row(rows.last(), t))),
                None => Err(rows.last().transaction_type),
            },
            Err(e) => Err(e),
        }
    }
}

/// The error of listing transactions: a row whose type is unknown.
#[derive(Debug, Clone)]
pub enum ListError {
    InvalidTransactionType(String),
}

impl ListError {
    /// The text of the error, with the type text that was found.
    pub fn message(&self) -> (r: String)
        ensures
            r@ == match self {
                ListError::InvalidTransactionType(t) => "Invalid transaction type: "@ + t@,
            },
    {
        let mut m = String::new();
        match self {
            ListError::InvalidTransactionType(t) => {
                m.append("Invalid transaction type: ");
                m.append(t.as_str());
            },
        }
        m
    }
}

/// Once listing fails, it fails with that error for every longer list.
proof fn lemma_listed_err(rows: Seq<TransactionRowView>, n: int)
    requires
        0 <= n <= rows.len(),
        listed_transactions(rows.take(n)) is Err,
    ensures
        listed_transactions(rows) == listed_transactions(rows.take(n)),
    decreases rows.len() - n,
{
    if n < rows.len() {
        assert(rows.take(n + 1).drop_last() =~= rows.take(n));
        lemma_listed_err(rows, n + 1);
    } else {
        assert(rows.take(n) =~= rows);
    }
}

/// The rows of the transactions page with their types read back, in order.
/// Fails on the first row whose type is neither `Buy` nor `Sell`.
pub fn list_transactions(rows: Vec<TransactionRow>) -> (r: Result<Vec<ListedTransaction>, ListError>)
    ensures
        match r {
            Ok(v) => listed_transactions(row_views(rows@)) == Ok::<Seq<ListedTransactionView>, Seq<char>>(listed_views(v@)),
            Err(ListError::InvalidTransactionType(t)) =>
                listed_transactions(row_views(rows@)) == Err::<Seq<ListedTransactionView>, Seq<char>>(t@),
        },
        r matches Ok(v) ==> v.len() == rows.len() && forall|i: int| 0 <= i < rows.len() ==> {
            &&& (#[trigger] v@[i]).date@ == rows@[i].date@
            &&& v@[i].time@ == rows@[i].time@
            &&& opt_text(v@[i].asset_name) == opt_text(rows@[i].asset_name)
            &&& v@[i].isin@ == rows@[i].isin@
            &&& v@[i].quantity@ == rows@[i].quantity@
            &&& v@[i].share_price@ == rows@[i].share_price@
            &&& v@[i].order_value@ == rows@[i].order_value@
            &&& v@[i].currency@ == rows@[i].currency@
            &&& type_of_text(rows@[i].transaction_type@) == Some(v@[i].transaction_type)
        },
{
    let ghost all = row_views(rows@);
    let mut out: Vec<ListedTransaction> = Vec::new();
    assert(all.take(0) =~= Seq::<TransactionRowView>::empty());
    assert(listed_views(out@) =~= Seq::<ListedTransactionView>::empty());
    let mut i: usize = 0;
    while i < rows.len()
        invariant
            i <= rows.len(),
            all == row_views(rows@),
            listed_transactions(all.take(i as int)) == Ok::<Seq<ListedTransactionView>, Seq<char>>(listed_views(out@)),
        decreases rows.len() - i,
    {
        let row = &rows[i];
        assert(all.take(i as int + 1).drop_last() =~= all.take(i as int));
        assert(all.take(i as int + 1).last() == row@);
        match TransactionType::parse(row.transaction_type.as_str()) {
            Some(t) => {
                assert(type_of_text(row.transaction_type@) == Some(t)) by {
                    reveal_strlit("Buy");
                    reveal_strlit("Sell");
                    assert("Buy"@.len() == 3);
                    assert("Sell"@.len() == 4);
                    match t {
                        TransactionType::Buy => {},
                        TransactionType::Sell => {
                            assert(transaction_type_text(TransactionType::Buy) != transaction_type_text(TransactionType::Sell));
                        },
                    }
                }
                let listed = ListedTransaction {
                    date: row.date.clone(),
                    time: row.time.clone(),
                    transaction_type: t,
                    asset_name: crate::portfolio::clone_opt_text(&row.asset_name),
                    isin: row.isin.clone(),
                    quantity: row.quantity.clone(),
                    share_price: row.share_price.clone(),
                    order_value: row.order_value.clone(),
                    currency: row.currency.clone(),
                };
                let ghost before = out@;
                out.push(listed);
                assert(listed_views(out@) =~= listed_views(before).push(listed_row(row@, t)));
            },
            None => {
                assert(type_of_text(row.transaction_type@) is None) by {
                    assert(transaction_type_text(TransactionType::Buy) != row.transaction_type@);
                    assert(transaction_type_text(TransactionType::Sell) != row.transaction_type@);
                }
                proof {
                    lemma_listed_err(all, i as int + 1);
                }
                return Err(ListError::InvalidTransactionType(row.transaction_type.clone()));
            },
        }
        i += 1;
    }
    assert(all.take(rows.len() as int) =~= all);
    proof {
        lemma_listing_keeps_row_fields(all);
        let l = listed_views(out@);
        assert forall|i: int| 0 <= i < rows.len() implies {
            &&& (#[trigger] out@[i]).date@ == rows@[i].date@
            &&& out@[i].time@ == rows@[i].time@
            &&& opt_text(out@[i].asset_name) == opt_text(rows@[i].asset_name)
            &&& out@[i].isin@ == rows@[i].isin@
            &&& out@[i].quantity@ == rows@[i].quantity@
            &&& out@[i].share_price@ == rows@[i].share_price@
            &&& out@[i].order_value@ == rows@[i].order_value@
            &&& out@[i].currency@ == rows@[i].currency@
            &&& type_of_text(rows@[i].transaction_type@) == Some(out@[i].transaction_type)
        } by {
            assert(l[i] == out@[i]@);
            assert(all[i] == rows@[i]@);
        }
    }
    Ok(out)
}


/// Listing keeps every transaction, in order, with the fields of its row: the
/// same date, time, asset name, ISIN, quantity, share price, order value and
/// currency, and the type that its type text names.
pub proof fn lemma_listing_keeps_row_fields(rows: Seq<TransactionRowView>)
    ensures
        match listed_transactions(rows) {
            Ok(l) => l.len() == rows.len() && forall|i: int| 0 <= i < rows.len() ==> {
                &&& (#[trigger] l[i]).date == rows[i].date
                &&& l[i].time == rows[i].time
                &&& l[i].asset_name == rows[i].asset_name
                &&& l[i].isin == rows[i].isin
                &&& l[i].quantity == rows[i].quantity
                &&& l[i].share_price == rows[i].share_price
                &&& l[i].order_value == rows[i].order_value
                &&& l[i].currency == rows[i].currency
                &&& type_of_text(rows[i].transaction_type) == Some(l[i].transaction_type)
            },
            Err(_) => true,
        },
    decreases rows.len(),
{
    if rows.len() > 0 {
        let prev = rows.drop_last();
        lemma_listing_keeps_row_fields(prev);
        match listed_transactions(rows) {
            Ok(l) => {
                let lp = listed_transactions(prev)->Ok_0;
                assert forall|i: int| 0 <= i < rows.len() implies {
                    &&& (#[trigger] l[i]).date == rows[i].date
                    &&& l[i].time == rows[i].time
                    &&& l[i].asset_name == rows[i].asset_name
                    &&& l[i].isin == rows[i].isin
                    &&& l[i].quantity == rows[i].quantity
                    &&& l[i].share_price == rows[i].share_price
                    &&& l[i].order_value == rows[i].order_value
                    &&& l[i].currency == rows[i].currency
                    &&& type_of_text(rows[i].transaction_type) == Some(l[i].transaction_type)
                } by {
                    if i < prev.len() {
                        assert(l[i] == lp[i]);
                        assert(rows[i] == prev[i]);
                    }
                }
            },
            Err(_) => {},
        }
    }
}

/// An asset of the transactions database, with what the last quote lookup
/// found of it.
#[derive(Debug, Clone)]
pub struct TransactionAsset {
    pub id: i64,
    pub isin: String,
    pub symbol: Option<String>,
    pub name: Option<String>,
    pub exchange: Option<String>,
    pub quote_type: Option<String>,
    pub updated_at_date: Option<String>,
    pub updated_at_time: Option<String>,
}

/// A transaction asset with its texts as character sequences.
pub struct TransactionAssetView {
    pub id: i64,
    pub isin: Seq<char>,
    pub symbol: Option<Seq<char>>,
    pub name: Option<Seq<char>>,
    pub exchange: Option<Seq<char>>,
    pub quote_type: Option<Seq<char>>,
    pub updated_at_date: Option<Seq<char>>,
    pub updated_at_time: Option<Seq<char>>,
}

impl View for TransactionAsset {
    type V = TransactionAssetView;

    open spec fn view(&self) -> TransactionAssetView {
        TransactionAssetView {
            id: self.id,
            isin: self.isin@,
            symbol: opt_text(self.symbol),
            name: opt_text(self.name),
            exchange: opt_text(self.exchange),
            quote_type: opt_text(self.quote_type),
            updated_at_date: opt_text(self.updated_at_date),
            updated_at_time: opt_text(self.updated_at_time),
        }
    }
}

/// The views of a list of transaction assets.
pub open spec fn asset_views(v: Seq<TransactionAsset>) -> Seq<TransactionAssetView> {
    v.map_values(|a: TransactionAsset| a@)
}

/// The name of an asset, the empty text where it has none.
pub open spec fn name_or_empty(name: Option<Seq<char>>) -> Seq<char> {
    match name {
        Some(n) => n,
        None => Seq::empty(),
    }
}

/// What transaction assets are listed by: name, the empty text for none, then ISIN.
pub open spec fn asset_key(a: TransactionAssetView) -> (Seq<char>, Seq<char>) {
    (name_or_empty(a.name), a.isin)
}

/// The order of listing keys: by name, then by ISIN.
pub open spec fn listing_less(a: (Seq<char>, Seq<char>), b: (Seq<char>, Seq<char>)) -> bool {
    text_less(a.0, b.0) || (a.0 == b.0 && text_less(a.1, b.1))
}

proof fn lemma_listing_less_facts(a: (Seq<char>, Seq<char>), b: (Seq<char>, Seq<char>))
    ensures
        !listing_less(a, a),
        a == b || listing_less(a, b) || listing_less(b, a),
        !(listing_less(a, b) && listing_less(b, a)),
{
    lemma_text_less_irreflexive(a.0);
    lemma_text_less_irreflexive(a.1);
    lemma_text_less_total(a.0, b.0);
    lemma_text_less_total(a.1, b.1);
    if text_less(a.0, b.0) && text_less(b.0, a.0) {
        lemma_text_less_transitive(a.0, b.0, a.0);
    }
    if text_less(a.1, b.1) && text_less(b.1, a.1) {
        lemma_text_less_transitive(a.1, b.1, a.1);
    }
}

proof fn lemma_listing_less_transitive(a: (Seq<char>, Seq<char>), b: (Seq<char>, Seq<char>), c: (Seq<char>, Seq<char>))
    requires
        listing_less(a, b),
        listing_less(b, c),
    ensures
        listing_less(a, c),
{
    if text_less(a.0, b.0) && text_less(b.0, c.0) {
        lemma_text_less_transitive(a.0, b.0, c.0);
    }
    if text_less(a.1, b.1) && text_less(b.1, c.1) {
        lemma_text_less_transitive(a.1, b.1, c.1);
    }
}

/// The assets of `s` whose listing key is `k`, in their order.
pub open spec fn with_listing_key(s: Seq<TransactionAssetView>, k: (Seq<char>, Seq<char>)) -> Seq<TransactionAssetView>
    decreases s.len(),
{
    if s.len() == 0 {
        Seq::empty()
    } else if asset_key(s.last()) == k {
        with_listing_key(s.drop_last(), k).push(s.last())
    } else {
        with_listing_key(s.drop_last(), k)
    }
}

/// The assets of `s` are in listing order.
pub open spec fn in_listing_order(s: Seq<TransactionAssetView>) -> bool {
    forall|i: int, j: int| 0 <= i < j < s.len() ==> !listing_less(asset_key(#[trigger] s[j]), asset_key(#[trigger] s[i]))
}

proof fn lemma_with_listing_key_concat(a: Seq<TransactionAssetView>, b: Seq<TransactionAssetView>, k: (Seq<char>, Seq<char>))
    ensures
        with_listing_key(a + b, k) == with_listing_key(a, k) + with_listing_key(b, k),
    decreases b.len(),
{
    if b.len() == 0 {
        assert(a + b =~= a);
        assert(with_listing_key(a, k) + with_listing_key(b, k) =~= with_listing_key(a, k));
    } else {
        assert((a + b).drop_last() =~= a + b.drop_last());
        lemma_with_listing_key_concat(a, b.drop_last(), k);
        assert((a + b).last() == b.last());
        if asset_key(b.last()) == k {
            assert(with_listing_key(a, k) + with_listing_key(b, k) =~= (with_listing_key(a, k) + with_listing_key(b.drop_last(), k)).push(b.last()));
        }
    }
}

proof fn lemma_with_listing_key_none(b: Seq<TransactionAssetView>, k: (Seq<char>, Seq<char>))
    requires
        forall|i: int| 0 <= i < b.len() ==> asset_key(#[trigger] b[i]) != k,
    ensures
        with_listing_key(b, k) == Seq::<TransactionAssetView>::empty(),
    decreases b.len(),
{
    if b.len() > 0 {
        assert(asset_key(b[b.len() - 1]) != k);
        lemma_with_listing_key_none(b.drop_last(), k);
    }
}

/// The transaction assets in the order of the assets page: by name, where an
/// asset without a name counts as named by the empty text, then by ISIN; the
/// assets of one key keep their order.
pub fn list_transaction_assets(assets: Vec<TransactionAsset>) -> (r: Vec<TransactionAsset>)
    ensures
        in_listing_order(asset_views(r@)),
        forall|k: (Seq<char>, Seq<char>)| #[trigger] with_listing_key(asset_views(r@), k) == with_listing_key(asset_views(assets@), k),
{
    let ghost input = asset_views(assets@);
    let mut out: Vec<TransactionAsset> = Vec::new();
    proof {
        assert forall|k: (Seq<char>, Seq<char>)| #[trigger] with_listing_key(asset_views(out@), k) == with_listing_key(input.take(0), k) by {
            assert(asset_views(out@) =~= Seq::<TransactionAssetView>::empty());
            assert(input.take(0) =~= Seq::<TransactionAssetView>::empty());
        }
    }
    let mut i: usize = 0;
    while i < assets.len()
        invariant
            i <= assets.len(),
            input == asset_views(assets@),
            in_listing_order(asset_views(out@)),
            forall|k: (Seq<char>, Seq<char>)| #[trigger] with_listing_key(asset_views(out@), k) == with_listing_key(input.take(i as int), k),
        decreases assets.len() - i,
    {
        let x = &assets[i];
        let ghost xk = asset_key(x@);
        let ghost s = asset_views(out@);
        let mut at: usize = 0;
        while at < out.len() && !listing_before(x, &out[at])
            invariant
                at <= out.len(),
                s == asset_views(out@),
                xk == asset_key(x@),
                forall|j: int| 0 <= j < at ==> !listing_less(xk, asset_key(#[trigger] s[j])),
            decreases out.len() - at,
        {
            at += 1;
        }
        proof {
            // every asset from `at` on comes after `x`
            assert forall|j: int| at <= j < s.len() implies listing_less(xk, asset_key(#[trigger] s[j])) by {
                if j > at {
                    lemma_listing_less_facts(asset_key(s[at as int]), asset_key(s[j]));
                    if listing_less(asset_key(s[at as int]), asset_key(s[j])) {
                        lemma_listing_less_transitive(xk, asset_key(s[at as int]), asset_key(s[j]));
                    }
                }
            }
        }
        let item = TransactionAsset {
            id: x.id,
            isin: x.isin.clone(),
            symbol: crate::portfolio::clone_opt_text(&x.symbol),
            name: crate::portfolio::clone_opt_text(&x.name),
            exchange: crate::portfolio::clone_opt_text(&x.exchange),
            quote_type: crate::portfolio::clone_opt_text(&x.quote_type),
            updated_at_date: crate::portfolio::clone_opt_text(&x.updated_at_date),
            updated_at_time: crate::portfolio::clone_opt_text(&x.updated_at_time),
        };
        out.insert(at, item);
        proof {
            let t = asset_views(out@);
            assert(t =~= s.take(at as int) + seq![x@] + s.skip(at as int));
            assert(s =~= s.take(at as int) + s.skip(at as int));
            assert forall|a: int, b: int| 0 <= a < b < t.len() implies !listing_less(asset_key(#[trigger] t[b]), asset_key(#[trigger] t[a])) by {
                if a < at && b == at {
                    assert(t[a] == s[a]);
                } else if a == at {
                    assert(t[b] == s[b - 1]);
                    lemma_listing_less_facts(xk, asset_key(s[b - 1]));
                } else if b < at {
                    assert(t[a] == s[a] && t[b] == s[b]);
                } else if a < at {
                    assert(t[a] == s[a] && t[b] == s[b - 1]);
                } else {
                    assert(t[a] == s[a - 1] && t[b] == s[b - 1]);
                }
            }
            let prefix = input.take(i as int + 1);
            assert(prefix.drop_last() =~= input.take(i as int));
            assert(prefix.last() == x@);
            assert forall|k: (Seq<char>, Seq<char>)| #[trigger] with_listing_key(t, k) == with_listing_key(prefix, k) by {
                lemma_with_listing_key_concat(s.take(at as int) + seq![x@], s.skip(at as int), k);
                lemma_with_listing_key_concat(s.take(at as int), seq![x@], k);
                lemma_with_listing_key_concat(s.take(at as int), s.skip(at as int), k);
                assert(seq![x@].drop_last() =~= Seq::<TransactionAssetView>::empty());
                let one = with_listing_key(seq![x@], k);
                assert(one == (if xk == k { seq![x@] } else { Seq::<TransactionAssetView>::empty() })) by {
                    assert(seq![x@].last() == x@);
                    assert(with_listing_key(Seq::<TransactionAssetView>::empty(), k) == Seq::<TransactionAssetView>::empty());
                    assert(with_listing_key(seq![x@].drop_last(), k) == Seq::<TransactionAssetView>::empty());
                    assert(Seq::<TransactionAssetView>::empty().push(x@) =~= seq![x@]);
                }
                let front = with_listing_key(s.take(at as int), k);
                let back = with_listing_key(s.skip(at as int), k);
                assert(with_listing_key(t, k) == front + one + back);
                assert(with_listing_key(s, k) == front + back);
                if k == xk {
                    assert forall|j: int| 0 <= j < s.skip(at as int).len() implies asset_key(#[trigger] s.skip(at as int)[j]) != k by {
                        assert(s.skip(at as int)[j] == s[at + j]);
                        lemma_listing_less_facts(xk, xk);
                    }
                    lemma_with_listing_key_none(s.skip(at as int), k);
                    assert(front + back =~= front);
                    assert(with_listing_key(s, k) == with_listing_key(input.take(i as int), k));
                    assert(with_listing_key(t, k) =~= front.push(x@));
                } else {
                    assert(front + one + back =~= front + back);
                    assert(with_listing_key(s, k) == with_listing_key(input.take(i as int), k));
                }
            }
        }
        i += 1;
    }
    assert(input.take(assets.len() as int) =~= input);
    out
}

/// Whether `a` comes before `b` in the listing order.
fn listing_before(a: &TransactionAsset, b: &TransactionAsset) -> (r: bool)
    ensures
        r == listing_less(asset_key(a@), asset_key(b@)),
{
    let empty = String::new();
    let an = match &a.name {
        Some(n) => n,
        None => &empty,
    };
    let bn = match &b.name {
        Some(n) => n,
        None => &empty,
    };
    assert(an@ == name_or_empty(a@.name));
    assert(bn@ == name_or_empty(b@.name));
    match compare_text(an.as_str(), bn.as_str()) {
        Precedence::Before => true,
        Precedence::Same => compare_text(a.isin.as_str(), b.isin.as_str()) == Precedence::Before,
        Precedence::After => {
            proof {
                lemma_text_less_irreflexive(an@);
                if text_less(an@, bn@) {
                    lemma_text_less_transitive(an@, bn@, an@);
                }
            }
            false
        },
    }
}


/// What the assets import reads: text that lists ISINs.
#[derive(Debug, Clone)]
pub struct ImportTransactionAssetsInput {
    pub isins: Vec<String>,
}

/// The ISINs to look up for an import: those of `parse_transaction_asset_isins`
/// on the input's texts, normalised, each once, in order.
pub fn import_transaction_assets(input: ImportTransactionAssetsInput) -> (r: Result<Vec<String>, IsinListError>)
    ensures
        match r {
            Ok(isins) => parsed_isin_list(input.isins.deep_view()) == Ok::<Seq<Seq<char>>, IsinListError>(isins.deep_view()),
            Err(e) => parsed_isin_list(input.isins.deep_view()) == Err::<Seq<Seq<char>>, IsinListError>(e),
        },
{
    parse_transaction_asset_isins(input.isins)
}

/// The text fields of the first quote that a search for an ISIN returned, each
/// as the quote holds it; all absent where the search found nothing.
#[derive(Debug, Clone)]
pub struct QuoteFields {
    pub symbol: Option<String>,
    pub longname: Option<String>,
    pub shortname: Option<String>,
    pub exch_disp: Option<String>,
    pub exchange: Option<String>,
    pub quote_type: Option<String>,
}

/// What an ISIN lookup stores of an asset.
#[derive(Debug, Clone)]
pub struct TransactionAssetLookup {
    pub isin: String,
    pub symbol: Option<String>,
    pub name: Option<String>,
    pub exchange: Option<String>,
    pub quote_type: Option<String>,
    pub updated_at_date: String,
    pub updated_at_time: String,
}

/// A quote's text field, trimmed, where it is not blank.
pub open spec fn quote_text(o: Option<Seq<char>>) -> Option<Seq<char>> {
    match o {
        Some(t) => if trim(t).len() > 0 { Some(trim(t)) } else { None },
        None => None,
    }
}

/// The first of two quote text fields that is not blank, trimmed.
pub open spec fn first_quote_text(a: Option<Seq<char>>, b: Option<Seq<char>>) -> Option<Seq<char>> {
    match quote_text(a) {
        Some(t) => Some(t),
        None => quote_text(b),
    }
}

/// A quote's text field, trimmed, where it is not blank.
fn quote_text_of(o: &Option<String>) -> (r: Option<String>)
    ensures
        opt_text(r) == quote_text(opt_text(*o)),
{
    match o {
        Some(t) => {
            let trimmed = crate::text::trim_str(t.as_str());
            if trimmed.as_str().is_empty() {
                None
            } else {
                Some(trimmed)
            }
        },
        None => None,
    }
}

/// What a lookup of `isin` stores: the symbol, the long name or else the short
/// name, the displayed exchange or else the exchange, and the quote type, each
/// trimmed and absent where blank, and the moment of the lookup.
pub fn transaction_asset_lookup(isin: String, quote: &QuoteFields, updated_at_date: String, updated_at_time: String) -> (r: TransactionAssetLookup)
    ensures
        r.isin@ == isin@,
        opt_text(r.symbol) == quote_text(opt_text(quote.symbol)),
        opt_text(r.name) == first_quote_text(opt_text(quote.longname), opt_text(quote.shortname)),
        opt_text(r.exchange) == first_quote_text(opt_text(quote.exch_disp), opt_text(quote.exchange)),
        opt_text(r.quote_type) == quote_text(opt_text(quote.quote_type)),
        r.updated_at_date@ == updated_at_date@,
        r.updated_at_time@ == updated_at_time@,
{
    let name = match quote_text_of(&quote.longname) {
        Some(n) => Some(n),
        None => quote_text_of(&quote.shortname),
    };
    let exchange = match quote_text_of(&quote.exch_disp) {
        Some(e) => Some(e),
        None => quote_text_of(&quote.exchange),
    };
    TransactionAssetLookup {
        isin,
        symbol: quote_text_of(&quote.symbol),
        name,
        exchange,
        quote_type: quote_text_of(&quote.quote_type),
        updated_at_date,
        updated_at_time,
    }
}


/// What an import writes, given the lookups of its ISINs in order (each the
/// row to store, or the text of the search's error): every row, in order,
/// when every lookup succeeded; else the error of the first failed lookup,
/// and nothing is written. An import stores all its ISINs or none.
pub fn import_rows(lookups: Vec<Result<TransactionAssetLookup, String>>) -> (r: Result<Vec<TransactionAssetLookup>, String>)
    ensures
        r is Ok <==> forall|i: int| 0 <= i < lookups.len() ==> (#[trigger] lookups@[i]) is Ok,
        r matches Ok(rows) ==> rows.len() == lookups.len()
            && forall|i: int| 0 <= i < lookups.len() ==> (#[trigger] lookups@[i]) == Ok::<TransactionAssetLookup, String>(rows@[i]),
        r matches Err(e) ==> exists|k: int| 0 <= k < lookups.len()
            && (#[trigger] lookups@[k]) == Err::<TransactionAssetLookup, String>(e)
            && forall|j: int| 0 <= j < k ==> (#[trigger] lookups@[j]) is Ok,
{
    let ghost all = lookups@;
    let mut rest = lookups;
    let mut rows: Vec<TransactionAssetLookup> = Vec::new();
    while rest.len() > 0
        invariant
            all == lookups@,
            rows.len() + rest.len() == all.len(),
            rest@ == all.skip(rows.len() as int),
            forall|i: int| 0 <= i < rows.len() ==> (#[trigger] all[i]) == Ok::<TransactionAssetLookup, String>(rows@[i]),
        decreases rest.len(),
    {
        let k = rows.len();
        assert(rest@[0] == all[k as int]);
        match rest.remove(0) {
            Ok(row) => {
                rows.push(row);
                assert(rest@ =~= all.skip(rows.len() as int));
            },
            Err(e) => {
                assert(all[k as int] == Err::<TransactionAssetLookup, String>(e));
                assert(forall|j: int| 0 <= j < k ==> (#[trigger] all[j]) is Ok);
                assert(!(all[k as int] is Ok));
                return Err(e);
            },
        }
    }
    Ok(rows)
}

/// The text of a transaction type reads back as that type.
pub proof fn lemma_transaction_type_round_trip(t: TransactionType)
    ensures
        type_of_text(transaction_type_text(t)) == Some(t),
{
    reveal_strlit("Buy");
    reveal_strlit("Sell");
    assert("Buy"@.len() == 3);
    assert("Sell"@.len() == 4);
}

} // verus!
