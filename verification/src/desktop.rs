//! The desktop app's forms: the rows of the allocation record form and the
//! positions read from them, category choices, and reference type labels.
use vstd::prelude::*;
use crate::assets::{AllocationPositionInput, AssetReferenceType, ReferenceType};
use crate::text::{chars_of, trim, trim_str};

verus! {

/// A row of the allocation record form: an asset and the amount typed for it.
#[derive(Debug, Clone)]
pub struct PositionItem {
    pub id: i64,
    pub label: String,
    pub amount_input: String,
}

/// A row of the allocation record dialog: an asset and the amount typed for it.
#[derive(Debug, Clone)]
pub struct PositionListItem {
    pub id: i64,
    pub label: String,
    pub amount_input: String,
}

/// A category that can be chosen.
#[derive(Debug, Clone)]
pub struct CategoryItem {
    pub id: i64,
    pub name: String,
}

/// The label of an asset's row: its name and, in brackets, its reference value.
pub open spec fn position_label(name: Seq<char>, reference_value: Seq<char>) -> Seq<char> {
    name + " ("@ + reference_value + ")"@
}

impl PositionItem {
    /// The empty row of an asset.
    pub fn for_asset(id: i64, name: &str, reference_value: &str) -> (r: Self)
        ensures
            r.id == id,
            r.label@ == position_label(name@, reference_value@),
            r.amount_input@.len() == 0,
    {
        PositionItem {
            id,
            label: name.to_owned().concat(" (").concat(reference_value).concat(")"),
            amount_input: String::new(),
        }
    }
}

impl PositionListItem {
    /// The empty row of an asset.
    pub fn for_asset(id: i64, name: &str, reference_value: &str) -> (r: Self)
        ensures
            r.id == id,
            r.label@ == position_label(name@, reference_value@),
            r.amount_input@.len() == 0,
    {
        PositionListItem {
            id,
            label: name.to_owned().concat(" (").concat(reference_value).concat(")"),
            amount_input: String::new(),
        }
    }
}

/// The value of a string of decimal digits.
pub open spec fn digits_value(d: Seq<char>) -> int
    decreases d.len(),
{
    if d.len() == 0 {
        0
    } else {
        digits_value(d.drop_last()) * 10 + ((d.last() as int) - ('0' as int))
    }
}

/// `d` is one or more ASCII digits.
pub open spec fn all_digits(d: Seq<char>) -> bool {
    d.len() > 0 && forall|i: int| 0 <= i < d.len() ==> '0' <= #[trigger] d[i] <= '9'
}

/// The integer that `str::parse::<i64>` reads from `s`: an optional `+` or
/// `-`, then one or more ASCII digits, the value within the range of `i64`.
pub open spec fn parsed_i64(s: Seq<char>) -> Option<int> {
    let negative = s.len() > 0 && s[0] == '-';
    let digits = if s.len() > 0 && (s[0] == '-' || s[0] == '+') { s.drop_first() } else { s };
    if all_digits(digits) {
        let v = if negative { -digits_value(digits) } else { digits_value(digits) };
        if i64::MIN <= v <= i64::MAX {
            Some(v)
        } else {
            None
        }
    } else {
        None
    }
}

proof fn lemma_digits_value_nonneg(d: Seq<char>)
    requires
        forall|i: int| 0 <= i < d.len() ==> '0' <= #[trigger] d[i] <= '9',
    ensures
        digits_value(d) >= 0,
    decreases d.len(),
{
    if d.len() > 0 {
        let p = d.drop_last();
        assert forall|i: int| 0 <= i < p.len() implies '0' <= #[trigger] p[i] <= '9' by {
            assert(p[i] == d[i]);
        }
        lemma_digits_value_nonneg(p);
        assert('0' <= d[d.len() - 1] <= '9');
    }
}

proof fn lemma_digits_value_grows(d: Seq<char>, k: int)
    requires
        0 <= k <= d.len(),
        forall|i: int| 0 <= i < d.len() ==> '0' <= #[trigger] d[i] <= '9',
    ensures
        digits_value(d) >= digits_value(d.take(k)),
    decreases d.len(),
{
    if k == d.len() {
        assert(d.take(k) =~= d);
    } else {
        let p = d.drop_last();
        assert forall|i: int| 0 <= i < p.len() implies '0' <= #[trigger] p[i] <= '9' by {
            assert(p[i] == d[i]);
        }
        lemma_digits_value_grows(p, k);
        lemma_digits_value_nonneg(p);
        assert(p.take(k) =~= d.take(k));
        assert('0' <= d[d.len() - 1] <= '9');
    }
}

/// Reads an `i64` as `str::parse::<i64>` does: an optional sign, then one or
/// more ASCII digits; no other character, and a value within range.
pub fn parse_i64(s: &str) -> (r: Option<i64>)
    ensures
        match r {
            Some(v) => parsed_i64(s@) == Some(v as int),
            None => parsed_i64(s@) is None,
        },
{
    let v = chars_of(s);
    let negative = v.len() > 0 && v[0] == '-';
    let start: usize = if v.len() > 0 && (v[0] == '-' || v[0] == '+') { 1 } else { 0 };
    let ghost digits = if s@.len() > 0 && (s@[0] == '-' || s@[0] == '+') { s@.drop_first() } else { s@ };
    assert(digits =~= s@.skip(start as int));
    if start == v.len() {
        return None;
    }
    let mut value: u64 = 0;
    let mut i: usize = start;
    while i < v.len()
        invariant
            start <= i <= v.len(),
            start < v.len(),
            v@ == s@,
            digits == s@.skip(start as int),
            digits == (if s@.len() > 0 && (s@[0] == '-' || s@[0] == '+') { s@.drop_first() } else { s@ }),
            forall|j: int| start <= j < i ==> '0' <= #[trigger] v@[j] <= '9',
            value == digits_value(digits.take(i - start)),
        decreases v.len() - i,
    {
        let c = v[i];
        if c < '0' || c > '9' {
            assert(digits[i - start] == c);
            assert(!all_digits(digits)) by {
                assert(!('0' <= digits[i - start] <= '9'));
            }
            return None;
        }
        assert(digits.take(i - start + 1).drop_last() =~= digits.take(i - start));
        assert(digits.take(i - start + 1).last() == c);
        let d = (c as u32 - '0' as u32) as u64;
        let next = match value.checked_mul(10) {
            Some(m) => m.checked_add(d),
            None => None,
        };
        match next {
            Some(n) => {
                value = n;
            },
            None => {
                proof {
                    // the digits read so far already exceed the range, so the whole text does
                    let k = i - start + 1;
                    assert(digits_value(digits.take(k)) == value * 10 + d);
                    assert(value * 10 + d > u64::MAX);
                    if all_digits(digits) {
                        lemma_digits_value_grows(digits, k);
                    }
                }
                return None;
            },
        }
        i += 1;
    }
    assert(digits.take(i - start) =~= digits);
    assert(all_digits(digits)) by {
        assert forall|j: int| 0 <= j < digits.len() implies '0' <= #[trigger] digits[j] <= '9' by {
            assert(digits[j] == v@[start + j]);
        }
    }
    if negative {
        if value <= 9223372036854775808u64 {
            if value == 9223372036854775808u64 {
                Some(i64::MIN)
            } else {
                Some(-(value as i64))
            }
        } else {
            None
        }
    } else {
        if value <= 9223372036854775807u64 {
            Some(value as i64)
        } else {
            None
        }
    }
}

/// The error of reading the allocation record form.
#[derive(Debug, Clone)]
pub enum PositionInputError {
    /// The amount of the row with this label is no integer.
    InvalidAmount(String),
    /// The amount of the row with this label is not greater than 0.
    AmountNotPositive(String),
}

impl PositionInputError {
    /// The text of the error, naming the asset's row.
    pub fn message(&self) -> (r: String)
        ensures
            r@ == match self {
                PositionInputError::InvalidAmount(label) => "Invalid amount for asset '"@ + label@ + "'"@,
                PositionInputError::AmountNotPositive(label) => "Amount must be greater than 0 for asset '"@ + label@ + "'"@,
            },
    {
        match self {
            PositionInputError::InvalidAmount(label) => "Invalid amount for asset '".to_owned().concat(label.as_str()).concat("'"),
            PositionInputError::AmountNotPositive(label) => "Amount must be greater than 0 for asset '".to_owned().concat(label.as_str()).concat("'"),
        }
    }
}

/// A form row as id, label and amount text.
pub open spec fn row_view(row: PositionItem) -> (i64, Seq<char>, Seq<char>) {
    (row.id, row.label@, row.amount_input@)
}

/// The positions that the rows give, in order: rows with a blank amount are
/// skipped; the others need an integer amount, trimmed, greater than 0. The
/// error names the label of the first row that fails.
pub open spec fn form_positions(rows: Seq<(i64, Seq<char>, Seq<char>)>) -> Result<Seq<AllocationPositionInput>, (bool, Seq<char>)>
    decreases rows.len(),
{
    if rows.len() == 0 {
        Ok(Seq::empty())
    } else {
        match form_positions(rows.drop_last()) {
            Ok(done) => {
                let (id, label, amount) = rows.last();
                if trim(amount).len() == 0 {
                    Ok(done)
                } else {
                    match parsed_i64(trim(amount)) {
                        None => Err((true, label)),
                        Some(v) => if v <= 0 {
                            Err((false, label))
                        } else {
                            Ok(done.push(AllocationPositionInput { asset_id: id, amount: v as i64 }))
                        },
                    }
                }
            },
            Err(e) => Err(e),
        }
    }
}

proof fn lemma_form_positions_err(rows: Seq<(i64, Seq<char>, Seq<char>)>, n: int)
    requires
        0 <= n <= rows.len(),
        form_positions(rows.take(n)) is Err,
    ensures
        form_positions(rows) == form_positions(rows.take(n)),
    decreases rows.len() - n,
{
    if n < rows.len() {
        assert(rows.take(n + 1).drop_last() =~= rows.take(n));
        lemma_form_positions_err(rows, n + 1);
    } else {
        assert(rows.take(n) =~= rows);
    }
}

/// The positions typed into the allocation record form: each row with an
/// amount that is not blank gives its asset and amount; the amount must be an
/// integer greater than 0. Fails on the first row where it is not.
pub fn collect_allocation_positions(rows: &Vec<PositionItem>) -> (r: Result<Vec<AllocationPositionInput>, PositionInputError>)
    ensures
        match r {
            Ok(ps) => form_positions(rows@.map_values(|x: PositionItem| row_view(x))) == Ok::<Seq<AllocationPositionInput>, (bool, Seq<char>)>(ps@),
            Err(PositionInputError::InvalidAmount(label)) =>
                form_positions(rows@.map_values(|x: PositionItem| row_view(x))) == Err::<Seq<AllocationPositionInput>, (bool, Seq<char>)>((true, label@)),
            Err(PositionInputError::AmountNotPositive(label)) =>
                form_positions(rows@.map_values(|x: PositionItem| row_view(x))) == Err::<Seq<AllocationPositionInput>, (bool, Seq<char>)>((false, label@)),
        },
{
    let ghost views = rows@.map_values(|x: PositionItem| row_view(x));
    let mut out: Vec<AllocationPositionInput> = Vec::new();
    let mut i: usize = 0;
    assert(views.take(0) =~= Seq::<(i64, Seq<char>, Seq<char>)>::empty());
    while i < rows.len()
        invariant
            i <= rows.len(),
            views == rows@.map_values(|x: PositionItem| row_view(x)),
            form_positions(views.take(i as int)) == Ok::<Seq<AllocationPositionInput>, (bool, Seq<char>)>(out@),
        decreases rows.len() - i,
    {
        let row = &rows[i];
        assert(views.take(i as int + 1).drop_last() =~= views.take(i as int));
        assert(views.take(i as int + 1).last() == row_view(*row));
        let trimmed = trim_str(row.amount_input.as_str());
        if !trimmed.as_str().is_empty() {
            match parse_i64(trimmed.as_str()) {
                None => {
                    proof {
                        lemma_form_positions_err(views, i as int + 1);
                    }
                    return Err(PositionInputError::InvalidAmount(row.label.clone()));
                },
                Some(amount) => {
                    if amount <= 0 {
                        proof {
                            lemma_form_positions_err(views, i as int + 1);
                        }
                        return Err(PositionInputError::AmountNotPositive(row.label.clone()));
                    }
                    out.push(AllocationPositionInput { asset_id: row.id, amount });
                },
            }
        }
        i += 1;
    }
    assert(views.take(rows.len() as int) =~= views);
    Ok(out)
}

/// The name of the first category with id `id`, or `fallback` when no
/// category has that id.
pub open spec fn first_name_with_id(categories: Seq<CategoryItem>, id: i64, fallback: Seq<char>) -> Seq<char>
    decreases categories.len(),
{
    if categories.len() == 0 {
        fallback
    } else if categories[0].id == id {
        categories[0].name@
    } else {
        first_name_with_id(categories.drop_first(), id, fallback)
    }
}

/// The name of the category with id `selected`, or `fallback` when none is
/// selected or no category has that id.
pub open spec fn selected_name(categories: Seq<CategoryItem>, selected: Option<i64>, fallback: Seq<char>) -> Seq<char> {
    match selected {
        Some(id) => first_name_with_id(categories, id, fallback),
        None => fallback,
    }
}

/// The name of the first category with id `selected`, or `fallback`.
fn selected_category_name(categories: &Vec<CategoryItem>, selected: Option<i64>, fallback: &str) -> (r: String)
    ensures
        r@ == selected_name(categories@, selected, fallback@),
{
    match selected {
        Some(id) => {
            let mut i: usize = 0;
            assert(categories@.skip(0) =~= categories@);
            while i < categories.len()
                invariant
                    i <= categories.len(),
                    selected == Some(id),
                    first_name_with_id(categories@, id, fallback@) == first_name_with_id(categories@.skip(i as int), id, fallback@),
                decreases categories.len() - i,
            {
                assert(categories@.skip(i as int)[0] == categories@[i as int]);
                assert(categories@.skip(i as int).drop_first() =~= categories@.skip(i as int + 1));
                if categories[i].id == id {
                    return categories[i].name.clone();
                }
                i += 1;
            }
            assert(categories@.skip(i as int).len() == 0);
            fallback.to_owned()
        },
        None => fallback.to_owned(),
    }
}

/// The text of the category choice of the allocation diagram: the chosen
/// category's name, or `Position`.
pub fn allocation_diagram_category_selected_text(categories: &Vec<CategoryItem>, selected: Option<i64>) -> (r: String)
    ensures
        r@ == selected_name(categories@, selected, "Position"@),
{
    selected_category_name(categories, selected, "Position")
}

/// The text of the category choice of the new value form: the chosen
/// category's name, or `Select...`.
pub fn selected_category_name_for_value(categories: &Vec<CategoryItem>, selected: Option<i64>) -> (r: String)
    ensures
        r@ == selected_name(categories@, selected, "Select..."@),
{
    selected_category_name(categories, selected, "Select...")
}

/// The label of a reference type.
pub fn reference_type_label(reference_type: AssetReferenceType) -> (r: &'static str)
    ensures
        r@ == match reference_type {
            AssetReferenceType::Iban => "IBAN"@,
            AssetReferenceType::Isin => "ISIN"@,
            AssetReferenceType::Ticker => "Ticker"@,
        },
{
    match reference_type {
        AssetReferenceType::Iban => "IBAN",
        AssetReferenceType::Isin => "ISIN",
        AssetReferenceType::Ticker => "Ticker",
    }
}

/// The label of a reference type of the domain model.
pub fn domain_reference_type_label(reference_type: ReferenceType) -> (r: &'static str)
    ensures
        r@ == match reference_type {
            ReferenceType::Iban => "IBAN"@,
            ReferenceType::Isin => "ISIN"@,
            ReferenceType::Ticker => "Ticker"@,
        },
{
    match reference_type {
        ReferenceType::Iban => "IBAN",
        ReferenceType::Isin => "ISIN",
        ReferenceType::Ticker => "Ticker",
    }
}


/// The back end of the desktop app, which runs the requests in its own
/// process; it has no access control.
pub struct DesktopBackend;

impl DesktopBackend {
    /// Unlocking is for the web app only: the desktop back end refuses it.
    pub fn unlock(&self) -> (r: Result<crate::access_control::AccessGrant, String>)
        ensures
            r matches Err(m) && m@ == "Unlock is only available in the web app"@,
    {
        Err("Unlock is only available in the web app".to_owned())
    }
}

/// The status text after something named `name` was saved, `what` saying
/// what it was (`Asset`, `Category`, `Category value`, `Allocation record`):
/// `{what} '{name}' was saved.` with the name trimmed.
pub fn saved_message(what: &str, name: &str) -> (r: String)
    ensures
        r@ == what@ + " '"@ + trim(name@) + "' was saved."@,
{
    let trimmed = trim_str(name);
    what.to_owned().concat(" '").concat(trimmed.as_str()).concat("' was saved.")
}

/// The ids of the chosen values, one per category of the asset form, in
/// order; the choice of every category is owed.
pub open spec fn chosen_values(choices: Seq<(i64, Option<i64>)>) -> Option<Seq<i64>>
    decreases choices.len(),
{
    if choices.len() == 0 {
        Some(seq![])
    } else {
        match (chosen_values(choices.drop_last()), choices.last().1) {
            (Some(ids), Some(v)) => Some(ids.push(v)),
            _ => None,
        }
    }
}

/// The category values chosen on the asset form (category id and the chosen
/// value's id, if any): their ids in order, or the message that every
/// category needs a value.
pub fn chosen_category_values(choices: &Vec<(i64, Option<i64>)>) -> (r: Result<Vec<i64>, String>)
    ensures
        match chosen_values(choices@) {
            Some(ids) => r matches Ok(v) && v@ == ids,
            None => r matches Err(m) && m@ == "All category values must be set"@,
        },
{
    let mut ids: Vec<i64> = Vec::new();
    let mut i: usize = 0;
    while i < choices.len()
        invariant
            i <= choices.len(),
            chosen_values(choices@.take(i as int)) == Some(ids@),
        decreases choices.len() - i,
    {
        assert(choices@.take(i + 1).drop_last() =~= choices@.take(i as int));
        assert(choices@.take(i + 1).last() == choices@[i as int]);
        match choices[i].1 {
            Some(v) => {
                ids.push(v);
            },
            None => {
                proof {
                    lemma_chosen_values_none(choices@, i as int + 1);
                }
                return Err("All category values must be set".to_owned());
            },
        }
        i += 1;
    }
    assert(choices@.take(i as int) =~= choices@);
    Ok(ids)
}

proof fn lemma_chosen_values_none(choices: Seq<(i64, Option<i64>)>, n: int)
    requires
        0 <= n <= choices.len(),
        chosen_values(choices.take(n)) is None,
    ensures
        chosen_values(choices) is None,
    decreases choices.len() - n,
{
    if n < choices.len() {
        assert(choices.take(n + 1).drop_last() =~= choices.take(n));
        lemma_chosen_values_none(choices, n + 1);
    } else {
        assert(choices.take(n) =~= choices);
    }
}

/// The sum of the amounts of an allocation record's positions.
pub open spec fn amounts_total(positions: Seq<AllocationPositionInput>) -> int
    decreases positions.len(),
{
    if positions.len() == 0 {
        0
    } else {
        amounts_total(positions.drop_last()) + positions.last().amount
    }
}

/// The text shown for a record whose amounts do not add up to more than 0.
pub open spec fn no_positive_positions_text() -> Seq<char> {
    "The latest allocation record contains no positive positions."@
}

/// The notice for a record whose positions do not add up to more than 0,
/// none where they do (the record is then shown).
pub fn no_positive_positions_notice(positions: &Vec<AllocationPositionInput>) -> (r: Option<String>)
    requires
        forall|k: int| 0 <= k <= positions.len() ==> i64::MIN <= #[trigger] amounts_total(positions@.take(k)) <= i64::MAX,
    ensures
        amounts_total(positions@) > 0 ==> r is None,
        amounts_total(positions@) <= 0 ==> (r matches Some(m) && m@ == no_positive_positions_text()),
{
    let mut total: i64 = 0;
    let mut i: usize = 0;
    assert(positions@.take(0) =~= Seq::<AllocationPositionInput>::empty());
    while i < positions.len()
        invariant
            i <= positions.len(),
            total == amounts_total(positions@.take(i as int)),
            forall|k: int| 0 <= k <= positions.len() ==> i64::MIN <= #[trigger] amounts_total(positions@.take(k)) <= i64::MAX,
        decreases positions.len() - i,
    {
        assert(positions@.take(i + 1).drop_last() =~= positions@.take(i as int));
        assert(positions@.take(i + 1).last() == positions@[i as int]);
        assert(i64::MIN <= amounts_total(positions@.take(i + 1)) <= i64::MAX);
        total = total + positions[i].amount;
        i += 1;
    }
    assert(positions@.take(i as int) =~= positions@);
    if total <= 0 {
        Some("The latest allocation record contains no positive positions.".to_owned())
    } else {
        None
    }
}

/// The name shown for the asset of a position: its name among `names` (asset
/// id and name), the first one listed for that id, or `Unknown asset`.
pub open spec fn position_asset_name(names: Seq<(i64, Seq<char>)>, asset_id: i64) -> Seq<char>
    decreases names.len(),
{
    if names.len() == 0 {
        "Unknown asset"@
    } else if names[0].0 == asset_id {
        names[0].1
    } else {
        position_asset_name(names.drop_first(), asset_id)
    }
}

/// The name shown for the asset of a position.
pub fn asset_name_for_position(names: &Vec<(i64, String)>, asset_id: i64) -> (r: String)
    ensures
        r@ == position_asset_name(names@.map_values(|e: (i64, String)| (e.0, e.1@)), asset_id),
{
    let ghost views = names@.map_values(|e: (i64, String)| (e.0, e.1@));
    let mut i: usize = 0;
    assert(views.skip(0) =~= views);
    while i < names.len()
        invariant
            i <= names.len(),
            views == names@.map_values(|e: (i64, String)| (e.0, e.1@)),
            position_asset_name(views, asset_id) == position_asset_name(views.skip(i as int), asset_id),
        decreases names.len() - i,
    {
        assert(views.skip(i as int)[0] == views[i as int]);
        if names[i].0 == asset_id {
            return names[i].1.clone();
        }
        assert(views.skip(i as int).drop_first() =~= views.skip(i + 1));
        i += 1;
    }
    assert(views.skip(i as int) =~= Seq::<(i64, Seq<char>)>::empty());
    "Unknown asset".to_owned()
}

} // verus!
