//! The asset domain of the desktop app: assets and their references, asset
//! categories and their values, and allocation records.
use vstd::prelude::*;
use crate::civil::CivilDate;
use crate::text::{str_eq, trim, trim_str};

verus! {

/// The kind of reference that identifies an asset.
#[derive(Debug, Clone, Copy, PartialEq, Eq, Structural)]
pub enum ReferenceType {
    Iban,
    Isin,
    Ticker,
}

/// The kind of reference that identifies an asset, as the app stores it.
#[derive(Debug, Clone, Copy, PartialEq, Eq, Structural)]
pub enum AssetReferenceType {
    Iban,
    Isin,
    Ticker,
}

/// The text that stands for `t` in the database.
pub open spec fn reference_type_text(t: AssetReferenceType) -> Seq<char> {
    match t {
        AssetReferenceType::Iban => "IBAN"@,
        AssetReferenceType::Isin => "ISIN"@,
        AssetReferenceType::Ticker => "TICKER"@,
    }
}

/// The text that stands for `rt` in the database.
pub fn reference_type_to_str(rt: AssetReferenceType) -> (r: &'static str)
    ensures
        r@ == reference_type_text(rt),
{
    match rt {
        AssetReferenceType::Iban => "IBAN",
        AssetReferenceType::Isin => "ISIN",
        AssetReferenceType::Ticker => "TICKER",
    }
}

/// The reference type that `s` stands for in the database.
pub fn str_to_reference_type(s: &str) -> (r: Option<AssetReferenceType>)
    ensures
        match r {
            Some(t) => reference_type_text(t) == s@,
            None => forall|t: AssetReferenceType| reference_type_text(t) != s@,
        },
{
    if str_eq(s, "IBAN") {
        Some(AssetReferenceType::Iban)
    } else if str_eq(s, "ISIN") {
        Some(AssetReferenceType::Isin)
    } else if str_eq(s, "TICKER") {
        Some(AssetReferenceType::Ticker)
    } else {
        assert forall|t: AssetReferenceType| reference_type_text(t) != s@ by {
            match t {
                AssetReferenceType::Iban => {},
                AssetReferenceType::Isin => {},
                AssetReferenceType::Ticker => {},
            }
        }
        None
    }
}

/// The name of a reference type, as the app shows it and stores it in the
/// assets database of the web and desktop back ends: the variant's name.
pub open spec fn reference_type_name_text(t: AssetReferenceType) -> Seq<char> {
    match t {
        AssetReferenceType::Iban => "Iban"@,
        AssetReferenceType::Isin => "Isin"@,
        AssetReferenceType::Ticker => "Ticker"@,
    }
}

impl AssetReferenceType {
    /// The name of the reference type.
    pub fn name(&self) -> (r: &'static str)
        ensures
            r@ == reference_type_name_text(*self),
    {
        match self {
            AssetReferenceType::Iban => "Iban",
            AssetReferenceType::Isin => "Isin",
            AssetReferenceType::Ticker => "Ticker",
        }
    }

    /// The reference type of that name.
    pub fn from_name(s: &str) -> (r: Option<AssetReferenceType>)
        ensures
            match r {
                Some(t) => reference_type_name_text(t) == s@,
                None => forall|t: AssetReferenceType| reference_type_name_text(t) != s@,
            },
    {
        if str_eq(s, "Iban") {
            Some(AssetReferenceType::Iban)
        } else if str_eq(s, "Isin") {
            Some(AssetReferenceType::Isin)
        } else if str_eq(s, "Ticker") {
            Some(AssetReferenceType::Ticker)
        } else {
            assert forall|t: AssetReferenceType| reference_type_name_text(t) != s@ by {
                match t {
                    AssetReferenceType::Iban => {},
                    AssetReferenceType::Isin => {},
                    AssetReferenceType::Ticker => {},
                }
            }
            None
        }
    }
}

/// Reading back the database text of a reference type gives the type.
pub proof fn lemma_reference_type_round_trip(t: AssetReferenceType)
    ensures
        forall|u: AssetReferenceType| reference_type_text(u) == reference_type_text(t) ==> u == t,
{
    reveal_strlit("IBAN");
    reveal_strlit("ISIN");
    reveal_strlit("TICKER");
    assert("IBAN"@[1] != "ISIN"@[1]);
    assert("IBAN"@.len() != "TICKER"@.len());
    assert("ISIN"@.len() != "TICKER"@.len());
}

/// The reference that identifies an asset.
#[derive(Debug, Clone)]
pub struct AssetReference {
    pub reference_type: AssetReferenceType,
    pub value: String,
}

impl AssetReference {
    /// A reference with the trimmed `value`; fails when that is empty.
    pub fn new(reference_type: AssetReferenceType, value: String) -> (r: Result<Self, String>)
        ensures
            match r {
                Ok(reference) => trim(value@).len() > 0 && reference.reference_type == reference_type
                    && reference.value@ == trim(value@),
                Err(message) => trim(value@).len() == 0 && message@ == "Reference value must not be empty"@,
            },
    {
        let trimmed = trim_str(value.as_str());
        if trimmed.as_str().is_empty() {
            return Err("Reference value must not be empty".to_owned());
        }
        Ok(AssetReference { reference_type, value: trimmed })
    }
}

/// An asset.
#[derive(Debug, Clone)]
pub struct Asset {
    pub id: i64,
    pub name: String,
    pub reference: AssetReference,
}

/// A value of an asset category.
#[derive(Debug, Clone)]
pub struct CategoryValue {
    pub id: i64,
    pub asset_category_id: i64,
    pub name: String,
}

impl CategoryValue {
    /// A new value named `name` (trimmed) of the category `asset_category_id`;
    /// fails when the category id is not positive or the name is blank.
    pub fn new(asset_category_id: i64, name: String) -> (r: Result<Self, String>)
        ensures
            match r {
                Ok(v) => asset_category_id > 0 && trim(name@).len() > 0 && v.id == 0
                    && v.asset_category_id == asset_category_id && v.name@ == trim(name@),
                Err(message) => if asset_category_id <= 0 {
                    message@ == "Category id must be greater than 0"@
                } else {
                    trim(name@).len() == 0 && message@ == "Category value name must not be empty"@
                },
            },
    {
        let trimmed = trim_str(name.as_str());
        if asset_category_id <= 0 {
            return Err("Category id must be greater than 0".to_owned());
        }
        if trimmed.as_str().is_empty() {
            return Err("Category value name must not be empty".to_owned());
        }
        Ok(CategoryValue { id: 0, asset_category_id, name: trimmed })
    }
}

/// The errors of the asset service.
#[derive(Debug, Clone)]
pub enum AppError {
    Validation(String),
    Storage(String),
}

impl AppError {
    /// The text of the error.
    pub fn message(&self) -> (r: String)
        ensures
            r@ == match self {
                AppError::Validation(m) => "Validation error: "@ + m@,
                AppError::Storage(m) => "Storage error: "@ + m@,
            },
    {
        match self {
            AppError::Validation(m) => "Validation error: ".to_owned().concat(m.as_str()),
            AppError::Storage(m) => "Storage error: ".to_owned().concat(m.as_str()),
        }
    }
}

/// The name of a new category as the asset service stores it: `name`
/// trimmed; a blank name is refused as a validation error.
pub fn validate_category_name(name: &str) -> (r: Result<String, AppError>)
    ensures
        match r {
            Ok(n) => trim(name@).len() > 0 && n@ == trim(name@),
            Err(e) => trim(name@).len() == 0 && (e matches AppError::Validation(m)
                && m@ == "Category name must not be empty"@),
        },
{
    let trimmed = trim_str(name);
    if trimmed.as_str().is_empty() {
        return Err(AppError::Validation("Category name must not be empty".to_owned()));
    }
    Ok(trimmed)
}

/// What the user typed for a new asset.
pub struct AssetInput {
    pub name: String,
    pub reference_value: String,
    pub reference_type: AssetReferenceType,
}

impl Default for AssetInput {
    fn default() -> (r: Self)
        ensures
            r.name@.len() == 0,
            r.reference_value@.len() == 0,
            r.reference_type == AssetReferenceType::Isin,
    {
        AssetInput { name: String::new(), reference_value: String::new(), reference_type: AssetReferenceType::Isin }
    }
}

/// The position of an asset in an allocation record to be saved.
#[derive(Debug, Clone, Copy, PartialEq, Eq, Structural)]
pub struct AllocationPositionInput {
    pub asset_id: i64,
    pub amount: i64,
}

/// An allocation record to be saved.
#[derive(Debug, Clone)]
pub struct AllocationRecordInput {
    pub date: CivilDate,
    pub positions: Vec<AllocationPositionInput>,
}

impl AllocationRecordInput {
    /// The record of `positions` on `date`; fails when there is no position or
    /// one with an amount that is not positive.
    pub fn new(date: CivilDate, positions: Vec<AllocationPositionInput>) -> (r: Result<Self, String>)
        ensures
            match r {
                Ok(rec) => positions@.len() > 0 && (forall|i: int| 0 <= i < positions@.len() ==> #[trigger] positions@[i].amount > 0)
                    && rec.date == date && rec.positions@ == positions@,
                Err(message) => if positions@.len() == 0 {
                    message@ == "At least one position must be added"@
                } else {
                    (exists|i: int| 0 <= i < positions@.len() && #[trigger] positions@[i].amount <= 0)
                        && message@ == "Position amount must be positive"@
                },
            },
    {
        if positions.len() == 0 {
            return Err("At least one position must be added".to_owned());
        }
        let mut i: usize = 0;
        while i < positions.len()
            invariant
                i <= positions.len(),
                forall|j: int| 0 <= j < i ==> #[trigger] positions@[j].amount > 0,
            decreases positions.len() - i,
        {
            if positions[i].amount <= 0 {
                return Err("Position amount must be positive".to_owned());
            }
            i += 1;
        }
        Ok(AllocationRecordInput { date, positions })
    }
}

/// The position of an asset in a new allocation record.
#[derive(Debug, Clone, Copy, PartialEq, Eq, Structural)]
pub struct NewAllocationPosition {
    pub asset_id: i64,
    pub amount: i64,
}

/// A new allocation record.
#[derive(Debug, Clone)]
pub struct NewAllocationRecord {
    pub date: CivilDate,
    pub positions: Vec<NewAllocationPosition>,
}

impl NewAllocationRecord {
    /// The record of `positions` on `date`; fails when there is no position or
    /// one with an amount that is not positive.
    pub fn new(date: CivilDate, positions: Vec<NewAllocationPosition>) -> (r: Result<Self, String>)
        ensures
            match r {
                Ok(rec) => positions@.len() > 0 && (forall|i: int| 0 <= i < positions@.len() ==> #[trigger] positions@[i].amount > 0)
                    && rec.date == date && rec.positions@ == positions@,
                Err(message) => if positions@.len() == 0 {
                    message@ == "At least one position must be added"@
                } else {
                    (exists|i: int| 0 <= i < positions@.len() && #[trigger] positions@[i].amount <= 0)
                        && message@ == "Position amount must be positive"@
                },
            },
    {
        if positions.len() == 0 {
            return Err("At least one position must be added".to_owned());
        }
        let mut i: usize = 0;
        while i < positions.len()
            invariant
                i <= positions.len(),
                forall|j: int| 0 <= j < i ==> #[trigger] positions@[j].amount > 0,
            decreases positions.len() - i,
        {
            if positions[i].amount <= 0 {
                return Err("Position amount must be positive".to_owned());
            }
            i += 1;
        }
        Ok(NewAllocationRecord { date, positions })
    }
}

/// The reference of an asset as stored in an allocation record file.
#[derive(Debug, Clone)]
pub struct AssetReferenceRon {
    pub reference_type: AssetReferenceType,
    pub value: String,
}

} // verus!
