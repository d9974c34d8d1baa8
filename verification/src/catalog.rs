//! The asset catalog: checking a new asset and its category assignments before
//! it is stored.
use vstd::prelude::*;
use crate::assets::AssetReference;
use crate::text::{trim, trim_str};

verus! {

/// One assignment of a new asset to a value of a category, as far as the
/// checks read it: the chosen value, if any, and whether its percentage is 0.
#[derive(Debug, Clone, Copy, PartialEq, Eq, Structural)]
pub struct AssignmentInput {
    pub value_id: Option<i64>,
    pub percentage_is_zero: bool,
}

/// The assignments of a new asset within one category, and whether their
/// percentages add up to more than 100.
#[derive(Debug, Clone)]
pub struct CategoryAssignmentInput {
    pub category_id: i64,
    pub assignments: Vec<AssignmentInput>,
    pub percentages_exceed_100: bool,
}

/// The assignments of one category as a sequence.
pub struct CategoryAssignmentView {
    pub category_id: i64,
    pub assignments: Seq<AssignmentInput>,
    pub percentages_exceed_100: bool,
}

impl View for CategoryAssignmentInput {
    type V = CategoryAssignmentView;

    open spec fn view(&self) -> CategoryAssignmentView {
        CategoryAssignmentView {
            category_id: self.category_id,
            assignments: self.assignments@,
            percentages_exceed_100: self.percentages_exceed_100,
        }
    }
}

/// What the user entered for a new asset.
#[derive(Debug, Clone)]
pub struct AddAssetArgs {
    pub name: String,
    pub reference: AssetReference,
    pub categories: Vec<CategoryAssignmentInput>,
}

/// A category value that the new asset is assigned to, with the positions of
/// its category and assignment in the input.
#[derive(Debug, Clone, Copy, PartialEq, Eq, Structural)]
pub struct ChosenValue {
    pub value_id: i64,
    pub category: usize,
    pub assignment: usize,
}

/// A checked new asset: its trimmed name, its reference and the values it is
/// assigned to.
#[derive(Debug, Clone)]
pub struct NewAsset {
    pub name: String,
    pub reference: AssetReference,
    pub values: Vec<ChosenValue>,
}

/// The errors of adding an asset.
#[derive(Debug, Clone, Copy, PartialEq, Eq, Structural)]
pub enum AddAssetError {
    EmptyName,
    EmptyReferenceValue,
    ZeroPercentage,
    DuplicateValue,
    ValueUnset,
    PercentagesExceed100,
}

impl AddAssetError {
    /// The text of the error.
    pub fn message(&self) -> (r: String)
        ensures
            r@ == match self {
                AddAssetError::EmptyName => "Asset name must not be empty"@,
                AddAssetError::EmptyReferenceValue => "Reference value must not be empty"@,
                AddAssetError::ZeroPercentage => "Category value has percentage of 0%"@,
                AddAssetError::DuplicateValue => "Duplicate category values"@,
                AddAssetError::ValueUnset => "Category value unset"@,
                AddAssetError::PercentagesExceed100 => "Percentages for a category add up to more than 100%"@,
            },
    {
        match self {
            AddAssetError::EmptyName => "Asset name must not be empty".to_owned(),
            AddAssetError::EmptyReferenceValue => "Reference value must not be empty".to_owned(),
            AddAssetError::ZeroPercentage => "Category value has percentage of 0%".to_owned(),
            AddAssetError::DuplicateValue => "Duplicate category values".to_owned(),
            AddAssetError::ValueUnset => "Category value unset".to_owned(),
            AddAssetError::PercentagesExceed100 => "Percentages for a category add up to more than 100%".to_owned(),
        }
    }
}

/// `chosen` already holds value `id`.
pub open spec fn holds_value(chosen: Seq<ChosenValue>, id: i64) -> bool {
    exists|i: int| 0 <= i < chosen.len() && (#[trigger] chosen[i]).value_id == id
}

/// The values chosen by the assignments of category number `ci`, in order;
/// the error of the first assignment that fails: a percentage of 0, a value
/// chosen twice, or no value chosen.
pub open spec fn checked_assignments(a: Seq<AssignmentInput>, ci: int) -> Result<Seq<ChosenValue>, AddAssetError>
    decreases a.len(),
{
    if a.len() == 0 {
        Ok(Seq::empty())
    } else {
        match checked_assignments(a.drop_last(), ci) {
            Ok(done) => {
                let last = a.last();
                if last.percentage_is_zero {
                    Err(AddAssetError::ZeroPercentage)
                } else {
                    match last.value_id {
                        Some(id) => if holds_value(done, id) {
                            Err(AddAssetError::DuplicateValue)
                        } else {
                            Ok(done.push(ChosenValue { value_id: id, category: ci as usize, assignment: (a.len() - 1) as usize }))
                        },
                        None => Err(AddAssetError::ValueUnset),
                    }
                }
            },
            Err(e) => Err(e),
        }
    }
}

/// The values chosen in category number `ci`, or its first error; a category
/// whose percentages exceed 100 fails after its assignments are checked.
pub open spec fn checked_category(c: CategoryAssignmentView, ci: int) -> Result<Seq<ChosenValue>, AddAssetError> {
    match checked_assignments(c.assignments, ci) {
        Ok(chosen) => if c.percentages_exceed_100 {
            Err(AddAssetError::PercentagesExceed100)
        } else {
            Ok(chosen)
        },
        Err(e) => Err(e),
    }
}

/// The values chosen in all categories, category by category; the first error.
pub open spec fn checked_categories(cs: Seq<CategoryAssignmentView>) -> Result<Seq<ChosenValue>, AddAssetError>
    decreases cs.len(),
{
    if cs.len() == 0 {
        Ok(Seq::empty())
    } else {
        match checked_categories(cs.drop_last()) {
            Ok(done) => match checked_category(cs.last(), cs.len() - 1) {
                Ok(more) => Ok(done + more),
                Err(e) => Err(e),
            },
            Err(e) => Err(e),
        }
    }
}

/// The views of the categories of a new asset.
pub open spec fn category_views(v: Seq<CategoryAssignmentInput>) -> Seq<CategoryAssignmentView> {
    v.map_values(|c: CategoryAssignmentInput| c@)
}

/// The outcome of the checks of a new asset: its trimmed name and chosen
/// values, or the first error.
pub open spec fn checked_new_asset(name: Seq<char>, reference_value: Seq<char>, cs: Seq<CategoryAssignmentView>) -> Result<(Seq<char>, Seq<ChosenValue>), AddAssetError> {
    if trim(name).len() == 0 {
        Err(AddAssetError::EmptyName)
    } else if reference_value.len() == 0 {
        Err(AddAssetError::EmptyReferenceValue)
    } else {
        match checked_categories(cs) {
            Ok(chosen) => Ok((trim(name), chosen)),
            Err(e) => Err(e),
        }
    }
}

proof fn lemma_checked_assignments_err(a: Seq<AssignmentInput>, ci: int, n: int)
    requires
        0 <= n <= a.len(),
        checked_assignments(a.take(n), ci) is Err,
    ensures
        checked_assignments(a, ci) == checked_assignments(a.take(n), ci),
    decreases a.len() - n,
{
    if n < a.len() {
        assert(a.take(n + 1).drop_last() =~= a.take(n));
        lemma_checked_assignments_err(a, ci, n + 1);
    } else {
        assert(a.take(n) =~= a);
    }
}

proof fn lemma_checked_categories_err(cs: Seq<CategoryAssignmentView>, n: int)
    requires
        0 <= n <= cs.len(),
        checked_categories(cs.take(n)) is Err,
    ensures
        checked_categories(cs) == checked_categories(cs.take(n)),
    decreases cs.len() - n,
{
    if n < cs.len() {
        assert(cs.take(n + 1).drop_last() =~= cs.take(n));
        lemma_checked_categories_err(cs, n + 1);
    } else {
        assert(cs.take(n) =~= cs);
    }
}

/// Whether `chosen[from..]` holds value `id`.
fn holds_value_from(chosen: &Vec<ChosenValue>, from: usize, id: i64) -> (r: bool)
    requires
        from <= chosen.len(),
    ensures
        r == holds_value(chosen@.skip(from as int), id),
{
    let mut i = from;
    while i < chosen.len()
        invariant
            from <= i <= chosen.len(),
            forall|j: int| from <= j < i ==> (#[trigger] chosen@[j]).value_id != id,
        decreases chosen.len() - i,
    {
        if chosen[i].value_id == id {
            assert(chosen@.skip(from as int)[i - from] == chosen@[i as int]);
            return true;
        }
        i += 1;
    }
    assert forall|j: int| 0 <= j < chosen@.skip(from as int).len() implies (#[trigger] chosen@.skip(from as int)[j]).value_id != id by {
        assert(chosen@.skip(from as int)[j] == chosen@[from + j]);
    }
    false
}

/// A copy of a reference.
fn copy_reference(r: &AssetReference) -> (c: AssetReference)
    ensures
        c == *r,
{
    AssetReference { reference_type: r.reference_type, value: r.value.clone() }
}

/// Checks a new asset: the trimmed name must not be empty, nor the reference
/// value; within each category, in order, every assignment must have a
/// percentage other than 0 and a value, no value may be chosen twice, and the
/// percentages must not exceed 100. Gives the asset to store with the chosen
/// values, or the first error.
pub fn add_asset(args: &AddAssetArgs) -> (r: Result<NewAsset, AddAssetError>)
    ensures
        match r {
            Ok(asset) => checked_new_asset(args.name@, args.reference.value@, category_views(args.categories@))
                == Ok::<(Seq<char>, Seq<ChosenValue>), AddAssetError>((asset.name@, asset.values@))
                && asset.reference == args.reference,
            Err(e) => checked_new_asset(args.name@, args.reference.value@, category_views(args.categories@))
                == Err::<(Seq<char>, Seq<ChosenValue>), AddAssetError>(e),
        },
{
    let name = trim_str(args.name.as_str());
    if name.as_str().is_empty() {
        return Err(AddAssetError::EmptyName);
    }
    if args.reference.value.as_str().is_empty() {
        return Err(AddAssetError::EmptyReferenceValue);
    }
    let ghost cs = category_views(args.categories@);
    let mut values: Vec<ChosenValue> = Vec::new();
    let mut ci: usize = 0;
    assert(cs.take(0) =~= Seq::<CategoryAssignmentView>::empty());
    while ci < args.categories.len()
        invariant
            ci <= args.categories.len(),
            cs == category_views(args.categories@),
            checked_categories(cs.take(ci as int)) == Ok::<Seq<ChosenValue>, AddAssetError>(values@),
            name@ == trim(args.name@),
            name@.len() > 0,
            args.reference.value@.len() > 0,
        decreases args.categories.len() - ci,
    {
        let category = &args.categories[ci];
        let ghost c = cs[ci as int];
        assert(c == category@);
        let start = values.len();
        let ghost done = values@;
        let mut ai: usize = 0;
        assert(c.assignments.take(0) =~= Seq::<AssignmentInput>::empty());
        assert(values@.skip(start as int) =~= Seq::<ChosenValue>::empty());
        while ai < category.assignments.len()
            invariant
                ai <= category.assignments.len(),
                ci < args.categories.len(),
                cs == category_views(args.categories@),
                name@ == trim(args.name@),
                name@.len() > 0,
                args.reference.value@.len() > 0,
                c == cs[ci as int],
                checked_categories(cs.take(ci as int)) == Ok::<Seq<ChosenValue>, AddAssetError>(done),
                c == category@,
                start == done.len(),
                start <= values.len(),
                values@.take(start as int) == done,
                checked_assignments(c.assignments.take(ai as int), ci as int) == Ok::<Seq<ChosenValue>, AddAssetError>(values@.skip(start as int)),
            decreases category.assignments.len() - ai,
        {
            let a = category.assignments[ai];
            assert(c.assignments.take(ai as int + 1).drop_last() =~= c.assignments.take(ai as int));
            assert(c.assignments.take(ai as int + 1).last() == a);
            if a.percentage_is_zero {
                proof {
                    lemma_checked_assignments_err(c.assignments, ci as int, ai as int + 1);
                    assert(cs.take(ci as int + 1).drop_last() =~= cs.take(ci as int));
                    lemma_checked_categories_err(cs, ci as int + 1);
                }
                return Err(AddAssetError::ZeroPercentage);
            }
            match a.value_id {
                Some(id) => {
                    if holds_value_from(&values, start, id) {
                        proof {
                            lemma_checked_assignments_err(c.assignments, ci as int, ai as int + 1);
                            assert(cs.take(ci as int + 1).drop_last() =~= cs.take(ci as int));
                            lemma_checked_categories_err(cs, ci as int + 1);
                        }
                        return Err(AddAssetError::DuplicateValue);
                    }
                    let ghost before = values@;
                    values.push(ChosenValue { value_id: id, category: ci, assignment: ai });
                    assert(values@.take(start as int) =~= before.take(start as int));
                    assert(values@.skip(start as int) =~= before.skip(start as int).push(ChosenValue { value_id: id, category: ci, assignment: ai }));
                },
                None => {
                    proof {
                        lemma_checked_assignments_err(c.assignments, ci as int, ai as int + 1);
                        assert(cs.take(ci as int + 1).drop_last() =~= cs.take(ci as int));
                        lemma_checked_categories_err(cs, ci as int + 1);
                    }
                    return Err(AddAssetError::ValueUnset);
                },
            }
            ai += 1;
        }
        assert(c.assignments.take(ai as int) =~= c.assignments);
        assert(cs.take(ci as int + 1).drop_last() =~= cs.take(ci as int));
        assert(cs.take(ci as int + 1).last() == c);
        if category.percentages_exceed_100 {
            proof {
                lemma_checked_categories_err(cs, ci as int + 1);
            }
            return Err(AddAssetError::PercentagesExceed100);
        }
        assert(values@ =~= done + values@.skip(start as int));
        ci += 1;
    }
    assert(cs.take(args.categories.len() as int) =~= cs);
    Ok(NewAsset { name, reference: copy_reference(&args.reference), values })
}


/// What the values chosen from one category's assignments satisfy.
pub open spec fn chosen_from(chosen: Seq<ChosenValue>, a: Seq<AssignmentInput>, ci: int) -> bool {
    &&& forall|i: int, j: int| 0 <= i < j < chosen.len() ==> (#[trigger] chosen[i]).value_id != (#[trigger] chosen[j]).value_id
    &&& forall|i: int| 0 <= i < chosen.len() ==> (#[trigger] chosen[i]).category == ci
        && chosen[i].assignment < a.len()
        && a[chosen[i].assignment as int].value_id == Some(chosen[i].value_id)
}

proof fn lemma_checked_assignments_chosen(a: Seq<AssignmentInput>, ci: int)
    requires
        0 <= ci <= usize::MAX,
        a.len() <= usize::MAX + 1,
        checked_assignments(a, ci) is Ok,
    ensures
        chosen_from(checked_assignments(a, ci)->Ok_0, a, ci),
    decreases a.len(),
{
    if a.len() > 0 {
        let p = a.drop_last();
        lemma_checked_assignments_chosen(p, ci);
        let done = checked_assignments(p, ci)->Ok_0;
        let all = checked_assignments(a, ci)->Ok_0;
        assert forall|i: int| 0 <= i < done.len() implies (#[trigger] done[i]).assignment < a.len()
            && a[done[i].assignment as int].value_id == Some(done[i].value_id) by {
            assert(a[done[i].assignment as int] == p[done[i].assignment as int]);
        }
        if all.len() > done.len() {
            let id = a.last().value_id->Some_0;
            assert(!holds_value(done, id));
            assert forall|i: int, j: int| 0 <= i < j < all.len() implies (#[trigger] all[i]).value_id != (#[trigger] all[j]).value_id by {
                if j == done.len() {
                    assert(all[i] == done[i]);
                    assert(all[j].value_id == id);
                    if done[i].value_id == id {
                        assert(holds_value(done, id));
                    }
                } else {
                    assert(all[i] == done[i] && all[j] == done[j]);
                }
            }
            assert forall|i: int| 0 <= i < all.len() implies (#[trigger] all[i]).category == ci
                && all[i].assignment < a.len()
                && a[all[i].assignment as int].value_id == Some(all[i].value_id) by {
                if i < done.len() {
                    assert(all[i] == done[i]);
                }
            }
        }
    }
}

/// The values that a checked new asset is assigned to: no value is chosen
/// twice within a category, and each comes from an assignment of the input
/// that chose it.
pub proof fn lemma_new_asset_values(name: Seq<char>, reference_value: Seq<char>, cs: Seq<CategoryAssignmentView>)
    requires
        cs.len() <= usize::MAX + 1,
        forall|c: int| 0 <= c < cs.len() ==> (#[trigger] cs[c]).assignments.len() <= usize::MAX + 1,
        checked_new_asset(name, reference_value, cs) is Ok,
    ensures
        ({
            let chosen = checked_new_asset(name, reference_value, cs)->Ok_0.1;
            &&& forall|i: int, j: int| 0 <= i < j < chosen.len() && (#[trigger] chosen[i]).category == (#[trigger] chosen[j]).category
                ==> chosen[i].value_id != chosen[j].value_id
            &&& forall|i: int| 0 <= i < chosen.len() ==> (#[trigger] chosen[i]).category < cs.len()
                && chosen[i].assignment < cs[chosen[i].category as int].assignments.len()
                && cs[chosen[i].category as int].assignments[chosen[i].assignment as int].value_id == Some(chosen[i].value_id)
        }),
{
    lemma_checked_categories_chosen(cs);
}

proof fn lemma_checked_categories_chosen(cs: Seq<CategoryAssignmentView>)
    requires
        cs.len() <= usize::MAX + 1,
        forall|c: int| 0 <= c < cs.len() ==> (#[trigger] cs[c]).assignments.len() <= usize::MAX + 1,
        checked_categories(cs) is Ok,
    ensures
        ({
            let chosen = checked_categories(cs)->Ok_0;
            &&& forall|i: int, j: int| 0 <= i < j < chosen.len() && (#[trigger] chosen[i]).category == (#[trigger] chosen[j]).category
                ==> chosen[i].value_id != chosen[j].value_id
            &&& forall|i: int| 0 <= i < chosen.len() ==> (#[trigger] chosen[i]).category < cs.len()
                && chosen[i].assignment < cs[chosen[i].category as int].assignments.len()
                && cs[chosen[i].category as int].assignments[chosen[i].assignment as int].value_id == Some(chosen[i].value_id)
        }),
    decreases cs.len(),
{
    if cs.len() > 0 {
        let p = cs.drop_last();
        assert forall|c: int| 0 <= c < p.len() implies (#[trigger] p[c]).assignments.len() <= usize::MAX + 1 by {
            assert(p[c] == cs[c]);
        }
        lemma_checked_categories_chosen(p);
        let done = checked_categories(p)->Ok_0;
        let ci = cs.len() - 1;
        assert(cs[ci].assignments.len() <= usize::MAX + 1);
        lemma_checked_assignments_chosen(cs.last().assignments, ci);
        let more = checked_category(cs.last(), ci)->Ok_0;
        let all = checked_categories(cs)->Ok_0;
        assert(all == done + more);
        assert forall|i: int| 0 <= i < all.len() implies (#[trigger] all[i]).category < cs.len()
            && all[i].assignment < cs[all[i].category as int].assignments.len()
            && cs[all[i].category as int].assignments[all[i].assignment as int].value_id == Some(all[i].value_id) by {
            if i < done.len() {
                assert(all[i] == done[i]);
                assert(cs[done[i].category as int] == p[done[i].category as int]);
            } else {
                assert(all[i] == more[i - done.len()]);
            }
        }
        assert forall|i: int, j: int| 0 <= i < j < all.len() && (#[trigger] all[i]).category == (#[trigger] all[j]).category
            implies all[i].value_id != all[j].value_id by {
            if j < done.len() {
                assert(all[i] == done[i] && all[j] == done[j]);
            } else if i >= done.len() {
                assert(all[i] == more[i - done.len()] && all[j] == more[j - done.len()]);
            } else {
                assert(all[i] == done[i] && all[j] == more[j - done.len()]);
            }
        }
    }
}

} // verus!
