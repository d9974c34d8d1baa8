use tallytail::assets::{AssetReference, AssetReferenceType};
use tallytail::catalog::{add_asset, AddAssetArgs, AddAssetError, AssignmentInput, CategoryAssignmentInput, ChosenValue};
use tallytail::categories::{
    configure_categories, AdaptCategoryInput, CategoryAdaptation, CategoryValueInput, ConfigureCategoriesInput,
    ConfigureStep, NewCategoryInput, StoreReply, StoreRequest,
};

fn reference(value: &str) -> AssetReference {
    AssetReference { reference_type: AssetReferenceType::Isin, value: value.to_string() }
}

fn chosen(value_id: Option<i64>) -> AssignmentInput {
    AssignmentInput { value_id, percentage_is_zero: false }
}

fn category(id: i64, assignments: Vec<AssignmentInput>, exceed: bool) -> CategoryAssignmentInput {
    CategoryAssignmentInput { category_id: id, assignments, percentages_exceed_100: exceed }
}

fn args(name: &str, value: &str, categories: Vec<CategoryAssignmentInput>) -> AddAssetArgs {
    AddAssetArgs { name: name.to_string(), reference: reference(value), categories }
}

#[test]
fn add_asset_trims_the_name_and_lists_the_chosen_values() {
    let a = args("  Apple  ", "US0378331005", vec![
        category(1, vec![chosen(Some(10)), chosen(Some(11))], false),
        category(2, vec![chosen(Some(10))], false),
    ]);
    let asset = add_asset(&a).unwrap();
    assert_eq!(asset.name, "Apple");
    assert_eq!(asset.reference.value, "US0378331005");
    assert_eq!(asset.values, vec![
        ChosenValue { value_id: 10, category: 0, assignment: 0 },
        ChosenValue { value_id: 11, category: 0, assignment: 1 },
        ChosenValue { value_id: 10, category: 1, assignment: 0 },
    ]);
}

#[test]
fn add_asset_errors() {
    assert_eq!(add_asset(&args("  ", "x", vec![])).err(), Some(AddAssetError::EmptyName));
    assert_eq!(add_asset(&args("A", "", vec![])).err(), Some(AddAssetError::EmptyReferenceValue));
    let zero = AssignmentInput { value_id: Some(1), percentage_is_zero: true };
    assert_eq!(add_asset(&args("A", "x", vec![category(1, vec![zero], false)])).err(), Some(AddAssetError::ZeroPercentage));
    assert_eq!(add_asset(&args("A", "x", vec![category(1, vec![chosen(Some(3)), chosen(Some(3))], false)])).err(), Some(AddAssetError::DuplicateValue));
    assert_eq!(add_asset(&args("A", "x", vec![category(1, vec![chosen(None)], false)])).err(), Some(AddAssetError::ValueUnset));
    assert_eq!(add_asset(&args("A", "x", vec![category(1, vec![chosen(Some(3))], true)])).err(), Some(AddAssetError::PercentagesExceed100));
}

#[test]
fn add_asset_reports_the_first_failing_assignment() {
    let a = args("A", "x", vec![category(1, vec![chosen(None), chosen(Some(2)), chosen(Some(2))], true)]);
    assert_eq!(add_asset(&a).err(), Some(AddAssetError::ValueUnset));
    assert_eq!(AddAssetError::PercentagesExceed100.message(), "Percentages for a category add up to more than 100%");
    assert_eq!(AddAssetError::DuplicateValue.message(), "Duplicate category values");
}

fn value(name: &str) -> CategoryValueInput {
    CategoryValueInput { name: name.to_string() }
}

fn run(input: &ConfigureCategoriesInput, answers: &[StoreReply]) -> (Vec<String>, ConfigureStep) {
    let mut replies: Vec<StoreReply> = Vec::new();
    let mut requests = Vec::new();
    loop {
        match configure_categories(input, &replies) {
            ConfigureStep::Request(request) => {
                requests.push(match &request {
                    StoreRequest::AddCategory(n) => format!("category {n}"),
                    StoreRequest::AddCategoryValue(id, n) => format!("value {id} {n}"),
                });
                replies.push(answers[replies.len()].clone());
            }
            done => return (requests, done),
        }
    }
}

#[test]
fn configure_categories_asks_the_store_step_by_step() {
    let input = ConfigureCategoriesInput {
        new_category_inputs: vec![
            NewCategoryInput { name: " Region ".to_string(), new_value_inputs: vec![value(" Europe "), value("  "), value("Asia")] },
            NewCategoryInput { name: "   ".to_string(), new_value_inputs: vec![value("x")] },
            NewCategoryInput { name: "Sector".to_string(), new_value_inputs: vec![value("Tech")] },
        ],
        category_id_to_adapt_input: vec![CategoryAdaptation {
            category_id: 9,
            adapt_input: AdaptCategoryInput { new_value_inputs: vec![value("Bonds"), value("")] },
        }],
    };
    let answers = [
        StoreReply::Added(5),
        StoreReply::Added(0),
        StoreReply::Failed("UNIQUE constraint failed".to_string()),
        StoreReply::Failed("category exists".to_string()),
        StoreReply::Added(0),
    ];
    let (requests, done) = run(&input, &answers);
    assert_eq!(requests, vec![
        "category Region".to_string(),
        "value 5 Europe".to_string(),
        "value 5 Asia".to_string(),
        "category Sector".to_string(),
        "value 9 Bonds".to_string(),
    ]);
    match done {
        ConfigureStep::Done(left, error) => {
            assert_eq!(error.as_deref(), Some("UNIQUE constraint failed"));
            let names: Vec<String> = left.new_category_inputs.iter().map(|c| c.name.clone()).collect();
            assert_eq!(names, vec![" Region ".to_string(), "   ".to_string(), "Sector".to_string()]);
            let region_values: Vec<String> = left.new_category_inputs[0].new_value_inputs.iter().map(|v| v.name.clone()).collect();
            assert_eq!(region_values, vec!["  ".to_string(), "Asia".to_string()]);
            assert_eq!(left.new_category_inputs[2].new_value_inputs.len(), 1);
            assert_eq!(left.category_id_to_adapt_input.len(), 1);
            assert_eq!(left.category_id_to_adapt_input[0].category_id, 9);
            assert_eq!(left.category_id_to_adapt_input[0].adapt_input.new_value_inputs.len(), 1);
        }
        ConfigureStep::Request(_) => panic!("configuring did not finish"),
    }
}

#[test]
fn configure_categories_with_an_accepting_store_leaves_nothing() {
    let input = ConfigureCategoriesInput {
        new_category_inputs: vec![NewCategoryInput { name: "Region".to_string(), new_value_inputs: vec![value("Europe")] }],
        category_id_to_adapt_input: vec![],
    };
    let (requests, done) = run(&input, &[StoreReply::Added(1), StoreReply::Added(2)]);
    assert_eq!(requests.len(), 2);
    match done {
        ConfigureStep::Done(left, error) => {
            assert!(error.is_none());
            assert!(left.new_category_inputs.is_empty());
            assert!(left.category_id_to_adapt_input.is_empty());
        }
        ConfigureStep::Request(_) => panic!("configuring did not finish"),
    }
}
