//! Configuring categories: new categories with their values, and new values of
//! existing categories. The store is asked one thing at a time; what it
//! answered decides what is asked next and what is handed back to the user.
use vstd::prelude::*;
use crate::text::{trim, trim_str};

verus! {

/// The name of a new category value, as typed.
#[derive(Debug, Clone)]
pub struct CategoryValueInput {
    pub name: String,
}

/// A new category, as typed, with its new values.
#[derive(Debug, Clone)]
pub struct NewCategoryInput {
    pub name: String,
    pub new_value_inputs: Vec<CategoryValueInput>,
}

/// New values for an existing category, as typed.
#[derive(Debug, Clone)]
pub struct AdaptCategoryInput {
    pub new_value_inputs: Vec<CategoryValueInput>,
}

/// New values for the existing category `category_id`.
#[derive(Debug, Clone)]
pub struct CategoryAdaptation {
    pub category_id: i64,
    pub adapt_input: AdaptCategoryInput,
}

/// No category id occurs twice in `s` (the entries of a map by category id).
pub open spec fn distinct_category_ids(s: Seq<CategoryAdaptation>) -> bool {
    forall|i: int, j: int| 0 <= i < j < s.len() ==> (#[trigger] s[i]).category_id != (#[trigger] s[j]).category_id
}

/// Everything the user typed on the categories page.
#[derive(Debug, Clone)]
pub struct ConfigureCategoriesInput {
    pub new_category_inputs: Vec<NewCategoryInput>,
    pub category_id_to_adapt_input: Vec<CategoryAdaptation>,
}

/// What the store is asked to do.
#[derive(Debug, Clone)]
pub enum StoreRequest {
    /// Add a category of this name; the store answers with its id.
    AddCategory(String),
    /// Add a value of this name to the category of this id.
    AddCategoryValue(i64, String),
}

/// What the store answered: an id (that of the new category; any for a new
/// value), or the text of its error.
#[derive(Debug, Clone)]
pub enum StoreReply {
    Added(i64),
    Failed(String),
}

/// Where configuring stands: the next request for the store, or what is left
/// of the input and the first error of the store.
#[derive(Debug, Clone)]
pub enum ConfigureStep {
    Request(StoreRequest),
    Done(ConfigureCategoriesInput, Option<String>),
}

/// A new category as texts.
pub struct NewCategoryView {
    pub name: Seq<char>,
    pub values: Seq<Seq<char>>,
}

/// New values of an existing category as texts.
pub struct AdaptationView {
    pub category_id: i64,
    pub values: Seq<Seq<char>>,
}

/// A request as texts.
pub enum RequestView {
    AddCategory(Seq<char>),
    AddCategoryValue(i64, Seq<char>),
}

/// The names of value inputs.
pub open spec fn value_names(v: Seq<CategoryValueInput>) -> Seq<Seq<char>> {
    v.map_values(|x: CategoryValueInput| x.name@)
}

/// A new category input as texts.
pub open spec fn new_category_view(c: NewCategoryInput) -> NewCategoryView {
    NewCategoryView { name: c.name@, values: value_names(c.new_value_inputs@) }
}

/// New category inputs as texts.
pub open spec fn new_category_views(v: Seq<NewCategoryInput>) -> Seq<NewCategoryView> {
    v.map_values(|c: NewCategoryInput| new_category_view(c))
}

/// An adaptation as texts.
pub open spec fn adaptation_view(a: CategoryAdaptation) -> AdaptationView {
    AdaptationView { category_id: a.category_id, values: value_names(a.adapt_input.new_value_inputs@) }
}

/// Adaptations as texts.
pub open spec fn adaptation_views(v: Seq<CategoryAdaptation>) -> Seq<AdaptationView> {
    v.map_values(|a: CategoryAdaptation| adaptation_view(a))
}

/// A reply as an id or an error text.
pub open spec fn reply_view(r: StoreReply) -> Result<i64, Seq<char>> {
    match r {
        StoreReply::Added(id) => Ok(id),
        StoreReply::Failed(m) => Err(m@),
    }
}

/// Replies as ids or error texts.
pub open spec fn reply_views(v: Seq<StoreReply>) -> Seq<Result<i64, Seq<char>>> {
    v.map_values(|r: StoreReply| reply_view(r))
}

/// A request as texts.
pub open spec fn request_view(r: StoreRequest) -> RequestView {
    match r {
        StoreRequest::AddCategory(n) => RequestView::AddCategory(n@),
        StoreRequest::AddCategoryValue(id, n) => RequestView::AddCategoryValue(id, n@),
    }
}

/// The first error: the one already kept, else `m`.
pub open spec fn first_error(kept: Option<Seq<char>>, m: Seq<char>) -> Option<Seq<char>> {
    match kept {
        Some(e) => Some(e),
        None => Some(m),
    }
}

/// Where adding the values `vals` to category `id` stands, the replies from
/// `cursor` on answering its requests: the request that has no reply yet, or
/// the cursor after the replies used, the values left (the blank ones and those
/// the store refused, as typed, after `left`) and the first error.
pub open spec fn run_values(
    id: i64,
    vals: Seq<Seq<char>>,
    replies: Seq<Result<i64, Seq<char>>>,
    cursor: int,
    left: Seq<Seq<char>>,
    error: Option<Seq<char>>,
) -> Result<(int, Seq<Seq<char>>, Option<Seq<char>>), RequestView>
    decreases vals.len(),
{
    if vals.len() == 0 {
        Ok((cursor, left, error))
    } else if trim(vals[0]).len() == 0 {
        run_values(id, vals.drop_first(), replies, cursor, left.push(vals[0]), error)
    } else if cursor < 0 || cursor >= replies.len() {
        Err(RequestView::AddCategoryValue(id, trim(vals[0])))
    } else {
        match replies[cursor] {
            Ok(_) => run_values(id, vals.drop_first(), replies, cursor + 1, left, error),
            Err(m) => run_values(id, vals.drop_first(), replies, cursor + 1, left.push(vals[0]), first_error(error, m)),
        }
    }
}

/// Where adding the new categories `cats` stands, the replies from `cursor` on
/// answering its requests: each category with a blank name is left as typed;
/// each other is added and, if that succeeds, its values are added to it; a
/// category the store refused is left as typed, one it added is left with the
/// values left of it, if any.
pub open spec fn run_new_categories(
    cats: Seq<NewCategoryView>,
    replies: Seq<Result<i64, Seq<char>>>,
    cursor: int,
    left: Seq<NewCategoryView>,
    error: Option<Seq<char>>,
) -> Result<(int, Seq<NewCategoryView>, Option<Seq<char>>), RequestView>
    decreases cats.len(),
{
    if cats.len() == 0 {
        Ok((cursor, left, error))
    } else {
        let c = cats[0];
        if trim(c.name).len() == 0 {
            run_new_categories(cats.drop_first(), replies, cursor, left.push(c), error)
        } else if cursor < 0 || cursor >= replies.len() {
            Err(RequestView::AddCategory(trim(c.name)))
        } else {
            match replies[cursor] {
                Ok(id) => match run_values(id, c.values, replies, cursor + 1, Seq::empty(), error) {
                    Ok((next, vals_left, e)) => run_new_categories(
                        cats.drop_first(),
                        replies,
                        next,
                        if vals_left.len() > 0 { left.push(NewCategoryView { name: c.name, values: vals_left }) } else { left },
                        e,
                    ),
                    Err(req) => Err(req),
                },
                Err(m) => run_new_categories(cats.drop_first(), replies, cursor + 1, left.push(c), first_error(error, m)),
            }
        }
    }
}

/// Where adding the new values of existing categories stands; an adaptation is
/// left with the values left of it, if any.
pub open spec fn run_adaptations(
    adapts: Seq<AdaptationView>,
    replies: Seq<Result<i64, Seq<char>>>,
    cursor: int,
    left: Seq<AdaptationView>,
    error: Option<Seq<char>>,
) -> Result<(int, Seq<AdaptationView>, Option<Seq<char>>), RequestView>
    decreases adapts.len(),
{
    if adapts.len() == 0 {
        Ok((cursor, left, error))
    } else {
        let a = adapts[0];
        match run_values(a.category_id, a.values, replies, cursor, Seq::empty(), error) {
            Ok((next, vals_left, e)) => run_adaptations(
                adapts.drop_first(),
                replies,
                next,
                if vals_left.len() > 0 { left.push(AdaptationView { category_id: a.category_id, values: vals_left }) } else { left },
                e,
            ),
            Err(req) => Err(req),
        }
    }
}

/// Where configuring `input` stands after `replies`: the next request, or the
/// new categories and adaptations left and the first error.
pub open spec fn configure_outcome(
    cats: Seq<NewCategoryView>,
    adapts: Seq<AdaptationView>,
    replies: Seq<Result<i64, Seq<char>>>,
) -> Result<(Seq<NewCategoryView>, Seq<AdaptationView>, Option<Seq<char>>), RequestView> {
    match run_new_categories(cats, replies, 0, Seq::empty(), None) {
        Ok((next, cats_left, e)) => match run_adaptations(adapts, replies, next, Seq::empty(), e) {
            Ok((_, adapts_left, e2)) => Ok((cats_left, adapts_left, e2)),
            Err(req) => Err(req),
        },
        Err(req) => Err(req),
    }
}

/// A copy of a value input.
fn copy_value_input(v: &CategoryValueInput) -> (r: CategoryValueInput)
    ensures
        r.name@ == v.name@,
{
    CategoryValueInput { name: v.name.clone() }
}

/// A copy of a new category input.
fn copy_new_category(c: &NewCategoryInput) -> (r: NewCategoryInput)
    ensures
        new_category_view(r) == new_category_view(*c),
{
    let mut values: Vec<CategoryValueInput> = Vec::new();
    let mut i: usize = 0;
    while i < c.new_value_inputs.len()
        invariant
            i <= c.new_value_inputs.len(),
            value_names(values@) == value_names(c.new_value_inputs@).take(i as int),
        decreases c.new_value_inputs.len() - i,
    {
        let ghost before = values@;
        values.push(copy_value_input(&c.new_value_inputs[i]));
        assert(value_names(values@) =~= value_names(before).push(c.new_value_inputs@[i as int].name@));
        assert(value_names(c.new_value_inputs@).take(i as int + 1) =~= value_names(c.new_value_inputs@).take(i as int).push(c.new_value_inputs@[i as int].name@));
        i += 1;
    }
    assert(value_names(c.new_value_inputs@).take(i as int) =~= value_names(c.new_value_inputs@));
    NewCategoryInput { name: c.name.clone(), new_value_inputs: values }
}

/// The outcome of adding values: the next request, or the cursor after the
/// replies used and the first error, the values left pushed to `left`.
enum ValuesOutcome {
    Pending(StoreRequest),
    Finished(usize, Option<String>),
}

/// The error text, as a sequence.
pub open spec fn error_view(e: Option<String>) -> Option<Seq<char>> {
    match e {
        Some(s) => Some(s@),
        None => None,
    }
}

/// Adds the values `vals` to category `id` against the replies from `cursor` on.
fn replay_values(
    id: i64,
    vals: &Vec<CategoryValueInput>,
    replies: &Vec<StoreReply>,
    start: usize,
    left: &mut Vec<CategoryValueInput>,
    first: Option<String>,
) -> (r: ValuesOutcome)
    requires
        start <= replies.len(),
    ensures
        match run_values(id, value_names(vals@), reply_views(replies@), start as int, value_names(old(left)@), error_view(first)) {
            Ok((next, vals_left, e)) => r matches ValuesOutcome::Finished(n, e2) && n == next
                && value_names(final(left)@) == vals_left && error_view(e2) == e && n <= replies.len(),
            Err(req) => r matches ValuesOutcome::Pending(q) && request_view(q) == req,
        },
{
    let ghost names = value_names(vals@);
    let ghost rs = reply_views(replies@);
    let mut cursor = start;
    let mut error = first;
    let mut i: usize = 0;
    assert(names.skip(0) =~= names);
    while i < vals.len()
        invariant
            i <= vals.len(),
            cursor <= replies.len(),
            names == value_names(vals@),
            rs == reply_views(replies@),
            run_values(id, names, rs, start as int, value_names(old(left)@), error_view(first))
                == run_values(id, names.skip(i as int), rs, cursor as int, value_names(left@), error_view(error)),
        decreases vals.len() - i,
    {
        let ghost rest = names.skip(i as int);
        assert(rest[0] == vals@[i as int].name@);
        assert(rest.drop_first() =~= names.skip(i as int + 1));
        let name = trim_str(vals[i].name.as_str());
        if name.as_str().is_empty() {
            let ghost before = value_names(left@);
            left.push(copy_value_input(&vals[i]));
            assert(value_names(left@) =~= before.push(rest[0]));
        } else {
            if cursor >= replies.len() {
                return ValuesOutcome::Pending(StoreRequest::AddCategoryValue(id, name));
            }
            match &replies[cursor] {
                StoreReply::Added(_) => {},
                StoreReply::Failed(m) => {
                    let ghost before = value_names(left@);
                    left.push(copy_value_input(&vals[i]));
                    assert(value_names(left@) =~= before.push(rest[0]));
                    if error.is_none() {
                        error = Some(m.clone());
                    }
                },
            }
            cursor += 1;
        }
        i += 1;
    }
    assert(names.skip(i as int) =~= Seq::<Seq<char>>::empty());
    ValuesOutcome::Finished(cursor, error)
}

/// What is left of the new categories, and where configuring them stands.
enum CategoriesOutcome {
    Pending(StoreRequest),
    Finished(usize, Vec<NewCategoryInput>, Option<String>),
}

fn replay_new_categories(
    cats: &Vec<NewCategoryInput>,
    replies: &Vec<StoreReply>,
) -> (r: CategoriesOutcome)
    ensures
        match run_new_categories(new_category_views(cats@), reply_views(replies@), 0, Seq::empty(), None) {
            Ok((next, left, e)) => r matches CategoriesOutcome::Finished(n, l, e2) && n == next
                && new_category_views(l@) == left && error_view(e2) == e && n <= replies.len(),
            Err(req) => r matches CategoriesOutcome::Pending(q) && request_view(q) == req,
        },
{
    let ghost cs = new_category_views(cats@);
    let ghost rs = reply_views(replies@);
    let mut cursor: usize = 0;
    let mut left: Vec<NewCategoryInput> = Vec::new();
    let mut error: Option<String> = None;
    let mut i: usize = 0;
    assert(cs.skip(0) =~= cs);
    assert(new_category_views(left@) =~= Seq::<NewCategoryView>::empty());
    while i < cats.len()
        invariant
            i <= cats.len(),
            cursor <= replies.len(),
            cs == new_category_views(cats@),
            rs == reply_views(replies@),
            run_new_categories(cs, rs, 0, Seq::empty(), None)
                == run_new_categories(cs.skip(i as int), rs, cursor as int, new_category_views(left@), error_view(error)),
        decreases cats.len() - i,
    {
        let ghost rest = cs.skip(i as int);
        let c = &cats[i];
        assert(rest[0] == new_category_view(*c));
        assert(rest.drop_first() =~= cs.skip(i as int + 1));
        let name = trim_str(c.name.as_str());
        if name.as_str().is_empty() {
            let ghost before = new_category_views(left@);
            left.push(copy_new_category(c));
            assert(new_category_views(left@) =~= before.push(rest[0]));
        } else {
            if cursor >= replies.len() {
                return CategoriesOutcome::Pending(StoreRequest::AddCategory(name));
            }
            match &replies[cursor] {
                StoreReply::Added(id) => {
                    let mut vals_left: Vec<CategoryValueInput> = Vec::new();
                    assert(value_names(vals_left@) =~= Seq::<Seq<char>>::empty());
                    match replay_values(*id, &c.new_value_inputs, replies, cursor + 1, &mut vals_left, error) {
                        ValuesOutcome::Pending(q) => {
                            return CategoriesOutcome::Pending(q);
                        },
                        ValuesOutcome::Finished(next, e) => {
                            if vals_left.len() > 0 {
                                let ghost before = new_category_views(left@);
                                left.push(NewCategoryInput { name: c.name.clone(), new_value_inputs: vals_left });
                                assert(new_category_views(left@) =~= before.push(NewCategoryView { name: c.name@, values: value_names(vals_left@) }));
                            }
                            cursor = next;
                            error = e;
                        },
                    }
                },
                StoreReply::Failed(m) => {
                    let ghost before = new_category_views(left@);
                    left.push(copy_new_category(c));
                    assert(new_category_views(left@) =~= before.push(rest[0]));
                    if error.is_none() {
                        error = Some(m.clone());
                    }
                    cursor += 1;
                },
            }
        }
        i += 1;
    }
    assert(cs.skip(i as int) =~= Seq::<NewCategoryView>::empty());
    CategoriesOutcome::Finished(cursor, left, error)
}


/// What is left of the adaptations, and where configuring them stands.
enum AdaptationsOutcome {
    Pending(StoreRequest),
    Finished(Vec<CategoryAdaptation>, Option<String>),
}

fn replay_adaptations(
    adapts: &Vec<CategoryAdaptation>,
    replies: &Vec<StoreReply>,
    start: usize,
    first: Option<String>,
) -> (r: AdaptationsOutcome)
    requires
        start <= replies.len(),
    ensures
        match run_adaptations(adaptation_views(adapts@), reply_views(replies@), start as int, Seq::empty(), error_view(first)) {
            Ok((_, left, e)) => r matches AdaptationsOutcome::Finished(l, e2) && adaptation_views(l@) == left && error_view(e2) == e,
            Err(req) => r matches AdaptationsOutcome::Pending(q) && request_view(q) == req,
        },
{
    let ghost xs = adaptation_views(adapts@);
    let ghost rs = reply_views(replies@);
    let mut cursor: usize = start;
    let mut left: Vec<CategoryAdaptation> = Vec::new();
    let mut error: Option<String> = first;
    let mut i: usize = 0;
    assert(xs.skip(0) =~= xs);
    assert(adaptation_views(left@) =~= Seq::<AdaptationView>::empty());
    while i < adapts.len()
        invariant
            i <= adapts.len(),
            cursor <= replies.len(),
            xs == adaptation_views(adapts@),
            rs == reply_views(replies@),
            run_adaptations(xs, rs, start as int, Seq::empty(), error_view(first))
                == run_adaptations(xs.skip(i as int), rs, cursor as int, adaptation_views(left@), error_view(error)),
        decreases adapts.len() - i,
    {
        let ghost rest = xs.skip(i as int);
        let a = &adapts[i];
        assert(rest[0] == adaptation_view(*a));
        assert(rest.drop_first() =~= xs.skip(i as int + 1));
        let mut vals_left: Vec<CategoryValueInput> = Vec::new();
        assert(value_names(vals_left@) =~= Seq::<Seq<char>>::empty());
        match replay_values(a.category_id, &a.adapt_input.new_value_inputs, replies, cursor, &mut vals_left, error) {
            ValuesOutcome::Pending(q) => {
                return AdaptationsOutcome::Pending(q);
            },
            ValuesOutcome::Finished(next, e) => {
                if vals_left.len() > 0 {
                    let ghost before = adaptation_views(left@);
                    left.push(CategoryAdaptation {
                        category_id: a.category_id,
                        adapt_input: AdaptCategoryInput { new_value_inputs: vals_left },
                    });
                    assert(adaptation_views(left@) =~= before.push(AdaptationView { category_id: a.category_id, values: value_names(vals_left@) }));
                }
                cursor = next;
                error = e;
            },
        }
        i += 1;
    }
    assert(xs.skip(i as int) =~= Seq::<AdaptationView>::empty());
    AdaptationsOutcome::Finished(left, error)
}

/// The next step of configuring categories, given the store's replies to the
/// requests so far, in order. New categories come first: a category whose
/// trimmed name is blank is left as typed; for each other the store is asked
/// to add the trimmed name and, once it has, to add each trimmed value that is
/// not blank. Then the new values of existing categories are added. A value
/// is left, as typed, when it is blank or the store refused it; a category
/// the store refused is left whole. When every request has a reply, the step
/// is what is left (new categories, and existing categories with values left)
/// and the first error of the store.
pub fn configure_categories(input: &ConfigureCategoriesInput, replies: &Vec<StoreReply>) -> (r: ConfigureStep)
    requires
        distinct_category_ids(input.category_id_to_adapt_input@),
    ensures
        match configure_outcome(
            new_category_views(input.new_category_inputs@),
            adaptation_views(input.category_id_to_adapt_input@),
            reply_views(replies@),
        ) {
            Ok((cats, adapts, e)) => r matches ConfigureStep::Done(left, e2)
                && new_category_views(left.new_category_inputs@) == cats
                && adaptation_views(left.category_id_to_adapt_input@) == adapts
                && error_view(e2) == e,
            Err(req) => r matches ConfigureStep::Request(q) && request_view(q) == req,
        },
{
    match replay_new_categories(&input.new_category_inputs, replies) {
        CategoriesOutcome::Pending(q) => ConfigureStep::Request(q),
        CategoriesOutcome::Finished(next, cats_left, e) => {
            match replay_adaptations(&input.category_id_to_adapt_input, replies, next, e) {
                AdaptationsOutcome::Pending(q) => ConfigureStep::Request(q),
                AdaptationsOutcome::Finished(adapts_left, e2) => ConfigureStep::Done(
                    ConfigureCategoriesInput { new_category_inputs: cats_left, category_id_to_adapt_input: adapts_left },
                    e2,
                ),
            }
        },
    }
}


/// Every reply is a success.
pub open spec fn all_accepted(replies: Seq<Result<i64, Seq<char>>>) -> bool {
    forall|i: int| 0 <= i < replies.len() ==> (#[trigger] replies[i]) is Ok
}

/// Every value is blank.
pub open spec fn all_blank(vals: Seq<Seq<char>>) -> bool {
    forall|i: int| 0 <= i < vals.len() ==> trim(#[trigger] vals[i]).len() == 0
}

proof fn lemma_accepted_values(
    id: i64,
    vals: Seq<Seq<char>>,
    replies: Seq<Result<i64, Seq<char>>>,
    cursor: int,
    left: Seq<Seq<char>>,
    error: Option<Seq<char>>,
)
    requires
        all_accepted(replies),
        all_blank(left),
        run_values(id, vals, replies, cursor, left, error) is Ok,
    ensures
        all_blank(run_values(id, vals, replies, cursor, left, error)->Ok_0.1),
        run_values(id, vals, replies, cursor, left, error)->Ok_0.2 == error,
    decreases vals.len(),
{
    if vals.len() > 0 {
        if trim(vals[0]).len() == 0 {
            assert(all_blank(left.push(vals[0]))) by {
                assert forall|i: int| 0 <= i < left.push(vals[0]).len() implies trim(#[trigger] left.push(vals[0])[i]).len() == 0 by {
                    if i < left.len() {
                        assert(left.push(vals[0])[i] == left[i]);
                    }
                }
            }
            lemma_accepted_values(id, vals.drop_first(), replies, cursor, left.push(vals[0]), error);
        } else {
            assert(replies[cursor] is Ok);
            lemma_accepted_values(id, vals.drop_first(), replies, cursor + 1, left, error);
        }
    }
}

proof fn lemma_accepted_new_categories(
    cats: Seq<NewCategoryView>,
    replies: Seq<Result<i64, Seq<char>>>,
    cursor: int,
    left: Seq<NewCategoryView>,
    error: Option<Seq<char>>,
)
    requires
        all_accepted(replies),
        forall|i: int| 0 <= i < left.len() ==> trim((#[trigger] left[i]).name).len() == 0 || all_blank(left[i].values),
        run_new_categories(cats, replies, cursor, left, error) is Ok,
    ensures
        forall|i: int| 0 <= i < run_new_categories(cats, replies, cursor, left, error)->Ok_0.1.len() ==> {
            let c = #[trigger] run_new_categories(cats, replies, cursor, left, error)->Ok_0.1[i];
            trim(c.name).len() == 0 || all_blank(c.values)
        },
        run_new_categories(cats, replies, cursor, left, error)->Ok_0.2 == error,
    decreases cats.len(),
{
    if cats.len() > 0 {
        let c = cats[0];
        if trim(c.name).len() == 0 {
            let l2 = left.push(c);
            assert forall|i: int| 0 <= i < l2.len() implies trim((#[trigger] l2[i]).name).len() == 0 || all_blank(l2[i].values) by {
                if i < left.len() {
                    assert(l2[i] == left[i]);
                }
            }
            lemma_accepted_new_categories(cats.drop_first(), replies, cursor, l2, error);
        } else {
            assert(replies[cursor] is Ok);
            let id = replies[cursor]->Ok_0;
            lemma_accepted_values(id, c.values, replies, cursor + 1, Seq::empty(), error);
            let (next, vals_left, e) = run_values(id, c.values, replies, cursor + 1, Seq::empty(), error)->Ok_0;
            let l2 = if vals_left.len() > 0 { left.push(NewCategoryView { name: c.name, values: vals_left }) } else { left };
            assert forall|i: int| 0 <= i < l2.len() implies trim((#[trigger] l2[i]).name).len() == 0 || all_blank(l2[i].values) by {
                if i < left.len() {
                    assert(l2[i] == left[i]);
                }
            }
            lemma_accepted_new_categories(cats.drop_first(), replies, next, l2, e);
        }
    }
}

proof fn lemma_accepted_adaptations(
    adapts: Seq<AdaptationView>,
    replies: Seq<Result<i64, Seq<char>>>,
    cursor: int,
    left: Seq<AdaptationView>,
    error: Option<Seq<char>>,
)
    requires
        all_accepted(replies),
        forall|i: int| 0 <= i < left.len() ==> all_blank((#[trigger] left[i]).values),
        run_adaptations(adapts, replies, cursor, left, error) is Ok,
    ensures
        forall|i: int| 0 <= i < run_adaptations(adapts, replies, cursor, left, error)->Ok_0.1.len()
            ==> all_blank((#[trigger] run_adaptations(adapts, replies, cursor, left, error)->Ok_0.1[i]).values),
        run_adaptations(adapts, replies, cursor, left, error)->Ok_0.2 == error,
    decreases adapts.len(),
{
    if adapts.len() > 0 {
        let a = adapts[0];
        lemma_accepted_values(a.category_id, a.values, replies, cursor, Seq::empty(), error);
        let (next, vals_left, e) = run_values(a.category_id, a.values, replies, cursor, Seq::empty(), error)->Ok_0;
        let l2 = if vals_left.len() > 0 { left.push(AdaptationView { category_id: a.category_id, values: vals_left }) } else { left };
        assert forall|i: int| 0 <= i < l2.len() implies all_blank((#[trigger] l2[i]).values) by {
            if i < left.len() {
                assert(l2[i] == left[i]);
            }
        }
        lemma_accepted_adaptations(adapts.drop_first(), replies, next, l2, e);
    }
}

/// When the store accepts every request, configuring ends without an error,
/// and all that is left is blank: new categories with a blank name or only
/// blank values, and blank values of existing categories.
pub proof fn lemma_accepting_store_leaves_only_blanks(
    cats: Seq<NewCategoryView>,
    adapts: Seq<AdaptationView>,
    replies: Seq<Result<i64, Seq<char>>>,
)
    requires
        all_accepted(replies),
        configure_outcome(cats, adapts, replies) is Ok,
    ensures
        ({
            let (cats_left, adapts_left, e) = configure_outcome(cats, adapts, replies)->Ok_0;
            &&& e is None
            &&& forall|i: int| 0 <= i < cats_left.len() ==> trim((#[trigger] cats_left[i]).name).len() == 0 || all_blank(cats_left[i].values)
            &&& forall|i: int| 0 <= i < adapts_left.len() ==> all_blank((#[trigger] adapts_left[i]).values)
        }),
{
    lemma_accepted_new_categories(cats, replies, 0, Seq::empty(), None);
    let (next, _, e) = run_new_categories(cats, replies, 0, Seq::empty(), None)->Ok_0;
    lemma_accepted_adaptations(adapts, replies, next, Seq::empty(), e);
}

} // verus!
