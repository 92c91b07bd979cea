//! The categories of the product catalog.

use crate::db::Database;
use crate::db::Records;
use crate::entities::category;
use crate::entities::product;
use crate::error::AppError;
use crate::error::ErrorKind;
use crate::error::refused;
use crate::ident::time_ordered_id;
use crate::listing::Shown;
use crate::listing::marks_of;
use crate::listing::ranked_by_text;
use crate::listing::rows_at;
use crate::listing::select_by_text;
use crate::listing::show_all;
use crate::listing::texts_of;
use crate::record::Record;
use crate::record::copy_text;
use crate::record::has_key;
use crate::record::index_of;
use crate::record::position;
use crate::record::record_of;
use vstd::prelude::*;

verus! {

/// A category as shown to the operator.
#[derive(Debug, PartialEq, Eq)]
pub struct CategoryResponse {
    pub id: String,
    pub name: String,
    pub icon: Option<String>,
}

/// The category `c` as shown.
pub open spec fn category_row(c: category::Model) -> CategoryResponse {
    CategoryResponse { id: c.id, name: c.name, icon: c.icon }
}

/// The icon a new category starts with.
pub open spec fn default_icon() -> Seq<char> {
    "utensils"@
}

/// What creating a category named `name` under the key `id` does: the key
/// must be unused, and the category starts with the default icon.
pub open spec fn category_created(
    pre: Records,
    post: Records,
    name: String,
    id: String,
    out: Result<CategoryResponse, AppError>,
) -> bool {
    if has_key(pre.categories, id@) {
        post == pre && refused(out, ErrorKind::Database, "UNIQUE constraint failed: Category.id"@)
    } else {
        &&& post.categories.len() == pre.categories.len() + 1
        &&& post == (Records { categories: pre.categories.push(post.categories.last()), ..pre })
        &&& post.categories.last().id == id
        &&& post.categories.last().name == name
        &&& post.categories.last().icon matches Some(icon) && icon@ == default_icon()
        &&& !post.categories.last().is_deleted
        &&& out == Ok::<CategoryResponse, AppError>(category_row(post.categories.last()))
    }
}

/// Creates a category named `name` under the key `id`.
pub fn create_category_with(db: &mut Database, name: String, id: String) -> (out: Result<
    CategoryResponse,
    AppError,
>)
    requires
        old(db).wf(),
    ensures
        final(db).wf(),
        category_created(old(db)@, final(db)@, name, id, out),
{
    if position(&db.categories, &id).is_some() {
        return Err(AppError::database("UNIQUE constraint failed: Category.id"));
    }
    let icon = String::from_str("utensils");
    let fresh = category::Model { id, name, icon: Some(icon), is_deleted: false };
    db.categories.push(fresh.clone());
    proof {
        assert(db@.categories =~= old(db)@.categories.push(fresh));
        assert(db@.categories.last() == fresh);
    }
    Ok(CategoryResponse { id: fresh.id, name: fresh.name, icon: fresh.icon })
}

/// Creates a category named `name`. The category's key is drawn here;
/// whatever it is, the outcome is that of `create_category_with` for it.
pub fn create_category(db: &mut Database, name: String) -> (out: Result<CategoryResponse, AppError>)
    requires
        old(db).wf(),
    ensures
        final(db).wf(),
        exists|id: String| category_created(old(db)@, final(db)@, name, id, out),
{
    let id = time_ordered_id();
    let out = create_category_with(db, name, id);
    proof {
        assert(category_created(old(db)@, db@, name, id, out));
    }
    out
}

/// What to change of a category; what is absent stays.
pub struct UpdateCategoryInput {
    pub name: Option<String>,
    pub icon: Option<String>,
}

/// The category `c` with the changes of `data` applied.
pub open spec fn category_changed(c: category::Model, data: UpdateCategoryInput) -> category::Model {
    category::Model {
        name: match data.name {
            Some(name) => name,
            None => c.name,
        },
        icon: match data.icon {
            Some(icon) => Some(icon),
            None => c.icon,
        },
        ..c
    }
}

/// Changes the category `id` as `data` says.
pub fn update_category(db: &mut Database, id: String, data: UpdateCategoryInput) -> (out: Result<
    CategoryResponse,
    AppError,
>)
    requires
        old(db).wf(),
    ensures
        final(db).wf(),
        !has_key(old(db)@.categories, id@) ==> final(db)@ == old(db)@ && refused(
            out,
            ErrorKind::NotFound,
            "Kategori bulunamadı"@,
        ),
        has_key(old(db)@.categories, id@) ==> {
            let changed = category_changed(record_of(old(db)@.categories, id@), data);
            &&& final(db)@ == (Records {
                categories: old(db)@.categories.update(index_of(old(db)@.categories, id@), changed),
                ..old(db)@
            })
            &&& out == Ok::<CategoryResponse, AppError>(category_row(changed))
        },
{
    let at = match position(&db.categories, &id) {
        Some(at) => at,
        None => { return Err(AppError::not_found("Kategori bulunamadı")); },
    };
    let ghost pre = db@;
    if let Some(name) = data.name {
        db.categories[at].name = name;
    }
    if let Some(icon) = data.icon {
        db.categories[at].icon = Some(icon);
    }
    proof {
        let changed = category_changed(pre.categories[at as int], data);
        assert(db@.categories =~= pre.categories.update(at as int, changed));
        assert forall|i: int, j: int| 0 <= i < j < db@.categories.len() implies (
        #[trigger] db@.categories[i]).key() != (#[trigger] db@.categories[j]).key() by {
            assert(pre.categories[i].key() != pre.categories[j].key());
        }
    }
    let shown = &db.categories[at];
    Ok(CategoryResponse { id: shown.id.clone(), name: shown.name.clone(), icon: copy_text(&shown.icon) })
}

/// The categories with the category `id` marked as removed.
pub open spec fn categories_without(categories: Seq<category::Model>, id: Seq<char>) -> Seq<
    category::Model,
> {
    Seq::new(
        categories.len(),
        |k: int|
            if categories[k].id@ == id {
                category::Model { is_deleted: true, ..categories[k] }
            } else {
                categories[k]
            },
    )
}

/// The products with those of the category `id` marked as removed.
pub open spec fn products_of_removed(products: Seq<product::Model>, id: Seq<char>) -> Seq<
    product::Model,
> {
    Seq::new(
        products.len(),
        |k: int|
            if products[k].category_id@ == id {
                product::Model { is_deleted: true, ..products[k] }
            } else {
                products[k]
            },
    )
}

/// Removes the category `id` and its products from the catalog. All of
/// them are kept, marked as removed.
pub fn delete_category(db: &mut Database, id: String) -> (out: Result<(), AppError>)
    requires
        old(db).wf(),
    ensures
        final(db).wf(),
        out is Ok,
        final(db)@ == (Records {
            categories: categories_without(old(db)@.categories, id@),
            products: products_of_removed(old(db)@.products, id@),
            ..old(db)@
        }),
{
    let ghost pre = db@;
    let mut i: usize = 0;
    while i < db.categories.len()
        invariant
            i <= db.categories.len(),
            db.categories@.len() == pre.categories.len(),
            forall|k: int|
                0 <= k < i ==> #[trigger] db.categories@[k] == categories_without(
                    pre.categories,
                    id@,
                )[k],
            forall|k: int|
                i <= k < db.categories.len() ==> #[trigger] db.categories@[k] == pre.categories[k],
            db@ == (Records { categories: db.categories@, ..pre }),
        decreases db.categories.len() - i,
    {
        if db.categories[i].id == id {
            db.categories[i].is_deleted = true;
        }
        i += 1;
    }
    proof {
        assert(db@.categories =~= categories_without(pre.categories, id@));
    }
    let mut n: usize = 0;
    while n < db.products.len()
        invariant
            n <= db.products.len(),
            db.products@.len() == pre.products.len(),
            forall|k: int|
                0 <= k < n ==> #[trigger] db.products@[k] == products_of_removed(
                    pre.products,
                    id@,
                )[k],
            forall|k: int| n <= k < db.products.len() ==> #[trigger] db.products@[k] == pre.products[k],
            db@ == (Records {
                categories: categories_without(pre.categories, id@),
                products: db.products@,
                ..pre
            }),
        decreases db.products.len() - n,
    {
        if db.products[n].category_id == id {
            db.products[n].is_deleted = true;
        }
        n += 1;
    }
    proof {
        assert(db@.products =~= products_of_removed(pre.products, id@));
        assert forall|i: int, j: int| 0 <= i < j < db@.categories.len() implies (
        #[trigger] db@.categories[i]).key() != (#[trigger] db@.categories[j]).key() by {
            assert(pre.categories[i].key() != pre.categories[j].key());
        }
        assert forall|i: int, j: int| 0 <= i < j < db@.products.len() implies (
        #[trigger] db@.products[i]).key() != (#[trigger] db@.products[j]).key() by {
            assert(pre.products[i].key() != pre.products[j].key());
        }
    }
    Ok(())
}

impl Shown for category::Model {
    type Row = CategoryResponse;

    open spec fn row(&self) -> CategoryResponse {
        category_row(*self)
    }

    fn show(&self) -> (shown: CategoryResponse) {
        CategoryResponse { id: self.id.clone(), name: self.name.clone(), icon: copy_text(&self.icon) }
    }
}

/// The test for the categories that are still in the catalog.
pub open spec fn category_listed() -> spec_fn(category::Model) -> bool {
    |c: category::Model| !c.is_deleted
}

/// A category's name.
pub open spec fn category_name() -> spec_fn(category::Model) -> String {
    |c: category::Model| c.name
}

/// The categories that are still in the catalog, by name.
pub fn get_all_categories(db: &Database) -> (out: Result<Vec<CategoryResponse>, AppError>)
    ensures
        out matches Ok(list) && list@ == rows_at(
            db@.categories,
            ranked_by_text(
                marks_of(db@.categories, category_listed()),
                texts_of(db@.categories, category_name()),
            ),
        ),
{
    let mut marks: Vec<bool> = Vec::new();
    let mut texts: Vec<String> = Vec::new();
    let mut i: usize = 0;
    while i < db.categories.len()
        invariant
            i <= db.categories.len(),
            marks.len() == i,
            texts.len() == i,
            forall|k: int| 0 <= k < i ==> #[trigger] marks[k] == category_listed()(db.categories@[k]),
            forall|k: int| 0 <= k < i ==> #[trigger] texts[k] == category_name()(db.categories@[k]),
        decreases db.categories.len() - i,
    {
        let record = &db.categories[i];
        marks.push(!record.is_deleted);
        texts.push(record.name.clone());
        i += 1;
    }
    proof {
        assert(marks@ =~= marks_of(db.categories@, category_listed()));
        assert(texts@ =~= texts_of(db.categories@, category_name()));
    }
    let at = select_by_text(&marks, &texts);
    Ok(show_all(&db.categories, &at))
}

} // verus!
