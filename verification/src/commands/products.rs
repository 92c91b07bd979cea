//! The product catalog.

use crate::db::Database;
use crate::db::Records;
use crate::entities::product;
use crate::error::AppError;
use crate::error::ErrorKind;
use crate::error::refused;
use crate::ident::time_ordered_id;
use crate::listing::Shown;
use crate::listing::marks_of;
use crate::listing::ranked_by_text;
use crate::listing::rows_at;
use crate::listing::select_by_text;
use crate::listing::show_all;
use crate::listing::texts_of;
use crate::record::Record;
use crate::record::has_key;
use crate::record::index_of;
use crate::record::position;
use crate::record::record_of;
use crate::text::contains;
use crate::text::contains_text;
use vstd::prelude::*;

verus! {

/// A product as shown to the operator.
#[derive(Debug, PartialEq, Eq)]
pub struct ProductResponse {
    pub id: String,
    pub name: String,
    pub price: i32,
    pub category_id: String,
    pub is_favorite: bool,
    pub is_deleted: bool,
}

/// The product `p` as shown: every field as kept.
pub open spec fn product_row(p: product::Model) -> ProductResponse {
    ProductResponse {
        id: p.id,
        name: p.name,
        price: p.price,
        category_id: p.category_id,
        is_favorite: p.is_favorite,
        is_deleted: p.is_deleted,
    }
}

impl From<product::Model> for ProductResponse {
    fn from(p: product::Model) -> (shown: Self) {
        Self {
            id: p.id,
            name: p.name,
            price: p.price,
            category_id: p.category_id,
            is_favorite: p.is_favorite,
            is_deleted: p.is_deleted,
        }
    }
}

impl vstd::std_specs::convert::FromSpecImpl<product::Model> for ProductResponse {
    open spec fn obeys_from_spec() -> bool {
        true
    }

    open spec fn from_spec(p: product::Model) -> Self {
        product_row(p)
    }
}

/// What a new product is made from.
pub struct CreateProductInput {
    pub name: String,
    pub price: i32,
    pub category_id: String,
    pub is_favorite: bool,
}

/// The product that `data` describes, under the key `id`.
pub open spec fn new_product(data: CreateProductInput, id: String) -> product::Model {
    product::Model {
        id,
        name: data.name,
        price: data.price,
        category_id: data.category_id,
        is_favorite: data.is_favorite,
        is_deleted: false,
    }
}

/// Why the product that `data` describes cannot be created under the key
/// `id`, if it cannot.
pub open spec fn product_refusal(pre: Records, data: CreateProductInput, id: Seq<char>) -> Option<
    (ErrorKind, Seq<char>),
> {
    if !has_key(pre.categories, data.category_id@) {
        Some((ErrorKind::Database, "FOREIGN KEY constraint failed"@))
    } else if has_key(pre.products, id) {
        Some((ErrorKind::Database, "UNIQUE constraint failed: Product.id"@))
    } else {
        None
    }
}

/// What creating the product that `data` describes under the key `id`
/// does.
pub open spec fn product_created(
    pre: Records,
    post: Records,
    data: CreateProductInput,
    id: String,
    out: Result<ProductResponse, AppError>,
) -> bool {
    match product_refusal(pre, data, id@) {
        Some((kind, text)) => post == pre && refused(out, kind, text),
        None => {
            &&& post == (Records { products: pre.products.push(new_product(data, id)), ..pre })
            &&& out == Ok::<ProductResponse, AppError>(product_row(new_product(data, id)))
        },
    }
}

/// Creates the product that `data` describes under the key `id`. Its
/// category must exist.
pub fn create_product_with(db: &mut Database, data: CreateProductInput, id: String) -> (out:
    Result<ProductResponse, AppError>)
    requires
        old(db).wf(),
    ensures
        final(db).wf(),
        product_created(old(db)@, final(db)@, data, id, out),
{
    if position(&db.categories, &data.category_id).is_none() {
        return Err(AppError::database("FOREIGN KEY constraint failed"));
    }
    if position(&db.products, &id).is_some() {
        return Err(AppError::database("UNIQUE constraint failed: Product.id"));
    }
    let fresh = product::Model {
        id,
        name: data.name,
        price: data.price,
        category_id: data.category_id,
        is_favorite: data.is_favorite,
        is_deleted: false,
    };
    db.products.push(fresh.clone());
    proof {
        assert(db@.products =~= old(db)@.products.push(fresh));
    }
    Ok(ProductResponse::from(fresh))
}

/// Creates the product that `data` describes. The product's key is drawn
/// here; whatever it is, the outcome is that of `create_product_with` for
/// it.
pub fn create_product(db: &mut Database, data: CreateProductInput) -> (out: Result<
    ProductResponse,
    AppError,
>)
    requires
        old(db).wf(),
    ensures
        final(db).wf(),
        exists|id: String| product_created(old(db)@, final(db)@, data, id, out),
{
    let id = time_ordered_id();
    let out = create_product_with(db, data, id);
    proof {
        assert(product_created(old(db)@, db@, data, id, out));
    }
    out
}

/// What to change of a product; what is absent stays.
pub struct UpdateProductInput {
    pub name: Option<String>,
    pub price: Option<i32>,
    pub is_favorite: Option<bool>,
}

/// The product `p` with the changes of `data` applied.
pub open spec fn product_changed(p: product::Model, data: UpdateProductInput) -> product::Model {
    product::Model {
        name: match data.name {
            Some(name) => name,
            None => p.name,
        },
        price: match data.price {
            Some(price) => price,
            None => p.price,
        },
        is_favorite: match data.is_favorite {
            Some(favorite) => favorite,
            None => p.is_favorite,
        },
        ..p
    }
}

/// Changes the product `id` as `data` says. The lines that were made with
/// the product keep the price they were made at.
pub fn update_product(db: &mut Database, id: String, data: UpdateProductInput) -> (out: Result<
    ProductResponse,
    AppError,
>)
    requires
        old(db).wf(),
    ensures
        final(db).wf(),
        !has_key(old(db)@.products, id@) ==> final(db)@ == old(db)@ && refused(
            out,
            ErrorKind::NotFound,
            "Ürün bulunamadı"@,
        ),
        has_key(old(db)@.products, id@) ==> {
            let changed = product_changed(record_of(old(db)@.products, id@), data);
            &&& final(db)@ == (Records {
                products: old(db)@.products.update(index_of(old(db)@.products, id@), changed),
                ..old(db)@
            })
            &&& out == Ok::<ProductResponse, AppError>(product_row(changed))
        },
{
    let at = match position(&db.products, &id) {
        Some(at) => at,
        None => { return Err(AppError::not_found("Ürün bulunamadı")); },
    };
    let ghost pre = db@;
    if let Some(name) = data.name {
        db.products[at].name = name;
    }
    if let Some(price) = data.price {
        db.products[at].price = price;
    }
    if let Some(favorite) = data.is_favorite {
        db.products[at].is_favorite = favorite;
    }
    proof {
        let changed = product_changed(pre.products[at as int], data);
        assert(db@.products =~= pre.products.update(at as int, changed));
        assert forall|i: int, j: int| 0 <= i < j < db@.products.len() implies (
        #[trigger] db@.products[i]).key() != (#[trigger] db@.products[j]).key() by {
            assert(pre.products[i].key() != pre.products[j].key());
        }
    }
    Ok(ProductResponse::from(db.products[at].clone()))
}

/// The products with the product `id` marked as removed.
pub open spec fn products_without(products: Seq<product::Model>, id: Seq<char>) -> Seq<
    product::Model,
> {
    Seq::new(
        products.len(),
        |k: int|
            if products[k].id@ == id {
                product::Model { is_deleted: true, ..products[k] }
            } else {
                products[k]
            },
    )
}

/// Removes the product `id` from the catalog. The product is kept, marked
/// as removed, so that the lines made with it still name it.
pub fn delete_product(db: &mut Database, id: String) -> (out: Result<(), AppError>)
    requires
        old(db).wf(),
    ensures
        final(db).wf(),
        out is Ok,
        final(db)@ == (Records {
            products: products_without(old(db)@.products, id@),
            ..old(db)@
        }),
{
    let ghost pre = db@;
    let mut i: usize = 0;
    while i < db.products.len()
        invariant
            i <= db.products.len(),
            db.products@.len() == pre.products.len(),
            forall|k: int|
                0 <= k < i ==> #[trigger] db.products@[k] == products_without(pre.products, id@)[k],
            forall|k: int| i <= k < db.products.len() ==> #[trigger] db.products@[k] == pre.products[k],
            db@ == (Records { products: db.products@, ..pre }),
        decreases db.products.len() - i,
    {
        if db.products[i].id == id {
            db.products[i].is_deleted = true;
        }
        i += 1;
    }
    proof {
        assert(db@.products =~= products_without(pre.products, id@));
        assert forall|i: int, j: int| 0 <= i < j < db@.products.len() implies (
        #[trigger] db@.products[i]).key() != (#[trigger] db@.products[j]).key() by {
            assert(pre.products[i].key() != pre.products[j].key());
        }
    }
    Ok(())
}

impl Shown for product::Model {
    type Row = ProductResponse;

    open spec fn row(&self) -> ProductResponse {
        product_row(*self)
    }

    fn show(&self) -> (shown: ProductResponse) {
        ProductResponse::from(self.clone())
    }
}

/// Which products of the catalog a list is to hold.
pub enum ProductFilter {
    /// Every product.
    All,
    /// The products of one category.
    InCategory(String),
    /// The operator's favourites.
    Favorites,
    /// The products whose name holds a text.
    Named(String),
}

/// The test for the products that a list under `filter` holds: those that
/// are still in the catalog and that the filter asks for.
pub open spec fn wanted(filter: ProductFilter) -> spec_fn(product::Model) -> bool {
    |p: product::Model|
        !p.is_deleted && match filter {
            ProductFilter::All => true,
            ProductFilter::InCategory(category) => p.category_id@ == category@,
            ProductFilter::Favorites => p.is_favorite,
            ProductFilter::Named(part) => contains_text(p.name@, part@),
        }
}

/// A product's name.
pub open spec fn product_name() -> spec_fn(product::Model) -> String {
    |p: product::Model| p.name
}

/// The products that a list under `filter` shows, by name.
pub open spec fn product_list(products: Seq<product::Model>, filter: ProductFilter) -> Seq<
    ProductResponse,
> {
    rows_at(
        products,
        ranked_by_text(marks_of(products, wanted(filter)), texts_of(products, product_name())),
    )
}

/// Whether `record` passes `filter`.
fn is_wanted(record: &product::Model, filter: &ProductFilter) -> (passes: bool)
    ensures
        passes == wanted(*filter)(*record),
{
    !record.is_deleted && match filter {
        ProductFilter::All => true,
        ProductFilter::InCategory(category) => record.category_id == *category,
        ProductFilter::Favorites => record.is_favorite,
        ProductFilter::Named(part) => contains(record.name.as_str(), part.as_str()),
    }
}

/// The products of the catalog that pass `filter`, by name.
pub fn list_products(db: &Database, filter: ProductFilter) -> (out: Vec<ProductResponse>)
    ensures
        out@ == product_list(db@.products, filter),
{
    let mut marks: Vec<bool> = Vec::new();
    let mut texts: Vec<String> = Vec::new();
    let mut i: usize = 0;
    while i < db.products.len()
        invariant
            i <= db.products.len(),
            marks.len() == i,
            texts.len() == i,
            forall|k: int| 0 <= k < i ==> #[trigger] marks[k] == wanted(filter)(db.products@[k]),
            forall|k: int| 0 <= k < i ==> #[trigger] texts[k] == product_name()(db.products@[k]),
        decreases db.products.len() - i,
    {
        let record = &db.products[i];
        marks.push(is_wanted(record, &filter));
        texts.push(record.name.clone());
        i += 1;
    }
    proof {
        assert(marks@ =~= marks_of(db.products@, wanted(filter)));
        assert(texts@ =~= texts_of(db.products@, product_name()));
    }
    let at = select_by_text(&marks, &texts);
    show_all(&db.products, &at)
}

/// Every product of the catalog, by name.
pub fn get_all_products(db: &Database) -> (out: Result<Vec<ProductResponse>, AppError>)
    ensures
        out matches Ok(list) && list@ == product_list(db@.products, ProductFilter::All),
{
    Ok(list_products(db, ProductFilter::All))
}

/// The products of the category `category_id`, by name.
pub fn get_products_by_category(db: &Database, category_id: String) -> (out: Result<
    Vec<ProductResponse>,
    AppError,
>)
    ensures
        out matches Ok(list) && list@ == product_list(
            db@.products,
            ProductFilter::InCategory(category_id),
        ),
{
    Ok(list_products(db, ProductFilter::InCategory(category_id)))
}

/// The operator's favourite products, by name.
pub fn get_favorite_products(db: &Database) -> (out: Result<Vec<ProductResponse>, AppError>)
    ensures
        out matches Ok(list) && list@ == product_list(db@.products, ProductFilter::Favorites),
{
    Ok(list_products(db, ProductFilter::Favorites))
}

/// The products whose name holds `query`, by name.
pub fn search_products(db: &Database, query: String) -> (out: Result<Vec<ProductResponse>, AppError>)
    ensures
        out matches Ok(list) && list@ == product_list(db@.products, ProductFilter::Named(query)),
{
    Ok(list_products(db, ProductFilter::Named(query)))
}

} // verus!
