//! The tables of the room.

use crate::db::Database;
use crate::db::Records;
use crate::db::has_name;
use crate::db::occupied;
use crate::db::open_order;
use crate::db::open_position;
use crate::entities::order;
use crate::entities::table;
use crate::error::AppError;
use crate::error::ErrorKind;
use crate::error::refused;
use crate::ident::time_ordered_id;
use crate::listing::Shown;
use crate::listing::any;
use crate::listing::marks_of;
use crate::listing::ranked_by_text;
use crate::listing::rows_at;
use crate::listing::select_by_text;
use crate::listing::show_all;
use crate::listing::shown_by;
use crate::listing::texts_of;
use crate::listing::within;
use crate::record::Record;
use crate::record::discard_key;
use crate::record::has_key;
use crate::record::key_stays;
use crate::record::lemma_filter_keeps;
use crate::record::lemma_filter_order;
use crate::record::lemma_filter_unique;
use crate::record::only;
use crate::record::position;
use vstd::prelude::*;

verus! {

/// A table as shown to the operator.
#[derive(Debug, PartialEq, Eq)]
pub struct TableResponse {
    pub id: String,
    pub name: String,
}

/// Why no table named `name` can be created under the key `id`, if none
/// can.
pub open spec fn table_refusal(pre: Records, name: Seq<char>, id: Seq<char>) -> Option<
    (ErrorKind, Seq<char>),
> {
    if has_name(pre.tables, name) {
        Some((ErrorKind::Database, "UNIQUE constraint failed: Table.name"@))
    } else if has_key(pre.tables, id) {
        Some((ErrorKind::Database, "UNIQUE constraint failed: Table.id"@))
    } else {
        None
    }
}

/// What creating a table named `name` under the key `id` does.
pub open spec fn table_created(
    pre: Records,
    post: Records,
    name: String,
    id: String,
    out: Result<TableResponse, AppError>,
) -> bool {
    match table_refusal(pre, name@, id@) {
        Some((kind, text)) => post == pre && refused(out, kind, text),
        None => {
            &&& post == (Records { tables: pre.tables.push(table::Model { id, name }), ..pre })
            &&& out == Ok::<TableResponse, AppError>(TableResponse { id, name })
        },
    }
}

/// Position of the table named `name`, if there is one.
pub fn name_position(tables: &Vec<table::Model>, name: &String) -> (at: Option<usize>)
    ensures
        at is Some <==> has_name(tables@, name@),
        at matches Some(i) ==> i < tables.len() && tables@[i as int].name@ == name@,
{
    let mut i: usize = 0;
    while i < tables.len()
        invariant
            i <= tables.len(),
            forall|j: int| 0 <= j < i ==> (#[trigger] tables[j]).name@ != name@,
        decreases tables.len() - i,
    {
        if tables[i].name == *name {
            return Some(i);
        }
        i += 1;
    }
    None
}

/// Creates a table named `name` under the key `id`. No two tables share a
/// name or a key.
pub fn create_table_with(db: &mut Database, name: String, id: String) -> (out: Result<
    TableResponse,
    AppError,
>)
    requires
        old(db).wf(),
    ensures
        final(db).wf(),
        table_created(old(db)@, final(db)@, name, id, out),
{
    if name_position(&db.tables, &name).is_some() {
        return Err(AppError::database("UNIQUE constraint failed: Table.name"));
    }
    if position(&db.tables, &id).is_some() {
        return Err(AppError::database("UNIQUE constraint failed: Table.id"));
    }
    db.tables.push(table::Model { id: id.clone(), name: name.clone() });
    proof {
        let pre = old(db)@;
        assert(db@.tables =~= pre.tables.push(table::Model { id, name }));
        assert forall|i: int| 0 <= i < db@.orders.len() implies has_key(
            db@.tables,
            (#[trigger] db@.orders[i]).table_id@,
        ) by {
            let j = choose|j: int|
                0 <= j < pre.tables.len() && (#[trigger] pre.tables[j]).key()
                    == pre.orders[i].table_id@;
            assert(db@.tables[j].key() == pre.orders[i].table_id@);
        }
    }
    Ok(TableResponse { id, name })
}

/// Creates a table named `name`. The table's key is drawn here; whatever
/// it is, the outcome is that of `create_table_with` for it.
pub fn create_table(db: &mut Database, name: String) -> (out: Result<TableResponse, AppError>)
    requires
        old(db).wf(),
    ensures
        final(db).wf(),
        exists|id: String| table_created(old(db)@, final(db)@, name, id, out),
{
    let id = time_ordered_id();
    let out = create_table_with(db, name, id);
    proof {
        assert(table_created(old(db)@, db@, name, id, out));
    }
    out
}

/// Whether some tab, open or closed, stands on the table `table`.
pub open spec fn in_use(orders: Seq<order::Model>, table: Seq<char>) -> bool {
    exists|i: int| 0 <= i < orders.len() && (#[trigger] orders[i]).table_id@ == table
}

/// Whether some tab stands on the table `table_id`.
fn table_in_use(orders: &Vec<order::Model>, table_id: &String) -> (used: bool)
    ensures
        used == in_use(orders@, table_id@),
{
    let mut i: usize = 0;
    while i < orders.len()
        invariant
            i <= orders.len(),
            forall|j: int| 0 <= j < i ==> (#[trigger] orders[j]).table_id@ != table_id@,
        decreases orders.len() - i,
    {
        if orders[i].table_id == *table_id {
            return true;
        }
        i += 1;
    }
    false
}

/// Deletes the table `id`. A table that a tab stands on cannot be
/// deleted; a key that no table has deletes nothing.
pub fn delete_table(db: &mut Database, id: String) -> (out: Result<(), AppError>)
    requires
        old(db).wf(),
    ensures
        final(db).wf(),
        in_use(old(db)@.orders, id@) ==> final(db)@ == old(db)@ && refused(
            out,
            ErrorKind::Database,
            "FOREIGN KEY constraint failed"@,
        ),
        !in_use(old(db)@.orders, id@) ==> out is Ok && final(db)@ == (Records {
            tables: old(db)@.tables.filter(key_stays(only(id@))),
            ..old(db)@
        }),
{
    if table_in_use(&db.orders, &id) {
        return Err(AppError::database("FOREIGN KEY constraint failed"));
    }
    let rest = discard_key(&db.tables, &id);
    db.tables = rest;
    proof {
        let pre = old(db)@;
        let keep = key_stays::<table::Model>(only(id@));
        lemma_filter_unique(pre.tables, keep);
        assert forall|i: int, j: int| 0 <= i < j < db@.tables.len() implies (
        #[trigger] db@.tables[i]).name@ != (#[trigger] db@.tables[j]).name@ by {
            lemma_filter_order(pre.tables, keep, i, j);
            let (a, b) = choose|a: int, b: int|
                0 <= a < b < pre.tables.len() && #[trigger] pre.tables[a] == db@.tables[i]
                    && #[trigger] pre.tables[b] == db@.tables[j];
        }
        assert forall|i: int| 0 <= i < db@.orders.len() implies has_key(
            db@.tables,
            (#[trigger] db@.orders[i]).table_id@,
        ) by {
            let j = choose|j: int|
                0 <= j < pre.tables.len() && (#[trigger] pre.tables[j]).key()
                    == pre.orders[i].table_id@;
            lemma_filter_keeps(pre.tables, keep, j);
            let k = choose|k: int| 0 <= k < db@.tables.len() && #[trigger] db@.tables[k] == pre.tables[j];
            assert(db@.tables[k].key() == pre.orders[i].table_id@);
        }
    }
    Ok(())
}

impl Shown for table::Model {
    type Row = TableResponse;

    open spec fn row(&self) -> TableResponse {
        TableResponse { id: self.id, name: self.name }
    }

    fn show(&self) -> (shown: TableResponse) {
        TableResponse { id: self.id.clone(), name: self.name.clone() }
    }
}

/// A table's name.
pub open spec fn table_name() -> spec_fn(table::Model) -> String {
    |t: table::Model| t.name
}

/// The positions of the tables, by name.
pub open spec fn tables_by_name(tables: Seq<table::Model>) -> Seq<usize> {
    ranked_by_text(marks_of(tables, any()), texts_of(tables, table_name()))
}

/// The positions of the tables, by name.
fn rank_tables(tables: &Vec<table::Model>) -> (at: Vec<usize>)
    ensures
        at@ == tables_by_name(tables@),
        within(at@, tables.len() as int),
{
    let mut marks: Vec<bool> = Vec::new();
    let mut texts: Vec<String> = Vec::new();
    let mut i: usize = 0;
    while i < tables.len()
        invariant
            i <= tables.len(),
            marks.len() == i,
            texts.len() == i,
            forall|k: int| 0 <= k < i ==> #[trigger] marks[k] == any()(tables@[k]),
            forall|k: int| 0 <= k < i ==> #[trigger] texts[k] == table_name()(tables@[k]),
        decreases tables.len() - i,
    {
        let record = &tables[i];
        marks.push(true);
        texts.push(record.name.clone());
        i += 1;
    }
    proof {
        assert(marks@ =~= marks_of(tables@, any()));
        assert(texts@ =~= texts_of(tables@, table_name()));
    }
    select_by_text(&marks, &texts)
}

/// Every table, by name.
pub fn get_all_tables(db: &Database) -> (out: Result<Vec<TableResponse>, AppError>)
    ensures
        out matches Ok(list) && list@ == rows_at(db@.tables, tables_by_name(db@.tables)),
{
    let at = rank_tables(&db.tables);
    Ok(show_all(&db.tables, &at))
}

/// A table and whether it is taken.
#[derive(Debug, PartialEq, Eq)]
pub struct TableStatusResponse {
    pub id: String,
    pub name: String,
    pub has_open_order: bool,
    pub is_locked: bool,
}

/// A table with the state of its open tab, if it has one.
pub open spec fn table_status(orders: Seq<order::Model>) -> spec_fn(table::Model) -> TableStatusResponse {
    |t: table::Model|
        TableStatusResponse {
            id: t.id,
            name: t.name,
            has_open_order: occupied(orders, t.id@),
            is_locked: occupied(orders, t.id@) && open_order(orders, t.id@).is_locked,
        }
}

/// Every table, by name, with whether it has an open tab and whether that
/// tab is locked.
pub fn get_table_status(db: &Database) -> (out: Result<Vec<TableStatusResponse>, AppError>)
    ensures
        out matches Ok(list) && list@ == shown_by(
            db@.tables,
            tables_by_name(db@.tables),
            table_status(db@.orders),
        ),
{
    let at = rank_tables(&db.tables);
    let mut list: Vec<TableStatusResponse> = Vec::new();
    let mut j: usize = 0;
    while j < at.len()
        invariant
            j <= at.len(),
            within(at@, db.tables.len() as int),
            list.len() == j,
            forall|k: int|
                0 <= k < j ==> #[trigger] list[k] == table_status(db@.orders)(
                    db@.tables[at[k] as int],
                ),
        decreases at.len() - j,
    {
        let t = &db.tables[at[j]];
        let open = open_position(&db.orders, &t.id);
        let is_locked = match open {
            Some(o) => db.orders[o].is_locked,
            None => false,
        };
        list.push(
            TableStatusResponse {
                id: t.id.clone(),
                name: t.name.clone(),
                has_open_order: open.is_some(),
                is_locked,
            },
        );
        j += 1;
    }
    proof {
        assert(list@ =~= shown_by(db@.tables, at@, table_status(db@.orders)));
    }
    Ok(list)
}

/// Makes sure that the table `table_id` has no open tab. Fails with
/// `Conflict` exactly when it has one.
pub fn ensure_unoccupied(db: &Database, table_id: &String) -> (out: Result<(), AppError>)
    ensures
        occupied(db@.orders, table_id@) ==> refused(
            out,
            ErrorKind::Conflict,
            "Target table is occupied"@,
        ),
        !occupied(db@.orders, table_id@) ==> out is Ok,
{
    if open_position(&db.orders, table_id).is_some() {
        Err(AppError::conflict("Target table is occupied"))
    } else {
        Ok(())
    }
}

} // verus!
